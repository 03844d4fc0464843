//! Reading a matrix response document into the typed models.
//!
//! The wire shape is `{summary: {deployable, reason, success, failed,
//! unknown}, notices: [{type, text}], matrix: [{consumer, provider,
//! pact, verificationResult}]}`. The summary and the matrix are
//! required; a body without them, or with malformed counts or rows,
//! fails with a `ContentError`. Optional detail (versions, timestamps,
//! verification outcomes) is read when present and well-typed.

use vstd::prelude::*;

use crate::errors::BrokerError;
use crate::evaluate::{MatrixRow, Notice, Summary, VerificationResult};
use crate::hal::{rep_bool_member, rep_str_member};
use crate::json::{rep_get, rep_get_path, JsonRep, JsonValue};
use crate::strutil::{dec_val, is_dec_digits, opt_view};

verus! {

/// The string at the end of a key path, `None` when the path breaks or
/// ends on a non-string.
pub open spec fn rep_path_str(v: JsonRep, path: Seq<Seq<char>>) -> Option<Seq<char>> {
    match rep_get_path(v, path) {
        Some(JsonRep::Str(s)) => Some(s),
        _ => None,
    }
}

/// The tri-state `deployable` member: absent and `null` both mean
/// unknown; anything but a boolean otherwise is malformed.
pub open spec fn spec_deployable_of(s: JsonRep) -> Option<Option<bool>> {
    match rep_get(s, "deployable"@) {
        None => Some(None),
        Some(JsonRep::Null) => Some(None),
        Some(JsonRep::Bool(b)) => Some(Some(b)),
        Some(_) => None,
    }
}

/// The `reason` member, empty when absent or not a string.
pub open spec fn spec_reason_of(s: JsonRep) -> Seq<char> {
    match rep_str_member(s, "reason"@) {
        Some(r) => r,
        None => Seq::empty(),
    }
}

/// A count member: absent means zero; present, it must be a plain
/// decimal number that fits the count's range.
pub open spec fn spec_count_of(s: JsonRep, key: Seq<char>) -> Option<nat> {
    match rep_get(s, key) {
        None => Some(0),
        Some(JsonRep::Num(t)) => if is_dec_digits(t) && dec_val(t) <= u32::MAX {
            Some(dec_val(t))
        } else {
            None
        },
        Some(_) => None,
    }
}

/// Whether the document carries a well-formed summary object.
pub open spec fn spec_summary_shape_ok(doc: JsonRep) -> bool {
    rep_get(doc, "summary"@) matches Some(s) && s is Obj && spec_deployable_of(s) is Some
        && spec_count_of(s, "success"@) is Some && spec_count_of(s, "failed"@) is Some
        && spec_count_of(s, "unknown"@) is Some
}

fn count_member(s: &JsonValue, key: &str) -> (r: Option<u32>)
    ensures
        match r {
            Some(n) => spec_count_of(s@, key@) == Some(n as nat),
            None => spec_count_of(s@, key@) is None,
        },
{
    match s.get(key) {
        None => Some(0),
        Some(m) => match m {
            JsonValue::Num(t) => match crate::strutil::parse_dec_u32(t.as_str()) {
                Some(n) => Some(n),
                None => None,
            },
            _ => None,
        },
    }
}

/// Reads the summary of a matrix response. Succeeds exactly on a
/// well-formed summary object; a missing or malformed one is a
/// `ContentError` naming what was wrong.
pub fn summary_from_json(doc: &JsonValue) -> (r: Result<Summary, BrokerError>)
    ensures
        match r {
            Ok(sm) => {
                &&& spec_summary_shape_ok(doc@)
                &&& rep_get(doc@, "summary"@) matches Some(s) ==> {
                    &&& Some(sm.deployable) == spec_deployable_of(s)
                    &&& sm.reason@ == spec_reason_of(s)
                    &&& Some(sm.success as nat) == spec_count_of(s, "success"@)
                    &&& Some(sm.failed as nat) == spec_count_of(s, "failed"@)
                    &&& Some(sm.unknown as nat) == spec_count_of(s, "unknown"@)
                }
            },
            Err(e) => {
                &&& !spec_summary_shape_ok(doc@)
                &&& e matches BrokerError::ContentError(m) && m@ == (if !(rep_get(
                    doc@,
                    "summary"@,
                ) matches Some(s) && s is Obj) {
                    "no summary found in the matrix response"@
                } else {
                    "invalid matrix summary"@
                })
            },
        },
{
    let s = match doc.get("summary") {
        Some(s) => s,
        None => {
            return Err(
                BrokerError::ContentError("no summary found in the matrix response".to_owned()),
            );
        },
    };
    if !matches!(s, JsonValue::Obj(_)) {
        return Err(
            BrokerError::ContentError("no summary found in the matrix response".to_owned()),
        );
    }
    let deployable: Option<bool> = match s.get("deployable") {
        None => None,
        Some(JsonValue::Null) => None,
        Some(JsonValue::Bool(b)) => Some(*b),
        Some(_) => {
            return Err(BrokerError::ContentError("invalid matrix summary".to_owned()));
        },
    };
    let reason: String = match s.get("reason") {
        Some(m) => match m.as_str() {
            Some(t) => t.clone(),
            None => String::new(),
        },
        None => String::new(),
    };
    let success = match count_member(s, "success") {
        Some(n) => n,
        None => {
            return Err(BrokerError::ContentError("invalid matrix summary".to_owned()));
        },
    };
    let failed = match count_member(s, "failed") {
        Some(n) => n,
        None => {
            return Err(BrokerError::ContentError("invalid matrix summary".to_owned()));
        },
    };
    let unknown = match count_member(s, "unknown") {
        Some(n) => n,
        None => {
            return Err(BrokerError::ContentError("invalid matrix summary".to_owned()));
        },
    };
    Ok(Summary { deployable, reason, success, failed, unknown })
}

/// The matrix rows of the document, when `matrix` is present and a list.
pub open spec fn spec_matrix_items(doc: JsonRep) -> Option<Seq<JsonRep>> {
    match rep_get(doc, "matrix"@) {
        Some(JsonRep::Arr(items)) => Some(items),
        _ => None,
    }
}

/// A side's pacticipant name: the `name` member of `consumer` or
/// `provider`.
pub open spec fn spec_item_name(item: JsonRep, side: Seq<char>) -> Option<Seq<char>> {
    match rep_get(item, side) {
        Some(c) => rep_str_member(c, "name"@),
        None => None,
    }
}

/// A side's version number: `<side>.version.number` when present.
pub open spec fn spec_item_version(item: JsonRep, side: Seq<char>) -> Option<Seq<char>> {
    rep_path_str(item, seq![side, "version"@, "number"@])
}

/// The verification outcome of a row: present exactly when
/// `verificationResult` is an object; its `success` and `verifiedAt`
/// members are read when well-typed.
pub open spec fn spec_item_verification(item: JsonRep) -> Option<
    (Option<bool>, Option<Seq<char>>),
> {
    match rep_get(item, "verificationResult"@) {
        Some(o) => if o is Obj {
            Some((rep_bool_member(o, "success"@), rep_str_member(o, "verifiedAt"@)))
        } else {
            None
        },
        None => None,
    }
}

/// A row item is readable when both pacticipant names are there.
pub open spec fn spec_item_valid(item: JsonRep) -> bool {
    spec_item_name(item, "consumer"@) is Some && spec_item_name(item, "provider"@) is Some
}

/// Every item of a matrix list is readable.
pub open spec fn spec_all_items_valid(items: Seq<JsonRep>) -> bool {
    forall|i: int| 0 <= i < items.len() ==> spec_item_valid(#[trigger] items[i])
}

/// The verification fields of a typed row, for comparison with
/// [`spec_item_verification`].
pub open spec fn spec_vr_view(v: Option<VerificationResult>) -> Option<
    (Option<bool>, Option<Seq<char>>),
> {
    match v {
        Some(x) => Some((x.success, opt_view(x.verified_at))),
        None => None,
    }
}

/// How one typed row reads one matrix item.
pub open spec fn spec_row_ok(r: MatrixRow, item: JsonRep) -> bool {
    &&& Some(r.consumer_name@) == spec_item_name(item, "consumer"@)
    &&& opt_view(r.consumer_version) == spec_item_version(item, "consumer"@)
    &&& Some(r.provider_name@) == spec_item_name(item, "provider"@)
    &&& opt_view(r.provider_version) == spec_item_version(item, "provider"@)
    &&& opt_view(r.pact_created_at) == rep_path_str(item, seq!["pact"@, "createdAt"@])
    &&& spec_vr_view(r.verification) == spec_item_verification(item)
}

fn side_name(item: &JsonValue, side: &str) -> (r: Option<String>)
    ensures
        match r {
            Some(n) => spec_item_name(item@, side@) == Some(n@),
            None => spec_item_name(item@, side@) is None,
        },
{
    match item.get(side) {
        Some(c) => match c.get("name") {
            Some(m) => match m.as_str() {
                Some(s) => Some(s.clone()),
                None => None,
            },
            None => None,
        },
        None => None,
    }
}

fn path2_str(item: &JsonValue, k1: &str, k2: &str, k3: Option<&str>) -> (r: Option<String>)
    ensures
        match r {
            Some(s) => rep_path_str(
                item@,
                match k3 {
                    Some(k) => seq![k1@, k2@, k@],
                    None => seq![k1@, k2@],
                },
            ) == Some(s@),
            None => rep_path_str(
                item@,
                match k3 {
                    Some(k) => seq![k1@, k2@, k@],
                    None => seq![k1@, k2@],
                },
            ) is None,
        },
{
    let mut pathv: Vec<String> = Vec::new();
    pathv.push(k1.to_owned());
    pathv.push(k2.to_owned());
    match k3 {
        Some(k) => {
            pathv.push(k.to_owned());
        },
        None => {},
    }
    proof {
        assert(pathv@.map_values(|s: String| s@) =~= (match k3 {
            Some(k) => seq![k1@, k2@, k@],
            None => seq![k1@, k2@],
        }));
    }
    match crate::json::get_path(item, &pathv) {
        Some(v) => match v.as_str() {
            Some(s) => Some(s.clone()),
            None => None,
        },
        None => None,
    }
}

fn row_from_item(item: &JsonValue) -> (r: Option<MatrixRow>)
    ensures
        match r {
            Some(row) => spec_item_valid(item@) && spec_row_ok(row, item@),
            None => !spec_item_valid(item@),
        },
{
    let consumer_name = match side_name(item, "consumer") {
        Some(n) => n,
        None => {
            return None;
        },
    };
    let provider_name = match side_name(item, "provider") {
        Some(n) => n,
        None => {
            return None;
        },
    };
    let consumer_version = path2_str(item, "consumer", "version", Some("number"));
    let provider_version = path2_str(item, "provider", "version", Some("number"));
    let pact_created_at = path2_str(item, "pact", "createdAt", None);
    let verification: Option<VerificationResult> = match item.get("verificationResult") {
        Some(o) => {
            if matches!(o, JsonValue::Obj(_)) {
                let success = match o.get("success") {
                    Some(m) => m.as_bool(),
                    None => None,
                };
                let verified_at = match o.get("verifiedAt") {
                    Some(m) => match m.as_str() {
                        Some(s) => Some(s.clone()),
                        None => None,
                    },
                    None => None,
                };
                Some(VerificationResult { success, verified_at })
            } else {
                None
            }
        },
        None => None,
    };
    Some(
        MatrixRow {
            consumer_name,
            consumer_version,
            provider_name,
            provider_version,
            pact_created_at,
            verification,
        },
    )
}

/// Reads the matrix rows of a response. Succeeds exactly when `matrix`
/// is a list whose every item carries both pacticipant names; otherwise
/// a `ContentError` says what was wrong.
pub fn rows_from_json(doc: &JsonValue) -> (r: Result<Vec<MatrixRow>, BrokerError>)
    ensures
        match r {
            Ok(rows) => spec_matrix_items(doc@) matches Some(items) && rows@.len() == items.len()
                && (forall|i: int| 0 <= i < items.len() ==> spec_row_ok(#[trigger] rows@[i], items[i])),
            Err(e) => {
                &&& match spec_matrix_items(doc@) {
                    Some(items) => !spec_all_items_valid(items),
                    None => true,
                }
                &&& e matches BrokerError::ContentError(m) && m@ == (if spec_matrix_items(doc@)
                    is None {
                    "no matrix found in the matrix response"@
                } else {
                    "invalid matrix row"@
                })
            },
        },
{
    let items = match doc.get("matrix") {
        Some(m) => match m.as_array() {
            Some(items) => items,
            None => {
                return Err(
                    BrokerError::ContentError("no matrix found in the matrix response".to_owned()),
                );
            },
        },
        None => {
            return Err(
                BrokerError::ContentError("no matrix found in the matrix response".to_owned()),
            );
        },
    };
    let ghost irep = crate::json::view_json_seq(items@);
    proof {
        crate::json::lemma_view_json_seq(items@);
    }
    let mut rows: Vec<MatrixRow> = Vec::new();
    let mut i: usize = 0;
    while i < items.len()
        invariant
            irep == crate::json::view_json_seq(items@),
            irep.len() == items@.len(),
            forall|j: int| 0 <= j < irep.len() ==> irep[j] == crate::json::view_json(items@[j]),
            spec_matrix_items(doc@) == Some(irep),
            i <= irep.len(),
            rows@.len() == i,
            forall|j: int| 0 <= j < i ==> spec_row_ok(#[trigger] rows@[j], irep[j]),
        decreases irep.len() - i,
    {
        match row_from_item(&items[i]) {
            Some(row) => {
                rows.push(row);
            },
            None => {
                proof {
                    assert(!spec_item_valid(irep[i as int]));
                    assert(!spec_all_items_valid(irep));
                }
                return Err(BrokerError::ContentError("invalid matrix row".to_owned()));
            },
        }
        i = i + 1;
    }
    Ok(rows)
}

/// How one typed notice reads one notice item: its `type` and `text`
/// string members, each empty when absent or not a string.
pub open spec fn spec_notice_ok(n: Notice, item: JsonRep) -> bool {
    &&& n.notice_type@ == (match rep_str_member(item, "type"@) {
        Some(t) => t,
        None => Seq::<char>::empty(),
    })
    &&& n.text@ == (match rep_str_member(item, "text"@) {
        Some(t) => t,
        None => Seq::<char>::empty(),
    })
}

/// Reads the notices of a response, preserving the server's order. A
/// missing `notices` member means no notices; one that is not a list is
/// a `ContentError`.
pub fn notices_from_json(doc: &JsonValue) -> (r: Result<Vec<Notice>, BrokerError>)
    ensures
        match r {
            Ok(ns) => match rep_get(doc@, "notices"@) {
                None => ns@.len() == 0,
                Some(v) => v matches JsonRep::Arr(items) && ns@.len() == items.len() && forall|
                    i: int,
                |
                    0 <= i < items.len() ==> spec_notice_ok(#[trigger] ns@[i], items[i]),
            },
            Err(e) => {
                &&& rep_get(doc@, "notices"@) matches Some(v) && !(v is Arr)
                &&& e matches BrokerError::ContentError(m) && m@ == "invalid notices"@
            },
        },
{
    let arr = match doc.get("notices") {
        Some(m) => m,
        None => {
            return Ok(Vec::new());
        },
    };
    let items = match arr.as_array() {
        Some(items) => items,
        None => {
            return Err(BrokerError::ContentError("invalid notices".to_owned()));
        },
    };
    let ghost irep = crate::json::view_json_seq(items@);
    proof {
        crate::json::lemma_view_json_seq(items@);
    }
    let mut ns: Vec<Notice> = Vec::new();
    let mut i: usize = 0;
    while i < items.len()
        invariant
            irep == crate::json::view_json_seq(items@),
            irep.len() == items@.len(),
            forall|j: int| 0 <= j < irep.len() ==> irep[j] == crate::json::view_json(items@[j]),
            i <= irep.len(),
            ns@.len() == i,
            forall|j: int| 0 <= j < i ==> spec_notice_ok(#[trigger] ns@[j], irep[j]),
        decreases irep.len() - i,
    {
        let item = &items[i];
        let notice_type: String = match item.get("type") {
            Some(m) => match m.as_str() {
                Some(s) => s.clone(),
                None => String::new(),
            },
            None => String::new(),
        };
        let text: String = match item.get("text") {
            Some(m) => match m.as_str() {
                Some(s) => s.clone(),
                None => String::new(),
            },
            None => String::new(),
        };
        ns.push(Notice { notice_type, text });
        i = i + 1;
    }
    Ok(ns)
}

} // verus!
