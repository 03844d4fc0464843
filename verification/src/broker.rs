//! Document projections for the simple broker commands, and the
//! envelopes of the foreign-function entry point.

use vstd::prelude::*;

use crate::errors::BrokerError;
use crate::json::{rep_get, JsonRep, JsonValue};
use crate::matrix::rep_path_str;
use crate::render::OutputType;

verus! {

/// The pact list of a latest-pact-versions response.
pub open spec fn spec_pact_items(doc: JsonRep) -> Option<Seq<JsonRep>> {
    match rep_get(doc, "pacts"@) {
        Some(JsonRep::Arr(items)) => Some(items),
        _ => None,
    }
}

/// The four presentation cells of one pact item: consumer name,
/// consumer version, provider name, creation time; `unknown` where a
/// path is missing.
pub open spec fn spec_pact_cells(item: JsonRep) -> Seq<Seq<char>> {
    seq![
        spec_cell(rep_path_str(item, seq!["_embedded"@, "consumer"@, "name"@])),
        spec_cell(
            rep_path_str(
                item,
                seq!["_embedded"@, "consumer"@, "_embedded"@, "version"@, "number"@],
            ),
        ),
        spec_cell(rep_path_str(item, seq!["_embedded"@, "provider"@, "name"@])),
        spec_cell(rep_path_str(item, seq!["createdAt"@])),
    ]
}

pub open spec fn spec_cell(v: Option<Seq<char>>) -> Seq<char> {
    match v {
        Some(s) => s,
        None => "unknown"@,
    }
}

fn path_cell(item: &JsonValue, path: &Vec<String>) -> (r: String)
    ensures
        r@ == spec_cell(rep_path_str(item@, path@.map_values(|s: String| s@))),
{
    match crate::json::get_path(item, path) {
        Some(v) => match v.as_str() {
            Some(s) => s.clone(),
            None => "unknown".to_owned(),
        },
        None => "unknown".to_owned(),
    }
}

fn pact_cells(item: &JsonValue) -> (cells: Vec<String>)
    ensures
        cells@.map_values(|c: String| c@) == spec_pact_cells(item@),
{
    let mut p1: Vec<String> = Vec::new();
    p1.push("_embedded".to_owned());
    p1.push("consumer".to_owned());
    p1.push("name".to_owned());
    let mut p2: Vec<String> = Vec::new();
    p2.push("_embedded".to_owned());
    p2.push("consumer".to_owned());
    p2.push("_embedded".to_owned());
    p2.push("version".to_owned());
    p2.push("number".to_owned());
    let mut p3: Vec<String> = Vec::new();
    p3.push("_embedded".to_owned());
    p3.push("provider".to_owned());
    p3.push("name".to_owned());
    let mut p4: Vec<String> = Vec::new();
    p4.push("createdAt".to_owned());
    proof {
        assert(p1@.map_values(|s: String| s@) =~= seq!["_embedded"@, "consumer"@, "name"@]);
        assert(p2@.map_values(|s: String| s@) =~= seq![
            "_embedded"@,
            "consumer"@,
            "_embedded"@,
            "version"@,
            "number"@,
        ]);
        assert(p3@.map_values(|s: String| s@) =~= seq!["_embedded"@, "provider"@, "name"@]);
        assert(p4@.map_values(|s: String| s@) =~= seq!["createdAt"@]);
    }
    let mut cells: Vec<String> = Vec::new();
    cells.push(path_cell(item, &p1));
    cells.push(path_cell(item, &p2));
    cells.push(path_cell(item, &p3));
    cells.push(path_cell(item, &p4));
    proof {
        assert(cells@.map_values(|c: String| c@) =~= spec_pact_cells(item@));
    }
    cells
}

/// The table body for a latest-pact-versions response: one line of
/// four cells per pact, in the server's order. A response without a
/// pact list is a `ContentError`.
pub fn latest_pact_rows(doc: &JsonValue) -> (r: Result<Vec<Vec<String>>, BrokerError>)
    ensures
        match r {
            Ok(body) => spec_pact_items(doc@) matches Some(items) && body@.len() == items.len()
                && forall|i: int|
                0 <= i < items.len() ==> (#[trigger] body@[i])@.map_values(|c: String| c@)
                    == spec_pact_cells(items[i]),
            Err(e) => spec_pact_items(doc@) is None && (e matches BrokerError::ContentError(m)
                && m@ == "no pacts found in the response"@),
        },
{
    let items = match doc.get("pacts") {
        Some(m) => match m.as_array() {
            Some(items) => items,
            None => {
                return Err(BrokerError::ContentError("no pacts found in the response".to_owned()));
            },
        },
        None => {
            return Err(BrokerError::ContentError("no pacts found in the response".to_owned()));
        },
    };
    let ghost irep = crate::json::view_json_seq(items@);
    proof {
        crate::json::lemma_view_json_seq(items@);
    }
    let mut body: Vec<Vec<String>> = Vec::new();
    let mut i: usize = 0;
    while i < items.len()
        invariant
            irep == crate::json::view_json_seq(items@),
            irep.len() == items@.len(),
            forall|j: int| 0 <= j < irep.len() ==> irep[j] == crate::json::view_json(items@[j]),
            i <= irep.len(),
            body@.len() == i,
            forall|j: int|
                0 <= j < i ==> (#[trigger] body@[j])@.map_values(|c: String| c@)
                    == spec_pact_cells(irep[j]),
        decreases irep.len() - i,
    {
        body.push(pact_cells(&items[i]));
        i = i + 1;
    }
    Ok(body)
}

/// The fixed header of the latest-pact-versions table.
pub open spec fn spec_pact_header() -> Seq<Seq<char>> {
    seq!["CONSUMER"@, "CONSUMER_VERSION"@, "PROVIDER"@, "CREATED_AT"@]
}

/// Renders a latest-pact-versions response in the requested format.
/// The table mode lays out the four fixed columns over the pact items;
/// every other mode is the document's own JSON text.
pub fn render_pact_versions(doc: &JsonValue, output: OutputType) -> (r: Result<
    String,
    BrokerError,
>)
    ensures
        match r {
            Ok(text) => match output {
                OutputType::Table => spec_pact_items(doc@) matches Some(items) && text@
                    == crate::render::table_text(
                    spec_pact_header(),
                    items.map_values(|it: JsonRep| spec_pact_cells(it)),
                ),
                _ => text@ == crate::json::spec_print(doc@),
            },
            Err(e) => output == OutputType::Table && spec_pact_items(doc@) is None && (e matches
                BrokerError::ContentError(m) && m@ == "no pacts found in the response"@),
        },
{
    match output {
        OutputType::Table => {
            let ghost items = match spec_pact_items(doc@) {
                Some(items) => items,
                None => Seq::empty(),
            };
            let body = match latest_pact_rows(doc) {
                Ok(body) => body,
                Err(e) => {
                    return Err(e);
                },
            };
            let mut header: Vec<String> = Vec::new();
            header.push("CONSUMER".to_owned());
            header.push("CONSUMER_VERSION".to_owned());
            header.push("PROVIDER".to_owned());
            header.push("CREATED_AT".to_owned());
            proof {
                assert(header.deep_view() =~~= spec_pact_header());
                assert(body.deep_view() =~~= items.map_values(|it: JsonRep| spec_pact_cells(it)));
            }
            Ok(crate::render::render_cells(&header, &body))
        },
        _ => Ok(crate::json::print_json(doc)),
    }
}

/// The broker-reported validation messages of an error body, when the
/// body carries an `errors` list: its string elements, in order.
pub open spec fn spec_validation_messages(doc: JsonRep) -> Option<Seq<Seq<char>>> {
    match rep_get(doc, "errors"@) {
        Some(JsonRep::Arr(items)) => Some(
            items.map_values(
                |it: JsonRep|
                    match it {
                        JsonRep::Str(s) => s,
                        _ => Seq::<char>::empty(),
                    },
            ),
        ),
        _ => None,
    }
}

/// Reads broker-reported validation failures out of an error body:
/// every string element of its `errors` list, in order, non-strings as
/// empty lines; `None` when the body has no `errors` list at all.
pub fn validation_messages_from_json(doc: &JsonValue) -> (r: Option<Vec<String>>)
    ensures
        match r {
            Some(ms) => spec_validation_messages(doc@) == Some(
                ms@.map_values(|m: String| m@),
            ),
            None => spec_validation_messages(doc@) is None,
        },
{
    let items = match doc.get("errors") {
        Some(m) => match m.as_array() {
            Some(items) => items,
            None => {
                return None;
            },
        },
        None => {
            return None;
        },
    };
    let ghost irep = crate::json::view_json_seq(items@);
    proof {
        crate::json::lemma_view_json_seq(items@);
    }
    let mut ms: Vec<String> = Vec::new();
    let mut i: usize = 0;
    while i < items.len()
        invariant
            irep == crate::json::view_json_seq(items@),
            irep.len() == items@.len(),
            forall|j: int| 0 <= j < irep.len() ==> irep[j] == crate::json::view_json(items@[j]),
            i <= irep.len(),
            ms@.len() == i,
            forall|j: int|
                0 <= j < i ==> (#[trigger] ms@[j])@ == (match irep[j] {
                    JsonRep::Str(s) => s,
                    _ => Seq::<char>::empty(),
                }),
        decreases irep.len() - i,
    {
        let line: String = match items[i].as_str() {
            Some(s) => s.clone(),
            None => String::new(),
        };
        ms.push(line);
        i = i + 1;
    }
    proof {
        assert(ms@.map_values(|m: String| m@) =~= irep.map_values(
            |it: JsonRep|
                match it {
                    JsonRep::Str(s) => s,
                    _ => Seq::<char>::empty(),
                },
        ));
    }
    Some(ms)
}

/// The request read from the foreign entry point's argument document:
/// the broker's base URL is required, the output type defaults to
/// JSON, verbosity to off.
#[derive(Debug)]
pub struct FfiRequest {
    pub broker_base_url: String,
    pub output: OutputType,
    pub verbose: bool,
}

/// How an output-type name is read: the three named formats, JSON for
/// anything else.
pub open spec fn spec_output_type(v: Option<Seq<char>>) -> OutputType {
    match v {
        Some(s) => if s == "table"@ {
            OutputType::Table
        } else if s == "text"@ {
            OutputType::Text
        } else if s == "pretty"@ {
            OutputType::Pretty
        } else {
            OutputType::Json
        },
        None => OutputType::Json,
    }
}

/// Reads the foreign entry point's argument document. Fails exactly
/// when `broker_base_url` is missing or not a string, with the error
/// envelope that the foreign caller receives verbatim.
pub fn ffi_parse_args(args: &JsonValue) -> (r: Result<FfiRequest, JsonValue>)
    ensures
        match r {
            Ok(req) => {
                &&& crate::hal::rep_str_member(args@, "broker_base_url"@) == Some(
                    req.broker_base_url@,
                )
                &&& req.output == spec_output_type(
                    crate::hal::rep_str_member(args@, "output_type"@),
                )
                &&& req.verbose == (crate::hal::rep_bool_member(args@, "verbose"@) == Some(true))
            },
            Err(env) => {
                &&& crate::hal::rep_str_member(args@, "broker_base_url"@) is None
                &&& env@ == spec_ffi_error_envelope(
                    "missing_broker_url"@,
                    "Missing 'broker_base_url' in args"@,
                )
            },
        },
{
    let broker_base_url = match args.get("broker_base_url") {
        Some(m) => match m.as_str() {
            Some(s) => s.clone(),
            None => {
                return Err(
                    ffi_error_envelope("missing_broker_url", "Missing 'broker_base_url' in args"),
                );
            },
        },
        None => {
            return Err(
                ffi_error_envelope("missing_broker_url", "Missing 'broker_base_url' in args"),
            );
        },
    };
    let output = match args.get("output_type") {
        Some(m) => match m.as_str() {
            Some(s) => {
                if crate::strutil::str_eq(s.as_str(), "table") {
                    OutputType::Table
                } else if crate::strutil::str_eq(s.as_str(), "text") {
                    OutputType::Text
                } else if crate::strutil::str_eq(s.as_str(), "pretty") {
                    OutputType::Pretty
                } else {
                    OutputType::Json
                }
            },
            None => OutputType::Json,
        },
        None => OutputType::Json,
    };
    let verbose = match args.get("verbose") {
        Some(m) => match m.as_bool() {
            Some(b) => b,
            None => false,
        },
        None => false,
    };
    Ok(FfiRequest { broker_base_url, output, verbose })
}

/// The error envelope of the foreign entry point: `{code: 1, reason,
/// message}`, in that member order.
pub open spec fn spec_ffi_error_envelope(reason: Seq<char>, message: Seq<char>) -> JsonRep {
    JsonRep::Obj(
        seq![
            ("code"@, JsonRep::Num("1"@)),
            ("reason"@, JsonRep::Str(reason)),
            ("message"@, JsonRep::Str(message)),
        ],
    )
}

/// The success envelope of the foreign entry point: `{code: 0,
/// message: "success", result}`, in that member order.
pub open spec fn spec_ffi_success_envelope(result: Seq<char>) -> JsonRep {
    JsonRep::Obj(
        seq![
            ("code"@, JsonRep::Num("0"@)),
            ("message"@, JsonRep::Str("success"@)),
            ("result"@, JsonRep::Str(result)),
        ],
    )
}

pub fn ffi_error_envelope(reason: &str, message: &str) -> (env: JsonValue)
    ensures
        env@ == spec_ffi_error_envelope(reason@, message@),
{
    let mut fields: Vec<(String, JsonValue)> = Vec::new();
    fields.push(("code".to_owned(), JsonValue::Num("1".to_owned())));
    fields.push(("reason".to_owned(), JsonValue::Str(reason.to_owned())));
    fields.push(("message".to_owned(), JsonValue::Str(message.to_owned())));
    proof {
        crate::json::lemma_view_json_members(fields@);
        assert(crate::json::view_json_members(fields@) =~= seq![
            ("code"@, JsonRep::Num("1"@)),
            ("reason"@, JsonRep::Str(reason@)),
            ("message"@, JsonRep::Str(message@)),
        ]);
    }
    JsonValue::Obj(fields)
}

pub fn ffi_success_envelope(result: &str) -> (env: JsonValue)
    ensures
        env@ == spec_ffi_success_envelope(result@),
{
    let mut fields: Vec<(String, JsonValue)> = Vec::new();
    fields.push(("code".to_owned(), JsonValue::Num("0".to_owned())));
    fields.push(("message".to_owned(), JsonValue::Str("success".to_owned())));
    fields.push(("result".to_owned(), JsonValue::Str(result.to_owned())));
    proof {
        crate::json::lemma_view_json_members(fields@);
        assert(crate::json::view_json_members(fields@) =~= seq![
            ("code"@, JsonRep::Num("0"@)),
            ("message"@, JsonRep::Str("success"@)),
            ("result"@, JsonRep::Str(result@)),
        ]);
    }
    JsonValue::Obj(fields)
}

} // verus!
