//! The whole check in one step: from a matrix response document and
//! the invocation's settings to the decision that drives the exit code.

use vstd::prelude::*;

use crate::errors::BrokerError;
use crate::evaluate::{
    spec_adjusted_deployable, spec_effective_failed, spec_exit_code, spec_passed, GateDecision,
    IgnoreEntry,
};
use crate::json::{rep_get, JsonRep, JsonValue};
use crate::matrix::{
    notices_from_json, rows_from_json, spec_all_items_valid, spec_count_of, spec_deployable_of,
    spec_matrix_items, spec_reason_of, spec_summary_shape_ok, summary_from_json,
};

verus! {

/// Whether the notices member, if present, is a list.
pub open spec fn spec_notices_shape_ok(doc: JsonRep) -> bool {
    match rep_get(doc, "notices"@) {
        None => true,
        Some(v) => v is Arr,
    }
}

/// Whether a matrix response document can be evaluated at all.
pub open spec fn spec_gate_shape_ok(doc: JsonRep) -> bool {
    &&& spec_summary_shape_ok(doc)
    &&& spec_matrix_items(doc) matches Some(items) && spec_all_items_valid(items)
    &&& spec_notices_shape_ok(doc)
}

/// Evaluates one matrix response document into its decision:
/// summary, rows and notices are read from the document, ignored
/// failures are discounted, and the dry-run override is applied last.
/// Succeeds exactly on an evaluable document whose row count fits the
/// failure tally; the decision then satisfies, piece by piece, the
/// contracts of the readers, the ignore adjustment and the verdict.
pub fn gate_from_document(doc: &JsonValue, ignores: &Vec<IgnoreEntry>, dry_run: bool) -> (r:
    Result<GateDecision, BrokerError>)
    ensures
        match r {
            Ok(d) => {
                &&& spec_gate_shape_ok(doc@)
                &&& spec_matrix_items(doc@) matches Some(items) ==> d.rows@.len() == items.len()
                    && (forall|i: int|
                    0 <= i < items.len() ==> crate::matrix::spec_row_ok(
                        #[trigger] d.rows@[i],
                        items[i],
                    ))
                &&& rep_get(doc@, "summary"@) matches Some(s) ==> {
                    &&& d.summary.reason@ == spec_reason_of(s)
                    &&& Some(d.summary.success as nat) == spec_count_of(s, "success"@)
                    &&& Some(d.summary.unknown as nat) == spec_count_of(s, "unknown"@)
                    &&& d.summary.failed == spec_effective_failed(d.rows@, ignores@)
                    &&& spec_deployable_of(s) matches Some(dep) ==> d.summary.deployable
                        == spec_adjusted_deployable(
                        dep,
                        d.summary.unknown,
                        spec_effective_failed(d.rows@, ignores@),
                    )
                }
                &&& d.passed == spec_passed(d.summary.deployable, dry_run)
                &&& d.exit_code == spec_exit_code(d.summary.deployable, dry_run)
                &&& dry_run ==> d.exit_code == 0
            },
            Err(_) => !spec_gate_shape_ok(doc@) || (spec_matrix_items(doc@) matches Some(items)
                && items.len() > u32::MAX),
        },
{
    let summary = match summary_from_json(doc) {
        Ok(s) => s,
        Err(e) => {
            return Err(e);
        },
    };
    let rows = match rows_from_json(doc) {
        Ok(rows) => rows,
        Err(e) => {
            return Err(e);
        },
    };
    let notices = match notices_from_json(doc) {
        Ok(ns) => ns,
        Err(e) => {
            return Err(e);
        },
    };
    proof {
        let items_opt = spec_matrix_items(doc@);
        if items_opt is Some {
            let items = items_opt->0;
            assert forall|i: int| 0 <= i < items.len() implies crate::matrix::spec_item_valid(
                #[trigger] items[i],
            ) by {
                assert(crate::matrix::spec_row_ok(rows@[i], items[i]));
            }
            assert(spec_all_items_valid(items));
        }
    }
    if rows.len() > (u32::MAX as usize) {
        return Err(BrokerError::ContentError("matrix too large to evaluate".to_owned()));
    }
    let adjusted = crate::evaluate::apply_ignores(summary, &rows, ignores);
    Ok(crate::evaluate::decide(adjusted, rows, notices, dry_run))
}

} // verus!
