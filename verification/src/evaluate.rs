//! Deployability evaluation: from a matrix summary, its rows and the
//! ignore list to the decision that drives the process exit code.

use vstd::prelude::*;

use crate::strutil::{opt_str_eq, opt_view, str_eq};

verus! {

/// The broker's aggregate verdict over one matrix query. `deployable` is
/// tri-state: `None` means verification has not completed yet.
#[derive(Clone, Debug)]
pub struct Summary {
    pub deployable: Option<bool>,
    pub reason: String,
    pub success: u32,
    pub failed: u32,
    pub unknown: u32,
}

/// An explanatory message from the broker, classified by its type field.
#[derive(Clone, Debug)]
pub struct Notice {
    pub notice_type: String,
    pub text: String,
}

/// The verification outcome attached to one matrix row, when present.
#[derive(Clone, Debug)]
pub struct VerificationResult {
    pub success: Option<bool>,
    pub verified_at: Option<String>,
}

/// One consumer/provider version pair of the compatibility matrix.
/// Every poll produces a fresh snapshot; rows are never mutated.
#[derive(Clone, Debug)]
pub struct MatrixRow {
    pub consumer_name: String,
    pub consumer_version: Option<String>,
    pub provider_name: String,
    pub provider_version: Option<String>,
    pub pact_created_at: Option<String>,
    pub verification: Option<VerificationResult>,
}

/// Excludes matching rows from the failure tally, never from the output.
#[derive(Clone, Debug)]
pub struct IgnoreEntry {
    pub pacticipant: String,
    pub version: Option<String>,
}

/// The decision of one invocation, consumed by the renderer and then
/// by the process exit. `summary` keeps the true computed result even
/// when a dry run forces a pass.
#[derive(Debug)]
pub struct GateDecision {
    pub passed: bool,
    pub exit_code: u8,
    pub summary: Summary,
    pub rows: Vec<MatrixRow>,
    pub notices: Vec<Notice>,
}

/// A row counts against deployment only when its verification ran and
/// reported failure.
pub open spec fn spec_row_failed(r: MatrixRow) -> bool {
    match r.verification {
        Some(v) => v.success == Some(false),
        None => false,
    }
}

/// An ignore entry matches a row when its pacticipant is either side of
/// the row and, if the entry pins a version, that side's version equals it.
pub open spec fn spec_ignore_matches(e: IgnoreEntry, r: MatrixRow) -> bool {
    ||| (e.pacticipant@ == r.consumer_name@ && (e.version is None || opt_view(e.version)
        == opt_view(r.consumer_version)))
    ||| (e.pacticipant@ == r.provider_name@ && (e.version is None || opt_view(e.version)
        == opt_view(r.provider_version)))
}

pub open spec fn spec_row_ignored(ignores: Seq<IgnoreEntry>, r: MatrixRow) -> bool {
    exists|i: int| 0 <= i < ignores.len() && spec_ignore_matches(ignores[i], r)
}

/// The failure tally after ignores: failing rows that no entry matches.
pub open spec fn spec_effective_failed(rows: Seq<MatrixRow>, ignores: Seq<IgnoreEntry>) -> nat
    decreases rows.len(),
{
    if rows.len() == 0 {
        0
    } else {
        (if spec_row_failed(rows[0]) && !spec_row_ignored(ignores, rows[0]) {
            1 as nat
        } else {
            0 as nat
        }) + spec_effective_failed(rows.drop_first(), ignores)
    }
}

/// What `deployable` becomes once ignored failures are discounted: a flat
/// "no" turns into "yes" when every failure is ignored and nothing is
/// still unknown, stays unknown when unverified pairs remain, and every
/// other verdict is untouched.
pub open spec fn spec_adjusted_deployable(
    deployable: Option<bool>,
    unknown: u32,
    effective_failed: nat,
) -> Option<bool> {
    if deployable == Some(false) && effective_failed == 0 {
        if unknown > 0 {
            None
        } else {
            Some(true)
        }
    } else {
        deployable
    }
}

/// Whether the check passes: a dry run always does; otherwise only a
/// known-deployable summary does.
pub open spec fn spec_passed(deployable: Option<bool>, dry_run: bool) -> bool {
    dry_run || deployable == Some(true)
}

/// The process exit code that belongs to a verdict.
pub open spec fn spec_exit_code(deployable: Option<bool>, dry_run: bool) -> int {
    if spec_passed(deployable, dry_run) {
        0
    } else {
        1
    }
}

pub fn row_failed(r: &MatrixRow) -> (b: bool)
    ensures
        b == spec_row_failed(*r),
{
    match &r.verification {
        Some(v) => match v.success {
            Some(s) => !s,
            None => false,
        },
        None => false,
    }
}

pub fn ignore_matches(e: &IgnoreEntry, r: &MatrixRow) -> (b: bool)
    ensures
        b == spec_ignore_matches(*e, *r),
{
    let consumer_side = str_eq(e.pacticipant.as_str(), r.consumer_name.as_str()) && (match &e
        .version {
        None => true,
        Some(_) => opt_str_eq(&e.version, &r.consumer_version),
    });
    let provider_side = str_eq(e.pacticipant.as_str(), r.provider_name.as_str()) && (match &e
        .version {
        None => true,
        Some(_) => opt_str_eq(&e.version, &r.provider_version),
    });
    consumer_side || provider_side
}

pub fn row_ignored(ignores: &Vec<IgnoreEntry>, r: &MatrixRow) -> (b: bool)
    ensures
        b == spec_row_ignored(ignores@, *r),
{
    let mut i: usize = 0;
    while i < ignores.len()
        invariant
            i <= ignores@.len(),
            forall|j: int| 0 <= j < i ==> !spec_ignore_matches(ignores@[j], *r),
        decreases ignores@.len() - i,
    {
        if ignore_matches(&ignores[i], r) {
            return true;
        }
        i = i + 1;
    }
    false
}

/// Counts the failing rows that survive the ignore list.
pub fn count_effective_failures(rows: &Vec<MatrixRow>, ignores: &Vec<IgnoreEntry>) -> (n: usize)
    ensures
        n == spec_effective_failed(rows@, ignores@),
{
    let mut n: usize = 0;
    let mut i: usize = 0;
    proof {
        assert(rows@.skip(0) =~= rows@);
    }
    while i < rows.len()
        invariant
            i <= rows@.len(),
            n <= i,
            spec_effective_failed(rows@, ignores@) == n + spec_effective_failed(
                rows@.skip(i as int),
                ignores@,
            ),
        decreases rows@.len() - i,
    {
        proof {
            assert(rows@.skip(i as int)[0] == rows@[i as int]);
            assert(rows@.skip(i as int).drop_first() =~= rows@.skip(i as int + 1));
        }
        if row_failed(&rows[i]) && !row_ignored(ignores, &rows[i]) {
            n = n + 1;
        }
        i = i + 1;
    }
    n
}

/// Applies the ignore list to a summary: the failure tally is recomputed
/// from the rows and `deployable` is adjusted accordingly; everything
/// else, the reason above all, is kept. The rows themselves are never
/// filtered: ignored rows stay visible to the renderer.
pub fn apply_ignores(summary: Summary, rows: &Vec<MatrixRow>, ignores: &Vec<IgnoreEntry>) -> (s:
    Summary)
    requires
        rows@.len() <= u32::MAX,
    ensures
        s.deployable == spec_adjusted_deployable(
            summary.deployable,
            summary.unknown,
            spec_effective_failed(rows@, ignores@),
        ),
        s.failed == spec_effective_failed(rows@, ignores@),
        s.reason == summary.reason,
        s.success == summary.success,
        s.unknown == summary.unknown,
{
    let effective = count_effective_failures(rows, ignores);
    proof {
        lemma_effective_failed_bounded(rows@, ignores@);
    }
    let deployable = if matches!(summary.deployable, Some(false)) && effective == 0 {
        if summary.unknown > 0 {
            None
        } else {
            Some(true)
        }
    } else {
        summary.deployable
    };
    Summary {
        deployable,
        reason: summary.reason,
        success: summary.success,
        failed: effective as u32,
        unknown: summary.unknown,
    }
}

proof fn lemma_effective_failed_bounded(rows: Seq<MatrixRow>, ignores: Seq<IgnoreEntry>)
    ensures
        spec_effective_failed(rows, ignores) <= rows.len(),
    decreases rows.len(),
{
    if rows.len() > 0 {
        lemma_effective_failed_bounded(rows.drop_first(), ignores);
    }
}

/// Turns the (already ignore-adjusted) summary into the decision.
/// A dry run forces a pass but leaves the summary untouched, so
/// the renderer still shows the true computed result.
pub fn decide(summary: Summary, rows: Vec<MatrixRow>, notices: Vec<Notice>, dry_run: bool) -> (d:
    GateDecision)
    ensures
        d.passed == spec_passed(summary.deployable, dry_run),
        d.exit_code == spec_exit_code(summary.deployable, dry_run),
        d.summary == summary,
        d.rows == rows,
        d.notices == notices,
        dry_run ==> d.exit_code == 0,
{
    let passed = dry_run || matches!(summary.deployable, Some(true));
    GateDecision {
        passed,
        exit_code: if passed {
            0
        } else {
            1
        },
        summary,
        rows,
        notices,
    }
}

/// Resolves the three mutually exclusive dry-run flags against the
/// environment's request. At most one flag may be supplied; an explicit
/// "no" or "skip" beats the environment, an explicit "yes" or a plain
/// environment request turns the dry run on.
pub fn resolve_dry_run(
    dry_run_flag: bool,
    no_dry_run_flag: bool,
    skip_dry_run_flag: bool,
    env_requests: bool,
) -> (r: Result<bool, crate::errors::UsageError>)
    ensures
        (dry_run_flag && no_dry_run_flag) || (dry_run_flag && skip_dry_run_flag) || (
        no_dry_run_flag && skip_dry_run_flag) ==> r == Result::<
            bool,
            crate::errors::UsageError,
        >::Err(crate::errors::UsageError::ConflictingDryRunFlags),
        !((dry_run_flag && no_dry_run_flag) || (dry_run_flag && skip_dry_run_flag) || (
        no_dry_run_flag && skip_dry_run_flag)) ==> r == Result::<
            bool,
            crate::errors::UsageError,
        >::Ok(dry_run_flag || (env_requests && !no_dry_run_flag && !skip_dry_run_flag)),
{
    let conflicting = (dry_run_flag && no_dry_run_flag) || (dry_run_flag && skip_dry_run_flag) || (
    no_dry_run_flag && skip_dry_run_flag);
    if conflicting {
        Err(crate::errors::UsageError::ConflictingDryRunFlags)
    } else {
        Ok(dry_run_flag || (env_requests && !no_dry_run_flag && !skip_dry_run_flag))
    }
}

/// Law: a dry run exits zero for every possible summary, the unknown one
/// included.
pub proof fn lemma_dry_run_exits_zero(deployable: Option<bool>)
    ensures
        spec_exit_code(deployable, true) == 0,
{
}

/// Law: a known-undeployable summary without a dry run fails
/// with exit code one.
pub proof fn lemma_undeployable_exits_one()
    ensures
        spec_exit_code(Some(false), false) == 1,
        spec_exit_code(None, false) == 1,
{
}

} // verus!
