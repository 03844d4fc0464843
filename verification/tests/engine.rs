use pact_broker_cli::errors::UsageError;
use pact_broker_cli::evaluate::{
    apply_ignores, count_effective_failures, decide, resolve_dry_run, IgnoreEntry, MatrixRow,
    Notice, Summary, VerificationResult,
};
use pact_broker_cli::retry::{poll_schedule, poll_step, PollDirective};

fn summary(deployable: Option<bool>, reason: &str, success: u32, failed: u32, unknown: u32) -> Summary {
    Summary {
        deployable,
        reason: reason.to_string(),
        success,
        failed,
        unknown,
    }
}

fn row(consumer: &str, provider: &str, success: Option<bool>) -> MatrixRow {
    MatrixRow {
        consumer_name: consumer.to_string(),
        consumer_version: Some("1.0".to_string()),
        provider_name: provider.to_string(),
        provider_version: Some("2.0".to_string()),
        pact_created_at: None,
        verification: success.map(|s| VerificationResult {
            success: Some(s),
            verified_at: None,
        }),
    }
}

#[test]
fn poll_step_resolves_on_known_value() {
    assert_eq!(poll_step(Some(true), 5, 10), PollDirective::Resolved);
    assert_eq!(poll_step(Some(false), 0, 10), PollDirective::Resolved);
}

#[test]
fn poll_step_retries_while_unknown() {
    assert_eq!(poll_step(None, 2, 7), PollDirective::RetryAfter(7));
    assert_eq!(poll_step(None, 0, 7), PollDirective::Exhausted);
}

#[test]
fn poll_resolving_on_third_attempt_fetches_thrice() {
    let outcomes = vec![None, None, Some(true), Some(true), Some(true), Some(true)];
    let report = poll_schedule(&outcomes, 5, 7);
    assert_eq!(report.fetches, 3);
    assert_eq!(report.slept_seconds, 14);
    assert_eq!(report.outcome, Some(true));
}

#[test]
fn poll_resolving_immediately_fetches_once() {
    let outcomes = vec![Some(false), None, None];
    let report = poll_schedule(&outcomes, 2, 60);
    assert_eq!(report.fetches, 1);
    assert_eq!(report.slept_seconds, 0);
    assert_eq!(report.outcome, Some(false));
}

#[test]
fn poll_exhausts_after_max_retries_plus_one_fetches() {
    let outcomes = vec![None, None, None];
    let report = poll_schedule(&outcomes, 2, 0);
    assert_eq!(report.fetches, 3);
    assert_eq!(report.slept_seconds, 0);
    assert_eq!(report.outcome, None);
}

#[test]
fn dry_run_exits_zero_for_every_summary() {
    for deployable in [Some(true), Some(false), None] {
        let d = decide(summary(deployable, "r", 0, 1, 1), Vec::new(), Vec::new(), true);
        assert!(d.passed);
        assert_eq!(d.exit_code, 0);
    }
}

#[test]
fn undeployable_without_dry_run_exits_one() {
    let d = decide(
        summary(Some(false), "verification failed", 0, 1, 0),
        vec![row("Foo", "Bar", Some(false))],
        vec![Notice {
            notice_type: "error".to_string(),
            text: "Bar has not verified Foo".to_string(),
        }],
        false,
    );
    assert!(!d.passed);
    assert_eq!(d.exit_code, 1);
    assert!(!d.summary.reason.is_empty() || !d.notices.is_empty());
}

#[test]
fn unknown_after_retries_exits_one() {
    let d = decide(summary(None, "unknown", 0, 0, 1), Vec::new(), Vec::new(), false);
    assert!(!d.passed);
    assert_eq!(d.exit_code, 1);
}

#[test]
fn deployable_summary_exits_zero() {
    let d = decide(summary(Some(true), "all good", 1, 0, 0), Vec::new(), Vec::new(), false);
    assert!(d.passed);
    assert_eq!(d.exit_code, 0);
}

#[test]
fn ignored_failure_is_discounted() {
    let rows = vec![row("Foo", "Bar", Some(false)), row("Foo", "Baz", Some(true))];
    let ignores = vec![IgnoreEntry {
        pacticipant: "Bar".to_string(),
        version: None,
    }];
    assert_eq!(count_effective_failures(&rows, &ignores), 0);
    let s = apply_ignores(summary(Some(false), "failed", 1, 1, 0), &rows, &ignores);
    assert_eq!(s.deployable, Some(true));
    assert_eq!(s.failed, 0);
}

#[test]
fn ignored_failure_with_unknowns_stays_unknown() {
    let rows = vec![row("Foo", "Bar", Some(false))];
    let ignores = vec![IgnoreEntry {
        pacticipant: "Bar".to_string(),
        version: None,
    }];
    let s = apply_ignores(summary(Some(false), "failed", 0, 1, 2), &rows, &ignores);
    assert_eq!(s.deployable, None);
}

#[test]
fn ignore_with_version_pin_matches_only_that_version() {
    let rows = vec![row("Foo", "Bar", Some(false))];
    let wrong_version = vec![IgnoreEntry {
        pacticipant: "Bar".to_string(),
        version: Some("9.9".to_string()),
    }];
    assert_eq!(count_effective_failures(&rows, &wrong_version), 1);
    let right_version = vec![IgnoreEntry {
        pacticipant: "Bar".to_string(),
        version: Some("2.0".to_string()),
    }];
    assert_eq!(count_effective_failures(&rows, &right_version), 0);
}

#[test]
fn unignored_failures_keep_the_gate_closed() {
    let rows = vec![row("Foo", "Bar", Some(false))];
    let s = apply_ignores(summary(Some(false), "failed", 0, 1, 0), &rows, &Vec::new());
    assert_eq!(s.deployable, Some(false));
    assert_eq!(s.failed, 1);
}

#[test]
fn conflicting_dry_run_flags_are_a_usage_error() {
    assert_eq!(
        resolve_dry_run(true, true, false, false),
        Err(UsageError::ConflictingDryRunFlags)
    );
    assert_eq!(
        resolve_dry_run(true, false, true, false),
        Err(UsageError::ConflictingDryRunFlags)
    );
    assert_eq!(
        resolve_dry_run(false, true, true, false),
        Err(UsageError::ConflictingDryRunFlags)
    );
}

#[test]
fn environment_requests_dry_run_unless_declined() {
    assert_eq!(resolve_dry_run(false, false, false, true), Ok(true));
    assert_eq!(resolve_dry_run(false, true, false, true), Ok(false));
    assert_eq!(resolve_dry_run(false, false, true, true), Ok(false));
    assert_eq!(resolve_dry_run(true, false, false, false), Ok(true));
    assert_eq!(resolve_dry_run(false, false, false, false), Ok(false));
}
