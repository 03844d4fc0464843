//! Poll-while-unknown retry engine.
//!
//! A matrix query may come back with `deployable` still unknown while
//! verification runs elsewhere. The engine re-issues the query on a fixed
//! interval, at most `max_retries` times beyond the first fetch, and stops
//! early as soon as the result is known. It is written as a state machine:
//! the caller performs one fetch, hands the observed `deployable` value to
//! [`poll_step`], and either stops or sleeps for the returned interval and
//! fetches again. [`poll_schedule`] replays the machine over a given
//! sequence of outcomes, which makes the schedule deterministic and
//! testable without real time.

use vstd::prelude::*;

verus! {

/// What the engine tells the caller to do after one fetch.
#[derive(Clone, Copy, Debug, PartialEq, Eq)]
pub enum PollDirective {
    /// `deployable` is known; stop and evaluate.
    Resolved,
    /// Still unknown and retries remain: sleep this many seconds, fetch again.
    RetryAfter(u32),
    /// Still unknown and no retries remain: stop with the unknown result.
    Exhausted,
}

/// Replay of a full poll run: the final observed value, how many fetches
/// were issued, and how long the engine asked to sleep in total.
pub struct PollReport {
    pub outcome: Option<bool>,
    pub fetches: usize,
    pub slept_seconds: u64,
}

/// How many fetches the engine issues when the successive fetches would
/// observe `outcomes`, with `max_retries` retries allowed beyond the first
/// fetch. Only the first `max_retries + 1` entries can matter.
pub open spec fn spec_fetch_count(outcomes: Seq<Option<bool>>, max_retries: nat) -> nat
    decreases max_retries,
{
    if outcomes.len() == 0 {
        0
    } else if outcomes[0] is Some || max_retries == 0 {
        1
    } else {
        1 + spec_fetch_count(outcomes.drop_first(), (max_retries - 1) as nat)
    }
}

/// Total seconds of sleep the engine requests for the same run: one
/// interval between consecutive fetches, none after the last.
pub open spec fn spec_sleep_total(
    outcomes: Seq<Option<bool>>,
    max_retries: nat,
    interval_seconds: nat,
) -> nat
    decreases max_retries,
{
    if outcomes.len() == 0 {
        0
    } else if outcomes[0] is Some || max_retries == 0 {
        0
    } else {
        interval_seconds + spec_sleep_total(
            outcomes.drop_first(),
            (max_retries - 1) as nat,
            interval_seconds,
        )
    }
}

/// The `deployable` value the run ends on: the first known value, or the
/// last observed unknown once retries are exhausted.
pub open spec fn spec_poll_outcome(outcomes: Seq<Option<bool>>, max_retries: nat) -> Option<bool>
    decreases max_retries,
{
    if outcomes.len() == 0 {
        None
    } else if outcomes[0] is Some || max_retries == 0 {
        outcomes[0]
    } else {
        spec_poll_outcome(outcomes.drop_first(), (max_retries - 1) as nat)
    }
}

/// One transition of the engine. The caller has just fetched and observed
/// `deployable`, with `retries_left` retries still allowed.
pub fn poll_step(deployable: Option<bool>, retries_left: u32, interval_seconds: u32) -> (d:
    PollDirective)
    ensures
        deployable is Some ==> d == PollDirective::Resolved,
        deployable is None && retries_left > 0 ==> d == PollDirective::RetryAfter(
            interval_seconds,
        ),
        deployable is None && retries_left == 0 ==> d == PollDirective::Exhausted,
{
    match deployable {
        Some(_) => PollDirective::Resolved,
        None => if retries_left > 0 {
            PollDirective::RetryAfter(interval_seconds)
        } else {
            PollDirective::Exhausted
        },
    }
}

/// Replays the engine over a fixed outcome sequence: entry `i` is the
/// `deployable` value the `i`-th fetch would observe. Yields the final
/// outcome together with the exact fetch count and total requested sleep.
pub fn poll_schedule(outcomes: &Vec<Option<bool>>, max_retries: u32, interval_seconds: u32) -> (r:
    PollReport)
    requires
        outcomes@.len() > max_retries,
    ensures
        r.fetches == spec_fetch_count(outcomes@, max_retries as nat),
        r.slept_seconds == spec_sleep_total(outcomes@, max_retries as nat, interval_seconds as nat),
        r.outcome == spec_poll_outcome(outcomes@, max_retries as nat),
{
    let n: usize = outcomes.len();
    let mut fetches: usize = 0;
    let mut slept: u64 = 0;
    let mut i: usize = 0;
    proof {
        assert(outcomes@.skip(0) =~= outcomes@);
    }
    loop
        invariant
            n == outcomes@.len(),
            outcomes@.len() > max_retries,
            i <= max_retries,
            fetches == i,
            slept == i as int * interval_seconds as int,
            slept == i as nat * interval_seconds as nat,
            forall|j: int| 0 <= j < i ==> outcomes@[j] is None,
            spec_fetch_count(outcomes@, max_retries as nat) == i + spec_fetch_count(
                outcomes@.skip(i as int),
                (max_retries - i) as nat,
            ),
            spec_sleep_total(outcomes@, max_retries as nat, interval_seconds as nat) == slept
                + spec_sleep_total(
                outcomes@.skip(i as int),
                (max_retries - i) as nat,
                interval_seconds as nat,
            ),
            spec_poll_outcome(outcomes@, max_retries as nat) == spec_poll_outcome(
                outcomes@.skip(i as int),
                (max_retries - i) as nat,
            ),
        decreases max_retries - i,
    {
        let observed = outcomes[i];
        let retries_left = max_retries - (i as u32);
        let directive = poll_step(observed, retries_left, interval_seconds);
        fetches = fetches + 1;
        proof {
            assert(outcomes@.skip(i as int)[0] == outcomes@[i as int]);
        }
        match directive {
            PollDirective::Resolved => {
                return PollReport { outcome: observed, fetches, slept_seconds: slept };
            },
            PollDirective::Exhausted => {
                return PollReport { outcome: observed, fetches, slept_seconds: slept };
            },
            PollDirective::RetryAfter(s) => {
                proof {
                    assert((i + 1) as int * interval_seconds as int == i as int
                        * interval_seconds as int + interval_seconds as int) by (nonlinear_arith);
                    assert((i + 1) as int * interval_seconds as int <= 0xffff_ffff * 0xffff_ffff)
                        by (nonlinear_arith)
                        requires
                            0 <= i as int + 1 <= 0xffff_ffff,
                            0 <= interval_seconds as int <= 0xffff_ffff,
                    ;
                    assert(outcomes@.skip(i as int).drop_first() =~= outcomes@.skip(i as int + 1));
                }
                slept = slept + (s as u64);
                i = i + 1;
            },
        }
    }
}

/// Law: when the broker first reports a known `deployable` on fetch `k`
/// (counting from 1) and `k` is within the allowed `max_retries + 1`
/// fetches, the engine issues exactly `k` fetches and requests exactly
/// `(k - 1) * interval_seconds` seconds of sleep in total, ending on that
/// known value.
pub proof fn lemma_poll_resolves_on_attempt(
    outcomes: Seq<Option<bool>>,
    max_retries: nat,
    interval_seconds: nat,
    k: nat,
)
    requires
        1 <= k <= max_retries + 1,
        k <= outcomes.len(),
        forall|j: int| 0 <= j < k - 1 ==> outcomes[j] is None,
        outcomes[k - 1] is Some,
    ensures
        spec_fetch_count(outcomes, max_retries) == k,
        spec_sleep_total(outcomes, max_retries, interval_seconds) == (k - 1) * interval_seconds,
        spec_poll_outcome(outcomes, max_retries) == outcomes[k - 1],
    decreases k,
{
    if k == 1 {
    } else {
        lemma_poll_resolves_on_attempt(
            outcomes.drop_first(),
            (max_retries - 1) as nat,
            interval_seconds,
            (k - 1) as nat,
        );
        assert((k - 1) * interval_seconds == (k - 2) * interval_seconds + interval_seconds)
            by (nonlinear_arith);
    }
}

/// Law: when every fetch up to the limit would still observe unknown, the
/// engine issues exactly `max_retries + 1` fetches and ends on unknown.
pub proof fn lemma_poll_exhausts(
    outcomes: Seq<Option<bool>>,
    max_retries: nat,
    interval_seconds: nat,
)
    requires
        outcomes.len() > max_retries,
        forall|j: int| 0 <= j <= max_retries ==> outcomes[j] is None,
    ensures
        spec_fetch_count(outcomes, max_retries) == max_retries + 1,
        spec_sleep_total(outcomes, max_retries, interval_seconds) == max_retries
            * interval_seconds,
        spec_poll_outcome(outcomes, max_retries) is None,
    decreases max_retries,
{
    if max_retries == 0 {
    } else {
        let sub = outcomes.drop_first();
        assert forall|j: int| 0 <= j <= max_retries - 1 implies sub[j] is None by {
            assert(sub[j] == outcomes[j + 1]);
        }
        lemma_poll_exhausts(sub, (max_retries - 1) as nat, interval_seconds);
        assert(max_retries * interval_seconds == (max_retries - 1) * interval_seconds
            + interval_seconds) by (nonlinear_arith)
            requires
                max_retries >= 1,
        ;
    }
}

} // verus!
