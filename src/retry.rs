//! The retry policy for one item: a bounded number of attempts, with a delay that
//! doubles after each failed one.
use vstd::prelude::*;

verus! {

/// Largest number of attempts made for one item.
pub const MAX_ATTEMPTS: u32 = 3;

/// Delay after the first failed attempt, in milliseconds.
pub const BASE_BACKOFF_MS: u64 = 500;

/// The delay after failed attempt number `attempt`: `500 * 2^(attempt - 1)` ms.
pub open spec fn backoff_of(attempt: nat) -> nat
    decreases attempt,
{
    if attempt <= 1 {
        BASE_BACKOFF_MS as nat
    } else {
        2 * backoff_of((attempt - 1) as nat)
    }
}

/// What to do once an attempt has ended.
#[derive(Debug, Clone, Copy, PartialEq, Eq, Structural)]
pub enum RetryStep {
    /// The attempt succeeded.
    Done,
    /// The attempt failed and another is owed after `delay_ms` milliseconds.
    RetryAfter { next_attempt: u32, delay_ms: u64 },
    /// The last allowed attempt failed: the item has failed.
    GiveUp,
}

pub open spec fn step_of(attempt: nat, succeeded: bool) -> RetryStep {
    if succeeded {
        RetryStep::Done
    } else if attempt < MAX_ATTEMPTS {
        RetryStep::RetryAfter {
            next_attempt: (attempt + 1) as u32,
            delay_ms: backoff_of(attempt) as u64,
        }
    } else {
        RetryStep::GiveUp
    }
}

/// The delay, in milliseconds, after failed attempt number `attempt`.
pub fn backoff_ms(attempt: u32) -> (r: u64)
    requires
        1 <= attempt <= MAX_ATTEMPTS,
    ensures
        r == backoff_of(attempt as nat),
{
    let mut d: u64 = BASE_BACKOFF_MS;
    let mut k: u32 = 1;
    while k < attempt
        invariant
            1 <= k <= attempt <= MAX_ATTEMPTS,
            d == backoff_of(k as nat),
        decreases attempt - k,
    {
        assert(backoff_of(1) == 500 && backoff_of(2) == 1000);
        d = d * 2;
        k = k + 1;
    }
    d
}

/// Decides, from the number of the attempt that just ended and whether it succeeded,
/// whether the item is done, is retried after a delay, or has failed.
pub fn next_step(attempt: u32, succeeded: bool) -> (r: RetryStep)
    requires
        1 <= attempt <= MAX_ATTEMPTS,
    ensures
        r == step_of(attempt as nat, succeeded),
{
    if succeeded {
        RetryStep::Done
    } else if attempt < MAX_ATTEMPTS {
        RetryStep::RetryAfter { next_attempt: attempt + 1, delay_ms: backoff_ms(attempt) }
    } else {
        RetryStep::GiveUp
    }
}

/// How the attempts for one item went: how many were made, the delays between them,
/// and whether the item failed in the end.
pub struct RetryRun {
    pub attempts: nat,
    pub delays: Seq<u64>,
    pub failed: bool,
}

/// The run of attempts from attempt number `attempt` on, where `outcomes[k]` is whether
/// the `k`-th of them succeeds.
pub open spec fn run_from(attempt: nat, outcomes: Seq<bool>) -> RetryRun
    decreases outcomes.len(),
{
    if outcomes.len() == 0 {
        RetryRun { attempts: 0, delays: Seq::empty(), failed: false }
    } else {
        match step_of(attempt, outcomes[0]) {
            RetryStep::RetryAfter { next_attempt, delay_ms } => {
                let rest = run_from(next_attempt as nat, outcomes.drop_first());
                RetryRun {
                    attempts: rest.attempts + 1,
                    delays: seq![delay_ms] + rest.delays,
                    failed: rest.failed,
                }
            },
            RetryStep::Done => RetryRun { attempts: 1, delays: Seq::empty(), failed: false },
            RetryStep::GiveUp => RetryRun { attempts: 1, delays: Seq::empty(), failed: true },
        }
    }
}

/// An item whose every attempt fails is attempted exactly three times, waits 500 ms
/// and then 1000 ms between them, and is reported as failed once, at the end.
pub proof fn lemma_retry_exhaustion(outcomes: Seq<bool>)
    requires
        outcomes.len() >= MAX_ATTEMPTS,
        forall|k: int| 0 <= k < outcomes.len() ==> !outcomes[k],
    ensures
        run_from(1, outcomes).attempts == MAX_ATTEMPTS,
        run_from(1, outcomes).delays == seq![500u64, 1000u64],
        run_from(1, outcomes).failed,
{
    let o1 = outcomes.drop_first();
    let o2 = o1.drop_first();
    assert(!o1[0] && !o2[0]);
    assert(backoff_of(2) == 1000) by {
        assert(backoff_of(1) == 500);
    }
    assert(run_from(3, o2).attempts == 1 && run_from(3, o2).failed);
    assert(run_from(2, o1).delays =~= seq![1000u64]);
    assert(run_from(1, outcomes).delays =~= seq![500u64, 1000u64]);
}

/// Whatever the outcomes, no item is attempted more than three times.
pub proof fn lemma_attempts_bounded(attempt: nat, outcomes: Seq<bool>)
    requires
        1 <= attempt <= MAX_ATTEMPTS,
    ensures
        run_from(attempt, outcomes).attempts + attempt <= MAX_ATTEMPTS + 1,
        run_from(attempt, outcomes).failed ==> run_from(attempt, outcomes).attempts
            == MAX_ATTEMPTS + 1 - attempt,
    decreases outcomes.len(),
{
    if outcomes.len() > 0 && !outcomes[0] && attempt < MAX_ATTEMPTS {
        lemma_attempts_bounded(attempt + 1, outcomes.drop_first());
    }
}

} // verus!
