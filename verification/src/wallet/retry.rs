//! When to send a request again.
use vstd::prelude::*;

verus! {

/// How one attempt to send a request ended.
#[derive(Clone, Copy, PartialEq, Eq, Structural)]
pub enum Outcome {
    Answered,
    TimedOut,
    Failed,
}

/// What to do after an attempt.
#[derive(Clone, Copy, PartialEq, Eq, Structural)]
pub enum Step {
    /// Hand the answer on.
    Return,
    /// Send the request again.
    Retry,
    /// Hand the error of this attempt on.
    GiveUp,
}

/// Attempts that a request to the wallet gets.
pub const WALLET_ATTEMPTS: u8 = 5;

/// Attempts that a long request to the wallet gets.
pub const LONG_ATTEMPTS: u8 = 2;

/// Attempts that a request to the daemon gets.
pub const DAEMON_ATTEMPTS: u8 = 6;

/// What to do after the attempt `attempt`, counted from 0, of at most `limit`.
/// Only an attempt that timed out is repeated.
pub open spec fn step_after(attempt: int, limit: int, outcome: Outcome) -> Step {
    match outcome {
        Outcome::Answered => Step::Return,
        Outcome::Failed => Step::GiveUp,
        Outcome::TimedOut => if attempt + 1 < limit {
            Step::Retry
        } else {
            Step::GiveUp
        },
    }
}

/// Decides what to do after an attempt.
pub fn after_attempt(attempt: u8, limit: u8, outcome: Outcome) -> (step: Step)
    requires
        attempt < limit,
    ensures
        step == step_after(attempt as int, limit as int, outcome),
{
    match outcome {
        Outcome::Answered => Step::Return,
        Outcome::Failed => Step::GiveUp,
        Outcome::TimedOut => if attempt + 1 < limit {
            Step::Retry
        } else {
            Step::GiveUp
        },
    }
}

/// How many attempts are made, from the attempt `attempt` on, where the
/// attempt `i` would end in `outcomes[i]`.
pub open spec fn attempts_from(outcomes: Seq<Outcome>, attempt: int, limit: int) -> int
    decreases limit - attempt,
{
    if attempt >= limit {
        0
    } else if step_after(attempt, limit, outcomes[attempt]) is Retry {
        1 + attempts_from(outcomes, attempt + 1, limit)
    } else {
        1
    }
}

/// A request is sent at least once and at most `limit` times, and every
/// attempt but the last one timed out.
pub proof fn attempts_are_bounded(outcomes: Seq<Outcome>, limit: int)
    requires
        limit >= 1,
    ensures
        1 <= attempts_from(outcomes, 0, limit) <= limit,
        forall|i: int|
            0 <= i < attempts_from(outcomes, 0, limit) - 1 ==> #[trigger] outcomes[i] is TimedOut,
        step_after(
            attempts_from(outcomes, 0, limit) - 1,
            limit,
            outcomes[attempts_from(outcomes, 0, limit) - 1],
        ) !is Retry,
{
    lemma_attempts(outcomes, 0, limit);
}

proof fn lemma_attempts(outcomes: Seq<Outcome>, attempt: int, limit: int)
    requires
        0 <= attempt < limit,
    ensures
        ({
            let made = attempts_from(outcomes, attempt, limit);
            &&& 1 <= made <= limit - attempt
            &&& forall|i: int|
                attempt <= i < attempt + made - 1 ==> #[trigger] outcomes[i] is TimedOut
            &&& step_after(attempt + made - 1, limit, outcomes[attempt + made - 1]) !is Retry
        }),
    decreases limit - attempt,
{
    if step_after(attempt, limit, outcomes[attempt]) is Retry {
        lemma_attempts(outcomes, attempt + 1, limit);
    }
}

/// How often a request is sent at most: five times to the wallet, twice if it
/// takes long, and six times to the daemon.
pub proof fn attempts_that_are_made()
    ensures
        WALLET_ATTEMPTS == 5,
        LONG_ATTEMPTS == 2,
        DAEMON_ATTEMPTS == 6,
{
}

/// Whether the first `n` attempts time out.
pub open spec fn time_out(outcomes: Seq<Outcome>, n: int) -> bool {
    forall|i: int| 0 <= i < n ==> #[trigger] outcomes[i] is TimedOut
}

/// A request is sent again as long as it times out and may still be sent: if
/// the first attempts time out and the next does not, that one is the last and
/// decides; if all of them time out, all are made and the error is handed on.
pub proof fn timeouts_are_tried_again(outcomes: Seq<Outcome>, n: int, limit: int)
    requires
        0 <= n < limit,
        time_out(outcomes, n),
    ensures
        outcomes[n] is Answered ==> attempts_from(outcomes, 0, limit) == n + 1 && step_after(
            n,
            limit,
            outcomes[n],
        ) is Return,
        outcomes[n] is Failed ==> attempts_from(outcomes, 0, limit) == n + 1 && step_after(
            n,
            limit,
            outcomes[n],
        ) is GiveUp,
        outcomes[n] is TimedOut && n == limit - 1 ==> attempts_from(outcomes, 0, limit) == limit
            && step_after(n, limit, outcomes[n]) is GiveUp,
{
    if outcomes[n] !is TimedOut || n == limit - 1 {
        lemma_tried_again(outcomes, 0, n, limit);
    }
}

proof fn lemma_tried_again(outcomes: Seq<Outcome>, attempt: int, n: int, limit: int)
    requires
        0 <= attempt <= n < limit,
        time_out(outcomes, n),
        outcomes[n] !is TimedOut || n == limit - 1,
    ensures
        attempts_from(outcomes, attempt, limit) == n + 1 - attempt,
    decreases n - attempt,
{
    if attempt < n {
        assert(outcomes[attempt] is TimedOut);
        lemma_tried_again(outcomes, attempt + 1, n, limit);
    }
}

} // verus!
