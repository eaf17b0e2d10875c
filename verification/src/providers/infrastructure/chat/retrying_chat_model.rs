//! How often a call is tried again, on which failures, and after what wait.
use crate::understanding::domain::chat_model::ChatError;
use vstd::prelude::*;

verus! {

/// One try for the call, one for a blip, one for a short rate limit. What
/// lasts longer is left to whoever asked.
pub const DEFAULT_MAX_ATTEMPTS: u32 = 3;

/// The first wait, in nanoseconds. It doubles from try to try.
pub const DEFAULT_INITIAL_BACKOFF: u128 = 500_000_000;

/// The longest span of time there is, in nanoseconds.
pub const LONGEST: u128 = 18_446_744_073_709_551_615_999_999_999;

/// What follows a failed try.
#[derive(Debug)]
pub enum RetryStep {
    /// Report this error.
    GiveUp(ChatError),
    /// Wait this long, then try again.
    Wait { nanos: u128, next_attempt: u32, next_backoff: u128 },
}

/// How long to wait after a failed try, if it is not the last: the first wait,
/// doubled for every try before.
pub open spec fn backoff_after(initial: nat, attempt: nat) -> nat
    decreases attempt,
{
    if attempt <= 1 {
        initial
    } else {
        2 * backoff_after(initial, (attempt - 1) as nat)
    }
}

/// Whether a failed try is followed by another.
pub open spec fn is_retried(max_attempts: nat, attempt: nat, transient: bool) -> bool {
    transient && attempt < max_attempts
}

/// The retry policy.
#[derive(Debug, Clone, Copy)]
pub struct RetryingChatModel {
    pub max_attempts: u32,
    pub initial_backoff: u128,
}

impl RetryingChatModel {
    pub fn new() -> (policy: RetryingChatModel)
        ensures
            policy.max_attempts == DEFAULT_MAX_ATTEMPTS,
            policy.initial_backoff == DEFAULT_INITIAL_BACKOFF,
    {
        RetryingChatModel {
            max_attempts: DEFAULT_MAX_ATTEMPTS,
            initial_backoff: DEFAULT_INITIAL_BACKOFF,
        }
    }

    pub fn with_policy(self, max_attempts: u32, initial_backoff: u128) -> (policy:
        RetryingChatModel)
        ensures
            policy.max_attempts == max_attempts,
            policy.initial_backoff == initial_backoff,
    {
        RetryingChatModel { max_attempts, initial_backoff }
    }

    /// What follows when try number `attempt`, counted from one, has failed
    /// and `backoff` is the wait that is due. Only a transient failure is
    /// tried again: any other would come out the same.
    pub fn failed(&self, attempt: u32, backoff: u128, error: ChatError) -> (step: RetryStep)
        requires
            1 <= attempt <= self.max_attempts,
            backoff == backoff_after(self.initial_backoff as nat, attempt as nat),
            is_retried(self.max_attempts as nat, attempt as nat, error is Transient) ==> 2 * backoff
                <= LONGEST,
        ensures
            match step {
                RetryStep::GiveUp(e) => e == error && !is_retried(
                    self.max_attempts as nat,
                    attempt as nat,
                    error is Transient,
                ),
                RetryStep::Wait { nanos, next_attempt, next_backoff } => is_retried(
                    self.max_attempts as nat,
                    attempt as nat,
                    error is Transient,
                ) && next_attempt == attempt + 1 && nanos == backoff_after(
                    self.initial_backoff as nat,
                    attempt as nat,
                ) && next_backoff == backoff_after(self.initial_backoff as nat, next_attempt as nat),
            },
    {
        if !error.is_transient() || attempt == self.max_attempts {
            return RetryStep::GiveUp(error);
        }
        RetryStep::Wait { nanos: backoff, next_attempt: attempt + 1, next_backoff: backoff * 2 }
    }
}

/// Whether try number `attempt` is made, given how each before it failed:
/// `transient[i]` says it of try `i + 1`.
pub open spec fn is_tried(max_attempts: nat, transient: Seq<bool>, attempt: nat) -> bool
    decreases attempt,
{
    if attempt == 0 {
        false
    } else if attempt == 1 {
        true
    } else {
        attempt - 2 < transient.len() && is_tried(max_attempts, transient, (attempt - 1) as nat)
            && is_retried(max_attempts, (attempt - 1) as nat, transient[attempt - 2])
    }
}

/// However the tries fail, there are never more than allowed, and never one
/// after a failure that is not transient.
pub proof fn attempts_are_capped(max_attempts: nat, transient: Seq<bool>, attempt: nat, i: int)
    requires
        max_attempts >= 1,
        is_tried(max_attempts, transient, attempt),
    ensures
        attempt <= max_attempts,
        0 <= i < attempt - 1 ==> transient[i],
    decreases attempt,
{
    if attempt > 1 {
        attempts_are_capped(max_attempts, transient, (attempt - 1) as nat, i);
    }
}

/// The wait grows from try to try, unless there is none.
pub proof fn waits_double(initial: nat, attempt: nat)
    requires
        attempt >= 1,
    ensures
        backoff_after(initial, attempt + 1) == 2 * backoff_after(initial, attempt),
        initial > 0 ==> backoff_after(initial, attempt) > 0,
    decreases attempt,
{
    if attempt > 1 {
        waits_double(initial, (attempt - 1) as nat);
    }
}

/// As long as failures are transient, all the tries that are allowed are made.
pub proof fn transient_failures_are_tried_again(
    max_attempts: nat,
    transient: Seq<bool>,
    attempt: nat,
)
    requires
        1 <= attempt <= max_attempts,
        attempt - 1 <= transient.len(),
        forall|i: int| 0 <= i < attempt - 1 ==> #[trigger] transient[i],
    ensures
        is_tried(max_attempts, transient, attempt),
    decreases attempt,
{
    if attempt > 1 {
        transient_failures_are_tried_again(max_attempts, transient, (attempt - 1) as nat);
        assert(transient[attempt - 2]);
    }
}

/// The first wait is the one that the policy names.
pub proof fn the_first_wait_is_the_policys(initial: nat)
    ensures
        backoff_after(initial, 1) == initial,
        backoff_after(initial, 2) == 2 * initial,
        backoff_after(initial, 3) == 4 * initial,
{
    reveal_with_fuel(backoff_after, 3);
}

} // verus!
