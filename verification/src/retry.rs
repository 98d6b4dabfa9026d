//! The retry policy of the store adapter: transient faults are masked
//! with exponential backoff up to a bounded attempt count; a definite
//! answer — absent, already there, fatal — ends the attempts at once.

use vstd::prelude::*;

verus! {

/// How one attempt against the store ended.
#[derive(Clone, Copy, PartialEq, Eq, Structural, Debug)]
pub enum AttemptOutcome {
    /// The call went through.
    Success,
    /// A transient fault: a server error or a dropped connection.
    Transient,
    /// The object is definitely absent.
    NotFound,
    /// The object definitely exists already.
    AlreadyExists,
    /// An unrecoverable fault.
    Fatal,
}

/// What the adapter does after an attempt.
#[derive(Clone, Copy, PartialEq, Eq, Structural, Debug)]
pub enum RetryDecision {
    /// Try again after this many milliseconds.
    RetryAfterMs(u64),
    /// Hand the outcome to the caller as it stands.
    GiveUp,
}

/// The policy: how many attempts, and the backoff's base and cap.
#[derive(Clone, Copy, PartialEq, Eq, Structural, Debug)]
pub struct RetryPolicy {
    pub max_attempts: u32,
    pub base_delay_ms: u64,
    pub max_delay_ms: u64,
}

/// The backoff before attempt `attempt + 1`: the base, doubled once
/// per attempt already made, saturating at the cap.
pub open spec fn backoff_ms(policy: RetryPolicy, attempt: int) -> int
    decreases attempt,
{
    if attempt <= 0 {
        policy.base_delay_ms as int
    } else {
        let p = backoff_ms(policy, attempt - 1);
        if p > policy.max_delay_ms as int / 2 {
            policy.max_delay_ms as int
        } else {
            2 * p
        }
    }
}

/// Computes the capped exponential backoff for the attempt.
pub fn delay_for_attempt(policy: &RetryPolicy, attempt: u32) -> (r: u64)
    requires
        policy.base_delay_ms >= 1,
        policy.max_delay_ms >= policy.base_delay_ms,
    ensures
        r == backoff_ms(*policy, attempt as int),
{
    let mut r: u64 = policy.base_delay_ms;
    let mut i: u32 = 0;
    while i < attempt
        invariant
            policy.base_delay_ms >= 1,
            policy.max_delay_ms >= policy.base_delay_ms,
            i <= attempt,
            r == backoff_ms(*policy, i as int),
            r <= policy.max_delay_ms,
        decreases attempt - i,
    {
        if r > policy.max_delay_ms / 2 {
            r = policy.max_delay_ms;
        } else {
            r = r * 2;
        }
        i = i + 1;
    }
    r
}

/// What the adapter decides after attempt number `attempt` (counting
/// from zero) ends as `outcome`: only a transient fault with attempts
/// to spare is retried.
pub fn decide(policy: &RetryPolicy, attempt: u32, outcome: AttemptOutcome) -> (r: RetryDecision)
    requires
        policy.base_delay_ms >= 1,
        policy.max_delay_ms >= policy.base_delay_ms,
        attempt < u32::MAX,
    ensures
        r == if outcome == AttemptOutcome::Transient && attempt + 1 < policy.max_attempts {
            RetryDecision::RetryAfterMs(backoff_ms(*policy, attempt as int) as u64)
        } else {
            RetryDecision::GiveUp
        },
{
    match outcome {
        AttemptOutcome::Transient => {
            if attempt + 1 < policy.max_attempts {
                RetryDecision::RetryAfterMs(delay_for_attempt(policy, attempt))
            } else {
                RetryDecision::GiveUp
            }
        },
        _ => RetryDecision::GiveUp,
    }
}

/// Drives a call through the policy against a prescribed run of
/// outcomes: the index of the first attempt the policy stops at.
/// Transient faults before it are invisible to the caller — the call
/// succeeds whenever a success comes within the attempt budget after
/// only transient faults.
#[verifier::loop_isolation(false)]
pub fn drive(policy: &RetryPolicy, outcomes: &Vec<AttemptOutcome>) -> (r: Result<usize, usize>)
    requires
        policy.base_delay_ms >= 1,
        policy.max_delay_ms >= policy.base_delay_ms,
        outcomes.len() >= policy.max_attempts,
        policy.max_attempts >= 1,
    ensures
        match r {
            Ok(i) => i < outcomes.len() && outcomes@[i as int] == AttemptOutcome::Success && forall|
                j: int,
            | 0 <= j < i ==> outcomes@[j] == AttemptOutcome::Transient,
            Err(i) => i < outcomes.len() && outcomes@[i as int] != AttemptOutcome::Success && forall|
                j: int,
            | 0 <= j < i ==> outcomes@[j] == AttemptOutcome::Transient,
        },
        (exists|i: int|
            0 <= i < policy.max_attempts && (#[trigger] outcomes@[i]) == AttemptOutcome::Success
                && forall|j: int| 0 <= j < i ==> outcomes@[j] == AttemptOutcome::Transient) ==> r
            is Ok,
{
    let mut attempt: u32 = 0;
    while attempt < policy.max_attempts
        invariant
            attempt < policy.max_attempts <= outcomes.len(),
            forall|j: int| 0 <= j < attempt ==> outcomes@[j] == AttemptOutcome::Transient,
        decreases policy.max_attempts - attempt,
    {
        let outcome = outcomes[attempt as usize];
        if outcome == AttemptOutcome::Success {
            return Ok(attempt as usize);
        }
        match decide(policy, attempt, outcome) {
            RetryDecision::RetryAfterMs(_) => {
                attempt = attempt + 1;
            },
            RetryDecision::GiveUp => {
                return Err(attempt as usize);
            },
        }
    }
    proof {
        assert(false);
    }
    Err(0)
}

} // verus!
