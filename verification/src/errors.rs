//! Error kinds visible across module boundaries, and the retry schedule
//! applied to transient store failures.

use vstd::prelude::*;

verus! {

/// Failure classes a store operation can report.
///
/// `Transient` covers network faults, rate limits and server errors and is
/// retried with bounded exponential backoff. `Permanent` covers
/// authentication failures and missing buckets and is surfaced to the
/// caller. `Corrupt` marks a malformed backend response.
#[derive(Clone, Copy, PartialEq, Eq, Structural, Debug)]
pub enum StoreError {
    Transient,
    Permanent,
    Corrupt,
}

/// Base delay of the retry schedule, in milliseconds.
pub const BACKOFF_BASE_MS: u64 = 100;

/// Ceiling on any single retry delay, in milliseconds.
pub const BACKOFF_CAP_MS: u64 = 5000;

/// Number of attempts made before a transient failure is surfaced.
pub const MAX_ATTEMPTS: u32 = 5;

/// Delay before retry number `attempt` (the first retry is attempt 1):
/// the base delay, doubled once per prior retry, capped.
pub open spec fn spec_backoff_ms(attempt: u32) -> int
    decreases attempt,
{
    if attempt <= 1 {
        BACKOFF_BASE_MS as int
    } else {
        let p = spec_backoff_ms((attempt - 1) as u32);
        if 2 * p > BACKOFF_CAP_MS as int {
            BACKOFF_CAP_MS as int
        } else {
            2 * p
        }
    }
}

/// Computes the backoff delay in milliseconds before the given retry.
pub fn backoff_ms(attempt: u32) -> (r: u64)
    requires
        1 <= attempt,
    ensures
        r == spec_backoff_ms(attempt),
        BACKOFF_BASE_MS <= r <= BACKOFF_CAP_MS,
{
    let mut delay: u64 = BACKOFF_BASE_MS;
    let mut i: u32 = 1;
    while i < attempt
        invariant
            1 <= i <= attempt,
            delay == spec_backoff_ms(i),
            BACKOFF_BASE_MS <= delay <= BACKOFF_CAP_MS,
        decreases attempt - i,
    {
        if delay > BACKOFF_CAP_MS / 2 {
            delay = BACKOFF_CAP_MS;
        } else {
            delay = delay * 2;
        }
        i = i + 1;
    }
    delay
}

} // verus!

verus! {

/// What a caller does after a failed store operation.
pub enum RetryAction {
    /// Try again after this many milliseconds.
    RetryAfterMs(u64),
    /// Surface the error.
    GiveUp,
}

/// The retry policy: transient failures are retried with the backoff
/// schedule until the attempt budget is spent; permanent and corrupt
/// failures are surfaced at once.
pub fn retry_decision(e: StoreError, attempt: u32) -> (r: RetryAction)
    requires
        1 <= attempt,
    ensures
        match r {
            RetryAction::RetryAfterMs(ms) => e == StoreError::Transient && attempt < MAX_ATTEMPTS
                && ms == spec_backoff_ms(attempt),
            RetryAction::GiveUp => e != StoreError::Transient || attempt >= MAX_ATTEMPTS,
        },
{
    match e {
        StoreError::Transient => {
            if attempt < MAX_ATTEMPTS {
                RetryAction::RetryAfterMs(backoff_ms(attempt))
            } else {
                RetryAction::GiveUp
            }
        },
        StoreError::Permanent => RetryAction::GiveUp,
        StoreError::Corrupt => RetryAction::GiveUp,
    }
}

} // verus!
