//! What becomes of a job whose attempt failed.
use vstd::prelude::*;

use crate::backoff;
use crate::backoff::backoff_delay;
use crate::duration::Duration;
use crate::timestamp;
use crate::timestamp::{span_from_std, utc_checked_add, Timestamp, MAX_SECS};

verus! {

#[derive(Debug, Clone, Copy, PartialEq, Eq, Structural)]
pub enum FailOutcome {
    /// No attempt is left: the job is parked.
    Dead,
    /// The job goes back to the queue, due at `run_at`.
    Retry { run_at: Timestamp },
}

/// The number of an attempt, as an unsigned 32-bit number.
pub open spec fn attempt_number(attempts: i32) -> nat {
    if attempts < 0 {
        (attempts + 0x1_0000_0000) as nat
    } else {
        attempts as nat
    }
}

/// How long to wait before the next attempt, in nanoseconds. A delay that is longer than the
/// spans that `chrono` holds, which reach to 292 million years, counts as none.
pub open spec fn retry_nanos(attempts: i32, base: Duration, cap: Duration) -> int {
    let delay = backoff::delay_nanos(attempt_number(attempts), base, cap);
    if delay <= timestamp::longest_span() {
        delay
    } else {
        0
    }
}

/// When the next attempt is due, or `None` past the end of `chrono`'s calendar.
pub open spec fn retry_at(
    attempts: i32,
    base: Duration,
    cap: Duration,
    now: Timestamp,
) -> Option<Timestamp> {
    let (secs, nanos) = timestamp::after_nanos(now, retry_nanos(attempts, base, cap));
    if secs <= MAX_SECS {
        Some(Timestamp { secs: secs as i64, nanos: nanos as u32 })
    } else {
        None
    }
}

/// What becomes of a job that has failed `attempts` of at most `max_attempts` times.
pub open spec fn outcome(
    attempts: i32,
    max_attempts: i32,
    base: Duration,
    cap: Duration,
    now: Timestamp,
) -> Option<FailOutcome> {
    if attempts >= max_attempts {
        Some(FailOutcome::Dead)
    } else {
        match retry_at(attempts, base, cap, now) {
            Some(run_at) => Some(FailOutcome::Retry { run_at }),
            None => None,
        }
    }
}

/// Decides what becomes of a job that has failed `attempts` of at most `max_attempts`
/// times: it is retried after an exponential backoff while attempts remain. `None` means
/// that the retry would lie past the end of `chrono`'s calendar.
pub fn fail_outcome(
    attempts: i32,
    max_attempts: i32,
    base: Duration,
    cap: Duration,
    now: Timestamp,
) -> (r: Option<FailOutcome>)
    requires
        now.valid(),
    ensures
        r == outcome(attempts, max_attempts, base, cap, now),
        r matches Some(FailOutcome::Retry { run_at }) ==> run_at.valid(),
{
    if attempts >= max_attempts {
        return Some(FailOutcome::Dead);
    }
    let attempt: u32 = if attempts >= 0 {
        attempts as u32
    } else {
        (attempts as i64 + 0x1_0000_0000) as u32
    };
    let delay = backoff_delay(attempt, base, cap);
    let (secs, nanos): (i64, u32) = match span_from_std(delay.as_secs(), delay.subsec_nanos()) {
        Some(span) => span,
        None => (0, 0),
    };
    let run_at = utc_checked_add(now, secs, nanos)?;
    Some(FailOutcome::Retry { run_at })
}

/// A job is parked exactly when its attempts are used up.
pub proof fn law_dead_when_attempts_are_used_up(
    attempts: i32,
    max_attempts: i32,
    base: Duration,
    cap: Duration,
    now: Timestamp,
)
    ensures
        outcome(attempts, max_attempts, base, cap, now) == Some(FailOutcome::Dead) <==> attempts
            >= max_attempts,
{
}

/// A retry is never due before the failure.
pub proof fn law_retry_is_not_before_the_failure(
    attempts: i32,
    base: Duration,
    cap: Duration,
    now: Timestamp,
)
    requires
        now.valid(),
    ensures
        retry_at(attempts, base, cap, now) matches Some(run_at) ==> now.before_or_at(
            run_at,
        ),
{
    backoff::law_delay_is_capped(attempt_number(attempts), base, cap);
}

/// Without a backoff a retry is due at once.
pub proof fn law_zero_base_retries_at_once(
    attempts: i32,
    base: Duration,
    cap: Duration,
    now: Timestamp,
)
    requires
        now.valid(),
        base.nanos_total() == 0,
    ensures
        retry_at(attempts, base, cap, now) == Some(now),
{
    if attempt_number(attempts) > 0 {
        vstd::arithmetic::mul::lemma_mul_basics(
            vstd::arithmetic::power2::pow2((attempt_number(attempts) - 1) as nat) as int,
        );
    }
}

} // verus!
