//! How long to wait before a failed job is tried again.
use vstd::prelude::*;

use crate::duration::Duration;

verus! {

/// The delay before attempt `attempt` is repeated, in nanoseconds: nothing for attempt 0;
/// otherwise the base, doubled with every attempt after the first, but at most the cap.
pub open spec fn delay_nanos(attempt: nat, base: Duration, cap: Duration) -> int {
    if attempt == 0 {
        0
    } else {
        let doubled = base.nanos_total() * vstd::arithmetic::power2::pow2((attempt - 1) as nat);
        if doubled < cap.nanos_total() {
            doubled as int
        } else {
            cap.nanos_total() as int
        }
    }
}

/// Exponential backoff, without jitter: the delay doubles with every attempt, starting at
/// `base`, and stays at `cap` once it gets there. The first retry after a failure is
/// attempt 1.
pub fn backoff_delay(attempt: u32, base: Duration, cap: Duration) -> (delay: Duration)
    ensures
        delay == Duration::of_nanos(delay_nanos(attempt as nat, base, cap)),
        delay.nanos_total() == delay_nanos(attempt as nat, base, cap),
{
    if attempt == 0 {
        return Duration::zero();
    }
    let first = base.as_nanos();
    let limit = cap.as_nanos();
    if first == 0 {
        proof {
            vstd::arithmetic::mul::lemma_mul_basics(
                vstd::arithmetic::power2::pow2((attempt - 1) as nat) as int,
            );
        }
        return Duration::zero();
    }
    let mut nanos: u128 = first;
    let mut n: u32 = 1;
    proof {
        vstd::arithmetic::power2::lemma2_to64();
        vstd::arithmetic::mul::lemma_mul_basics(first as int);
    }
    while n < attempt && nanos < limit
        invariant
            1 <= n <= attempt,
            first == base.nanos_total(),
            limit == cap.nanos_total(),
            limit <= crate::duration::longest(),
            nanos == first * vstd::arithmetic::power2::pow2((n - 1) as nat),
        decreases attempt - n,
    {
        proof {
            let p = vstd::arithmetic::power2::pow2((n - 1) as nat) as int;
            vstd::arithmetic::power2::lemma_pow2_unfold(n as nat);
            assert(first * (2 * p) == 2 * (first * p)) by (nonlinear_arith);
        }
        nanos = nanos * 2;
        n = n + 1;
    }
    proof {
        let here = vstd::arithmetic::power2::pow2((n - 1) as nat) as int;
        let there = vstd::arithmetic::power2::pow2((attempt - 1) as nat) as int;
        if n < attempt {
            vstd::arithmetic::power2::lemma_pow2_strictly_increases(
                (n - 1) as nat,
                (attempt - 1) as nat,
            );
        }
        vstd::arithmetic::mul::lemma_mul_inequality(here, there, first as int);
        vstd::arithmetic::mul::lemma_mul_is_commutative(here, first as int);
        vstd::arithmetic::mul::lemma_mul_is_commutative(there, first as int);
    }
    if nanos < limit {
        Duration::from_nanos(nanos)
    } else {
        Duration::from_nanos(limit)
    }
}

/// No delay is longer than the cap.
pub proof fn law_delay_is_capped(attempt: nat, base: Duration, cap: Duration)
    ensures
        0 <= delay_nanos(attempt, base, cap) <= cap.nanos_total(),
{
}

/// The first retry waits for the base, or for the cap where that is shorter.
pub proof fn law_delay_starts_at_base(base: Duration, cap: Duration)
    ensures
        delay_nanos(1, base, cap) == (if base.nanos_total() < cap.nanos_total() {
            base.nanos_total()
        } else {
            cap.nanos_total()
        }),
{
    vstd::arithmetic::power2::lemma2_to64();
    assert(vstd::arithmetic::power2::pow2(0) == 1);
    vstd::arithmetic::mul::lemma_mul_basics(base.nanos_total() as int);
}

/// The delay doubles with every attempt until it reaches the cap.
pub proof fn law_delay_doubles(attempt: nat, base: Duration, cap: Duration)
    requires
        1 <= attempt,
    ensures
        delay_nanos(attempt + 1, base, cap) == (if 2 * delay_nanos(attempt, base, cap)
            < cap.nanos_total() {
            2 * delay_nanos(attempt, base, cap)
        } else {
            cap.nanos_total() as int
        }),
{
    let b = base.nanos_total() as int;
    let p = vstd::arithmetic::power2::pow2((attempt - 1) as nat) as int;
    vstd::arithmetic::power2::lemma_pow2_unfold(attempt);
    assert(b * (2 * p) == 2 * (b * p)) by (nonlinear_arith);
    vstd::arithmetic::mul::lemma_mul_nonnegative(b, p);
}

/// A later attempt never waits less.
pub proof fn law_delay_is_monotone(a: nat, b: nat, base: Duration, cap: Duration)
    requires
        a <= b,
    ensures
        delay_nanos(a, base, cap) <= delay_nanos(b, base, cap),
    decreases b - a,
{
    if a < b {
        let before = (b - 1) as nat;
        law_delay_is_monotone(a, before, base, cap);
        law_delay_is_capped(before, base, cap);
        if before > 0 {
            law_delay_doubles(before, base, cap);
        }
    }
}

} // verus!
