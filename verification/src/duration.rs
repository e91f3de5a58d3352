//! Spans of time.
use vstd::prelude::*;

verus! {

/// A span of time that is not negative, to the nanosecond. The longest one is a nanosecond
/// short of 2^64 seconds.
#[derive(Debug, Clone, Copy, PartialEq, Eq, Structural)]
pub struct Duration {
    secs: u64,
    nanos: u32,
}

/// Nanoseconds in the longest span.
pub open spec fn longest() -> int {
    u64::MAX * 1_000_000_000 + 999_999_999
}

impl Duration {
    /// There is one way to hold a span: whole seconds, and less than a second.
    #[verifier::type_invariant]
    spec fn normal(self) -> bool {
        self.nanos < 1_000_000_000
    }

    /// The whole span, in nanoseconds.
    pub closed spec fn nanos_total(self) -> nat {
        (self.secs * 1_000_000_000 + self.nanos) as nat
    }

    /// The span of `nanos` nanoseconds.
    pub closed spec fn of_nanos(nanos: int) -> Duration {
        Duration {
            secs: (nanos / 1_000_000_000) as u64,
            nanos: (nanos % 1_000_000_000) as u32,
        }
    }

    /// `of_nanos` and `nanos_total` undo each other.
    pub proof fn law_nanos_make_the_span(nanos: int)
        requires
            0 <= nanos <= longest(),
        ensures
            Duration::of_nanos(nanos).nanos_total() == nanos,
    {
    }

    /// Whole seconds and the nanoseconds beyond them, or `None` where these make a second.
    pub fn new(secs: u64, nanos: u32) -> (d: Option<Duration>)
        ensures
            match d {
                Some(d) => {
                    &&& nanos < 1_000_000_000
                    &&& d == Duration::of_nanos(secs * 1_000_000_000 + nanos)
                    &&& d.nanos_total() == secs * 1_000_000_000 + nanos
                },
                None => nanos >= 1_000_000_000,
            },
    {
        if nanos < 1_000_000_000 {
            let d = Duration { secs, nanos };
            assert(d == Duration::of_nanos(secs * 1_000_000_000 + nanos));
            Some(d)
        } else {
            None
        }
    }

    /// No time at all.
    pub fn zero() -> (d: Duration)
        ensures
            d == Duration::of_nanos(0),
            d.nanos_total() == 0,
    {
        Duration { secs: 0, nanos: 0 }
    }

    pub fn from_secs(secs: u64) -> (d: Duration)
        ensures
            d == Duration::of_nanos(secs * 1_000_000_000),
            d.nanos_total() == secs * 1_000_000_000,
    {
        let d = Duration { secs, nanos: 0 };
        assert(d == Duration::of_nanos(secs * 1_000_000_000));
        d
    }

    pub fn from_millis(millis: u64) -> (d: Duration)
        ensures
            d == Duration::of_nanos(millis * 1_000_000),
            d.nanos_total() == millis * 1_000_000,
    {
        Duration::from_nanos(millis as u128 * 1_000_000)
    }

    pub fn from_micros(micros: u64) -> (d: Duration)
        ensures
            d == Duration::of_nanos(micros * 1_000),
            d.nanos_total() == micros * 1_000,
    {
        Duration::from_nanos(micros as u128 * 1_000)
    }

    pub(crate) fn from_nanos(nanos: u128) -> (d: Duration)
        requires
            nanos <= longest(),
        ensures
            d == Duration::of_nanos(nanos as int),
            d.nanos_total() == nanos,
    {
        let secs: u64 = (nanos / 1_000_000_000) as u64;
        let rest: u32 = (nanos % 1_000_000_000) as u32;
        Duration { secs, nanos: rest }
    }

    /// The whole span, in nanoseconds.
    pub fn as_nanos(&self) -> (nanos: u128)
        ensures
            nanos == self.nanos_total(),
            nanos <= longest(),
            *self == Duration::of_nanos(nanos as int),
    {
        proof {
            use_type_invariant(self);
        }
        let nanos: u128 = self.secs as u128 * 1_000_000_000 + self.nanos as u128;
        assert(*self == Duration::of_nanos(nanos as int));
        nanos
    }

    /// The whole seconds of the span.
    pub fn as_secs(&self) -> (secs: u64)
        ensures
            secs == self.nanos_total() as int / 1_000_000_000,
    {
        proof {
            use_type_invariant(self);
        }
        self.secs
    }

    /// The nanoseconds of the span beyond its whole seconds.
    pub fn subsec_nanos(&self) -> (nanos: u32)
        ensures
            nanos == self.nanos_total() as int % 1_000_000_000,
            nanos < 1_000_000_000,
    {
        proof {
            use_type_invariant(self);
        }
        self.nanos
    }
}

} // verus!
