//! Spans of time, to the nanosecond.

use vstd::prelude::*;

verus! {

/// The nanoseconds of the longest span: as many seconds as 64 bits count, and
/// all but one of the nanoseconds of another.
pub const MAX_NANOS: u128 = 18_446_744_073_709_551_615_999_999_999;

/// A span of time.
#[derive(Debug, Clone, Copy, PartialEq, Eq, PartialOrd, Ord, Hash, Structural)]
pub struct Duration {
    nanos: u128,
}

impl View for Duration {
    type V = nat;

    closed spec fn view(&self) -> nat {
        self.nanos as nat
    }
}

/// The span of this many nanoseconds, or the longest there is.
pub open spec fn clamped(nanos: nat) -> nat {
    if nanos <= MAX_NANOS {
        nanos
    } else {
        MAX_NANOS as nat
    }
}

/// Spans taken by their nanoseconds.
pub open spec fn spans(durations: Seq<Duration>) -> Seq<nat> {
    durations.map_values(|d: Duration| d@)
}

/// An optional span taken by its nanoseconds.
pub open spec fn span(duration: Option<Duration>) -> Option<nat> {
    match duration {
        Some(duration) => Some(duration@),
        None => None,
    }
}

impl Duration {
    #[verifier::type_invariant]
    spec fn bounded(self) -> bool {
        self.nanos <= MAX_NANOS
    }

    /// No time.
    pub fn zero() -> (duration: Duration)
        ensures
            duration@ == 0,
    {
        Duration { nanos: 0 }
    }

    /// The longest span there is.
    pub fn max() -> (duration: Duration)
        ensures
            duration@ == MAX_NANOS,
    {
        Duration { nanos: MAX_NANOS }
    }

    /// `secs` seconds and `nanos` nanoseconds.
    pub fn new(secs: u64, nanos: u32) -> (duration: Duration)
        requires
            nanos < 1_000_000_000,
        ensures
            duration@ == secs * 1_000_000_000 + nanos,
    {
        Duration { nanos: secs as u128 * 1_000_000_000 + nanos as u128 }
    }

    /// `secs` seconds.
    pub fn from_secs(secs: u64) -> (duration: Duration)
        ensures
            duration@ == secs * 1_000_000_000,
    {
        Duration { nanos: secs as u128 * 1_000_000_000 }
    }

    /// `millis` milliseconds.
    pub fn from_millis(millis: u64) -> (duration: Duration)
        ensures
            duration@ == millis * 1_000_000,
    {
        Duration { nanos: millis as u128 * 1_000_000 }
    }

    /// `micros` microseconds.
    pub fn from_micros(micros: u64) -> (duration: Duration)
        ensures
            duration@ == micros * 1_000,
    {
        Duration { nanos: micros as u128 * 1_000 }
    }

    /// `nanos` nanoseconds.
    pub fn from_nanos(nanos: u64) -> (duration: Duration)
        ensures
            duration@ == nanos,
    {
        Duration { nanos: nanos as u128 }
    }

    /// `nanos` nanoseconds, or the longest span when they do not fit.
    pub fn saturating_from_nanos(nanos: u128) -> (duration: Duration)
        ensures
            duration@ == clamped(nanos as nat),
    {
        if nanos <= MAX_NANOS {
            Duration { nanos }
        } else {
            Duration { nanos: MAX_NANOS }
        }
    }

    /// The nanoseconds of this span.
    pub fn as_nanos(&self) -> (nanos: u128)
        ensures
            nanos == self@,
            nanos <= MAX_NANOS,
    {
        proof {
            use_type_invariant(self);
        }
        self.nanos
    }

    /// This span and `other` after it, or the longest span.
    pub fn saturating_add(&self, other: Duration) -> (sum: Duration)
        ensures
            sum@ == clamped(self@ + other@),
    {
        Duration::saturating_from_nanos(self.as_nanos() + other.as_nanos())
    }

    /// What is left of this span after `other`.
    pub fn saturating_sub(&self, other: Duration) -> (left: Duration)
        ensures
            left@ == (if self@ >= other@ {
                (self@ - other@) as nat
            } else {
                0
            }),
    {
        let (whole, part): (u128, u128) = (self.as_nanos(), other.as_nanos());
        if whole >= part {
            Duration::saturating_from_nanos(whole - part)
        } else {
            Duration::zero()
        }
    }

    /// This span `times` times over, or the longest span.
    pub fn saturating_mul(&self, times: u32) -> (product: Duration)
        ensures
            product@ == clamped((self@ * times) as nat),
    {
        let nanos: u128 = self.as_nanos();
        proof {
            assert(nanos * times <= MAX_NANOS * 0xffff_ffff) by (nonlinear_arith)
                requires
                    nanos <= MAX_NANOS,
                    times <= 0xffff_ffff,
            ;
        }
        Duration::saturating_from_nanos(nanos * times as u128)
    }
}

} // verus!
