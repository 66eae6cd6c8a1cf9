//! Spans of time in whole nanoseconds.

use vstd::prelude::*;

verus! {

/// Nanoseconds per millisecond.
pub const NANOS_PER_MILLI: u128 = 1_000_000;

/// Nanoseconds per second.
pub const NANOS_PER_SECOND: u128 = 1_000_000_000;

/// The longest representable span: `u64::MAX` seconds and 999,999,999
/// nanoseconds.
pub const MAX_NANOS: u128 = 18_446_744_073_709_551_615_999_999_999;

/// A span of time.
#[derive(Clone, Copy, Debug, PartialEq, Eq, PartialOrd, Ord, Structural)]
pub struct Duration {
    nanos: u128,
}

impl View for Duration {
    type V = nat;

    closed spec fn view(&self) -> nat {
        self.nanos as nat
    }
}

impl Duration {
    #[verifier::type_invariant]
    spec fn representable(self) -> bool {
        self.nanos <= MAX_NANOS
    }

    /// A span of whole nanoseconds.
    pub fn from_nanos(nanos: u64) -> (res: Self)
        ensures
            res@ == nanos,
    {
        Duration { nanos: nanos as u128 }
    }

    /// A span of whole milliseconds.
    pub fn from_millis(millis: u64) -> (res: Self)
        ensures
            res@ == millis * NANOS_PER_MILLI,
    {
        Duration { nanos: millis as u128 * NANOS_PER_MILLI }
    }

    /// A span of whole seconds.
    pub fn from_secs(secs: u64) -> (res: Self)
        ensures
            res@ == secs * NANOS_PER_SECOND,
    {
        Duration { nanos: secs as u128 * NANOS_PER_SECOND }
    }

    /// Returns the span in nanoseconds.
    pub fn as_nanos(self) -> (res: u128)
        ensures
            res == self@,
            res <= MAX_NANOS,
    {
        proof {
            use_type_invariant(&self);
        }
        self.nanos
    }

    /// Returns whether the span is empty.
    pub fn is_zero(self) -> (res: bool)
        ensures
            res == (self@ == 0),
    {
        self.nanos == 0
    }

    /// Returns whether this span is longer than another.
    pub fn exceeds(self, other: Duration) -> (res: bool)
        ensures
            res == (self@ > other@),
    {
        self.nanos > other.nanos
    }

    /// Returns the shorter of this span scaled by `factor` and `limit`.
    pub fn scaled_up_to(self, factor: u128, limit: Duration) -> (res: Duration)
        requires
            factor <= 0x1_0000_0000,
        ensures
            res@ == if self@ * factor <= limit@ {
                (self@ * factor) as nat
            } else {
                limit@
            },
    {
        proof {
            use_type_invariant(&self);
            use_type_invariant(&limit);
            assert(self.nanos * factor <= MAX_NANOS * 0x1_0000_0000) by (nonlinear_arith)
                requires
                    self.nanos <= MAX_NANOS,
                    factor <= 0x1_0000_0000,
            ;
        }
        let scaled: u128 = self.nanos * factor;
        if scaled <= limit.nanos {
            Duration { nanos: scaled }
        } else {
            limit
        }
    }

    /// Spans of equal length are equal.
    pub proof fn view_injective(a: Duration, b: Duration)
        ensures
            a@ == b@ ==> a == b,
    {
    }
}

} // verus!
