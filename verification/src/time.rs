use vstd::prelude::*;

verus! {

/// Largest number of nanoseconds a span can hold: `u64::MAX` whole seconds
/// plus 999_999_999 nanoseconds, the range of `std::time::Duration`.
pub const MAX_NANOS: u128 = 18_446_744_073_709_551_615_999_999_999u128;

pub const NANOS_PER_SEC: u128 = 1_000_000_000u128;

/// A span of time with nanosecond resolution and the range of
/// `std::time::Duration`.
#[derive(Clone, Copy, PartialEq, Eq, Structural)]
pub struct Duration {
    nanos: u128,
}

impl View for Duration {
    type V = nat;

    /// The span, in nanoseconds.
    closed spec fn view(&self) -> nat {
        self.nanos as nat
    }
}

impl Duration {
    #[verifier::type_invariant]
    spec fn in_range(self) -> bool {
        self.nanos <= MAX_NANOS
    }

    /// The empty span.
    pub fn zero() -> (res: Duration)
        ensures
            res@ == 0,
    {
        Duration { nanos: 0 }
    }

    pub fn from_nanos(nanos: u128) -> (res: Duration)
        requires
            nanos <= MAX_NANOS,
        ensures
            res@ == nanos,
    {
        Duration { nanos }
    }

    pub fn from_micros(micros: u64) -> (res: Duration)
        ensures
            res@ == micros * 1000,
    {
        Duration { nanos: micros as u128 * 1000 }
    }

    pub fn from_millis(millis: u64) -> (res: Duration)
        ensures
            res@ == millis * 1_000_000,
    {
        Duration { nanos: millis as u128 * 1_000_000 }
    }

    pub fn from_secs(secs: u64) -> (res: Duration)
        ensures
            res@ == secs * 1_000_000_000,
    {
        Duration { nanos: secs as u128 * 1_000_000_000 }
    }

    pub fn as_nanos(&self) -> (res: u128)
        ensures
            res == self@,
            res <= MAX_NANOS,
    {
        proof {
            use_type_invariant(self);
        }
        self.nanos
    }

    pub fn is_zero(&self) -> (res: bool)
        ensures
            res == (self@ == 0),
    {
        self.nanos == 0
    }

    /// `self - other`, or zero when `other` is the longer span.
    pub fn saturating_sub(&self, other: &Duration) -> (res: Duration)
        ensures
            res@ == saturating_diff(self@, other@),
    {
        proof {
            use_type_invariant(self);
        }
        if self.nanos >= other.nanos {
            Duration { nanos: self.nanos - other.nanos }
        } else {
            Duration { nanos: 0 }
        }
    }

    pub fn le(&self, other: &Duration) -> (res: bool)
        ensures
            res == (self@ <= other@),
    {
        self.nanos <= other.nanos
    }

    pub fn eq(&self, other: &Duration) -> (res: bool)
        ensures
            res == (self@ == other@),
    {
        self.nanos == other.nanos
    }

    pub fn copy(&self) -> (res: Duration)
        ensures
            res@ == self@,
    {
        proof {
            use_type_invariant(self);
        }
        Duration { nanos: self.nanos }
    }
}

/// `a - b` cut off at zero.
pub open spec fn saturating_diff(a: nat, b: nat) -> nat {
    if a >= b {
        (a - b) as nat
    } else {
        0
    }
}

} // verus!
