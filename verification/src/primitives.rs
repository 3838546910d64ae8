//! Plain value types used throughout the library: a non-zero count and an elapsed time.
use vstd::prelude::*;

verus! {

/// An unsigned count which is never zero.
#[derive(Debug, Clone, Copy, PartialEq, Eq, Hash)]
pub struct NonZeroUsize {
    value: usize,
}

impl NonZeroUsize {
    #[verifier::type_invariant]
    spec fn inv(self) -> bool {
        self.value > 0
    }

    /// The count held.
    pub closed spec fn spec_get(self) -> usize {
        self.value
    }

    /// Returns `Some` of the count when `n` is not zero, `None` otherwise.
    pub fn new(n: usize) -> (r: Option<Self>)
        ensures
            n == 0 ==> r is None,
            n != 0 ==> (r matches Some(v) && v.spec_get() == n),
    {
        if n == 0 {
            None
        } else {
            Some(NonZeroUsize { value: n })
        }
    }

    /// Returns the count held, which is positive.
    pub fn get(&self) -> (r: usize)
        ensures
            r == self.spec_get(),
            r > 0,
    {
        proof {
            use_type_invariant(self);
        }
        self.value
    }
}

/// Number of nanoseconds in a second.
pub const NANOS_PER_SEC: u128 = 1_000_000_000;

/// A span of time, counted in nanoseconds.
#[derive(Debug, Clone, Copy, PartialEq, Eq, Structural, Hash)]
pub struct Duration {
    nanos: u128,
}

impl Duration {
    /// The number of nanoseconds of this duration.
    pub closed spec fn spec_nanos(self) -> int {
        self.nanos as int
    }

    /// A duration is never negative.
    pub proof fn lemma_nanos_nonneg(self)
        ensures
            self.spec_nanos() >= 0,
    {
    }

    /// A duration of `secs` seconds and `nanos` nanoseconds.
    pub fn new(secs: u64, nanos: u32) -> (r: Self)
        ensures
            r.spec_nanos() == secs * NANOS_PER_SEC + nanos,
    {
        assert(secs * NANOS_PER_SEC <= u64::MAX * NANOS_PER_SEC) by (nonlinear_arith);
        Duration { nanos: (secs as u128) * NANOS_PER_SEC + (nanos as u128) }
    }

    /// A duration of `secs` seconds.
    pub fn from_secs(secs: u64) -> (r: Self)
        ensures
            r.spec_nanos() == secs * NANOS_PER_SEC,
    {
        Self::new(secs, 0)
    }

    /// A duration of `millis` milliseconds.
    pub fn from_millis(millis: u64) -> (r: Self)
        ensures
            r.spec_nanos() == millis * 1_000_000,
    {
        assert(millis * 1_000_000 <= u64::MAX * 1_000_000) by (nonlinear_arith);
        Duration { nanos: (millis as u128) * 1_000_000 }
    }

    /// A duration of `nanos` nanoseconds.
    pub fn from_nanos(nanos: u128) -> (r: Self)
        ensures
            r.spec_nanos() == nanos,
    {
        Duration { nanos }
    }

    /// The empty duration.
    pub closed spec fn spec_zero() -> Self {
        Duration { nanos: 0 }
    }

    /// The zero duration.
    pub fn zero() -> (r: Self)
        ensures
            r.spec_nanos() == 0,
            r == Self::spec_zero(),
    {
        Duration { nanos: 0 }
    }

    /// The number of nanoseconds of this duration.
    pub fn as_nanos(&self) -> (r: u128)
        ensures
            r == self.spec_nanos(),
    {
        self.nanos
    }

    /// The number of whole milliseconds of this duration.
    pub fn as_millis(&self) -> (r: u128)
        ensures
            r == self.spec_nanos() / 1_000_000,
    {
        self.nanos / 1_000_000
    }

    /// Whether this duration is not shorter than `other`.
    pub fn is_not_before(&self, other: &Self) -> (r: bool)
        ensures
            r == (self.spec_nanos() >= other.spec_nanos()),
    {
        self.nanos >= other.nanos
    }

    /// The sum of two durations.
    pub fn checked_add(&self, other: &Self) -> (r: Option<Self>)
        ensures
            self.spec_nanos() + other.spec_nanos() <= u128::MAX ==> (r matches Some(d) && d.spec_nanos()
                == self.spec_nanos() + other.spec_nanos()),
            self.spec_nanos() + other.spec_nanos() > u128::MAX ==> r is None,
    {
        match self.nanos.checked_add(other.nanos) {
            Some(n) => Some(Duration { nanos: n }),
            None => None,
        }
    }

    /// The sum of two durations, saturating at the largest representable one.
    /// The sum of two durations, saturating at the largest one.
    pub closed spec fn spec_saturating_add(self, other: Self) -> Self {
        Duration {
            nanos: if self.nanos + other.nanos <= u128::MAX {
                (self.nanos + other.nanos) as u128
            } else {
                u128::MAX
            },
        }
    }

    pub fn saturating_add(&self, other: &Self) -> (r: Self)
        ensures
            r == self.spec_saturating_add(*other),
            r.spec_nanos() == if self.spec_nanos() + other.spec_nanos() <= u128::MAX {
                self.spec_nanos() + other.spec_nanos()
            } else {
                u128::MAX as int
            },
    {
        Duration { nanos: self.nanos.saturating_add(other.nanos) }
    }

    /// The difference of two durations, which is zero when `other` is longer.
    pub fn saturating_sub(&self, other: &Self) -> (r: Self)
        ensures
            r.spec_nanos() == if self.spec_nanos() >= other.spec_nanos() {
                self.spec_nanos() - other.spec_nanos()
            } else {
                0
            },
    {
        if self.nanos >= other.nanos {
            Duration { nanos: self.nanos - other.nanos }
        } else {
            Duration { nanos: 0 }
        }
    }

    /// This duration divided by `divisor`, rounded down.
    pub fn div_count(&self, divisor: usize) -> (r: Self)
        requires
            divisor > 0,
        ensures
            r.spec_nanos() == self.spec_nanos() / (divisor as int),
    {
        Duration { nanos: self.nanos / (divisor as u128) }
    }
}

impl Default for Duration {
    fn default() -> (r: Self)
        ensures
            r.spec_nanos() == 0,
    {
        Duration { nanos: 0 }
    }
}

} // verus!
