//! Lengths of time and positions in a file.

use vstd::prelude::*;

verus! {

pub const NANOS_PER_MILLI: u128 = 1_000_000;

pub const NANOS_PER_MICRO: u128 = 1_000;

pub const NANOS_PER_SEC: u128 = 1_000_000_000;

/// The longest span a clock reports: every whole second a 64-bit counter holds,
/// and the nanoseconds of one more.
pub const LONGEST: u128 = 18_446_744_073_709_551_615_999_999_999;

/// A span of time, or a position measured from the start of a file.
#[derive(Clone, Copy, PartialEq, Eq, Structural, Debug)]
pub struct Duration {
    pub nanos: u128,
}

impl Duration {
    pub fn zero() -> (d: Duration)
        ensures
            d.nanos == 0,
    {
        Duration { nanos: 0 }
    }

    pub fn from_secs(secs: u64) -> (d: Duration)
        ensures
            d.nanos == secs * NANOS_PER_SEC,
    {
        Duration { nanos: secs as u128 * NANOS_PER_SEC }
    }

    pub fn from_millis(millis: u64) -> (d: Duration)
        ensures
            d.nanos == millis * NANOS_PER_MILLI,
    {
        Duration { nanos: millis as u128 * NANOS_PER_MILLI }
    }

    /// Whole seconds, the rest dropped.
    pub fn as_secs(self) -> (secs: u128)
        ensures
            secs == self.nanos / NANOS_PER_SEC,
    {
        self.nanos / NANOS_PER_SEC
    }

    /// Whole milliseconds, the rest dropped.
    pub fn as_millis(self) -> (millis: u128)
        ensures
            millis == self.nanos / NANOS_PER_MILLI,
    {
        self.nanos / NANOS_PER_MILLI
    }

    /// Whole microseconds, the rest dropped.
    pub fn as_micros(self) -> (micros: u128)
        ensures
            micros == self.nanos / NANOS_PER_MICRO,
    {
        self.nanos / NANOS_PER_MICRO
    }

    pub fn is_zero(self) -> (b: bool)
        ensures
            b == (self.nanos == 0),
    {
        self.nanos == 0
    }

    /// The time from `other` up to `self`, or none at all when `other` is later.
    pub fn saturating_sub(self, other: Duration) -> (d: Duration)
        ensures
            d == self.past(other),
    {
        if self.nanos >= other.nanos {
            Duration { nanos: self.nanos - other.nanos }
        } else {
            Duration { nanos: 0 }
        }
    }

    pub fn plus(self, other: Duration) -> (d: Duration)
        requires
            self.nanos + other.nanos <= LONGEST,
        ensures
            d.nanos == self.nanos + other.nanos,
    {
        Duration { nanos: self.nanos + other.nanos }
    }

    /// The shorter of the two.
    pub fn shorter(self, other: Duration) -> (d: Duration)
        ensures
            d == self.least(other),
    {
        if other.nanos < self.nanos {
            other
        } else {
            self
        }
    }

    /// The longer of the two.
    pub fn longer(self, other: Duration) -> (d: Duration)
        ensures
            d == self.most(other),
    {
        if other.nanos > self.nanos {
            other
        } else {
            self
        }
    }

    /// How far `self` lies past `other`; nothing when it does not.
    pub open spec fn past(self, other: Duration) -> Duration {
        if self.nanos >= other.nanos {
            Duration { nanos: (self.nanos - other.nanos) as u128 }
        } else {
            Duration { nanos: 0 }
        }
    }

    pub open spec fn least(self, other: Duration) -> Duration {
        if other.nanos < self.nanos {
            other
        } else {
            self
        }
    }

    pub open spec fn most(self, other: Duration) -> Duration {
        if other.nanos > self.nanos {
            other
        } else {
            self
        }
    }

    /// The span with everything below a millisecond dropped.
    pub open spec fn whole_millis(self) -> Duration {
        Duration { nanos: (self.nanos - self.nanos % NANOS_PER_MILLI) as u128 }
    }

    /// Whether the span is as many milliseconds as a 64-bit counter holds, or
    /// fewer.
    pub open spec fn millis_fit(self) -> bool {
        self.nanos / NANOS_PER_MILLI <= u64::MAX
    }
}

/// A span of nothing but whole milliseconds is what its milliseconds make.
pub proof fn millis_make_the_span(d: Duration)
    requires
        d.millis_fit(),
    ensures
        (d.nanos / NANOS_PER_MILLI) * NANOS_PER_MILLI == d.whole_millis().nanos,
{
    assert((d.nanos / NANOS_PER_MILLI) * NANOS_PER_MILLI == d.nanos - d.nanos % NANOS_PER_MILLI)
        by (nonlinear_arith)
        requires
            NANOS_PER_MILLI == 1_000_000u128,
    ;
}

/// The time from one moment to another is how far apart they are, and none when the other
/// is later; the shorter of two spans is the one that is, and so is the longer.
pub proof fn spans_are_measured_as_usual(a: Duration, b: Duration)
    ensures
        a.nanos >= b.nanos ==> a.past(b).nanos + b.nanos == a.nanos,
        a.nanos <= b.nanos ==> a.past(b).nanos == 0,
        a.nanos <= b.nanos ==> a.least(b) == a && b.least(a) == a && a.most(b) == b && b.most(a)
            == b,
        a.whole_millis().nanos % 1_000_000 == 0,
        a.whole_millis().nanos <= a.nanos < a.whole_millis().nanos + 1_000_000,
        a.millis_fit() <==> a.nanos / 1_000_000 <= u64::MAX,
{
    let n = a.nanos;
    assert((n - n % 1_000_000) % 1_000_000 == 0 && n % 1_000_000 < 1_000_000 && n % 1_000_000 <= n)
        by (nonlinear_arith)
        requires
            n >= 0,
    ;
}

} // verus!
