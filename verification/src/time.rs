//! Spans and moments of time, as whole nanoseconds.

use vstd::prelude::*;

verus! {

/// A span of time.
#[derive(Debug, Clone, Copy, PartialEq, Eq, Structural)]
pub struct Duration {
    pub nanos: u128,
}

impl Duration {
    pub fn zero() -> (r: Self)
        ensures
            r.nanos == 0,
    {
        Duration { nanos: 0 }
    }

    pub fn from_nanos(n: u128) -> (r: Self)
        ensures
            r.nanos == n,
    {
        Duration { nanos: n }
    }

    pub fn from_millis(n: u64) -> (r: Self)
        ensures
            r.nanos == n * 1_000_000,
    {
        Duration { nanos: n as u128 * 1_000_000 }
    }

    pub fn from_secs(n: u64) -> (r: Self)
        ensures
            r.nanos == n * 1_000_000_000,
    {
        Duration { nanos: n as u128 * 1_000_000_000 }
    }

    /// The span in whole milliseconds.
    pub open spec fn millis(self) -> nat {
        self.nanos as nat / 1_000_000
    }

    pub fn as_millis(self) -> (r: u128)
        ensures
            r == self.millis(),
    {
        self.nanos / 1_000_000
    }

    /// The span in whole seconds.
    pub open spec fn secs(self) -> nat {
        self.nanos as nat / 1_000_000_000
    }

    pub fn as_secs(self) -> (r: u128)
        ensures
            r == self.secs(),
    {
        self.nanos / 1_000_000_000
    }

    pub open spec fn shorter_of(self, other: Self) -> Self {
        if other.nanos < self.nanos {
            other
        } else {
            self
        }
    }

    /// The shorter of two spans.
    pub fn min(self, other: Self) -> (r: Self)
        ensures
            r == self.shorter_of(other),
    {
        if other.nanos < self.nanos {
            other
        } else {
            self
        }
    }

    pub open spec fn longer_of(self, other: Self) -> Self {
        if other.nanos > self.nanos {
            other
        } else {
            self
        }
    }

    /// The longer of two spans.
    pub fn max(self, other: Self) -> (r: Self)
        ensures
            r == self.longer_of(other),
    {
        if other.nanos > self.nanos {
            other
        } else {
            self
        }
    }
}

/// A moment, counted from the start of 1970 (UTC); earlier moments have
/// negative seconds.
#[derive(Debug, Clone, Copy, PartialEq, Eq, Structural)]
pub struct SystemTime {
    pub secs: i64,
    pub nanos: u32,
}

impl SystemTime {
    /// Nanoseconds since the start of 1970.
    pub open spec fn total(self) -> int {
        self.secs * 1_000_000_000 + self.nanos
    }

    pub fn from_unix(secs: i64, nanos: u32) -> (r: Self)
        ensures
            r.secs == secs,
            r.nanos == nanos,
    {
        SystemTime { secs, nanos }
    }

    /// The time that has passed since an earlier moment; `None` where the
    /// other moment is the later one.
    pub open spec fn since(self, earlier: Self) -> Option<nat> {
        if self.total() >= earlier.total() {
            Some((self.total() - earlier.total()) as nat)
        } else {
            None
        }
    }

    pub fn duration_since(self, earlier: Self) -> (r: Option<Duration>)
        ensures
            match r {
                Some(d) => self.since(earlier) == Some(d.nanos as nat),
                None => self.since(earlier) is None,
            },
    {
        let a: i128 = self.secs as i128 * 1_000_000_000 + self.nanos as i128;
        let b: i128 = earlier.secs as i128 * 1_000_000_000 + earlier.nanos as i128;
        if a >= b {
            Some(Duration { nanos: (a - b) as u128 })
        } else {
            None
        }
    }
}

/// Durations in whole units: a unit more of time is one more of them, and what
/// is short of a unit is not counted.
pub proof fn whole_units_are_counted(d: Duration, ms: nat, s: nat)
    ensures
        d.millis() == ms <==> ms * 1_000_000 <= d.nanos < (ms + 1) * 1_000_000,
        d.secs() == s <==> s * 1_000_000_000 <= d.nanos < (s + 1) * 1_000_000_000,
{
}

/// Of two durations the shorter is no longer than either, the longer no shorter,
/// and each is one of the two.
pub proof fn the_shorter_and_the_longer(a: Duration, b: Duration)
    ensures
        a.shorter_of(b).nanos <= a.nanos && a.shorter_of(b).nanos <= b.nanos,
        a.longer_of(b).nanos >= a.nanos && a.longer_of(b).nanos >= b.nanos,
        a.shorter_of(b) == a || a.shorter_of(b) == b,
        a.longer_of(b) == a || a.longer_of(b) == b,
{
}

/// The time between two moments, added to the earlier, gives the later. Before
/// the earlier there is none.
pub proof fn time_adds_up(later: SystemTime, earlier: SystemTime)
    ensures
        match later.since(earlier) {
            Some(n) => earlier.secs * 1_000_000_000 + earlier.nanos + n == later.secs
                * 1_000_000_000 + later.nanos,
            None => later.secs * 1_000_000_000 + later.nanos < earlier.secs * 1_000_000_000
                + earlier.nanos,
        },
{
}

} // verus!
