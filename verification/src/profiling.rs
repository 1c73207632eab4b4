//! CPU time used by the process, split into user and system time.
use crate::clock::Span;
use vstd::prelude::*;

verus! {

/// User and system CPU time.
#[derive(Debug, Clone, Copy, Default, PartialEq, Eq, Structural)]
pub struct ProcessCpuTime {
    pub user: Span,
    pub system: Span,
}

/// `a - b`, or zero when `b` is larger.
pub open spec fn saturating_diff(a: u64, b: u64) -> u64 {
    if a >= b {
        (a - b) as u64
    } else {
        0
    }
}

impl ProcessCpuTime {
    /// The time used since an earlier reading, each part at least zero.
    pub fn delta_since(self, earlier: Self) -> (d: Self)
        ensures
            d.user.nanos == saturating_diff(self.user.nanos, earlier.user.nanos),
            d.system.nanos == saturating_diff(self.system.nanos, earlier.system.nanos),
    {
        ProcessCpuTime {
            user: Span { nanos: self.user.nanos.saturating_sub(earlier.user.nanos) },
            system: Span { nanos: self.system.nanos.saturating_sub(earlier.system.nanos) },
        }
    }

    /// User plus system time, saturating.
    pub fn total(self) -> (t: Span)
        ensures
            t.nanos == (if self.user.nanos + self.system.nanos > u64::MAX {
                u64::MAX as int
            } else {
                self.user.nanos + self.system.nanos
            }),
    {
        Span { nanos: self.user.nanos.saturating_add(self.system.nanos) }
    }
}

/// The time a `timeval` of the system holds, in nanoseconds: negative parts
/// count as zero, microseconds past a second as 999999, and a time too long
/// for the count as the longest one.
pub open spec fn timeval_nanos(sec: i64, usec: i64) -> int {
    let s = if sec < 0 {
        0
    } else {
        sec as int
    };
    let u = if usec < 0 {
        0
    } else if usec > 999_999 {
        999_999
    } else {
        usec as int
    };
    let total = s * 1_000_000_000 + u * 1000;
    if total > u64::MAX {
        u64::MAX as int
    } else {
        total
    }
}

/// The span a system `timeval` (seconds and microseconds) measures.
pub fn duration_from_timeval(sec: i64, usec: i64) -> (d: Span)
    ensures
        d.nanos == timeval_nanos(sec, usec),
{
    let secs: u64 = if sec < 0 {
        0
    } else {
        sec as u64
    };
    let micros: u64 = if usec < 0 {
        0
    } else if usec > 999_999 {
        999_999
    } else {
        usec as u64
    };
    let whole = match secs.checked_mul(1_000_000_000) {
        Some(n) => n,
        None => u64::MAX,
    };
    Span { nanos: whole.saturating_add(micros * 1000) }
}

} // verus!
