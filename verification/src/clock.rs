//! Points and spans of the monotonic clock, as nanosecond counts. The
//! frontend's timing logic works on these; the event loop converts the
//! clock readings it takes into them.
use vstd::prelude::*;

verus! {

/// A reading of the monotonic clock: nanoseconds since a fixed origin.
#[derive(Debug, Clone, Copy, PartialEq, Eq, Structural)]
pub struct Moment {
    pub nanos: u64,
}

/// A length of time in nanoseconds.
#[derive(Debug, Clone, Copy, PartialEq, Eq, Structural, Default)]
pub struct Span {
    pub nanos: u64,
}

impl Moment {
    pub fn from_nanos(nanos: u64) -> (m: Moment)
        ensures
            m.nanos == nanos,
    {
        Moment { nanos }
    }

    /// The moment `d` after this one.
    pub fn plus(self, d: Span) -> (m: Moment)
        requires
            self.nanos + d.nanos <= u64::MAX,
        ensures
            m.nanos == self.nanos + d.nanos,
    {
        Moment { nanos: self.nanos + d.nanos }
    }

    /// The time elapsed since `earlier`, zero when `earlier` is later.
    pub fn saturating_since(self, earlier: Moment) -> (d: Span)
        ensures
            d.nanos == (if self.nanos >= earlier.nanos {
                self.nanos - earlier.nanos
            } else {
                0
            }),
    {
        if self.nanos >= earlier.nanos {
            Span { nanos: self.nanos - earlier.nanos }
        } else {
            Span { nanos: 0 }
        }
    }

    /// The time elapsed since `earlier`, `None` when `earlier` is later.
    pub fn checked_since(self, earlier: Moment) -> (d: Option<Span>)
        ensures
            d == (if self.nanos >= earlier.nanos {
                Some(Span { nanos: (self.nanos - earlier.nanos) as u64 })
            } else {
                None
            }),
    {
        if self.nanos >= earlier.nanos {
            Some(Span { nanos: self.nanos - earlier.nanos })
        } else {
            None
        }
    }
}

impl Span {
    pub fn from_nanos(nanos: u64) -> (d: Span)
        ensures
            d.nanos == nanos,
    {
        Span { nanos }
    }

    pub fn from_millis(ms: u64) -> (d: Span)
        requires
            ms * 1_000_000 <= u64::MAX,
        ensures
            d.nanos == ms * 1_000_000,
    {
        Span { nanos: ms * 1_000_000 }
    }

    /// `k` times this span, saturating at the largest span.
    pub fn saturating_mul(self, k: u64) -> (d: Span)
        ensures
            d.nanos == (if self.nanos * k > u64::MAX {
                u64::MAX as int
            } else {
                self.nanos * k
            }),
    {
        match self.nanos.checked_mul(k) {
            Some(v) => Span { nanos: v },
            None => Span { nanos: u64::MAX },
        }
    }
}

} // verus!
