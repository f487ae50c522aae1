//! Spans of time, in whole nanoseconds.
use vstd::prelude::*;

verus! {

/// A span of time.
#[derive(Clone, Copy, Debug, PartialEq, Eq, Structural)]
pub struct Span {
    pub nanos: u128,
}

impl Span {
    pub fn from_secs(secs: u64) -> (r: Span)
        ensures
            r.nanos == secs * 1_000_000_000,
    {
        Span { nanos: secs as u128 * 1_000_000_000 }
    }

    pub fn from_millis(millis: u64) -> (r: Span)
        ensures
            r.nanos == millis * 1_000_000,
    {
        Span { nanos: millis as u128 * 1_000_000 }
    }

    pub fn is_zero(&self) -> (r: bool)
        ensures
            r == (self.nanos == 0),
    {
        self.nanos == 0
    }

    /// What is left of the span after `elapsed`; nothing once it is over.
    pub fn left_after(&self, elapsed: Span) -> (r: Span)
        ensures
            r.nanos == if elapsed.nanos < self.nanos {
                self.nanos - elapsed.nanos
            } else {
                0
            },
    {
        if elapsed.nanos < self.nanos {
            Span { nanos: self.nanos - elapsed.nanos }
        } else {
            Span { nanos: 0 }
        }
    }

    pub fn shorter(&self, other: Span) -> (r: Span)
        ensures
            r.nanos == if self.nanos <= other.nanos {
                self.nanos
            } else {
                other.nanos
            },
    {
        if self.nanos <= other.nanos {
            *self
        } else {
            other
        }
    }
}

/// The span from one reading of a clock to a later one; none if it is not
/// later.
pub open spec fn span_between(from: u128, to: u128) -> int {
    if from < to {
        to - from
    } else {
        0
    }
}

/// What to do next while waiting.
#[derive(Clone, Copy, Debug, PartialEq, Eq, Structural)]
pub enum Pause {
    /// Stop waiting: a cancellation was requested.
    Cancelled,
    /// The wait is over.
    Over,
    /// Sleep so long, then look again.
    Sleep(Span),
}

/// What to do next while `left` is left of a wait: a cancellation ends it
/// within a tenth of a second.
pub fn pause_step(cancelled: bool, left: Span) -> (r: Pause)
    ensures
        r == if cancelled {
            Pause::Cancelled
        } else if left.nanos == 0 {
            Pause::Over
        } else if left.nanos <= 100_000_000 {
            Pause::Sleep(left)
        } else {
            Pause::Sleep(Span { nanos: 100_000_000 })
        },
{
    if cancelled {
        Pause::Cancelled
    } else if left.is_zero() {
        Pause::Over
    } else {
        Pause::Sleep(left.shorter(Span::from_millis(100)))
    }
}

/// The span from one reading of a clock to a later one; none if it is not
/// later.
pub fn elapsed(from: u128, to: u128) -> (r: Span)
    ensures
        r.nanos == span_between(from, to),
{
    if from < to {
        Span { nanos: to - from }
    } else {
        Span { nanos: 0 }
    }
}

} // verus!
