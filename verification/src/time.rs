//! Instants and spans of time as plain numbers.
//!
//! The library reads no clock: whoever calls it says what time it is.
use vstd::prelude::*;

verus! {

/// The first second that a calendar date can stand for.
pub const FIRST_SECOND: i64 = -8334601228800;

/// The last second that a calendar date can stand for.
pub const LAST_SECOND: i64 = 8210266876799;

/// Nanoseconds in a second.
pub const NANOS: u32 = 1_000_000_000;

/// An instant: seconds since the start of 1970 (UTC) and nanoseconds.
///
/// Nanoseconds from 1_000_000_000 up mark a leap second.
#[derive(Clone, Copy, Debug, PartialEq, Eq, Structural)]
pub struct Timestamp {
    pub seconds: i64,
    pub nanos: u32,
}

/// A span of time: whole seconds, rounded down, and nanoseconds on top.
#[derive(Clone, Copy, Debug, PartialEq, Eq, Structural)]
pub struct Span {
    pub seconds: i64,
    pub nanos: u32,
}

impl Timestamp {
    /// Nanoseconds since the start of 1970.
    pub open spec fn total(self) -> int {
        self.seconds * NANOS + self.nanos
    }

    /// What a clock shows: not a leap second, within the calendar.
    pub open spec fn ordinary(self) -> bool {
        self.nanos < NANOS && FIRST_SECOND <= self.seconds <= LAST_SECOND
    }

    /// `self` comes after `other`.
    pub open spec fn later_than(self, other: Timestamp) -> bool {
        self.seconds > other.seconds || (self.seconds == other.seconds && self.nanos > other.nanos)
    }

    pub fn is_later_than(self, other: Timestamp) -> (r: bool)
        ensures
            r == self.later_than(other),
    {
        self.seconds > other.seconds || (self.seconds == other.seconds && self.nanos > other.nanos)
    }

    /// The instant `span` after this one.
    pub fn plus(self, span: Span) -> (r: Timestamp)
        requires
            self.ordinary(),
            span.well_formed(),
            self.reaches(span),
        ensures
            r == self.after(span),
            r.ordinary(),
            r.total() == self.total() + span.total(),
    {
        let mut seconds: i128 = self.seconds as i128 + span.seconds as i128;
        let mut nanos: u32 = self.nanos + span.nanos;
        if nanos >= NANOS {
            nanos -= NANOS;
            seconds += 1;
        }
        Timestamp { seconds: seconds as i64, nanos }
    }

    /// The instant `span` after this one.
    pub open spec fn after(self, span: Span) -> Timestamp {
        let sum = self.total() + span.total();
        Timestamp { seconds: (sum / NANOS as int) as i64, nanos: (sum % NANOS as int) as u32 }
    }

    /// `span` after this instant is still within the calendar.
    pub open spec fn reaches(self, span: Span) -> bool {
        FIRST_SECOND <= (self.total() + span.total()) / (NANOS as int) <= LAST_SECOND
    }
}

impl Span {
    pub open spec fn total(self) -> int {
        self.seconds * NANOS + self.nanos
    }

    pub open spec fn well_formed(self) -> bool {
        self.nanos < NANOS
    }
}

// ---------------------------------------------------------------------------
// Laws
// ---------------------------------------------------------------------------
/// What comes a span after an instant is that many nanoseconds later, within the
/// calendar.
pub proof fn after_is_that_much_later(now: Timestamp, span: Span)
    requires
        now.ordinary(),
        now.reaches(span),
    ensures
        ({
            let end = now.after(span);
            &&& end.nanos < 1_000_000_000
            &&& end.seconds * 1_000_000_000 + end.nanos == now.seconds * 1_000_000_000 + now.nanos
                + span.seconds * 1_000_000_000 + span.nanos
        }),
{
    let sum = now.total() + span.total();
    assert(sum == (sum / NANOS as int) * NANOS as int + sum % NANOS as int) by (nonlinear_arith)
        requires
            NANOS == 1_000_000_000,
    ;
}

/// Instants are ordered by how many nanoseconds have passed since the start of 1970.
pub proof fn instants_are_ordered(a: Timestamp, b: Timestamp)
    requires
        a.nanos < 1_000_000_000,
        b.nanos < 1_000_000_000,
    ensures
        a.later_than(b) <==> a.seconds * 1_000_000_000 + a.nanos > b.seconds * 1_000_000_000
            + b.nanos,
{
}

/// Which instants and spans can be worked with: every instant of the calendar that is
/// not in a leap second, and every span that leads to one.
pub proof fn what_can_be_worked_with(t: Timestamp, s: Span)
    ensures
        t.ordinary() <==> t.nanos <= 999_999_999 && -8334601228800 <= t.seconds
            && t.seconds <= 8210266876799,
        s.well_formed() <==> s.nanos <= 999_999_999,
        t.ordinary() && s.well_formed() && 0 <= s.seconds && t.seconds + s.seconds < 8210266876799
            ==> t.reaches(s),
{
}

} // verus!
