use vstd::prelude::*;
use crate::phase::Phase;

verus! {

/// How long something lasts: for good, or for a number of days or of nights yet.
#[derive(Debug, Clone, Copy, PartialEq, Eq, Structural)]
pub enum Deadline {
    Never,
    Days(i64),
    Nights(i64),
}

impl Deadline {
    /// The deadline after the phase has gone by, or nothing where it has
    /// run out: a day takes one day off, a night one night, and the last
    /// one of either ends it.
    pub open spec fn spec_advance(self, phase: Phase) -> Option<Deadline> {
        match (self, phase) {
            (Deadline::Days(n), Phase::Day(_)) => if n <= 1 {
                None
            } else {
                Some(Deadline::Days((n - 1) as i64))
            },
            (Deadline::Nights(n), Phase::Night(_)) => if n <= 1 {
                None
            } else {
                Some(Deadline::Nights((n - 1) as i64))
            },
            _ => Some(self),
        }
    }

    /// The deadline after the phase has gone by, if it has not run out.
    pub fn advance(&self, phase: &Phase) -> (r: Option<Deadline>)
        ensures
            r == self.spec_advance(*phase),
    {
        match (*self, phase) {
            (Deadline::Days(n), Phase::Day(_)) => {
                if n <= 1 {
                    None
                } else {
                    Some(Deadline::Days(n - 1))
                }
            },
            (Deadline::Nights(n), Phase::Night(_)) => {
                if n <= 1 {
                    None
                } else {
                    Some(Deadline::Nights(n - 1))
                }
            },
            _ => Some(*self),
        }
    }
}

impl Default for Deadline {
    fn default() -> (r: Self)
        ensures
            r == Deadline::Never,
    {
        Deadline::Never
    }
}

} // verus!
