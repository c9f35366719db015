use vstd::prelude::*;
use crate::deadline::Deadline;
use crate::effect::Effect;
use crate::phase::Phase;

verus! {

/// An effect on a player, with how long it lasts.
#[derive(Debug, PartialEq, Eq)]
pub struct Modifier {
    pub effect: Effect,
    pub deadline: Deadline,
}

impl Clone for Modifier {
    fn clone(&self) -> (r: Self)
        ensures
            r == *self,
    {
        Modifier { effect: self.effect.clone(), deadline: self.deadline }
    }
}

impl Modifier {
    /// The modifier after the phase has gone by, or nothing where its
    /// deadline has run out: the same effect, with the deadline advanced.
    pub open spec fn spec_advance(self, phase: Phase) -> Option<Modifier> {
        match self.deadline.spec_advance(phase) {
            Some(deadline) => Some(Modifier { effect: self.effect, deadline: deadline }),
            None => None,
        }
    }

    /// An effect that lasts for good.
    pub fn new(effect: Effect) -> (r: Self)
        ensures
            r == (Modifier { effect: effect, deadline: Deadline::Never }),
    {
        Self::new_with_deadline(effect, Deadline::Never)
    }

    /// An effect that lasts until the deadline.
    pub fn new_with_deadline(effect: Effect, deadline: Deadline) -> (r: Self)
        ensures
            r == (Modifier { effect: effect, deadline: deadline }),
    {
        Modifier { effect: effect, deadline: deadline }
    }

    /// The modifier after the phase has gone by, if it still lasts.
    pub fn advance(&self, phase: &Phase) -> (r: Option<Modifier>)
        ensures
            r == self.spec_advance(*phase),
    {
        match self.deadline.advance(phase) {
            Some(deadline) => Some(Modifier::new_with_deadline(self.effect.clone(), deadline)),
            None => None,
        }
    }
}

} // verus!
