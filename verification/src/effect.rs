use vstd::prelude::*;
use crate::ability::Ability;
use crate::deadline::Deadline;
use crate::util::Faction;

verus! {

/// What a modifier does to the player who has it.
#[derive(Debug, PartialEq, Eq)]
pub enum Effect {
    Member(Faction),
    Can(Ability),
    Dead,
    Poisoned(Deadline),
    Protected,
    ReceivedVotes(i64),
}

impl Clone for Effect {
    fn clone(&self) -> (r: Self)
        ensures
            r == *self,
    {
        match self {
            Effect::Member(f) => Effect::Member(f.clone()),
            Effect::Can(a) => Effect::Can(*a),
            Effect::Dead => Effect::Dead,
            Effect::Poisoned(d) => Effect::Poisoned(*d),
            Effect::Protected => Effect::Protected,
            Effect::ReceivedVotes(n) => Effect::ReceivedVotes(*n),
        }
    }
}

} // verus!
