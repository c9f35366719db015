use vstd::prelude::*;
use crate::alignment::Alignment;
use crate::util::Faction;

verus! {

/// Win condition of a faction.
#[derive(Debug, PartialEq, Eq)]
pub enum Objective {
    /// Eliminate all players of a given alignment.
    Eliminate(Alignment),
    /// Eliminate all players of a given faction.
    EliminateFaction(Faction),
    /// Outnumber all other surviving players.
    AchieveMajority,
    /// Survive until the end of the game.
    Survive,
}

impl Clone for Objective {
    fn clone(&self) -> (r: Self)
        ensures
            r == *self,
    {
        match self {
            Objective::Eliminate(a) => Objective::Eliminate(*a),
            Objective::EliminateFaction(f) => Objective::EliminateFaction(f.clone()),
            Objective::AchieveMajority => Objective::AchieveMajority,
            Objective::Survive => Objective::Survive,
        }
    }
}

} // verus!
