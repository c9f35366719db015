use vstd::prelude::*;
use crate::util::{Faction, Player};

verus! {

/// Who may see an event; also who an observer of the game is.
#[derive(Debug, PartialEq, Eq)]
pub enum Visibility {
    Faction(Faction),
    Moderator,
    Player(Player),
    Public,
}

impl Clone for Visibility {
    fn clone(&self) -> (r: Self)
        ensures
            r == *self,
    {
        match self {
            Visibility::Faction(f) => Visibility::Faction(f.clone()),
            Visibility::Moderator => Visibility::Moderator,
            Visibility::Player(p) => Visibility::Player(p.clone()),
            Visibility::Public => Visibility::Public,
        }
    }
}

} // verus!
