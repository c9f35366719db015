use vstd::prelude::*;
use vstd::std_specs::cmp::PartialEqSpec;

verus! {

/// Name of a faction.
pub type Faction = String;

/// Name of a player.
pub type Player = String;

/// Name of either a player or a faction.
pub type PlayerOrFaction = String;

/// Values that can tell whether they are the default of their type.
pub trait IsDefault {
    fn is_default(&self) -> bool;
}

impl<T> IsDefault for T where T: Default + PartialEq {
    fn is_default(&self) -> (r: bool)
        ensures
            T::obeys_eq_spec() ==> exists|d: T| call_ensures(T::default, (), d) && r == self.eq_spec(&d),
    {
        let d = T::default();
        self.eq(&d)
    }
}

} // verus!
