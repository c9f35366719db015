use vstd::prelude::*;

verus! {

/// Something a player can do to another player.
#[derive(Debug, Clone, Copy, PartialEq, Eq, PartialOrd, Ord, Structural)]
pub enum Ability {
    /// Investigate a player's alignment.
    Investigate,
    /// Kill a player.
    Kill,
    /// Protect a player from kills.
    Protect,
}

} // verus!
