use vstd::prelude::*;

verus! {

/// Whether a player is still in the game.
#[derive(Debug, Clone, Copy, PartialEq, Eq, PartialOrd, Ord, Structural)]
pub enum PlayerStatus {
    /// Player is currently alive.
    Alive,
    /// Player is currently dead.
    Dead,
}

impl PlayerStatus {
    /// The status of a player who is alive, or is not.
    pub fn alive(alive: bool) -> (r: Self)
        ensures
            r == (if alive {
                PlayerStatus::Alive
            } else {
                PlayerStatus::Dead
            }),
    {
        if alive {
            PlayerStatus::Alive
        } else {
            PlayerStatus::Dead
        }
    }

    /// Whether the status is that of a living player.
    pub fn is_alive(self) -> (r: bool)
        ensures
            r == (self == PlayerStatus::Alive),
    {
        match self {
            PlayerStatus::Alive => true,
            PlayerStatus::Dead => false,
        }
    }
}

} // verus!
