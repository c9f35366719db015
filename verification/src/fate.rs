use vstd::prelude::*;

verus! {

/// Standing of a faction with respect to its objective.
#[derive(Debug, Clone, Copy, PartialEq, Eq, Structural)]
pub enum Fate {
    /// Would lose if the game were to end right now.
    Losing,
    /// Has irrevocably lost the game.
    Lost,
    /// Would win if the game were to end right now.
    Winning,
    /// Has won the game.
    Won,
}

} // verus!
