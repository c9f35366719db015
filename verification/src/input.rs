use vstd::prelude::*;
use crate::action::Action;
use crate::util::Player;

verus! {

/// What the game is told from outside.
#[derive(Debug, PartialEq, Eq)]
pub enum Input {
    /// Resolve current phase and advance to next phase.
    EndPhase,
    /// Use an action.
    Use(Player, Action),
}

/// Inputs in the order in which they came.
pub type Inputs = Vec<Input>;

impl Clone for Input {
    fn clone(&self) -> (r: Self)
        ensures
            r == *self,
    {
        match self {
            Input::EndPhase => Input::EndPhase,
            Input::Use(p, a) => Input::Use(p.clone(), a.clone()),
        }
    }
}

} // verus!
