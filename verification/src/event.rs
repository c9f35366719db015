use vstd::prelude::*;
use crate::action::Action;
use crate::alignment::Alignment;
use crate::input::Input;
use crate::phase::Phase;
use crate::util::{Faction, Player};

verus! {

/// Event that occurred during a game.
#[derive(Debug, PartialEq, Eq)]
pub enum Event {
    /// Action was accepted and resolved.
    Accepted(Player, Action),
    /// Player died.
    Died(Player),
    /// Investigation yielded alignment.
    FoundAlignment(Player, Alignment),
    /// Game received input.
    Input(Input),
    /// Phase started.
    PhaseBegan(Phase),
    /// Phase ended.
    PhaseEnded(Phase),
    /// Action was rejected because it was invalid or amended.
    Rejected(Player, Action),
    /// Player used action.
    Used(Player, Action),
    /// Player voted to eliminate another player.
    VotedFor(Player, Player),
    /// Faction won.
    Won(Faction),
}

impl Clone for Event {
    fn clone(&self) -> (r: Self)
        ensures
            r == *self,
    {
        match self {
            Event::Accepted(p, a) => Event::Accepted(p.clone(), a.clone()),
            Event::Died(p) => Event::Died(p.clone()),
            Event::FoundAlignment(p, a) => Event::FoundAlignment(p.clone(), *a),
            Event::Input(i) => Event::Input(i.clone()),
            Event::PhaseBegan(p) => Event::PhaseBegan(*p),
            Event::PhaseEnded(p) => Event::PhaseEnded(*p),
            Event::Rejected(p, a) => Event::Rejected(p.clone(), a.clone()),
            Event::Used(p, a) => Event::Used(p.clone(), a.clone()),
            Event::VotedFor(p, t) => Event::VotedFor(p.clone(), t.clone()),
            Event::Won(f) => Event::Won(f.clone()),
        }
    }
}

} // verus!
