use vstd::prelude::*;
use crate::event::Event;
use crate::phase::Phase;
use crate::state::{State, StateView};
use crate::visibility::Visibility;

verus! {

/// Everything that happened in a game, each event with who may see it.
pub type Log = Vec<(Visibility, Event)>;

/// A game: the state it started from, the state it is in, the current phase
/// and the history so far.
#[derive(Debug, PartialEq, Eq)]
pub struct Game {
    pub start: State,
    pub state: State,
    pub phase: Phase,
    pub log: Log,
}

/// The mathematical value of a `Game`.
pub struct GameView {
    pub start: StateView,
    pub state: StateView,
    pub phase: Phase,
    pub log: Seq<(Visibility, Event)>,
}

impl View for Game {
    type V = GameView;

    open spec fn view(&self) -> GameView {
        GameView { start: self.start@, state: self.state@, phase: self.phase, log: self.log@ }
    }
}

impl Clone for Game {
    fn clone(&self) -> (r: Self)
        ensures
            r@ == self@,
    {
        let mut log: Log = Vec::new();
        let mut i: usize = 0;
        while i < self.log.len()
            invariant
                i <= self.log.len(),
                log.len() == i,
                forall|j: int| 0 <= j < i ==> log[j] == self.log[j],
            decreases self.log.len() - i,
        {
            log.push((self.log[i].0.clone(), self.log[i].1.clone()));
            i += 1;
        }
        assert(log@ =~= self.log@);
        Game { start: self.start.clone(), state: self.state.clone(), phase: self.phase, log: log }
    }
}

impl GameView {
    /// The game as it begins from `state`: in the night before the first
    /// day, with that beginning as its whole history.
    pub open spec fn begin(state: StateView) -> GameView {
        GameView {
            start: state,
            state: state,
            phase: Phase::Night(0),
            log: seq![(Visibility::Public, Event::PhaseBegan(Phase::Night(0)))],
        }
    }
}

impl Game {
    /// A game without factions or players.
    pub fn new() -> (r: Self)
        ensures
            r@ == GameView::begin(StateView { factions: Seq::empty(), players: Seq::empty(), seed: 0 }),
            r@.wf(),
    {
        Self::new_from_state(State::new())
    }

    /// A game that begins from the given state.
    pub fn new_from_state(state: State) -> (r: Self)
        ensures
            r@ == GameView::begin(state@),
            state@.wf() ==> r@.wf(),
    {
        let phase = Phase::Night(0);
        let mut log: Log = Vec::new();
        log.push((Visibility::Public, Event::PhaseBegan(phase)));
        let r = Game { start: state.clone(), state: state, phase: phase, log: log };
        assert(r.log@ =~= seq![(Visibility::Public, Event::PhaseBegan(Phase::Night(0)))]);
        r
    }
}

} // verus!
