use vstd::prelude::*;
use crate::action::Action;
use crate::attr::Attr;
use crate::event::Event;
use crate::game::Game;
use crate::input::Input;
use crate::names::{comes_before, lemma_name_before_transitive, name_before};
use crate::phase::Phase;
use crate::state::{faction_sound, find, in_order, name_at, player_sound, roster, State};

verus! {

impl Action {
    /// Whether every player whom resolving the action looks up is among the entries.
    pub fn has_known_targets(&self, players: &Vec<(String, Vec<Attr>)>) -> (r: bool)
        ensures
            r == self.targets_known(roster(players@)),
        decreases self,
    {
        match self {
            Action::Investigate(t) => find(players, t.as_str()).is_some(),
            Action::Kill(t) => find(players, t.as_str()).is_some(),
            Action::Protect(t) => find(players, t.as_str()).is_some(),
            Action::Vote(t) => find(players, t.as_str()).is_some(),
            Action::Order(_, a) => a.has_known_targets(players),
            _ => true,
        }
    }
}

impl Attr {
    /// Whether the attribute can be carried over every phase boundary to come.
    pub fn expires_well(&self) -> (r: bool)
        ensures
            r == self.can_expire(),
        decreases self,
    {
        match self {
            Attr::Phases(n, _) => *n >= 1,
            Attr::Tapped(a) => a.expires_well(),
            _ => true,
        }
    }

    /// Whether every faction that the attribute makes a player a member of is
    /// among the entries.
    pub fn has_known_factions(&self, factions: &Vec<(String, Vec<Attr>)>) -> (r: bool)
        ensures
            r == self.factions_known(roster(factions@)),
        decreases self,
    {
        match self {
            Attr::Member(f, _) => find(factions, f.as_str()).is_some(),
            Attr::Phases(_, a) => a.has_known_factions(factions),
            Attr::Tapped(a) => a.has_known_factions(factions),
            _ => true,
        }
    }
}

/// Whether the entries stand in the order of their names.
pub fn is_in_order(entries: &Vec<(String, Vec<Attr>)>) -> (r: bool)
    ensures
        r == in_order(roster(entries@)),
{
    let ghost names = roster(entries@);
    let mut i: usize = 1;
    while i < entries.len()
        invariant
            1 <= i,
            names == roster(entries@),
            forall|a: int, b: int|
                0 <= a < b < i && b < names.len() ==> name_before(
                    #[trigger] name_at(names, a),
                    #[trigger] name_at(names, b),
                ),
        decreases entries.len() - i,
    {
        if !comes_before(entries[i - 1].0.as_str(), entries[i].0.as_str()) {
            assert(!name_before(name_at(names, i - 1), name_at(names, i as int)));
            return false;
        }
        proof {
            assert(name_before(name_at(names, i - 1), name_at(names, i as int)));
            assert forall|a: int, b: int| 0 <= a < b < i + 1 && b < names.len() implies name_before(
                #[trigger] name_at(names, a),
                #[trigger] name_at(names, b),
            ) by {
                if b == i && a < i - 1 {
                    assert(name_before(name_at(names, a), name_at(names, i - 1)));
                    lemma_name_before_transitive(
                        name_at(names, a),
                        name_at(names, i - 1),
                        name_at(names, i as int),
                    );
                }
            }
        }
        i += 1;
    }
    true
}

/// Whether a player can hold these attributes for good in a game of these factions.
pub fn is_sound_player(attrs: &Vec<Attr>, factions: &Vec<(String, Vec<Attr>)>) -> (r: bool)
    ensures
        r == player_sound(attrs@, roster(factions@)),
{
    let mut member = false;
    let mut k: usize = 0;
    while k < attrs.len()
        invariant
            k <= attrs.len(),
            forall|j: int|
                0 <= j < k ==> (#[trigger] attrs@[j]).can_expire() && attrs@[j].factions_known(
                    roster(factions@),
                ),
            member == exists|j: int| 0 <= j < k && #[trigger] attrs@[j] is Member,
        decreases attrs.len() - k,
    {
        if !attrs[k].expires_well() || !attrs[k].has_known_factions(factions) {
            return false;
        }
        match &attrs[k] {
            Attr::Member(_, _) => {
                member = true;
            },
            _ => {},
        }
        k += 1;
    }
    member
}

/// Whether a faction can hold these attributes for good.
pub fn is_sound_faction(attrs: &Vec<Attr>) -> (r: bool)
    ensures
        r == faction_sound(attrs@),
{
    let mut alignment = false;
    let mut objective = false;
    let mut k: usize = 0;
    while k < attrs.len()
        invariant
            k <= attrs.len(),
            forall|j: int| 0 <= j < k ==> (#[trigger] attrs@[j]).can_expire(),
            alignment == exists|j: int| 0 <= j < k && #[trigger] attrs@[j] is Alignment,
            objective == exists|j: int| 0 <= j < k && #[trigger] attrs@[j] is Objective,
        decreases attrs.len() - k,
    {
        if !attrs[k].expires_well() {
            return false;
        }
        match &attrs[k] {
            Attr::Alignment(_) => {
                alignment = true;
            },
            Attr::Objective(_) => {
                objective = true;
            },
            _ => {},
        }
        k += 1;
    }
    alignment && objective
}

impl State {
    /// Whether the state is one that a game can begin from and be in.
    pub fn is_sound(&self) -> (r: bool)
        ensures
            r == self@.wf(),
    {
        if !is_in_order(&self.factions) || !is_in_order(&self.players) {
            return false;
        }
        let mut i: usize = 0;
        while i < self.players.len()
            invariant
                i <= self.players.len(),
                forall|j: int| 0 <= j < i ==> player_sound((#[trigger] self@.players[j]).1, self@.factions),
            decreases self.players.len() - i,
        {
            if !is_sound_player(&self.players[i].1, &self.factions) {
                assert(!player_sound(self@.players[i as int].1, self@.factions));
                return false;
            }
            i += 1;
        }
        let mut f: usize = 0;
        while f < self.factions.len()
            invariant
                f <= self.factions.len(),
                forall|j: int| 0 <= j < f ==> faction_sound((#[trigger] self@.factions[j]).1),
            decreases self.factions.len() - f,
        {
            if !is_sound_faction(&self.factions[f].1) {
                assert(!faction_sound(self@.factions[f as int].1));
                return false;
            }
            f += 1;
        }
        true
    }

    /// Whether the input speaks only of players of the game.
    pub fn has_room_for(&self, input: &Input) -> (r: bool)
        ensures
            r == self@.admits(*input),
    {
        match input {
            Input::EndPhase => true,
            Input::Use(player, action) => {
                find(&self.players, player.as_str()).is_some() && action.has_known_targets(&self.players)
                    && match action {
                    Action::Immediate(a) => a.has_known_targets(&self.players),
                    Action::Order(_, inner) => match &**inner {
                        Action::Immediate(a) => a.has_known_targets(&self.players),
                        _ => true,
                    },
                    _ => true,
                }
            },
        }
    }
}

impl Game {
    /// Whether the game is as it must be for an input to be applied: its
    /// state is sound, and the inputs in its history speak only of its players.
    pub fn is_sound(&self) -> (r: bool)
        ensures
            r == self@.wf(),
    {
        if !self.state.is_sound() {
            return false;
        }
        let mut i: usize = 0;
        while i < self.log.len()
            invariant
                i <= self.log.len(),
                forall|j: int|
                    0 <= j < i ==> ((#[trigger] self@.log[j]).1 matches Event::Input(input)
                        ==> self@.state.admits(input)),
            decreases self.log.len() - i,
        {
            match &self.log[i].1 {
                Event::Input(input) => {
                    if !self.state.has_room_for(input) {
                        assert(self@.log[i as int].1 == Event::Input(*input));
                        return false;
                    }
                },
                _ => {},
            }
            i += 1;
        }
        true
    }

    /// Whether the game takes the input: it speaks only of players of the
    /// game, and where it ends the phase, the phase can end.
    pub fn accepts(&self, input: &Input) -> (r: bool)
        ensures
            r == (self@.state.admits(*input) && (*input is EndPhase ==> self@.can_end())),
    {
        match input {
            Input::EndPhase => match self.phase {
                Phase::Night(n) => n < i64::MAX,
                Phase::Day(_) => self.state.seed < u64::MAX,
            },
            _ => self.state.has_room_for(input),
        }
    }
}

} // verus!
