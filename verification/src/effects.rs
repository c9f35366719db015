use vstd::prelude::*;
use crate::action::Action;
use crate::attr::Attr;
use crate::event::Event;
use crate::game::{Game, GameView};
use crate::input::Input;
use crate::state::{find, lemma_grant, lemma_same_names, same_names, Roster, StateView};
use crate::util::Player;
use crate::visibility::Visibility;

verus! {

impl GameView {
    /// The game with one more attribute for the player.
    pub open spec fn grant(self, player: Seq<char>, attr: Attr) -> GameView {
        GameView { state: self.state.grant(player, attr), ..self }
    }

    /// The game with one more event in its history.
    pub open spec fn record(self, visibility: Visibility, event: Event) -> GameView {
        GameView { log: self.log.push((visibility, event)), ..self }
    }

    /// The game after the player has died, which everybody sees.
    pub open spec fn slay(self, player: Player) -> GameView {
        self.grant(player@, Attr::Dead).record(Visibility::Public, Event::Died(player))
    }

    /// The game after an action of the player has taken effect.
    ///
    /// A kill makes a target dead who is alive and not bulletproof. An
    /// investigation tells the player, and nobody else but the moderator, the
    /// alignment of the target. Protection makes the target bulletproof for
    /// one phase, and a vote counts against the target for one phase. An
    /// order takes effect as the action of the one who is ordered. Nothing
    /// else has any effect.
    pub open spec fn enact(self, player: Player, action: Action) -> GameView
        decreases action,
    {
        match action {
            Action::Kill(target) => if self.state.alive(target@) && !self.state.bulletproof(
                target@,
            ) {
                self.slay(target)
            } else {
                self
            },
            Action::Investigate(target) => self.record(
                Visibility::Player(player),
                Event::FoundAlignment(target, self.state.player_alignment(target@)),
            ),
            Action::Order(minion, inner) => self.enact(minion, *inner),
            Action::Protect(target) => self.grant(
                target@,
                Attr::Phases(1, Box::new(Attr::Bulletproof)),
            ),
            Action::Vote(target) => self.grant(
                target@,
                Attr::Phases(1, Box::new(Attr::ReceivedVotes(1))),
            ),
            _ => self,
        }
    }

    /// Whether the game came about from `earlier`: it began from the same
    /// state, has the same factions and players by name, and its history
    /// begins with the history of `earlier`.
    pub open spec fn follows(self, earlier: GameView) -> bool {
        &&& self.start == earlier.start
        &&& same_names(earlier.state.players, self.state.players)
        &&& same_names(earlier.state.factions, self.state.factions)
        &&& earlier.log.len() <= self.log.len()
        &&& self.log.take(earlier.log.len() as int) == earlier.log
    }

    /// Whether each event is an input that the game admits, or no input.
    pub open spec fn inputs_admitted(self, events: Seq<(Visibility, Event)>) -> bool {
        forall|i: int|
            0 <= i < events.len() ==> ((#[trigger] events[i]).1 matches Event::Input(input)
                ==> self.state.admits(input))
    }

    /// What holds of a game at all times: its state is sound, and the inputs in
    /// its history speak only of its players.
    pub open spec fn wf(self) -> bool {
        &&& self.state.wf()
        &&& self.inputs_admitted(self.log)
    }
}

/// Rosters with the same names know the same targets.
pub proof fn lemma_targets_same_names(action: Action, r: Roster, s: Roster)
    requires
        same_names(r, s),
    ensures
        action.targets_known(r) == action.targets_known(s),
    decreases action,
{
    match action {
        Action::Investigate(t) => lemma_same_names(r, s, t@),
        Action::Kill(t) => lemma_same_names(r, s, t@),
        Action::Protect(t) => lemma_same_names(r, s, t@),
        Action::Vote(t) => lemma_same_names(r, s, t@),
        Action::Order(_, a) => lemma_targets_same_names(*a, r, s),
        _ => {},
    }
}

/// States with the same players by name admit the same inputs.
pub proof fn lemma_admits_same_names(s: StateView, t: StateView, input: Input)
    requires
        same_names(s.players, t.players),
    ensures
        s.admits(input) == t.admits(input),
{
    match input {
        Input::EndPhase => {},
        Input::Use(player, action) => {
            lemma_same_names(s.players, t.players, player@);
            lemma_targets_same_names(action, s.players, t.players);
            match action {
                Action::Immediate(a) => lemma_targets_same_names(*a, s.players, t.players),
                Action::Order(_, inner) => match *inner {
                    Action::Immediate(a) => lemma_targets_same_names(*a, s.players, t.players),
                    _ => {},
                },
                _ => {},
            }
        },
    }
}

/// A game stays as it must be when its state stays sound, its players keep
/// their names, and its history grows by events that are no inputs, or
/// inputs that it admits.
pub proof fn lemma_carry(g: GameView, h: GameView)
    requires
        g.wf(),
        h.state.wf(),
        same_names(g.state.players, h.state.players),
        g.log.len() <= h.log.len(),
        h.log.take(g.log.len() as int) == g.log,
        h.inputs_admitted(h.log.skip(g.log.len() as int)),
    ensures
        h.wf(),
{
    let n = g.log.len() as int;
    assert forall|i: int| 0 <= i < h.log.len() implies ((#[trigger] h.log[i]).1 matches Event::Input(
        input,
    ) ==> h.state.admits(input)) by {
        if i < n {
            assert(h.log[i] == h.log.take(n)[i]);
            assert(g.log[i] == h.log[i]);
            if let Event::Input(input) = h.log[i].1 {
                lemma_admits_same_names(g.state, h.state, input);
            }
        } else {
            assert(h.log[i] == h.log.skip(n)[i - n]);
        }
    }
}

/// A game that came about from one that came about from a third came about
/// from the third.
pub proof fn lemma_follows(a: GameView, b: GameView, c: GameView)
    requires
        b.follows(a),
        c.follows(b),
    ensures
        c.follows(a),
{
    assert(c.log.take(a.log.len() as int) =~= b.log.take(a.log.len() as int)) by {
        assert forall|i: int| 0 <= i < a.log.len() implies c.log[i] == b.log[i] by {
            assert(c.log.take(b.log.len() as int)[i] == b.log[i]);
        }
    }
    assert forall|i: int| 0 <= i < a.state.players.len() implies #[trigger] a.state.players[i].0
        == c.state.players[i].0 by {
        assert(a.state.players[i].0 == b.state.players[i].0);
    }
    assert forall|i: int| 0 <= i < a.state.factions.len() implies #[trigger] a.state.factions[i].0
        == c.state.factions[i].0 by {
        assert(a.state.factions[i].0 == b.state.factions[i].0);
    }
}

/// The history with one more event begins with the history.
pub proof fn lemma_record(g: GameView, visibility: Visibility, event: Event)
    ensures
        g.record(visibility, event).log.take(g.log.len() as int) == g.log,
        g.record(visibility, event).log.skip(g.log.len() as int) == seq![(visibility, event)],
{
    let h = g.record(visibility, event);
    assert(h.log.take(g.log.len() as int) =~= g.log);
    assert(h.log.skip(g.log.len() as int) =~= seq![(visibility, event)]);
}

/// An action whose targets are players of the game leaves the game as it
/// must be: only attributes and events are added, and no input.
pub proof fn lemma_enact(g: GameView, player: Player, action: Action)
    requires
        g.wf(),
        action.targets_known(g.state.players),
    ensures
        g.enact(player, action).wf(),
        g.enact(player, action).follows(g),
        g.enact(player, action).phase == g.phase,
        g.enact(player, action).state.seed == g.state.seed,
        g.enact(player, action).state.factions == g.state.factions,
    decreases action,
{
    let h = g.enact(player, action);
    match action {
        Action::Kill(target) => {
            if g.state.alive(target@) && !g.state.bulletproof(target@) {
                lemma_grant(g.state, target@, Attr::Dead);
                lemma_record(g.grant(target@, Attr::Dead), Visibility::Public, Event::Died(target));
                lemma_carry(g, h);
            } else {
                assert(g.log.take(g.log.len() as int) =~= g.log);
            }
        },
        Action::Investigate(target) => {
            lemma_record(
                g,
                Visibility::Player(player),
                Event::FoundAlignment(target, g.state.player_alignment(target@)),
            );
            lemma_carry(g, h);
        },
        Action::Order(minion, inner) => {
            lemma_enact(g, minion, *inner);
        },
        Action::Protect(target) => {
            assert(Attr::Bulletproof.factions_known(g.state.factions));
            lemma_grant(g.state, target@, Attr::Phases(1, Box::new(Attr::Bulletproof)));
            assert(h.log.take(g.log.len() as int) =~= g.log);
            assert(h.log.skip(g.log.len() as int) =~= Seq::empty());
            lemma_carry(g, h);
        },
        Action::Vote(target) => {
            assert(Attr::ReceivedVotes(1).factions_known(g.state.factions));
            lemma_grant(g.state, target@, Attr::Phases(1, Box::new(Attr::ReceivedVotes(1))));
            assert(h.log.take(g.log.len() as int) =~= g.log);
            assert(h.log.skip(g.log.len() as int) =~= Seq::empty());
            lemma_carry(g, h);
        },
        _ => {
            assert(g.log.take(g.log.len() as int) =~= g.log);
        },
    }
}

impl Game {
    /// Gives the player one more attribute.
    pub fn add_attr(&mut self, player: &str, attr: Attr)
        requires
            old(self)@.state.wf(),
            old(self)@.state.knows_player(player@),
        ensures
            final(self)@ == old(self)@.grant(player@, attr),
    {
        let i = find(&self.state.players, player).unwrap();
        self.state.players[i].1.push(attr);
        assert(self@.state.players =~= old(self)@.grant(player@, attr).state.players);
    }

    /// Makes the player dead, which everybody sees.
    pub fn make_dead(&mut self, player: &Player)
        requires
            old(self)@.state.wf(),
            old(self)@.state.knows_player(player@),
        ensures
            final(self)@ == old(self)@.slay(*player),
    {
        self.add_attr(player.as_str(), Attr::Dead);
        self.log.push((Visibility::Public, Event::Died(player.clone())));
    }

    /// Resolve the effects of a single action.
    pub fn resolve_action(&mut self, player: &Player, action: &Action)
        requires
            old(self)@.wf(),
            action.targets_known(old(self)@.state.players),
        ensures
            final(self)@ == old(self)@.enact(*player, *action),
            final(self)@.wf(),
            final(self)@.follows(old(self)@),
        decreases action,
    {
        proof {
            lemma_enact(self@, *player, *action);
        }
        match action {
            Action::Kill(target) => {
                if self.is_alive(target.as_str()) && !self.is_bulletproof(target.as_str()) {
                    self.make_dead(target);
                }
            },
            Action::Investigate(target) => {
                let result = self.get_player_alignment(target.as_str());
                self.log.push(
                    (Visibility::Player(player.clone()), Event::FoundAlignment(target.clone(), result)),
                );
            },
            Action::Order(minion, inner) => self.resolve_action(minion, inner),
            Action::Protect(target) => {
                self.add_attr(target.as_str(), Attr::Phases(1, Box::new(Attr::Bulletproof)));
            },
            Action::Vote(target) => {
                self.add_attr(target.as_str(), Attr::Phases(1, Box::new(Attr::ReceivedVotes(1))));
            },
            _ => {},
        }
    }
}

} // verus!
