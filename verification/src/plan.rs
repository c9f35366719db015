use vstd::prelude::*;
use crate::action::Action;
use crate::attr::Attr;
use crate::effects::{lemma_carry, lemma_targets_same_names};
use crate::event::Event;
use crate::game::{Game, GameView};
use crate::input::Input;
use crate::names::same_name;
use crate::census::seconds;
use crate::order::{into_seconds, keyed, lemma_ranked, ranked, reversed, sort_by_rank};
use crate::util::Player;
use crate::phase::Phase;
use crate::state::{
    faction_sound, find, knows, lemma_factions_known_same, lemma_same_names, name_at,
    player_sound, same_names, slot, StateView,
};
use crate::visibility::Visibility;

verus! {

/// The inputs of the current phase, from the first to the last: those in the
/// history since a phase last began.
pub open spec fn phase_inputs(log: Seq<(Visibility, Event)>) -> Seq<Input>
    decreases log.len(),
{
    if log.len() == 0 {
        Seq::empty()
    } else {
        match log.last().1 {
            Event::PhaseBegan(_) => Seq::empty(),
            Event::Input(input) => phase_inputs(log.drop_last()).push(input),
            _ => phase_inputs(log.drop_last()),
        }
    }
}

/// Every input of the current phase is an input in the history.
pub proof fn lemma_phase_inputs(log: Seq<(Visibility, Event)>, k: int)
    requires
        0 <= k < phase_inputs(log).len(),
    ensures
        exists|i: int| 0 <= i < log.len() && (#[trigger] log[i]).1 == Event::Input(phase_inputs(log)[k]),
    decreases log.len(),
{
    let rest = log.drop_last();
    match log.last().1 {
        Event::Input(input) => {
            if k == phase_inputs(rest).len() {
                assert(log[log.len() - 1].1 == Event::Input(input));
            } else {
                lemma_phase_inputs(rest, k);
                let i = choose|i: int|
                    0 <= i < rest.len() && (#[trigger] rest[i]).1 == Event::Input(phase_inputs(rest)[k]);
                assert(log[i] == rest[i]);
            }
        },
        _ => {
            lemma_phase_inputs(rest, k);
            let i = choose|i: int|
                0 <= i < rest.len() && (#[trigger] rest[i]).1 == Event::Input(phase_inputs(rest)[k]);
            assert(log[i] == rest[i]);
        },
    }
}

/// Where an attribute that grants an action stands: with a faction or with a
/// player, given by the place of that one among the factions or the players
/// and the place of the attribute among the attributes.
#[derive(Debug, Clone, Copy, PartialEq, Eq, Structural)]
pub enum Grant {
    Faction(usize, usize),
    Own(usize, usize),
}

/// The first of the first `n` attributes that allows the action, if any does.
pub open spec fn first_allowing_upto(
    attrs: Seq<Attr>,
    phase: Phase,
    actor: Seq<char>,
    action: Action,
    n: int,
) -> Option<int>
    decreases n,
{
    if n <= 0 {
        None
    } else {
        match first_allowing_upto(attrs, phase, actor, action, n - 1) {
            Some(k) => Some(k),
            None => if attrs[n - 1].spec_allows_action(phase, actor, action) {
                Some(n - 1)
            } else {
                None
            },
        }
    }
}

/// The oldest attribute that allows the action, if any does.
pub open spec fn first_allowing(attrs: Seq<Attr>, phase: Phase, actor: Seq<char>, action: Action) -> Option<int> {
    first_allowing_upto(attrs, phase, actor, action, attrs.len() as int)
}

impl StateView {
    /// Whether the player leads the `f`-th faction.
    pub open spec fn leads(self, player: Seq<char>, f: int) -> bool {
        match self.leader(name_at(self.factions, f)) {
            Some(leader) => leader@ == player,
            None => false,
        }
    }

    /// The first attribute that allows the action among those of the first
    /// `n` factions, looking only at factions that the player leads.
    pub open spec fn faction_grant_upto(self, phase: Phase, player: Seq<char>, action: Action, n: int) -> Option<Grant>
        decreases n,
    {
        if n <= 0 {
            None
        } else {
            match self.faction_grant_upto(phase, player, action, n - 1) {
                Some(g) => Some(g),
                None => if self.leads(player, n - 1) {
                    match first_allowing(self.factions[n - 1].1, phase, player, action) {
                        Some(k) => Some(Grant::Faction((n - 1) as usize, k as usize)),
                        None => None,
                    }
                } else {
                    None
                },
            }
        }
    }

    /// The attribute by which the player may take the action in the phase:
    /// the first that allows it among the attributes of the factions that the
    /// player leads, else among the player's own.
    pub open spec fn find_grant(self, phase: Phase, player: Seq<char>, action: Action) -> Option<Grant> {
        match self.faction_grant_upto(phase, player, action, self.factions.len() as int) {
            Some(g) => Some(g),
            None => match first_allowing(self.player_attrs(player), phase, player, action) {
                Some(k) => Some(Grant::Own(slot(self.players, player) as usize, k as usize)),
                None => None,
            },
        }
    }

    /// Whether an attribute stands where the grant says, and grants an action.
    pub open spec fn holds(self, grant: Grant) -> bool {
        match grant {
            Grant::Faction(i, k) => i < self.factions.len() && k < self.factions[i as int].1.len()
                && self.factions[i as int].1[k as int].spec_get_action() is Some,
            Grant::Own(i, k) => i < self.players.len() && k < self.players[i as int].1.len()
                && self.players[i as int].1[k as int].spec_get_action() is Some,
        }
    }

    /// The state with the attribute at the grant tapped.
    pub open spec fn tap(self, grant: Grant) -> StateView {
        match grant {
            Grant::Faction(i, k) => {
                let (name, attrs) = self.factions[i as int];
                StateView {
                    factions: self.factions.update(
                        i as int,
                        (name, attrs.update(k as int, attrs[k as int].spec_tap())),
                    ),
                    ..self
                }
            },
            Grant::Own(i, k) => {
                let (name, attrs) = self.players[i as int];
                StateView {
                    players: self.players.update(
                        i as int,
                        (name, attrs.update(k as int, attrs[k as int].spec_tap())),
                    ),
                    ..self
                }
            },
        }
    }
}

/// A sound state stays sound when an attribute that grants an action is
/// tapped; no name changes.
pub proof fn lemma_tap(s: StateView, grant: Grant)
    requires
        s.wf(),
        s.holds(grant),
    ensures
        s.tap(grant).wf(),
        same_names(s.players, s.tap(grant).players),
        same_names(s.factions, s.tap(grant).factions),
        s.tap(grant).seed == s.seed,
{
    let t = s.tap(grant);
    assert(same_names(s.players, t.players));
    assert(same_names(s.factions, t.factions));
    lemma_same_names(s.players, t.players, Seq::empty());
    lemma_same_names(s.factions, t.factions, Seq::empty());
    assert forall|name: Seq<char>| knows(s.factions, name) == knows(t.factions, name) by {
        lemma_same_names(s.factions, t.factions, name);
    }
    assert forall|a: Attr| a.factions_known(s.factions) == a.factions_known(t.factions) by {
        lemma_factions_known_same(a, s.factions, t.factions);
    }
    match grant {
        Grant::Faction(i, k) => {
            assert forall|j: int| 0 <= j < t.factions.len() implies faction_sound(
                (#[trigger] t.factions[j]).1,
            ) by {
                assert(faction_sound(s.factions[j].1));
                if j == i {
                    let before = s.factions[j].1;
                    let after = t.factions[j].1;
                    let a = choose|m: int| 0 <= m < before.len() && #[trigger] before[m] is Alignment;
                    let o = choose|m: int| 0 <= m < before.len() && #[trigger] before[m] is Objective;
                    assert(after[a] is Alignment);
                    assert(after[o] is Objective);
                    assert forall|m: int| 0 <= m < after.len() implies (#[trigger] after[m]).can_expire() by {
                        assert(before[m].can_expire());
                    }
                }
            }
            assert forall|j: int| 0 <= j < t.players.len() implies player_sound(
                (#[trigger] t.players[j]).1,
                t.factions,
            ) by {
                assert(player_sound(s.players[j].1, s.factions));
            }
        },
        Grant::Own(i, k) => {
            assert forall|j: int| 0 <= j < t.players.len() implies player_sound(
                (#[trigger] t.players[j]).1,
                t.factions,
            ) by {
                assert(player_sound(s.players[j].1, s.factions));
                if j == i {
                    let before = s.players[j].1;
                    let after = t.players[j].1;
                    let w = choose|m: int| 0 <= m < before.len() && #[trigger] before[m] is Member;
                    assert(after[w] is Member);
                    assert forall|m: int| 0 <= m < after.len() implies (#[trigger] after[m]).can_expire()
                        && after[m].factions_known(t.factions) by {
                        assert(before[m].can_expire());
                        assert(before[m].factions_known(s.factions));
                    }
                }
            }
        },
    }
}

/// What the plan of a phase has come to while the inputs of the phase are
/// gone through: the state, with the attributes tapped that were used; who
/// has acted; the actions that were accepted; and what was decided on each
/// input, the last three in the order in which they were decided.
pub struct Draft {
    pub state: StateView,
    pub acted: Seq<Player>,
    pub plan: Seq<(Player, Action)>,
    pub verdicts: Seq<(Visibility, Event)>,
}

/// Whether one of the names is spelled so.
pub open spec fn has_name(names: Seq<Player>, name: Seq<char>) -> bool {
    exists|i: int| 0 <= i < names.len() && (#[trigger] names[i])@ == name
}

/// The actions by rising precedence, actions of one precedence in the given order.
pub open spec fn by_precedence(plan: Seq<(Player, Action)>) -> Seq<(Player, Action)> {
    seconds(ranked(Seq::new(plan.len(), |i: int| (plan[i].1.spec_precedence() as int, plan[i]))))
}

impl Draft {
    /// The draft after the player's action has been decided on: it is
    /// accepted where the player has not acted yet in this phase and holds an
    /// attribute that allows it, which is then tapped, and rejected otherwise.
    /// The moderator alone sees which.
    pub open spec fn submit(self, phase: Phase, player: Player, action: Action) -> Draft {
        let grant = self.state.find_grant(phase, player@, action);
        if !has_name(self.acted, player@) && grant is Some {
            Draft {
                state: self.state.tap(grant.unwrap()),
                acted: self.acted.push(player),
                plan: self.plan.push((player, action)),
                verdicts: self.verdicts.push((Visibility::Moderator, Event::Accepted(player, action))),
            }
        } else {
            Draft {
                verdicts: self.verdicts.push((Visibility::Moderator, Event::Rejected(player, action))),
                ..self
            }
        }
    }
}

/// The draft after all the inputs have been gone through, from the last to
/// the first. Only actions that are used count, and of those only the ones
/// that are not to be resolved at once.
pub open spec fn draft(state: StateView, phase: Phase, inputs: Seq<Input>) -> Draft
    decreases inputs.len(),
{
    if inputs.len() == 0 {
        Draft { state: state, acted: Seq::empty(), plan: Seq::empty(), verdicts: Seq::empty() }
    } else {
        let later = draft(state, phase, inputs.skip(1));
        match inputs[0] {
            Input::Use(player, action) => if action is Immediate {
                later
            } else {
                later.submit(phase, player, action)
            },
            Input::EndPhase => later,
        }
    }
}

impl GameView {
    /// The draft of the plan of the current phase.
    pub open spec fn draft(self) -> Draft {
        draft(self.state, self.phase, phase_inputs(self.log))
    }

    /// The game after the plan of the current phase has been made: the
    /// attributes that were used are tapped, and the history says of each
    /// action, in the order in which they were submitted, whether it was
    /// accepted.
    pub open spec fn planned(self) -> GameView {
        GameView { state: self.draft().state, log: self.log + self.draft().verdicts.reverse(), ..self }
    }

    /// The plan of the current phase: the accepted actions by rising
    /// precedence, actions of one precedence in the order in which they were
    /// submitted.
    pub open spec fn schedule(self) -> Seq<(Player, Action)> {
        by_precedence(self.draft().plan.reverse())
    }
}

impl StateView {
    /// Whether the state can be held: its factions, its players and the
    /// attributes of each can be counted.
    pub open spec fn bounded(self) -> bool {
        &&& self.factions.len() <= usize::MAX
        &&& self.players.len() <= usize::MAX
        &&& forall|i: int| 0 <= i < self.factions.len() ==> (#[trigger] self.factions[i]).1.len() <= usize::MAX
        &&& forall|i: int| 0 <= i < self.players.len() ==> (#[trigger] self.players[i]).1.len() <= usize::MAX
    }
}

/// What is found is an attribute that allows the action.
pub proof fn lemma_first_allowing(attrs: Seq<Attr>, phase: Phase, actor: Seq<char>, action: Action, n: int)
    requires
        n <= attrs.len(),
    ensures
        first_allowing_upto(attrs, phase, actor, action, n) matches Some(k) ==> 0 <= k < n
            && attrs[k].spec_allows_action(phase, actor, action),
    decreases n,
{
    if n > 0 {
        lemma_first_allowing(attrs, phase, actor, action, n - 1);
    }
}

/// What is found among the factions is an attribute of a faction, and it
/// grants an action.
pub proof fn lemma_faction_grant(s: StateView, phase: Phase, player: Seq<char>, action: Action, n: int)
    requires
        s.bounded(),
        n <= s.factions.len(),
    ensures
        s.faction_grant_upto(phase, player, action, n) matches Some(g) ==> s.holds(g) && g is Faction,
    decreases n,
{
    if n > 0 {
        lemma_faction_grant(s, phase, player, action, n - 1);
        lemma_first_allowing(s.factions[n - 1].1, phase, player, action, s.factions[n - 1].1.len() as int);
    }
}

/// The attribute by which a player of the game may take an action stands
/// where the grant says: with a faction, or with that player.
pub proof fn lemma_find_grant(s: StateView, phase: Phase, player: Seq<char>, action: Action)
    requires
        s.bounded(),
        s.knows_player(player),
    ensures
        s.find_grant(phase, player, action) matches Some(g) ==> s.holds(g) && (g matches Grant::Own(i, _)
            ==> i == slot(s.players, player)),
{
    lemma_faction_grant(s, phase, player, action, s.factions.len() as int);
    let i = slot(s.players, player);
    assert(name_at(s.players, i) == player);
    lemma_first_allowing(s.players[i].1, phase, player, action, s.players[i].1.len() as int);
}

/// Making the plan of a phase from inputs that the state admits leaves the
/// state sound, with the same names and the same counter; every action in
/// the plan has targets that are players, and no verdict is an input.
pub proof fn lemma_draft(state: StateView, phase: Phase, inputs: Seq<Input>)
    requires
        state.wf(),
        state.bounded(),
        forall|i: int| 0 <= i < inputs.len() ==> state.admits(#[trigger] inputs[i]),
    ensures
        draft(state, phase, inputs).state.wf(),
        draft(state, phase, inputs).state.bounded(),
        draft(state, phase, inputs).state.seed == state.seed,
        same_names(state.players, draft(state, phase, inputs).state.players),
        same_names(state.factions, draft(state, phase, inputs).state.factions),
        forall|i: int|
            0 <= i < draft(state, phase, inputs).plan.len() ==> (#[trigger] draft(
                state,
                phase,
                inputs,
            ).plan[i]).1.targets_known(state.players),
        forall|i: int|
            0 <= i < draft(state, phase, inputs).verdicts.len() ==> !((#[trigger] draft(
                state,
                phase,
                inputs,
            ).verdicts[i]).1 is Input),
    decreases inputs.len(),
{
    let d = draft(state, phase, inputs);
    if inputs.len() == 0 {
        lemma_same_names(state.players, state.players, Seq::empty());
    } else {
        let rest = inputs.skip(1);
        assert forall|i: int| 0 <= i < rest.len() implies state.admits(#[trigger] rest[i]) by {
            assert(rest[i] == inputs[i + 1]);
        }
        lemma_draft(state, phase, rest);
        let later = draft(state, phase, rest);
        assert(state.admits(inputs[0]));
        match inputs[0] {
            Input::Use(player, action) => {
                if !(action is Immediate) {
                    lemma_same_names(state.players, later.state.players, player@);
                    lemma_find_grant(later.state, phase, player@, action);
                    let grant = later.state.find_grant(phase, player@, action);
                    if !has_name(later.acted, player@) && grant is Some {
                        lemma_tap(later.state, grant.unwrap());
                        let t = later.state.tap(grant.unwrap());
                        assert forall|i: int| 0 <= i < state.players.len() implies #[trigger] state.players[i].0
                            == t.players[i].0 by {
                            assert(state.players[i].0 == later.state.players[i].0);
                        }
                        assert forall|i: int| 0 <= i < state.factions.len() implies #[trigger] state.factions[i].0
                            == t.factions[i].0 by {
                            assert(state.factions[i].0 == later.state.factions[i].0);
                        }
                        assert forall|i: int| 0 <= i < d.plan.len() implies (#[trigger] d.plan[i]).1.targets_known(
                            state.players,
                        ) by {
                            if i < later.plan.len() {
                                assert(d.plan[i] == later.plan[i]);
                            }
                        }
                    }
                    assert forall|i: int| 0 <= i < d.verdicts.len() implies !((#[trigger] d.verdicts[i]).1 is Input) by {
                        if i < later.verdicts.len() {
                            assert(d.verdicts[i] == later.verdicts[i]);
                        }
                    }
                }
            },
            Input::EndPhase => {},
        }
    }
}

/// Each action of a plan in order is an action of the plan.
pub proof fn lemma_by_precedence(plan: Seq<(Player, Action)>)
    ensures
        by_precedence(plan).len() == plan.len(),
        forall|i: int|
            0 <= i < plan.len() ==> exists|j: int|
                0 <= j < plan.len() && plan[j] == #[trigger] by_precedence(plan)[i],
{
    broadcast use vstd::seq_lib::group_to_multiset_ensures;

    let tagged = Seq::new(plan.len(), |i: int| (plan[i].1.spec_precedence() as int, plan[i]));
    lemma_ranked(tagged);
    let sorted = ranked(tagged);
    assert forall|i: int| 0 <= i < plan.len() implies exists|j: int|
        0 <= j < plan.len() && plan[j] == #[trigger] by_precedence(plan)[i] by {
        assert(sorted.to_multiset().count(sorted[i]) > 0);
        assert(tagged.contains(sorted[i]));
        let j = choose|j: int| 0 <= j < tagged.len() && tagged[j] == sorted[i];
        assert(plan[j] == by_precedence(plan)[i]);
    }
}

/// The first of the attributes that allows the action, if any does.
pub fn first_allowed(attrs: &Vec<Attr>, phase: &Phase, actor: &str, action: &Action) -> (r: Option<usize>)
    ensures
        match r {
            Some(k) => first_allowing(attrs@, *phase, actor@, *action) == Some(k as int)
                && k < attrs.len() && attrs[k as int].spec_allows_action(*phase, actor@, *action),
            None => first_allowing(attrs@, *phase, actor@, *action) is None,
        },
{
    let mut k: usize = 0;
    while k < attrs.len()
        invariant
            k <= attrs.len(),
            first_allowing_upto(attrs@, *phase, actor@, *action, k as int) is None,
        decreases attrs.len() - k,
    {
        if attrs[k].allows_action(phase, actor, action) {
            proof {
                lemma_found_stays(attrs@, *phase, actor@, *action, k as int + 1, attrs.len() as int);
            }
            return Some(k);
        }
        k += 1;
    }
    None
}

/// What is found among the first attributes is found among more of them.
pub proof fn lemma_found_stays(attrs: Seq<Attr>, phase: Phase, actor: Seq<char>, action: Action, n: int, m: int)
    requires
        n <= m,
        first_allowing_upto(attrs, phase, actor, action, n) is Some,
    ensures
        first_allowing_upto(attrs, phase, actor, action, m) == first_allowing_upto(
            attrs,
            phase,
            actor,
            action,
            n,
        ),
    decreases m - n,
{
    if n < m {
        lemma_found_stays(attrs, phase, actor, action, n, m - 1);
    }
}

/// What is found among the first factions is found among more of them.
pub proof fn lemma_faction_grant_stays(s: StateView, phase: Phase, player: Seq<char>, action: Action, n: int, m: int)
    requires
        n <= m,
        s.faction_grant_upto(phase, player, action, n) is Some,
    ensures
        s.faction_grant_upto(phase, player, action, m) == s.faction_grant_upto(phase, player, action, n),
    decreases m - n,
{
    if n < m {
        lemma_faction_grant_stays(s, phase, player, action, n, m - 1);
    }
}

/// Whether one of the names is spelled like `name`.
pub fn is_among(names: &Vec<Player>, name: &str) -> (r: bool)
    ensures
        r == has_name(names@, name@),
{
    let mut i: usize = 0;
    while i < names.len()
        invariant
            i <= names.len(),
            forall|j: int| 0 <= j < i ==> (#[trigger] names@[j])@ != name@,
        decreases names.len() - i,
    {
        if same_name(names[i].as_str(), name) {
            return true;
        }
        i += 1;
    }
    false
}

/// The actions by rising precedence, actions of one precedence in the given order.
pub fn sort_plan(plan: Vec<(Player, Action)>) -> (r: Vec<(Player, Action)>)
    ensures
        r@ == by_precedence(plan@),
{
    let ghost tagged = Seq::new(plan@.len(), |i: int| (plan@[i].1.spec_precedence() as int, plan@[i]));
    let mut stack = reversed(plan);
    let mut ranks: Vec<(i128, (Player, Action))> = Vec::new();
    while stack.len() > 0
        invariant
            stack.len() <= plan.len(),
            forall|j: int| 0 <= j < stack.len() ==> stack[j] == plan[plan.len() - 1 - j],
            ranks.len() == plan.len() - stack.len(),
            forall|j: int| 0 <= j < ranks.len() ==> ranks[j].0 == plan[j].1.spec_precedence() && ranks[j].1 == plan[j],
        decreases stack.len(),
    {
        let entry = stack.pop().unwrap();
        let rank = entry.1.precedence();
        ranks.push((rank as i128, entry));
    }
    assert(keyed(ranks@) =~= tagged);
    let sorted = sort_by_rank(ranks);
    let out = into_seconds(sorted);
    assert(out@ =~= seconds(keyed(sorted@)));
    out
}

impl Game {
    /// Return the first placeholder action matching the given action, if any:
    /// where the attribute stands by which the player may take the action.
    pub fn resolve_get_action(&self, player: &str, action: &Action) -> (r: Option<Grant>)
        requires
            self@.state.wf(),
            self@.state.knows_player(player@),
        ensures
            r == self@.state.find_grant(self.phase, player@, *action),
            r matches Some(g) ==> self@.state.holds(g),
    {
        let mut f: usize = 0;
        while f < self.state.factions.len()
            invariant
                f <= self.state.factions.len(),
                self@.state.wf(),
                self@.state.faction_grant_upto(self.phase, player@, *action, f as int) is None,
            decreases self.state.factions.len() - f,
        {
            let leads = match self.get_leader(self.state.factions[f].0.as_str()) {
                Some(leader) => same_name(leader.as_str(), player),
                None => false,
            };
            assert(leads == self@.state.leads(player@, f as int));
            if leads {
                match first_allowed(&self.state.factions[f].1, &self.phase, player, action) {
                    Some(k) => {
                        proof {
                            assert(self@.state.factions[f as int].1 == self.state.factions[f as int].1@);
                            lemma_faction_grant_stays(
                                self@.state,
                                self.phase,
                                player@,
                                *action,
                                f as int + 1,
                                self.state.factions.len() as int,
                            );
                        }
                        return Some(Grant::Faction(f, k));
                    },
                    None => {},
                }
            }
            f += 1;
        }
        let i = find(&self.state.players, player).unwrap();
        match first_allowed(&self.state.players[i].1, &self.phase, player, action) {
            Some(k) => Some(Grant::Own(i, k)),
            None => None,
        }
    }

    /// Marks the attribute at the grant as used.
    pub fn tap_grant(&mut self, grant: Grant)
        requires
            old(self)@.state.holds(grant),
        ensures
            final(self)@ == (GameView { state: old(self)@.state.tap(grant), ..old(self)@ }),
    {
        match grant {
            Grant::Faction(i, k) => {
                let tapped = self.state.factions[i].1[k].tap();
                self.state.factions[i].1[k] = tapped;
                assert(self@.state.factions =~= old(self)@.state.tap(grant).factions);
            },
            Grant::Own(i, k) => {
                let tapped = self.state.players[i].1[k].tap();
                self.state.players[i].1[k] = tapped;
                assert(self@.state.players =~= old(self)@.state.tap(grant).players);
            },
        }
    }

    /// Build a plan of the actions to resolve and the order to resolve them in.
    pub fn resolve_build_plan(&mut self) -> (plan: Vec<(Player, Action)>)
        requires
            old(self)@.wf(),
        ensures
            final(self)@ == old(self)@.planned(),
            plan@ == old(self)@.schedule(),
            final(self)@.wf(),
            final(self)@.follows(old(self)@),
            final(self)@.state.seed == old(self)@.state.seed,
            forall|i: int| 0 <= i < plan@.len() ==> (#[trigger] plan@[i]).1.targets_known(final(self)@.state.players),
    {
        let inputs = self.get_phase_inputs();
        let mut plan: Vec<(Player, Action)> = Vec::new();
        let mut verdicts: Vec<(Visibility, Event)> = Vec::new();
        let mut acted: Vec<Player> = Vec::new();
        let mut k = inputs.len();
        let ghost before = self@;
        proof {
            assert(inputs@.subrange(k as int, inputs@.len() as int) =~= Seq::empty());
            assert forall|j: int| 0 <= j < inputs@.len() implies before.state.admits(#[trigger] inputs@[j]) by {
                lemma_phase_inputs(before.log, j);
            }
            lemma_same_names(before.state.players, before.state.players, Seq::empty());
        }
        while k > 0
            invariant
                k <= inputs.len(),
                before.wf(),
                self@.start == before.start,
                self@.phase == before.phase,
                self@.log == before.log,
                self@.state.seed == before.state.seed,
                self@.state.wf(),
                same_names(before.state.players, self@.state.players),
                same_names(before.state.factions, self@.state.factions),
                forall|j: int| 0 <= j < inputs@.len() ==> before.state.admits(#[trigger] inputs@[j]),
                (Draft { state: self@.state, acted: acted@, plan: plan@, verdicts: verdicts@ }) == draft(
                    before.state,
                    before.phase,
                    inputs@.subrange(k as int, inputs@.len() as int),
                ),
                forall|i: int| 0 <= i < plan@.len() ==> (#[trigger] plan@[i]).1.targets_known(before.state.players),
                forall|i: int| 0 <= i < verdicts@.len() ==> !((#[trigger] verdicts@[i]).1 is Input),
            decreases k,
        {
            k -= 1;
            let ghost later = Draft { state: self@.state, acted: acted@, plan: plan@, verdicts: verdicts@ };
            proof {
                let rest = inputs@.subrange(k as int, inputs@.len() as int);
                assert(rest.skip(1) =~= inputs@.subrange(k as int + 1, inputs@.len() as int));
                assert(rest[0] == inputs@[k as int]);
                assert(before.state.admits(inputs@[k as int]));
            }
            match &inputs[k] {
                Input::Use(player, action) => {
                    let immediate = match action {
                        Action::Immediate(_) => true,
                        _ => false,
                    };
                    if !immediate {
                        proof {
                            lemma_same_names(before.state.players, self@.state.players, player@);
                        }
                        let grant = if is_among(&acted, player.as_str()) {
                            None
                        } else {
                            self.resolve_get_action(player.as_str(), action)
                        };
                        match grant {
                            Some(g) => {
                                proof {
                                    lemma_tap(self@.state, g);
                                }
                                plan.push((player.clone(), action.clone()));
                                self.tap_grant(g);
                                acted.push(player.clone());
                                verdicts.push(
                                    (Visibility::Moderator, Event::Accepted(player.clone(), action.clone())),
                                );
                            },
                            None => {
                                verdicts.push(
                                    (Visibility::Moderator, Event::Rejected(player.clone(), action.clone())),
                                );
                            },
                        }
                        assert((Draft { state: self@.state, acted: acted@, plan: plan@, verdicts: verdicts@ })
                            == later.submit(before.phase, *player, *action));
                    }
                },
                _ => {},
            }
        }
        proof {
            assert(inputs@.subrange(0, inputs@.len() as int) =~= inputs@);
        }
        let ghost drafted = before.draft();
        let plan = reversed(plan);
        let mut verdicts = reversed(verdicts);
        proof {
            lemma_by_precedence(plan@);
            assert forall|i: int| 0 <= i < plan@.len() implies (#[trigger] by_precedence(plan@)[i]).1.targets_known(
                self@.state.players,
            ) by {
                let j = choose|j: int| 0 <= j < plan@.len() && plan@[j] == by_precedence(plan@)[i];
                assert(plan@[j] == drafted.plan[plan@.len() - 1 - j]);
                lemma_targets_same_names(plan@[j].1, before.state.players, self@.state.players);
            }
        }
        let plan = sort_plan(plan);
        self.log.append(&mut verdicts);
        proof {
            let h = self@;
            assert(h.log.take(before.log.len() as int) =~= before.log);
            assert(h.log.skip(before.log.len() as int) =~= drafted.verdicts.reverse());
            lemma_carry(before, h);
        }
        plan
    }

    /// Return inputs from the current phase.
    pub fn get_phase_inputs(&self) -> (r: Vec<Input>)
        ensures
            r@ == phase_inputs(self.log@),
    {
        let mut inputs: Vec<Input> = Vec::new();
        let mut i = self.log.len();
        proof {
            assert(self.log@.take(i as int) =~= self.log@);
            assert(inputs@.reverse() =~= Seq::empty());
            assert(phase_inputs(self.log@) + inputs@.reverse() =~= phase_inputs(self.log@));
        }
        while i > 0
            invariant_except_break
                i <= self.log.len(),
                phase_inputs(self.log@) == phase_inputs(self.log@.take(i as int)) + inputs@.reverse(),
            ensures
                phase_inputs(self.log@) == inputs@.reverse(),
            decreases i,
        {
            let ghost upto = self.log@.take(i as int);
            let ghost before = inputs@;
            i -= 1;
            proof {
                assert(upto.last() == self.log@[i as int]);
                assert(upto.drop_last() =~= self.log@.take(i as int));
            }
            match &self.log[i].1 {
                Event::PhaseBegan(_) => {
                    proof {
                        assert(phase_inputs(upto) + before.reverse() =~= before.reverse());
                    }
                    break;
                },
                Event::Input(input) => {
                    inputs.push(input.clone());
                    proof {
                        let rest = phase_inputs(self.log@.take(i as int));
                        assert(inputs@.reverse() =~= seq![*input] + before.reverse());
                        assert(rest.push(*input) + before.reverse() =~= rest + inputs@.reverse());
                    }
                },
                _ => {},
            }
            proof {
                if i == 0 {
                    assert(phase_inputs(self.log@.take(0)) + inputs@.reverse() =~= inputs@.reverse());
                }
            }
        }
        reversed(inputs)
    }
}

} // verus!
