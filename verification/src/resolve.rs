use vstd::prelude::*;
use crate::action::Action;
use crate::attr::Attr;
use crate::effects::{
    lemma_carry, lemma_enact, lemma_follows, lemma_record, lemma_targets_same_names,
};
use crate::event::Event;
use crate::fate::Fate;
use crate::game::{Game, GameView};
use crate::input::Input;
use crate::phase::Phase;
use crate::state::{
    faction_sound, lemma_factions_known_same, lemma_same_names, lemma_slot, name_at, player_sound,
    roster, same_names, Roster, StateView,
};
use crate::util::Player;
use crate::visibility::Visibility;

verus! {

/// The attributes as they are after a phase boundary, in their order: each
/// as it carries over, without those that do not.
pub open spec fn expire_attrs(attrs: Seq<Attr>) -> Seq<Attr>
    decreases attrs.len(),
{
    if attrs.len() == 0 {
        Seq::empty()
    } else {
        match attrs.last().spec_next_phase() {
            Some(a) => expire_attrs(attrs.drop_last()).push(a),
            None => expire_attrs(attrs.drop_last()),
        }
    }
}

/// The roster after a phase boundary.
pub open spec fn expire_roster(r: Roster) -> Roster {
    Seq::new(r.len(), |i: int| (r[i].0, expire_attrs(r[i].1)))
}

impl StateView {
    /// The state after a phase boundary: of every faction and every player
    /// the attributes that carry over.
    pub open spec fn expired(self) -> StateView {
        StateView {
            factions: expire_roster(self.factions),
            players: expire_roster(self.players),
            seed: self.seed,
        }
    }

    /// For each of the first `n` factions that has won, that it has, for
    /// everybody to see.
    pub open spec fn winners_upto(self, n: int) -> Seq<(Visibility, Event)>
        decreases n,
    {
        if n <= 0 {
            Seq::empty()
        } else if self.fate(name_at(self.factions, n - 1)) == Fate::Won {
            self.winners_upto(n - 1).push((Visibility::Public, Event::Won(self.factions[n - 1].0)))
        } else {
            self.winners_upto(n - 1)
        }
    }

    /// For each faction that has won, in the order of their names, that it
    /// has, for everybody to see.
    pub open spec fn winners(self) -> Seq<(Visibility, Event)> {
        self.winners_upto(self.factions.len() as int)
    }
}

impl GameView {
    /// The game after the actions of a plan have taken effect one after the other.
    pub open spec fn enact_all(self, plan: Seq<(Player, Action)>) -> GameView
        decreases plan.len(),
    {
        if plan.len() == 0 {
            self
        } else {
            self.enact_all(plan.drop_last()).enact(plan.last().0, plan.last().1)
        }
    }

    /// Whether the current phase can end: the number of the next phase and
    /// the next value of the counter can be held.
    pub open spec fn can_end(self) -> bool {
        &&& self.phase.has_next()
        &&& self.phase is Day ==> self.state.seed < u64::MAX
    }

    /// The game after the plan of the current phase has been made and
    /// carried out.
    pub open spec fn acted(self) -> GameView {
        self.planned().enact_all(self.schedule())
    }

    /// Whether the vote of the current phase, if it is a day, takes the
    /// living players in a fair order: the shuffle by the state's counter
    /// holds every one of them, and each once.
    pub open spec fn draws_fairly(self) -> bool {
        self.phase is Day ==> self.acted().state.drawn().is_fair(self.acted().state.drawn().draw())
    }

    /// The game after the current phase has ended.
    ///
    /// The plan of the phase is made and carried out. By day the vote is
    /// held then. After that the attributes are carried over the phase
    /// boundary, every faction that has won is named, and the phase ends and
    /// the next one begins, all of which everybody sees.
    pub open spec fn end_phase(self) -> GameView {
        let judged = if self.phase is Day {
            self.acted().lynch()
        } else {
            self.acted()
        };
        let rested = judged.state.expired();
        let next = self.phase.spec_next();
        GameView {
            state: rested,
            phase: next,
            log: judged.log + rested.winners() + seq![
                (Visibility::Public, Event::PhaseEnded(self.phase)),
                (Visibility::Public, Event::PhaseBegan(next)),
            ],
            ..judged
        }
    }

    /// The game after an input.
    ///
    /// The moderator sees the input as an event. At the end of a phase the
    /// phase is resolved. An action that is used takes effect at once where
    /// it is immediate, also where an immediate action is ordered: then as
    /// the action of the one who is ordered. A vote is shown to everybody.
    /// Every other action waits for the end of the phase.
    pub open spec fn apply(self, input: Input) -> GameView {
        let noted = self.record(Visibility::Moderator, Event::Input(input));
        match input {
            Input::EndPhase => noted.end_phase(),
            Input::Use(player, action) => match action {
                Action::Immediate(a) => noted.enact(player, *a),
                Action::Order(minion, inner) => match *inner {
                    Action::Immediate(a) => noted.enact(minion, *a),
                    _ => noted,
                },
                Action::Vote(target) => noted.record(
                    Visibility::Public,
                    Event::VotedFor(player, target),
                ),
                _ => noted,
            },
        }
    }
}

/// What an attribute becomes at a phase boundary can be carried over the
/// next, and names no faction that the attribute did not name.
pub proof fn lemma_next_phase(attr: Attr, factions: Roster)
    requires
        attr.can_expire(),
        attr.factions_known(factions),
    ensures
        attr.spec_next_phase() matches Some(a) ==> a.can_expire() && a.factions_known(factions),
{
}

/// Every attribute after a phase boundary is what an attribute before it has
/// become, and every attribute that carries over is there.
pub proof fn lemma_expire_attrs(attrs: Seq<Attr>)
    ensures
        forall|j: int|
            0 <= j < expire_attrs(attrs).len() ==> exists|k: int|
                0 <= k < attrs.len() && attrs[k].spec_next_phase() == Some(
                    #[trigger] expire_attrs(attrs)[j],
                ),
        forall|k: int|
            0 <= k < attrs.len() ==> ((#[trigger] attrs[k]).spec_next_phase() matches Some(a)
                ==> expire_attrs(attrs).contains(a)),
    decreases attrs.len(),
{
    if attrs.len() > 0 {
        let rest = attrs.drop_last();
        lemma_expire_attrs(rest);
        let out = expire_attrs(attrs);
        let inner = expire_attrs(rest);
        assert forall|j: int| 0 <= j < out.len() implies exists|k: int|
            0 <= k < attrs.len() && attrs[k].spec_next_phase() == Some(#[trigger] out[j]) by {
            if j < inner.len() {
                let k = choose|k: int| 0 <= k < rest.len() && rest[k].spec_next_phase() == Some(inner[j]);
                assert(attrs[k] == rest[k]);
            } else {
                assert(attrs[attrs.len() - 1].spec_next_phase() == Some(out[j]));
            }
        }
        assert forall|k: int| 0 <= k < attrs.len() implies ((#[trigger] attrs[k]).spec_next_phase() matches Some(
            a,
        ) ==> out.contains(a)) by {
            if let Some(a) = attrs[k].spec_next_phase() {
                if k < rest.len() {
                    assert(rest[k] == attrs[k]);
                    assert(inner.contains(a));
                    let j = choose|j: int| 0 <= j < inner.len() && inner[j] == a;
                    assert(out[j] == a);
                } else {
                    assert(out[out.len() - 1] == a);
                }
            }
        }
    }
}

/// A sound state is sound after a phase boundary, with the same names.
pub proof fn lemma_expired(s: StateView)
    requires
        s.wf(),
    ensures
        s.expired().wf(),
        same_names(s.players, s.expired().players),
        same_names(s.factions, s.expired().factions),
{
    let t = s.expired();
    assert(same_names(s.players, t.players));
    assert(same_names(s.factions, t.factions));
    lemma_same_names(s.players, t.players, Seq::empty());
    lemma_same_names(s.factions, t.factions, Seq::empty());
    assert forall|j: int| 0 <= j < t.factions.len() implies faction_sound((#[trigger] t.factions[j]).1) by {
        let before = s.factions[j].1;
        let after = t.factions[j].1;
        assert(faction_sound(before));
        lemma_expire_attrs(before);
        assert forall|m: int| 0 <= m < after.len() implies (#[trigger] after[m]).can_expire() by {
            let k = choose|k: int| 0 <= k < before.len() && before[k].spec_next_phase() == Some(after[m]);
            assert(before[k].can_expire());
        }
        let a = choose|m: int| 0 <= m < before.len() && #[trigger] before[m] is Alignment;
        assert(after.contains(before[a]));
        let a2 = choose|m: int| 0 <= m < after.len() && after[m] == before[a];
        assert(after[a2] is Alignment);
        let o = choose|m: int| 0 <= m < before.len() && #[trigger] before[m] is Objective;
        assert(after.contains(before[o]));
        let o2 = choose|m: int| 0 <= m < after.len() && after[m] == before[o];
        assert(after[o2] is Objective);
    }
    assert forall|j: int| 0 <= j < t.players.len() implies player_sound(
        (#[trigger] t.players[j]).1,
        t.factions,
    ) by {
        let before = s.players[j].1;
        let after = t.players[j].1;
        assert(player_sound(before, s.factions));
        lemma_expire_attrs(before);
        assert forall|m: int| 0 <= m < after.len() implies (#[trigger] after[m]).can_expire()
            && after[m].factions_known(t.factions) by {
            let k = choose|k: int| 0 <= k < before.len() && before[k].spec_next_phase() == Some(after[m]);
            assert(before[k].can_expire());
            lemma_next_phase(before[k], s.factions);
            lemma_factions_known_same(after[m], s.factions, t.factions);
        }
        let w = choose|m: int| 0 <= m < before.len() && #[trigger] before[m] is Member;
        assert(after.contains(before[w]));
        let w2 = choose|m: int| 0 <= m < after.len() && after[m] == before[w];
        assert(after[w2] is Member);
    }
}

/// The attributes as they are after a phase boundary.
pub fn expire_all(attrs: &Vec<Attr>) -> (r: Vec<Attr>)
    requires
        forall|k: int| 0 <= k < attrs.len() ==> (#[trigger] attrs[k]).can_expire(),
    ensures
        r@ == expire_attrs(attrs@),
{
    let mut out: Vec<Attr> = Vec::new();
    let mut k: usize = 0;
    while k < attrs.len()
        invariant
            k <= attrs.len(),
            forall|j: int| 0 <= j < attrs.len() ==> (#[trigger] attrs[j]).can_expire(),
            out@ == expire_attrs(attrs@.take(k as int)),
        decreases attrs.len() - k,
    {
        proof {
            let upto = attrs@.take(k + 1);
            assert(upto.last() == attrs@[k as int]);
            assert(upto.drop_last() =~= attrs@.take(k as int));
        }
        match attrs[k].next_phase() {
            Some(a) => out.push(a),
            None => {},
        }
        k += 1;
    }
    assert(attrs@.take(attrs.len() as int) =~= attrs@);
    out
}

/// Carries the attributes of every entry over a phase boundary.
pub fn expire_entries(entries: &mut Vec<(String, Vec<Attr>)>)
    requires
        forall|i: int, k: int|
            0 <= i < old(entries).len() && 0 <= k < old(entries)[i].1.len() ==> (#[trigger] old(
                entries,
            )[i].1[k]).can_expire(),
    ensures
        roster(final(entries)@) == expire_roster(roster(old(entries)@)),
{
    let mut i: usize = 0;
    while i < entries.len()
        invariant
            i <= entries.len(),
            entries.len() == old(entries).len(),
            forall|j: int| 0 <= j < i ==> (#[trigger] entries[j]).0 == old(entries)[j].0 && entries[j].1@
                == expire_attrs(old(entries)[j].1@),
            forall|j: int| i <= j < entries.len() ==> #[trigger] entries[j] == old(entries)[j],
            forall|j: int, k: int|
                0 <= j < old(entries).len() && 0 <= k < old(entries)[j].1.len() ==> (#[trigger] old(
                    entries,
                )[j].1[k]).can_expire(),
        decreases entries.len() - i,
    {
        let fresh = expire_all(&entries[i].1);
        entries[i].1 = fresh;
        i += 1;
    }
    assert(roster(entries@) =~= expire_roster(roster(old(entries)@)));
}

impl Game {
    /// Carries out a plan: resolves its actions one after the other.
    pub fn resolve_plan(&mut self, plan: &Vec<(Player, Action)>)
        requires
            old(self)@.wf(),
            forall|i: int| 0 <= i < plan@.len() ==> (#[trigger] plan@[i]).1.targets_known(old(self)@.state.players),
        ensures
            final(self)@ == old(self)@.enact_all(plan@),
            final(self)@.wf(),
            final(self)@.follows(old(self)@),
            final(self)@.phase == old(self)@.phase,
            final(self)@.state.seed == old(self)@.state.seed,
    {
        let ghost before = self@;
        let mut i: usize = 0;
        proof {
            assert(plan@.take(0) =~= Seq::empty());
            assert(before.log.take(before.log.len() as int) =~= before.log);
        }
        while i < plan.len()
            invariant
                i <= plan.len(),
                before.wf(),
                forall|j: int| 0 <= j < plan@.len() ==> (#[trigger] plan@[j]).1.targets_known(before.state.players),
                self@ == before.enact_all(plan@.take(i as int)),
                self@.wf(),
                self@.follows(before),
                self@.phase == before.phase,
                self@.state.seed == before.state.seed,
            decreases plan.len() - i,
        {
            let ghost now = self@;
            proof {
                let upto = plan@.take(i + 1);
                assert(upto.last() == plan@[i as int]);
                assert(upto.drop_last() =~= plan@.take(i as int));
                lemma_targets_same_names(plan@[i as int].1, before.state.players, now.state.players);
                lemma_enact(now, plan@[i as int].0, plan@[i as int].1);
            }
            self.resolve_action(&plan[i].0, &plan[i].1);
            proof {
                lemma_follows(before, now, self@);
            }
            i += 1;
        }
        assert(plan@.take(plan.len() as int) =~= plan@);
    }

    /// Names every faction that has won, for everybody to see.
    pub fn resolve_winners(&mut self)
        requires
            old(self)@.state.wf(),
        ensures
            final(self)@ == (GameView {
                log: old(self)@.log + old(self)@.state.winners(),
                ..old(self)@
            }),
            forall|i: int|
                old(self)@.log.len() <= i < final(self)@.log.len() ==> !((#[trigger] final(self)@.log[i]).1 is Input),
    {
        let ghost before = self@;
        let mut f: usize = 0;
        assert(before.log + before.state.winners_upto(0) =~= before.log);
        while f < self.state.factions.len()
            invariant
                f <= self.state.factions.len(),
                self@.state == before.state,
                self@.start == before.start,
                self@.phase == before.phase,
                before.state.wf(),
                self@.log == before.log + before.state.winners_upto(f as int),
                forall|i: int|
                    before.log.len() <= i < self@.log.len() ==> !((#[trigger] self@.log[i]).1 is Input),
            decreases self.state.factions.len() - f,
        {
            let name = self.state.factions[f].0.clone();
            proof {
                lemma_slot(before.state.factions, f as int);
            }
            let fate = self.get_faction_fate(name.as_str());
            match fate {
                Fate::Won => {
                    self.log.push((Visibility::Public, Event::Won(name)));
                    assert(self@.log =~= before.log + before.state.winners_upto(f as int + 1));
                },
                _ => {},
            }
            f += 1;
        }
    }

    /// Resolve the current phase.
    pub fn resolve(&mut self)
        requires
            old(self)@.wf(),
            old(self)@.can_end(),
        ensures
            final(self)@ == old(self)@.end_phase(),
            final(self)@.wf(),
            final(self)@.follows(old(self)@),
            old(self)@.draws_fairly(),
    {
        let ghost before = self@;
        let plan = self.resolve_build_plan();
        let ghost planned = self@;
        self.resolve_plan(&plan);
        let ghost acted = self@;
        proof {
            lemma_follows(before, planned, acted);
        }
        match self.phase {
            Phase::Day(_) => {
                self.resolve_elimination();
            },
            Phase::Night(_) => {},
        }
        let ghost judged = self@;
        proof {
            if before.phase is Day {
                lemma_follows(before, acted, judged);
            }
            assert forall|i: int, k: int|
                0 <= i < self.state.players.len() && 0 <= k < self.state.players[i].1.len() implies (#[trigger] self.state.players[i].1[k]).can_expire() by {
                assert(player_sound(judged.state.players[i].1, judged.state.factions));
                assert(judged.state.players[i].1[k].can_expire());
            }
            assert forall|i: int, k: int|
                0 <= i < self.state.factions.len() && 0 <= k < self.state.factions[i].1.len() implies (#[trigger] self.state.factions[i].1[k]).can_expire() by {
                assert(faction_sound(judged.state.factions[i].1));
                assert(judged.state.factions[i].1[k].can_expire());
            }
        }
        expire_entries(&mut self.state.players);
        expire_entries(&mut self.state.factions);
        let ghost rested = self@;
        proof {
            assert(rested.state == judged.state.expired());
            lemma_expired(judged.state);
            assert(rested.log.take(judged.log.len() as int) =~= judged.log);
            assert(rested.log.skip(judged.log.len() as int) =~= Seq::empty());
            lemma_carry(judged, rested);
            assert(rested.follows(judged));
            lemma_follows(before, judged, rested);
        }
        self.resolve_winners();
        self.log.push((Visibility::Public, Event::PhaseEnded(self.phase)));
        self.phase = self.phase.next();
        self.log.push((Visibility::Public, Event::PhaseBegan(self.phase)));
        proof {
            let done = self@;
            assert(done.log =~= judged.log + rested.state.winners() + seq![
                (Visibility::Public, Event::PhaseEnded(before.phase)),
                (Visibility::Public, Event::PhaseBegan(before.phase.spec_next())),
            ]);
            assert(done.log.take(rested.log.len() as int) =~= rested.log);
            assert forall|i: int| 0 <= i < done.log.skip(rested.log.len() as int).len() implies !((#[trigger] done.log.skip(
                rested.log.len() as int,
            )[i]).1 is Input) by {
                assert(done.log.skip(rested.log.len() as int)[i] == done.log[rested.log.len() + i]);
            }
            lemma_carry(rested, done);
            assert(done.follows(rested));
            lemma_follows(before, rested, done);
        }
    }

    /// Takes an input and returns the events that it led to, which are from
    /// then on the last of the history.
    pub fn apply(&mut self, input: &Input) -> (r: &[(Visibility, Event)])
        requires
            old(self)@.wf(),
            old(self)@.state.admits(*input),
            *input is EndPhase ==> old(self)@.can_end(),
        ensures
            final(self)@ == old(self)@.apply(*input),
            final(self)@.wf(),
            final(self)@.follows(old(self)@),
            r@ == final(self)@.log.skip(old(self)@.log.len() as int),
            r@.len() > 0,
            r@[0] == (Visibility::Moderator, Event::Input(*input)),
            *input is EndPhase ==> old(self)@.record(
                Visibility::Moderator,
                Event::Input(*input),
            ).draws_fairly(),
    {
        let ghost before = self@;
        let log_start = self.log.len();
        self.log.push((Visibility::Moderator, Event::Input(input.clone())));
        let ghost noted = self@;
        proof {
            lemma_record(before, Visibility::Moderator, Event::Input(*input));
            lemma_same_names(before.state.players, before.state.players, Seq::empty());
            lemma_carry(before, noted);
            assert(noted.follows(before));
        }
        match input {
            Input::EndPhase => {
                self.resolve();
            },
            Input::Use(player, action) => match action {
                Action::Immediate(a) => {
                    self.resolve_action(player, a);
                },
                Action::Order(minion, inner) => match &**inner {
                    Action::Immediate(a) => {
                        self.resolve_action(minion, a);
                    },
                    _ => {},
                },
                Action::Vote(target) => {
                    self.log.push((Visibility::Public, Event::VotedFor(player.clone(), target.clone())));
                    proof {
                        lemma_record(noted, Visibility::Public, Event::VotedFor(*player, *target));
                        lemma_carry(noted, self@);
                    }
                },
                _ => {},
            },
        }
        proof {
            let done = self@;
            assert(done.log.take(noted.log.len() as int) =~= noted.log) by {
                if done.log.len() == noted.log.len() + 1 {
                    assert(done.log.drop_last() =~= noted.log);
                }
            }
            lemma_follows(before, noted, done);
            assert(done.log[before.log.len() as int] == done.log.take(noted.log.len() as int)[before.log.len() as int]);
        }
        vstd::slice::slice_subrange(self.log.as_slice(), log_start, self.log.len())
    }
}

} // verus!
