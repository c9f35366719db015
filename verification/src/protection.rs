use vstd::prelude::*;
use crate::action::Action;
use crate::attr::Attr;
use crate::effects::{lemma_carry, lemma_enact, lemma_follows, lemma_targets_same_names};
use crate::event::Event;
use crate::game::GameView;
use crate::input::Input;
use crate::phase::Phase;
use crate::plan::{
    draft, has_name, lemma_by_precedence, lemma_draft, lemma_find_grant, lemma_phase_inputs,
    lemma_tap, phase_inputs, Grant,
};
use crate::query::lemma_newest;
use crate::resolve::{expire_attrs, lemma_expire_attrs, lemma_expired};
use crate::state::{
    lemma_grant, lemma_grant_attrs, lemma_same_names, name_at, pick_alive, pick_bulletproof, player_sound, slot,
    StateView,
};
use crate::tally::lemma_docket;
use crate::util::Player;
use crate::visibility::Visibility;

verus! {

/// A kill does nothing to a target who is bulletproof: the target stays
/// alive, and nobody is told of a death. The same holds of a kill that is
/// ordered.
pub proof fn law_bulletproof_survives_kill(game: GameView, killer: Player, target: Player)
    requires
        game.state.bulletproof(target@),
    ensures
        game.enact(killer, Action::Kill(target)) == game,
        forall|leader: Player| #[trigger]
            game.enact(leader, Action::Order(killer, Box::new(Action::Kill(target)))) == game,
{
    assert forall|leader: Player| #[trigger]
        game.enact(leader, Action::Order(killer, Box::new(Action::Kill(target)))) == game by {
        assert(game.enact(leader, Action::Order(killer, Box::new(Action::Kill(target)))) == game.enact(
            killer,
            Action::Kill(target),
        ));
    }
}

/// No action that takes effect ends the protection of a player who is
/// bulletproof, and none ends that player's life.
pub proof fn law_action_spares_the_bulletproof(game: GameView, player: Player, action: Action, target: Seq<char>)
    requires
        game.wf(),
        action.targets_known(game.state.players),
        game.state.knows_player(target),
        game.state.bulletproof(target),
    ensures
        game.enact(player, action).state.bulletproof(target),
        game.enact(player, action).state.alive(target) == game.state.alive(target),
    decreases action,
{
    let before = game.state.player_attrs(target);
    match action {
        Action::Kill(t) => {
            if game.state.alive(t@) && !game.state.bulletproof(t@) {
                lemma_grant_attrs(game.state, t@, Attr::Dead, target);
            }
        },
        Action::Order(minion, inner) => {
            law_action_spares_the_bulletproof(game, minion, *inner, target);
        },
        Action::Protect(t) => {
            let attr = Attr::Phases(1, Box::new(Attr::Bulletproof));
            lemma_grant_attrs(game.state, t@, attr, target);
            assert(Attr::Bulletproof.spec_is_bulletproof() == Some(true));
            assert(Attr::Bulletproof.spec_is_alive() is None);
            assert(pick_bulletproof()(attr) == Some(true));
            assert(pick_alive()(attr) is None);
            assert(before.push(attr).drop_last() =~= before);
        },
        Action::Vote(t) => {
            let attr = Attr::Phases(1, Box::new(Attr::ReceivedVotes(1)));
            lemma_grant_attrs(game.state, t@, attr, target);
            assert(Attr::ReceivedVotes(1).spec_is_bulletproof() is None);
            assert(Attr::ReceivedVotes(1).spec_is_alive() is None);
            assert(pick_bulletproof()(attr) is None);
            assert(pick_alive()(attr) is None);
            assert(before.push(attr).drop_last() =~= before);
        },
        _ => {},
    }
}

/// A player who is alive and bulletproof is so after all the actions of a
/// plan have taken effect, whatever the plan holds: no kill, ordered or
/// not, takes the life of a protected player before the phase is over.
pub proof fn law_plan_spares_the_bulletproof(game: GameView, plan: Seq<(Player, Action)>, target: Seq<char>)
    requires
        game.wf(),
        forall|i: int| 0 <= i < plan.len() ==> (#[trigger] plan[i]).1.targets_known(game.state.players),
        game.state.knows_player(target),
        game.state.bulletproof(target),
        game.state.alive(target),
    ensures
        game.enact_all(plan).state.bulletproof(target),
        game.enact_all(plan).state.alive(target),
        game.enact_all(plan).wf(),
        game.enact_all(plan).follows(game),
    decreases plan.len(),
{
    if plan.len() == 0 {
        assert(game.log.take(game.log.len() as int) =~= game.log);
    } else {
        let rest = plan.drop_last();
        assert forall|i: int| 0 <= i < rest.len() implies (#[trigger] rest[i]).1.targets_known(
            game.state.players,
        ) by {
            assert(rest[i] == plan[i]);
        }
        law_plan_spares_the_bulletproof(game, rest, target);
        let mid = game.enact_all(rest);
        let last = plan.last();
        assert(plan[plan.len() - 1].1.targets_known(game.state.players));
        lemma_targets_same_names(last.1, game.state.players, mid.state.players);
        lemma_same_names(game.state.players, mid.state.players, target);
        lemma_enact(mid, last.0, last.1);
        law_action_spares_the_bulletproof(mid, last.0, last.1, target);
        lemma_follows(game, mid, mid.enact(last.0, last.1));
    }
}

/// Protection makes its target bulletproof at once.
pub proof fn law_protection_holds(game: GameView, protector: Player, target: Player)
    requires
        game.wf(),
        game.state.knows_player(target@),
    ensures
        game.enact(protector, Action::Protect(target)).state.bulletproof(target@),
{
    let attr = Attr::Phases(1, Box::new(Attr::Bulletproof));
    lemma_grant_attrs(game.state, target@, attr, target@);
    let after = game.state.player_attrs(target@).push(attr);
    assert(Attr::Bulletproof.spec_is_bulletproof() == Some(true));
    assert(pick_bulletproof()(after.last()) == Some(true));
}

/// Protection lapses at the next phase boundary: the attributes that a
/// player has after it are those that the player would have without the
/// protection.
pub proof fn law_protection_lapses(attrs: Seq<Attr>)
    ensures
        Attr::Phases(1, Box::new(Attr::Bulletproof)).spec_next_phase() is None,
        expire_attrs(attrs.push(Attr::Phases(1, Box::new(Attr::Bulletproof)))) == expire_attrs(attrs),
{
    assert(attrs.push(Attr::Phases(1, Box::new(Attr::Bulletproof))).drop_last() =~= attrs);
}

/// Whether none of the attributes that are carried over the next phase
/// boundary makes a player bulletproof.
pub open spec fn lapsing(attrs: Seq<Attr>) -> bool {
    forall|k: int|
        0 <= k < attrs.len() ==> ((#[trigger] attrs[k]).spec_next_phase() matches Some(a)
            ==> a.spec_is_bulletproof() is None)
}

/// An attribute that grants an action makes nobody bulletproof.
pub proof fn lemma_grant_gives_no_protection(attr: Attr)
    requires
        attr.spec_get_action() is Some,
    ensures
        attr.spec_is_bulletproof() is None,
    decreases attr,
{
    match attr {
        Attr::Phases(_, a) => lemma_grant_gives_no_protection(*a),
        _ => {},
    }
}

/// Attributes none of which makes bulletproof give no protection that lasts.
pub proof fn law_unprotected_stays_unprotected(attrs: Seq<Attr>)
    requires
        forall|k: int| 0 <= k < attrs.len() ==> (#[trigger] attrs[k]).spec_is_bulletproof() is None,
    ensures
        lapsing(attrs),
{
}

/// Making the plan of a phase gives nobody protection that lasts.
pub proof fn lemma_draft_lapsing(state: StateView, phase: Phase, inputs: Seq<Input>, target: Seq<char>)
    requires
        state.wf(),
        state.bounded(),
        forall|i: int| 0 <= i < inputs.len() ==> state.admits(#[trigger] inputs[i]),
        state.knows_player(target),
        lapsing(state.player_attrs(target)),
    ensures
        lapsing(draft(state, phase, inputs).state.player_attrs(target)),
    decreases inputs.len(),
{
    if inputs.len() > 0 {
        let rest = inputs.skip(1);
        assert forall|i: int| 0 <= i < rest.len() implies state.admits(#[trigger] rest[i]) by {
            assert(rest[i] == inputs[i + 1]);
        }
        lemma_draft(state, phase, rest);
        lemma_draft_lapsing(state, phase, rest, target);
        let later = draft(state, phase, rest);
        assert(state.admits(inputs[0]));
        match inputs[0] {
            Input::Use(player, action) => {
                if !(action is Immediate) {
                    lemma_same_names(state.players, later.state.players, player@);
                    lemma_same_names(state.players, later.state.players, target);
                    lemma_find_grant(later.state, phase, player@, action);
                    let grant = later.state.find_grant(phase, player@, action);
                    if !has_name(later.acted, player@) && grant is Some {
                        let g = grant.unwrap();
                        let t = later.state.tap(g);
                        lemma_tap(later.state, g);
                        lemma_same_names(later.state.players, t.players, target);
                        let at = slot(later.state.players, target);
                        assert(name_at(later.state.players, at) == target);
                        match g {
                            Grant::Own(i, k) => {
                                if i == at {
                                    let before = later.state.players[at].1;
                                    let after = t.players[at].1;
                                    lemma_grant_gives_no_protection(before[k as int]);
                                    assert forall|m: int| 0 <= m < after.len() implies ((#[trigger] after[m]).spec_next_phase() matches Some(
                                        a,
                                    ) ==> a.spec_is_bulletproof() is None) by {
                                        if m != k {
                                            assert(after[m] == before[m]);
                                        }
                                    }
                                }
                            },
                            Grant::Faction(_, _) => {},
                        }
                    }
                }
            },
            Input::EndPhase => {},
        }
    }
}

/// An action that takes effect gives nobody protection that lasts.
pub proof fn lemma_enact_lapsing(game: GameView, player: Player, action: Action, target: Seq<char>)
    requires
        game.wf(),
        action.targets_known(game.state.players),
        game.state.knows_player(target),
        lapsing(game.state.player_attrs(target)),
    ensures
        lapsing(game.enact(player, action).state.player_attrs(target)),
    decreases action,
{
    let before = game.state.player_attrs(target);
    match action {
        Action::Kill(t) => {
            if game.state.alive(t@) && !game.state.bulletproof(t@) {
                lemma_grant_attrs(game.state, t@, Attr::Dead, target);
                lemma_push_lapsing(before, Attr::Dead);
            }
        },
        Action::Order(minion, inner) => {
            lemma_enact_lapsing(game, minion, *inner, target);
        },
        Action::Protect(t) => {
            let attr = Attr::Phases(1, Box::new(Attr::Bulletproof));
            lemma_grant_attrs(game.state, t@, attr, target);
            lemma_push_lapsing(before, attr);
        },
        Action::Vote(t) => {
            let attr = Attr::Phases(1, Box::new(Attr::ReceivedVotes(1)));
            lemma_grant_attrs(game.state, t@, attr, target);
            lemma_push_lapsing(before, attr);
        },
        _ => {},
    }
}

/// One more attribute that is dropped at the next phase boundary, or that
/// makes nobody bulletproof after it, gives no protection that lasts.
pub proof fn lemma_push_lapsing(attrs: Seq<Attr>, attr: Attr)
    requires
        lapsing(attrs),
        attr.spec_next_phase() matches Some(a) ==> a.spec_is_bulletproof() is None,
    ensures
        lapsing(attrs.push(attr)),
{
    let more = attrs.push(attr);
    assert forall|k: int| 0 <= k < more.len() implies ((#[trigger] more[k]).spec_next_phase() matches Some(
        a,
    ) ==> a.spec_is_bulletproof() is None) by {
        if k < attrs.len() {
            assert(more[k] == attrs[k]);
        }
    }
}

/// The actions of a plan that take effect give nobody protection that lasts.
pub proof fn lemma_enact_all_lapsing(game: GameView, plan: Seq<(Player, Action)>, target: Seq<char>)
    requires
        game.wf(),
        forall|i: int| 0 <= i < plan.len() ==> (#[trigger] plan[i]).1.targets_known(game.state.players),
        game.state.knows_player(target),
        lapsing(game.state.player_attrs(target)),
    ensures
        lapsing(game.enact_all(plan).state.player_attrs(target)),
        game.enact_all(plan).state.knows_player(target),
        game.enact_all(plan).wf(),
        game.enact_all(plan).follows(game),
        game.enact_all(plan).phase == game.phase,
    decreases plan.len(),
{
    if plan.len() == 0 {
        assert(game.log.take(game.log.len() as int) =~= game.log);
    } else {
        let rest = plan.drop_last();
        assert forall|i: int| 0 <= i < rest.len() implies (#[trigger] rest[i]).1.targets_known(
            game.state.players,
        ) by {
            assert(rest[i] == plan[i]);
        }
        lemma_enact_all_lapsing(game, rest, target);
        let mid = game.enact_all(rest);
        let last = plan.last();
        assert(plan[plan.len() - 1].1.targets_known(game.state.players));
        lemma_targets_same_names(last.1, game.state.players, mid.state.players);
        lemma_enact(mid, last.0, last.1);
        lemma_enact_lapsing(mid, last.0, last.1, target);
        lemma_same_names(mid.state.players, mid.enact(last.0, last.1).state.players, target);
        lemma_follows(game, mid, mid.enact(last.0, last.1));
    }
}

/// Protection does not outlast the phase: a player none of whose attributes
/// makes bulletproof beyond the next phase boundary is not bulletproof once
/// the phase has ended, whatever was submitted in it and whoever was
/// protected. This holds of a game that is as it must be, whose state can
/// be held, and whose vote, by day, takes the living players in a fair
/// order.
pub proof fn law_protection_ends_with_the_phase(game: GameView, target: Seq<char>)
    requires
        game.wf(),
        game.state.bounded(),
        game.draws_fairly(),
        game.state.knows_player(target),
        lapsing(game.state.player_attrs(target)),
    ensures
        game.end_phase().state.knows_player(target),
        !game.end_phase().state.bulletproof(target),
{
    let inputs = phase_inputs(game.log);
    assert forall|i: int| 0 <= i < inputs.len() implies game.state.admits(#[trigger] inputs[i]) by {
        lemma_phase_inputs(game.log, i);
    }
    lemma_draft(game.state, game.phase, inputs);
    lemma_draft_lapsing(game.state, game.phase, inputs, target);
    let d = game.draft();
    let planned = game.planned();
    lemma_same_names(game.state.players, planned.state.players, target);
    assert(planned.log.take(game.log.len() as int) =~= game.log);
    assert(planned.log.skip(game.log.len() as int) =~= d.verdicts.reverse());
    lemma_carry(game, planned);
    let plan = game.schedule();
    lemma_by_precedence(d.plan.reverse());
    assert forall|i: int| 0 <= i < plan.len() implies (#[trigger] plan[i]).1.targets_known(
        planned.state.players,
    ) by {
        let j = choose|j: int| 0 <= j < d.plan.len() && d.plan.reverse()[j] == plan[i];
        assert(d.plan.reverse()[j] == d.plan[d.plan.len() - 1 - j]);
        lemma_targets_same_names(plan[i].1, game.state.players, planned.state.players);
    }
    lemma_enact_all_lapsing(planned, plan, target);
    let acted = game.acted();
    let judged = if game.phase is Day {
        acted.lynch()
    } else {
        acted
    };
    if game.phase is Day {
        let drawn = acted.drawn();
        let order = drawn.state.draw();
        assert(drawn.state.wf()) by {
            assert forall|k: int| 0 <= k < drawn.state.players.len() implies player_sound(
                (#[trigger] drawn.state.players[k]).1,
                drawn.state.factions,
            ) by {
                assert(player_sound(acted.state.players[k].1, acted.state.factions));
            }
        }
        assert(drawn.state.player_attrs(target) == acted.state.player_attrs(target));
        let docket = drawn.state.docket_by(order);
        if docket.len() > 0 && docket[0].0 < 0 {
            lemma_docket(drawn.state, order, 0);
            lemma_grant(drawn.state, docket[0].1@, Attr::Dead);
            lemma_grant_attrs(drawn.state, docket[0].1@, Attr::Dead, target);
            lemma_push_lapsing(drawn.state.player_attrs(target), Attr::Dead);
            lemma_same_names(drawn.state.players, judged.state.players, target);
        }
    }
    assert(judged.state.wf());
    assert(judged.state.knows_player(target));
    assert(lapsing(judged.state.player_attrs(target)));
    lemma_expired(judged.state);
    let rested = judged.state.expired();
    lemma_same_names(judged.state.players, rested.players, target);
    let before = judged.state.player_attrs(target);
    let after = rested.player_attrs(target);
    assert(after == expire_attrs(before));
    lemma_expire_attrs(before);
    lemma_newest(after, pick_bulletproof());
    assert forall|m: int| 0 <= m < after.len() implies pick_bulletproof()(#[trigger] after[m]) is None by {
        let k = choose|k: int| 0 <= k < before.len() && before[k].spec_next_phase() == Some(after[m]);
        assert(before[k].spec_next_phase() matches Some(a) ==> a.spec_is_bulletproof() is None);
    }
}

/// A kill takes the life of a target who is alive and not bulletproof, and
/// everybody is told.
pub proof fn law_unprotected_dies(game: GameView, killer: Player, target: Player)
    requires
        game.state.alive(target@),
        !game.state.bulletproof(target@),
    ensures
        game.enact(killer, Action::Kill(target)) == game.slay(target),
        game.enact(killer, Action::Kill(target)).log == game.log.push(
            (Visibility::Public, Event::Died(target)),
        ),
{
}

} // verus!
