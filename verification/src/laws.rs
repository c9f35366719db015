use vstd::prelude::*;
use crate::action::Action;
use crate::attr::Attr;
use crate::effects::{lemma_enact, lemma_follows, lemma_targets_same_names};
use crate::game::GameView;
use crate::input::Input;
use crate::order::{lemma_ranked, ranked};
use crate::phase::Phase;
use crate::plan::Grant;
use crate::query::{lemma_vote_total_push, vote_total, votes_of};
use crate::state::{
    alive_by, lemma_grant_attrs, lemma_same_names, lemma_slot, name_at, slot, StateView,
};
use crate::tally::{dealt, iota, lemma_shuffled_in_range, lemma_tally, lemma_tally_drawn};
use crate::util::Player;

verus! {

/// The game after `n` phases have been ended one after the other.
pub open spec fn after_phases(game: GameView, n: nat) -> GameView
    decreases n,
{
    if n == 0 {
        game
    } else {
        after_phases(game, (n - 1) as nat).apply(Input::EndPhase)
    }
}

/// The `n`-th phase of a game, the first night being the 0th: a night where
/// `n` is even, a day where it is odd, each with the number of the days so far.
pub open spec fn nth_phase(n: nat) -> Phase {
    if n % 2 == 0 {
        Phase::Night((n / 2) as i64)
    } else {
        Phase::Day(((n + 1) / 2) as i64)
    }
}

/// Ending a phase takes the game to the next phase, whatever else it does.
pub proof fn law_end_of_phase_advances(game: GameView)
    ensures
        game.apply(Input::EndPhase).phase == game.phase.spec_next(),
{
}

/// Whether each of the first `n` phases of the game can end: none is the
/// night whose number is the last.
pub open spec fn phases_can_end(game: GameView, n: nat) -> bool {
    forall|k: nat| k < n ==> (#[trigger] after_phases(game, k)).phase.has_next()
}

/// Whatever state a game begins from, and however many phases are ended,
/// after `n` of them it is in its `n`-th phase: `Night(0)`, `Day(1)`,
/// `Night(1)`, `Day(2)` and so on, none skipped and none repeated. This
/// holds as long as each phase can end.
pub proof fn law_phases_alternate(state: StateView, n: nat)
    requires
        phases_can_end(GameView::begin(state), n),
    ensures
        after_phases(GameView::begin(state), n).phase == nth_phase(n),
        n <= 2 * i64::MAX,
    decreases n,
{
    if n > 0 {
        let game = GameView::begin(state);
        let before = (n - 1) as nat;
        assert forall|k: nat| k < before implies (#[trigger] after_phases(game, k)).phase.has_next() by {
            assert(k < n);
        }
        law_phases_alternate(state, before);
        assert(after_phases(game, before).phase.has_next());
        law_end_of_phase_advances(after_phases(game, before));
    }
}

/// The first phases of a game can all end where there are no more of them
/// than there are numbers for.
pub proof fn law_phases_can_end(state: StateView, n: nat)
    requires
        n <= 2 * i64::MAX,
    ensures
        phases_can_end(GameView::begin(state), n),
    decreases n,
{
    if n > 0 {
        let game = GameView::begin(state);
        let before = (n - 1) as nat;
        law_phases_can_end(state, before);
        law_phases_alternate(state, before);
        assert forall|k: nat| k < n implies (#[trigger] after_phases(game, k)).phase.has_next() by {
            if k < before {
            } else {
                assert(k == before);
            }
        }
    }
}

/// The votes that an action casts against the player of that name when it
/// takes effect: one where it is a vote against them, also where it is ordered.
pub open spec fn votes_cast(action: Action, target: Seq<char>) -> nat
    decreases action,
{
    match action {
        Action::Vote(t) => if t@ == target {
            1
        } else {
            0
        },
        Action::Order(_, a) => votes_cast(*a, target),
        _ => 0,
    }
}

/// The votes that the actions of a plan cast against the player of that name.
pub open spec fn votes_in(plan: Seq<(Player, Action)>, target: Seq<char>) -> nat
    decreases plan.len(),
{
    if plan.len() == 0 {
        0
    } else {
        votes_in(plan.drop_last(), target) + votes_cast(plan.last().1, target)
    }
}

/// An action that takes effect adds to the votes against a player just the
/// votes that it casts against them.
pub proof fn law_votes_of_an_action(game: GameView, player: Player, action: Action, target: Seq<char>)
    requires
        game.wf(),
        action.targets_known(game.state.players),
        game.state.knows_player(target),
    ensures
        game.enact(player, action).state.votes_for(target) == game.state.votes_for(target) + votes_cast(
            action,
            target,
        ),
    decreases action,
{
    let before = game.state.player_attrs(target);
    match action {
        Action::Kill(t) => {
            if game.state.alive(t@) && !game.state.bulletproof(t@) {
                lemma_grant_attrs(game.state, t@, Attr::Dead, target);
                lemma_vote_total_push(before, Attr::Dead);
            }
        },
        Action::Order(minion, inner) => {
            law_votes_of_an_action(game, minion, *inner, target);
        },
        Action::Protect(t) => {
            let attr = Attr::Phases(1, Box::new(Attr::Bulletproof));
            lemma_grant_attrs(game.state, t@, attr, target);
            lemma_vote_total_push(before, attr);
            assert(Attr::Bulletproof.spec_num_votes() is None);
            assert(votes_of(attr) == 0);
        },
        Action::Vote(t) => {
            let attr = Attr::Phases(1, Box::new(Attr::ReceivedVotes(1)));
            lemma_grant_attrs(game.state, t@, attr, target);
            lemma_vote_total_push(before, attr);
            assert(Attr::ReceivedVotes(1).spec_num_votes() == Some(1i64));
            assert(votes_of(attr) == 1);
        },
        _ => {},
    }
}

/// After the actions of a plan have taken effect, in whatever order the plan
/// holds them, the votes against a player are those before and one more for
/// every vote against them in the plan.
pub proof fn law_votes_add_up(game: GameView, plan: Seq<(Player, Action)>, target: Seq<char>)
    requires
        game.wf(),
        forall|i: int| 0 <= i < plan.len() ==> (#[trigger] plan[i]).1.targets_known(game.state.players),
        game.state.knows_player(target),
    ensures
        game.enact_all(plan).state.votes_for(target) == game.state.votes_for(target) + votes_in(plan, target),
        game.enact_all(plan).wf(),
        game.enact_all(plan).follows(game),
    decreases plan.len(),
{
    if plan.len() == 0 {
        assert(game.log.take(game.log.len() as int) =~= game.log);
    } else {
        let rest = plan.drop_last();
        assert forall|i: int| 0 <= i < rest.len() implies (#[trigger] rest[i]).1.targets_known(
            game.state.players,
        ) by {
            assert(rest[i] == plan[i]);
        }
        law_votes_add_up(game, rest, target);
        let mid = game.enact_all(rest);
        let last = plan.last();
        assert(plan[plan.len() - 1].1.targets_known(game.state.players));
        lemma_targets_same_names(last.1, game.state.players, mid.state.players);
        lemma_same_names(game.state.players, mid.state.players, target);
        lemma_enact(mid, last.0, last.1);
        law_votes_of_an_action(mid, last.0, last.1, target);
        lemma_follows(game, mid, mid.enact(last.0, last.1));
    }
}

/// The votes that attributes record do not depend on their order: the same
/// attributes, each as often, give the same total.
pub proof fn law_votes_any_order(a: Seq<Attr>, b: Seq<Attr>)
    requires
        a.to_multiset() == b.to_multiset(),
    ensures
        vote_total(a) == vote_total(b),
    decreases a.len(),
{
    broadcast use vstd::seq_lib::group_to_multiset_ensures;

    assert(a.len() == b.len()) by {
        assert(a.to_multiset().len() == a.len());
        assert(b.to_multiset().len() == b.len());
    }
    if a.len() > 0 {
        let x = a.last();
        assert(a.to_multiset().count(x) > 0);
        assert(b.contains(x));
        let k = choose|k: int| 0 <= k < b.len() && b[k] == x;
        lemma_vote_total_remove(b, k);
        assert(a =~= a.drop_last().push(x));
        assert(a.drop_last() =~= a.remove(a.len() - 1));
        vstd::seq_lib::to_multiset_remove(a, a.len() - 1);
        vstd::seq_lib::to_multiset_remove(b, k);
        law_votes_any_order(a.drop_last(), b.remove(k));
    }
}

/// Without one of the attributes, the total is less by what that attribute counts for.
pub proof fn lemma_vote_total_remove(attrs: Seq<Attr>, k: int)
    requires
        0 <= k < attrs.len(),
    ensures
        vote_total(attrs) == vote_total(attrs.remove(k)) + votes_of(attrs[k]),
    decreases attrs.len(),
{
    if k == attrs.len() - 1 {
        assert(attrs.remove(k) =~= attrs.drop_last());
    } else {
        lemma_vote_total_remove(attrs.drop_last(), k);
        assert(attrs.remove(k).drop_last() =~= attrs.drop_last().remove(k));
        assert(attrs.remove(k).last() == attrs.last());
    }
}

/// Whatever order a shuffle leaves the living players in, the first on the
/// docket is one of them, and nobody has more votes against them.
pub proof fn law_most_votes_first(tally: Seq<(int, Player)>, order: Seq<usize>)
    requires
        0 < tally.len() <= usize::MAX,
        order.to_multiset() == iota(tally.len() as int).to_multiset(),
    ensures
        ranked(dealt(tally, order)).len() == tally.len(),
        exists|j: int| 0 <= j < tally.len() && tally[j] == ranked(dealt(tally, order))[0],
        forall|i: int| 0 <= i < tally.len() ==> ranked(dealt(tally, order))[0].0 <= (#[trigger] tally[i]).0,
{
    broadcast use vstd::seq_lib::group_to_multiset_ensures;

    let n = tally.len() as int;
    let queue = dealt(tally, order);
    let docket = ranked(queue);
    lemma_shuffled_in_range(order, n);
    lemma_ranked(queue);
    assert(docket.to_multiset().count(docket[0]) > 0);
    assert(queue.contains(docket[0]));
    let q = choose|q: int| 0 <= q < queue.len() && queue[q] == docket[0];
    assert(tally[order[q] as int] == docket[0]);
    assert forall|i: int| 0 <= i < tally.len() implies docket[0].0 <= (#[trigger] tally[i]).0 by {
        assert(iota(n)[i] == i);
        assert(iota(n).to_multiset().count(i as usize) > 0);
        assert(order.contains(i as usize));
        let p = choose|p: int| 0 <= p < order.len() && order[p] == i as usize;
        assert(queue[p] == tally[i]);
        assert(queue.to_multiset().count(queue[p]) > 0);
        assert(docket.contains(tally[i]));
        let m = choose|m: int| 0 <= m < docket.len() && docket[m] == tally[i];
        if m > 0 {
            assert(docket[0].0 <= docket[m].0);
        }
    }
}

/// Where one living player has more votes against them than every other and
/// the order is fair, the vote of the day eliminates that player, whatever
/// the order.
pub proof fn law_most_voted_is_eliminated(game: GameView, order: Seq<usize>, j: int)
    requires
        game.state.tally().len() <= usize::MAX,
        game.state.is_fair(order),
        0 <= j < game.state.tally().len(),
        game.state.tally()[j].0 < 0,
        forall|i: int|
            0 <= i < game.state.tally().len() && i != j ==> game.state.tally()[j].0 < (
            #[trigger] game.state.tally()[i]).0,
    ensures
        game.lynch_by(order) == game.slay(game.state.tally()[j].1),
{
    let tally = game.state.tally();
    law_most_votes_first(tally, order);
    let first = ranked(dealt(tally, order))[0];
    let k = choose|k: int| 0 <= k < tally.len() && tally[k] == first;
    assert(first.0 <= tally[j].0);
    if k != j {
        assert(tally[j].0 < tally[k].0);
    }
}

/// Where nobody alive has a vote against them, the vote of the day
/// eliminates nobody, whatever the order.
pub proof fn law_no_votes_nobody_dies(game: GameView, order: Seq<usize>)
    requires
        game.state.tally().len() <= usize::MAX,
        game.state.is_fair(order),
        forall|i: int| 0 <= i < game.state.tally().len() ==> (#[trigger] game.state.tally()[i]).0 >= 0,
    ensures
        game.lynch_by(order) == game,
{
    let tally = game.state.tally();
    if tally.len() > 0 {
        law_most_votes_first(tally, order);
        let first = ranked(dealt(tally, order))[0];
        let k = choose|k: int| 0 <= k < tally.len() && tally[k] == first;
        assert(tally[k].0 >= 0);
    } else {
        lemma_shuffled_in_range(order, 0);
        lemma_ranked(dealt(tally, order));
    }
}

/// The vote of a day, held after a fair draw from the state's counter,
/// eliminates the one living player who has more votes than every other,
/// whatever the counter was.
pub proof fn law_day_vote_takes_the_most_voted(game: GameView, j: int)
    requires
        game.state.tally().len() <= usize::MAX,
        game.state.drawn().is_fair(game.state.drawn().draw()),
        0 <= j < game.state.tally().len(),
        game.state.tally()[j].0 < 0,
        forall|i: int|
            0 <= i < game.state.tally().len() && i != j ==> game.state.tally()[j].0 < (
            #[trigger] game.state.tally()[i]).0,
    ensures
        game.lynch() == game.drawn().slay(game.state.tally()[j].1),
{
    lemma_tally_drawn(game.state, game.state.players.len() as int);
    law_most_voted_is_eliminated(game.drawn(), game.state.drawn().draw(), j);
}

/// The vote of a day, held after a fair draw from the state's counter,
/// eliminates nobody where nobody alive has a vote against them: only the
/// counter advances.
pub proof fn law_day_without_votes(game: GameView)
    requires
        game.state.tally().len() <= usize::MAX,
        game.state.drawn().is_fair(game.state.drawn().draw()),
        forall|i: int| 0 <= i < game.state.tally().len() ==> (#[trigger] game.state.tally()[i]).0 >= 0,
    ensures
        game.lynch() == game.drawn(),
{
    lemma_tally_drawn(game.state, game.state.players.len() as int);
    law_no_votes_nobody_dies(game.drawn(), game.state.drawn().draw());
}

/// An attribute that is tapped allows no action, whoever submits whatever
/// in whichever phase, and is the attribute that it was again after the next
/// phase boundary.
pub proof fn law_tapped_until_restored(attr: Attr, phase: Phase, actor: Seq<char>, action: Action)
    ensures
        !attr.spec_tap().spec_allows_action(phase, actor, action),
        attr.spec_tap().spec_get_action() is None,
        attr.spec_tap().spec_next_phase() == Some(attr),
{
}

/// Once the attribute at a grant is tapped, no submission is allowed by it.
pub proof fn law_tapped_grant_is_spent(s: StateView, grant: Grant, phase: Phase, actor: Seq<char>, action: Action)
    requires
        s.holds(grant),
    ensures
        match grant {
            Grant::Faction(i, k) => !s.tap(grant).factions[i as int].1[k as int].spec_allows_action(
                phase,
                actor,
                action,
            ),
            Grant::Own(i, k) => !s.tap(grant).players[i as int].1[k as int].spec_allows_action(
                phase,
                actor,
                action,
            ),
        },
{
}

/// The place in the tally of a living player who has more votes against
/// them than every other: there is one among the first `n` players once the
/// player is among them, and no entry before that has as many votes.
pub proof fn lemma_tally_of_the_most_voted(s: StateView, at: int, n: int)
    requires
        0 <= at < s.players.len(),
        0 <= n <= s.players.len(),
        alive_by(s.players[at].1),
        forall|i: int|
            0 <= i < s.players.len() && i != at && alive_by((#[trigger] s.players[i]).1) ==> vote_total(
                s.players[i].1,
            ) < vote_total(s.players[at].1),
    ensures
        at >= n ==> forall|j: int|
            0 <= j < s.tally_upto(n).len() ==> -vote_total(s.players[at].1) < (#[trigger] s.tally_upto(
                n,
            )[j]).0,
        at < n ==> exists|j: int|
            0 <= j < s.tally_upto(n).len() && #[trigger] s.tally_upto(n)[j] == (
                -vote_total(s.players[at].1),
                s.players[at].0,
            ) && forall|i: int|
                0 <= i < s.tally_upto(n).len() && i != j ==> s.tally_upto(n)[j].0 < (#[trigger] s.tally_upto(
                    n,
                )[i]).0,
    decreases n,
{
    if n > 0 {
        lemma_tally_of_the_most_voted(s, at, n - 1);
        let before = s.tally_upto(n - 1);
        let now = s.tally_upto(n);
        let top = -vote_total(s.players[at].1);
        if at == n - 1 {
            let j = before.len() as int;
            assert(now[j] == (top, s.players[at].0));
            assert forall|i: int| 0 <= i < now.len() && i != j implies now[j].0 < (#[trigger] now[i]).0 by {
                assert(now[i] == before[i]);
            }
        } else if at < n - 1 {
            let j = choose|j: int|
                0 <= j < before.len() && #[trigger] before[j] == (top, s.players[at].0) && forall|i: int|
                    0 <= i < before.len() && i != j ==> before[j].0 < (#[trigger] before[i]).0;
            assert(now[j] == before[j]);
            assert forall|i: int| 0 <= i < now.len() && i != j implies now[j].0 < (#[trigger] now[i]).0 by {
                if i < before.len() {
                    assert(now[i] == before[i]);
                } else {
                    assert(alive_by(s.players[n - 1].1));
                }
            }
        } else {
            assert forall|j: int| 0 <= j < now.len() implies top < (#[trigger] now[j]).0 by {
                if j < before.len() {
                    assert(now[j] == before[j]);
                } else {
                    assert(alive_by(s.players[n - 1].1));
                }
            }
        }
    }
}

/// The vote of a day eliminates the living player who has at least one vote
/// against them and more than every other living player, whatever the
/// counter of the state is, as long as the draw from it is fair.
pub proof fn law_most_voted_player_is_eliminated(game: GameView, player: Seq<char>)
    requires
        game.state.wf(),
        game.state.players.len() <= usize::MAX,
        game.state.drawn().is_fair(game.state.drawn().draw()),
        game.state.knows_player(player),
        game.state.alive(player),
        game.state.votes_for(player) > 0,
        forall|i: int|
            0 <= i < game.state.players.len() && name_at(game.state.players, i) != player && alive_by(
                (#[trigger] game.state.players[i]).1,
            ) ==> vote_total(game.state.players[i].1) < game.state.votes_for(player),
    ensures
        game.lynch() == game.drawn().slay(game.state.players[slot(game.state.players, player)].0),
{
    let s = game.state;
    let at = slot(s.players, player);
    assert(name_at(s.players, at) == player);
    assert forall|i: int| 0 <= i < s.players.len() && i != at && alive_by((#[trigger] s.players[i]).1) implies vote_total(
        s.players[i].1,
    ) < vote_total(s.players[at].1) by {
        lemma_slot(s.players, i);
    }
    lemma_tally_of_the_most_voted(s, at, s.players.len() as int);
    lemma_tally(s, s.players.len() as int);
    let tally = s.tally();
    let j = choose|j: int|
        0 <= j < tally.len() && #[trigger] tally[j] == (-vote_total(s.players[at].1), s.players[at].0)
            && forall|i: int| 0 <= i < tally.len() && i != j ==> tally[j].0 < (#[trigger] tally[i]).0;
    law_day_vote_takes_the_most_voted(game, j);
}

/// No entry of the tally has votes where no living player has any.
pub proof fn lemma_tally_without_votes(s: StateView, n: int)
    requires
        0 <= n <= s.players.len(),
        forall|i: int|
            0 <= i < s.players.len() && alive_by((#[trigger] s.players[i]).1) ==> vote_total(s.players[i].1)
                <= 0,
    ensures
        forall|j: int| 0 <= j < s.tally_upto(n).len() ==> (#[trigger] s.tally_upto(n)[j]).0 >= 0,
    decreases n,
{
    if n > 0 {
        lemma_tally_without_votes(s, n - 1);
        let before = s.tally_upto(n - 1);
        let now = s.tally_upto(n);
        assert forall|j: int| 0 <= j < now.len() implies (#[trigger] now[j]).0 >= 0 by {
            if j < before.len() {
                assert(now[j] == before[j]);
            } else {
                assert(alive_by(s.players[n - 1].1));
            }
        }
    }
}

/// A day on which no living player has a vote against them eliminates
/// nobody: the vote only advances the counter.
pub proof fn law_day_without_votes_spares_everybody(game: GameView)
    requires
        game.state.players.len() <= usize::MAX,
        game.state.drawn().is_fair(game.state.drawn().draw()),
        forall|i: int|
            0 <= i < game.state.players.len() && alive_by((#[trigger] game.state.players[i]).1)
                ==> vote_total(game.state.players[i].1) <= 0,
    ensures
        game.lynch() == game.drawn(),
{
    lemma_tally_without_votes(game.state, game.state.players.len() as int);
    lemma_tally(game.state, game.state.players.len() as int);
    law_day_without_votes(game);
}

} // verus!
