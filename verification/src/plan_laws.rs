use vstd::prelude::*;
use crate::action::Action;
use crate::attr::Attr;
use crate::census::seconds;
use crate::event::Event;
use crate::input::Input;
use crate::order::{lemma_ranked, ranked};
use crate::phase::Phase;
use crate::plan::{
    by_precedence, draft, first_allowing, first_allowing_upto, has_name, lemma_draft,
    lemma_find_grant, lemma_first_allowing, lemma_tap, Grant,
};
use crate::query::newest;
use crate::state::{
    alive_by, lemma_same_names, membership_by, name_at, pick_alive, pick_membership, slot,
    StateView,
};
use crate::util::Player;
use crate::visibility::Visibility;

verus! {

/// No player has two actions in the plan of a phase: whoever has had an
/// action accepted has acted, and nothing more is accepted from them.
pub proof fn law_one_action_per_player(state: StateView, phase: Phase, inputs: Seq<Input>)
    ensures
        forall|i: int, j: int|
            0 <= i < j < draft(state, phase, inputs).plan.len() ==> (#[trigger] draft(
                state,
                phase,
                inputs,
            ).plan[i]).0@ != (#[trigger] draft(state, phase, inputs).plan[j]).0@,
        forall|i: int|
            0 <= i < draft(state, phase, inputs).plan.len() ==> has_name(
                draft(state, phase, inputs).acted,
                (#[trigger] draft(state, phase, inputs).plan[i]).0@,
            ),
    decreases inputs.len(),
{
    if inputs.len() > 0 {
        let later = draft(state, phase, inputs.skip(1));
        let d = draft(state, phase, inputs);
        law_one_action_per_player(state, phase, inputs.skip(1));
        if d != later {
            if d.plan.len() > later.plan.len() {
                let n = later.plan.len() as int;
                let player = d.plan[n].0;
                assert(d.acted[later.acted.len() as int]@ == player@);
                assert forall|i: int| 0 <= i < d.plan.len() implies has_name(
                    d.acted,
                    (#[trigger] d.plan[i]).0@,
                ) by {
                    if i < n {
                        assert(d.plan[i] == later.plan[i]);
                        let w = choose|w: int|
                            0 <= w < later.acted.len() && (#[trigger] later.acted[w])@ == later.plan[i].0@;
                        assert(d.acted[w]@ == d.plan[i].0@);
                    }
                }
                assert forall|i: int, j: int| 0 <= i < j < d.plan.len() implies (#[trigger] d.plan[i]).0@
                    != (#[trigger] d.plan[j]).0@ by {
                    assert(d.plan[i] == later.plan[i]);
                    if j < n {
                        assert(d.plan[j] == later.plan[j]);
                    } else {
                        assert(has_name(later.acted, later.plan[i].0@));
                    }
                }
            }
        }
    }
}

/// Whether the input is a submission that counts for the plan of a phase: an
/// action that is used and is not to be resolved at once.
pub open spec fn counts(input: Input) -> bool {
    input matches Input::Use(_, action) && !(action is Immediate)
}

/// The submissions among the inputs that count for the plan, in their order.
pub open spec fn submissions(inputs: Seq<Input>) -> Seq<(Player, Action)>
    decreases inputs.len(),
{
    if inputs.len() == 0 {
        Seq::empty()
    } else {
        match inputs[0] {
            Input::Use(player, action) => if action is Immediate {
                submissions(inputs.skip(1))
            } else {
                seq![(player, action)] + submissions(inputs.skip(1))
            },
            Input::EndPhase => submissions(inputs.skip(1)),
        }
    }
}

/// Whether the verdict accepts what was submitted.
pub open spec fn accepts(verdict: (Visibility, Event), submitted: (Player, Action)) -> bool {
    verdict == (Visibility::Moderator, Event::Accepted(submitted.0, submitted.1))
}

/// Whether the verdict rejects what was submitted.
pub open spec fn rejects(verdict: (Visibility, Event), submitted: (Player, Action)) -> bool {
    verdict == (Visibility::Moderator, Event::Rejected(submitted.0, submitted.1))
}

/// Every submission of a phase gets one verdict, which the moderator alone
/// sees: in the order of the submissions, each is accepted or rejected.
/// Whoever has a submission accepted has acted, and of one player's
/// submissions none is accepted before one that is accepted: where a later
/// submission is accepted, every earlier one of that player is rejected.
pub proof fn law_every_submission_is_judged(state: StateView, phase: Phase, inputs: Seq<Input>)
    ensures
        draft(state, phase, inputs).verdicts.len() == submissions(inputs).len(),
        forall|k: int|
            0 <= k < submissions(inputs).len() ==> accepts(
                #[trigger] draft(state, phase, inputs).verdicts.reverse()[k],
                submissions(inputs)[k],
            ) || rejects(draft(state, phase, inputs).verdicts.reverse()[k], submissions(inputs)[k]),
        forall|k: int|
            0 <= k < submissions(inputs).len() && accepts(
                #[trigger] draft(state, phase, inputs).verdicts.reverse()[k],
                submissions(inputs)[k],
            ) ==> has_name(draft(state, phase, inputs).acted, submissions(inputs)[k].0@),
        forall|i: int, k: int|
            0 <= i < k < submissions(inputs).len() && accepts(
                #[trigger] draft(state, phase, inputs).verdicts.reverse()[k],
                submissions(inputs)[k],
            ) && submissions(inputs)[i].0@ == submissions(inputs)[k].0@ ==> rejects(
                #[trigger] draft(state, phase, inputs).verdicts.reverse()[i],
                submissions(inputs)[i],
            ),
    decreases inputs.len(),
{
    let d = draft(state, phase, inputs);
    let subs = submissions(inputs);
    if inputs.len() > 0 {
        let rest = inputs.skip(1);
        let later = draft(state, phase, rest);
        let rest_subs = submissions(rest);
        law_every_submission_is_judged(state, phase, rest);
        if counts(inputs[0]) {
            let first = subs[0];
            let v = d.verdicts[later.verdicts.len() as int];
            assert(d.verdicts.reverse() =~= seq![v] + later.verdicts.reverse());
            assert(accepts(v, first) || rejects(v, first));
            assert forall|k: int| 0 <= k < subs.len() implies accepts(
                #[trigger] d.verdicts.reverse()[k],
                subs[k],
            ) || rejects(d.verdicts.reverse()[k], subs[k]) by {
                if k > 0 {
                    assert(d.verdicts.reverse()[k] == later.verdicts.reverse()[k - 1]);
                    assert(subs[k] == rest_subs[k - 1]);
                }
            }
            assert forall|k: int|
                0 <= k < subs.len() && accepts(#[trigger] d.verdicts.reverse()[k], subs[k]) implies has_name(
                d.acted,
                subs[k].0@,
            ) by {
                if k > 0 {
                    assert(d.verdicts.reverse()[k] == later.verdicts.reverse()[k - 1]);
                    assert(subs[k] == rest_subs[k - 1]);
                    let w = choose|w: int|
                        0 <= w < later.acted.len() && (#[trigger] later.acted[w])@ == rest_subs[k - 1].0@;
                    assert(d.acted[w]@ == subs[k].0@);
                } else {
                    assert(d.acted[later.acted.len() as int]@ == first.0@);
                }
            }
            assert forall|i: int, k: int|
                0 <= i < k < subs.len() && accepts(#[trigger] d.verdicts.reverse()[k], subs[k]) && subs[i].0@
                    == subs[k].0@ implies rejects(#[trigger] d.verdicts.reverse()[i], subs[i]) by {
                assert(d.verdicts.reverse()[k] == later.verdicts.reverse()[k - 1]);
                assert(subs[k] == rest_subs[k - 1]);
                if i > 0 {
                    assert(d.verdicts.reverse()[i] == later.verdicts.reverse()[i - 1]);
                    assert(subs[i] == rest_subs[i - 1]);
                } else {
                    assert(has_name(later.acted, first.0@));
                }
            }
        } else {
            assert(d == later);
            assert(subs == rest_subs);
        }
    }
}

/// Only those have acted who have submitted something that counts.
pub proof fn lemma_acted_have_submitted(state: StateView, phase: Phase, inputs: Seq<Input>, name: Seq<char>)
    requires
        has_name(draft(state, phase, inputs).acted, name),
    ensures
        exists|k: int| 0 <= k < submissions(inputs).len() && (#[trigger] submissions(inputs)[k]).0@ == name,
    decreases inputs.len(),
{
    let d = draft(state, phase, inputs);
    let subs = submissions(inputs);
    if inputs.len() > 0 {
        let rest = inputs.skip(1);
        let later = draft(state, phase, rest);
        let rest_subs = submissions(rest);
        let w = choose|w: int| 0 <= w < d.acted.len() && (#[trigger] d.acted[w])@ == name;
        if counts(inputs[0]) {
            if w < later.acted.len() && d.acted.len() >= later.acted.len() {
                assert(d.acted[w] == later.acted[w]);
                lemma_acted_have_submitted(state, phase, rest, name);
                let k = choose|k: int| 0 <= k < rest_subs.len() && (#[trigger] rest_subs[k]).0@ == name;
                assert(subs[k + 1] == rest_subs[k]);
            } else {
                assert(subs[0].0@ == name);
            }
        } else {
            lemma_acted_have_submitted(state, phase, rest, name);
        }
    }
}

/// The last submission of a player in a phase is judged on its merits: it
/// is accepted if and only if, the later submissions of the others having
/// been decided on, the player holds an untapped attribute that allows the
/// action, with a faction that the player leads or as the player's own.
pub proof fn law_last_submission_counts(
    state: StateView,
    phase: Phase,
    player: Player,
    action: Action,
    later: Seq<Input>,
)
    requires
        !(action is Immediate),
        forall|k: int| 0 <= k < submissions(later).len() ==> (#[trigger] submissions(later)[k]).0@ != player@,
    ensures
        draft(state, phase, seq![Input::Use(player, action)] + later) == draft(state, phase, later).submit(
            phase,
            player,
            action,
        ),
        !has_name(draft(state, phase, later).acted, player@),
        draft(state, phase, later).state.find_grant(phase, player@, action) is Some <==> accepts(
            draft(state, phase, seq![Input::Use(player, action)] + later).verdicts.last(),
            (player, action),
        ),
        draft(state, phase, later).state.find_grant(phase, player@, action) is Some ==> draft(
            state,
            phase,
            seq![Input::Use(player, action)] + later,
        ).plan.last() == (player, action),
{
    let all = seq![Input::Use(player, action)] + later;
    assert(all.skip(1) =~= later);
    if has_name(draft(state, phase, later).acted, player@) {
        lemma_acted_have_submitted(state, phase, later, player@);
    }
}

/// The plan of a phase holds the accepted actions, each as often as it was
/// accepted, and no action stands before one of lower precedence.
pub proof fn law_plan_by_precedence(plan: Seq<(Player, Action)>)
    ensures
        by_precedence(plan).to_multiset() == plan.to_multiset(),
        forall|i: int, j: int|
            0 <= i < j < by_precedence(plan).len() ==> by_precedence(plan)[i].1.spec_precedence()
                <= by_precedence(plan)[j].1.spec_precedence(),
{
    broadcast use vstd::seq_lib::group_to_multiset_ensures;

    let tagged = Seq::new(plan.len(), |i: int| (plan[i].1.spec_precedence() as int, plan[i]));
    let sorted = ranked(tagged);
    let out = by_precedence(plan);
    lemma_ranked(tagged);
    assert forall|i: int| 0 <= i < sorted.len() implies (#[trigger] sorted[i]).0
        == sorted[i].1.1.spec_precedence() by {
        assert(sorted.to_multiset().count(sorted[i]) > 0);
        assert(tagged.contains(sorted[i]));
    }
    assert forall|i: int, j: int| 0 <= i < j < out.len() implies out[i].1.spec_precedence()
        <= out[j].1.spec_precedence() by {
        assert(sorted[i].0 <= sorted[j].0);
    }
    assert(seconds(tagged) =~= plan);
    lemma_multiset_of_seconds(sorted, tagged);
}

/// Sequences of pairs that hold the same pairs, as often, have second parts
/// that hold the same, as often.
proof fn lemma_multiset_of_seconds<A, B>(a: Seq<(A, B)>, b: Seq<(A, B)>)
    requires
        a.to_multiset() == b.to_multiset(),
    ensures
        seconds(a).to_multiset() == seconds(b).to_multiset(),
    decreases a.len(),
{
    broadcast use vstd::seq_lib::group_to_multiset_ensures;

    assert(a.len() == b.len()) by {
        assert(a.to_multiset().len() == a.len());
        assert(b.to_multiset().len() == b.len());
    }
    if a.len() == 0 {
        assert(seconds(a) =~= seconds(b));
    } else {
        let x = a.last();
        assert(a.to_multiset().count(x) > 0);
        assert(b.contains(x));
        let k = choose|k: int| 0 <= k < b.len() && b[k] == x;
        assert(a.drop_last() =~= a.remove(a.len() - 1));
        vstd::seq_lib::to_multiset_remove(a, a.len() - 1);
        vstd::seq_lib::to_multiset_remove(b, k);
        lemma_multiset_of_seconds(a.drop_last(), b.remove(k));
        assert(seconds(a) =~= seconds(a.drop_last()).push(x.1));
        assert(seconds(b.remove(k)) =~= seconds(b).remove(k));
        vstd::seq_lib::to_multiset_remove(seconds(b), k);
        assert(seconds(b).to_multiset() =~= seconds(b).remove(k).to_multiset().insert(x.1));
    }
}

/// Whether the player leads no faction that holds an attribute which allows
/// the action.
pub open spec fn no_faction_grant(s: StateView, phase: Phase, player: Seq<char>, action: Action) -> bool {
    forall|f: int|
        0 <= f < s.factions.len() && #[trigger] s.leads(player, f) ==> first_allowing(
            s.factions[f].1,
            phase,
            player,
            action,
        ) is None
}

/// An attribute put in place of one from which a query picks the same
/// leaves what the query finds as it is.
pub proof fn lemma_newest_update<T>(attrs: Seq<Attr>, k: int, attr: Attr, pick: spec_fn(Attr) -> Option<T>)
    requires
        0 <= k < attrs.len(),
        pick(attr) == pick(attrs[k]),
    ensures
        newest(attrs.update(k, attr), pick) == newest(attrs, pick),
    decreases attrs.len(),
{
    let changed = attrs.update(k, attr);
    if k == attrs.len() - 1 {
        assert(changed.drop_last() =~= attrs.drop_last());
    } else {
        lemma_newest_update(attrs.drop_last(), k, attr, pick);
        assert(changed.drop_last() =~= attrs.drop_last().update(k, attr));
    }
}

/// States whose players have the same names, are alive alike and belong
/// alike have the same living members in every faction.
pub proof fn lemma_enrolled_alike(s: StateView, t: StateView, faction: Seq<char>, n: int)
    requires
        n <= s.players.len() == t.players.len(),
        forall|i: int|
            0 <= i < s.players.len() ==> (#[trigger] s.players[i]).0 == t.players[i].0 && alive_by(
                s.players[i].1,
            ) == alive_by(t.players[i].1) && membership_by(s.players[i].1) == membership_by(t.players[i].1),
    ensures
        s.enrolled_upto(faction, n) == t.enrolled_upto(faction, n),
    decreases n,
{
    if n > 0 {
        lemma_enrolled_alike(s, t, faction, n - 1);
        assert(s.players[n - 1].0 == t.players[n - 1].0);
    }
}

/// Tapping leaves everybody alive as they were and in their faction, so that
/// every faction keeps its leader.
pub proof fn lemma_tap_keeps_leaders(s: StateView, grant: Grant, player: Seq<char>, f: int)
    requires
        s.wf(),
        s.holds(grant),
        0 <= f < s.factions.len(),
    ensures
        s.tap(grant).leads(player, f) == s.leads(player, f),
{
    let t = s.tap(grant);
    lemma_tap(s, grant);
    assert(name_at(t.factions, f) == name_at(s.factions, f)) by {
        assert(s.factions[f].0 == t.factions[f].0);
    }
    assert forall|i: int| 0 <= i < s.players.len() implies (#[trigger] s.players[i]).0 == t.players[i].0
        && alive_by(s.players[i].1) == alive_by(t.players[i].1) && membership_by(s.players[i].1)
        == membership_by(t.players[i].1) by {
        match grant {
            Grant::Own(p, k) => {
                if i == p {
                    let attrs = s.players[i].1;
                    lemma_newest_update(attrs, k as int, attrs[k as int].spec_tap(), pick_alive());
                    lemma_newest_update(attrs, k as int, attrs[k as int].spec_tap(), pick_membership());
                }
            },
            Grant::Faction(_, _) => {},
        }
    }
    lemma_enrolled_alike(s, t, name_at(s.factions, f), s.players.len() as int);
}

/// Attributes of which one is tapped allow no action that they did not allow.
pub proof fn lemma_tapped_allows_less(attrs: Seq<Attr>, k: int, phase: Phase, actor: Seq<char>, action: Action, n: int)
    requires
        0 <= k < attrs.len(),
        n <= attrs.len(),
        first_allowing_upto(attrs, phase, actor, action, n) is None,
    ensures
        first_allowing_upto(attrs.update(k, attrs[k].spec_tap()), phase, actor, action, n) is None,
    decreases n,
{
    if n > 0 {
        lemma_tapped_allows_less(attrs, k, phase, actor, action, n - 1);
    }
}

/// Tapping gives no player a grant with a faction.
pub proof fn lemma_tap_keeps_no_faction_grant(s: StateView, grant: Grant, phase: Phase, player: Seq<char>, action: Action)
    requires
        s.wf(),
        s.holds(grant),
        no_faction_grant(s, phase, player, action),
    ensures
        no_faction_grant(s.tap(grant), phase, player, action),
{
    let t = s.tap(grant);
    assert forall|f: int| 0 <= f < t.factions.len() && #[trigger] t.leads(player, f) implies first_allowing(
        t.factions[f].1,
        phase,
        player,
        action,
    ) is None by {
        lemma_tap_keeps_leaders(s, grant, player, f);
        assert(s.leads(player, f));
        match grant {
            Grant::Faction(i, k) => {
                if i == f {
                    lemma_tapped_allows_less(
                        s.factions[f].1,
                        k as int,
                        phase,
                        player,
                        action,
                        s.factions[f].1.len() as int,
                    );
                }
            },
            Grant::Own(_, _) => {},
        }
    }
}

/// No faction that the player leads holds a grant: none is found there.
pub proof fn lemma_no_faction_grant(s: StateView, phase: Phase, player: Seq<char>, action: Action, n: int)
    requires
        n <= s.factions.len(),
        no_faction_grant(s, phase, player, action),
    ensures
        s.faction_grant_upto(phase, player, action, n) is None,
    decreases n,
{
    if n > 0 {
        lemma_no_faction_grant(s, phase, player, action, n - 1);
        if s.leads(player, n - 1) {
        }
    }
}

/// What others submit changes nothing about what a player holds, and gives
/// that player no grant with a faction.
pub proof fn lemma_draft_of_others(
    state: StateView,
    phase: Phase,
    inputs: Seq<Input>,
    player: Seq<char>,
    action: Action,
)
    requires
        state.wf(),
        state.bounded(),
        forall|i: int| 0 <= i < inputs.len() ==> state.admits(#[trigger] inputs[i]),
        state.knows_player(player),
        forall|k: int| 0 <= k < submissions(inputs).len() ==> (#[trigger] submissions(inputs)[k]).0@ != player,
        no_faction_grant(state, phase, player, action),
    ensures
        draft(state, phase, inputs).state.player_attrs(player) == state.player_attrs(player),
        draft(state, phase, inputs).state.knows_player(player),
        slot(draft(state, phase, inputs).state.players, player) == slot(state.players, player),
        no_faction_grant(draft(state, phase, inputs).state, phase, player, action),
    decreases inputs.len(),
{
    if inputs.len() == 0 {
    } else {
        let rest = inputs.skip(1);
        let later = draft(state, phase, rest);
        assert forall|i: int| 0 <= i < rest.len() implies state.admits(#[trigger] rest[i]) by {
            assert(rest[i] == inputs[i + 1]);
        }
        assert(state.admits(inputs[0]));
        lemma_draft(state, phase, rest);
        match inputs[0] {
            Input::Use(other, what) => {
                if what is Immediate {
                    assert(submissions(inputs) == submissions(rest));
                    lemma_draft_of_others(state, phase, rest, player, action);
                } else {
                    let subs = submissions(inputs);
                    assert(subs[0] == (other, what));
                    assert forall|k: int| 0 <= k < submissions(rest).len() implies (#[trigger] submissions(
                        rest,
                    )[k]).0@ != player by {
                        assert(subs[k + 1] == submissions(rest)[k]);
                    }
                    lemma_draft_of_others(state, phase, rest, player, action);
                    lemma_same_names(state.players, later.state.players, other@);
                    lemma_find_grant(later.state, phase, other@, what);
                    let grant = later.state.find_grant(phase, other@, what);
                    if !has_name(later.acted, other@) && grant is Some {
                        let g = grant.unwrap();
                        let t = later.state.tap(g);
                        lemma_tap(later.state, g);
                        lemma_same_names(later.state.players, t.players, player);
                        lemma_tap_keeps_no_faction_grant(later.state, g, phase, player, action);
                        let at = slot(later.state.players, player);
                        assert(name_at(later.state.players, at) == player);
                        match g {
                            Grant::Own(i, _) => {
                                assert(name_at(later.state.players, i as int) == other@);
                                assert(i != at);
                            },
                            Grant::Faction(_, _) => {},
                        }
                    }
                }
            },
            Input::EndPhase => {
                assert(submissions(inputs) == submissions(rest));
                lemma_draft_of_others(state, phase, rest, player, action);
            },
        }
    }
}

/// A player who leads no faction with a grant for an action, and whose
/// oldest attribute that allows it is the `k`-th, has the action accepted
/// where it is the last that the player submits in the phase, whatever the
/// others submit: the action comes into the plan, and that attribute is
/// tapped where it stands.
pub proof fn law_own_grant_is_used(
    state: StateView,
    phase: Phase,
    player: Player,
    action: Action,
    later: Seq<Input>,
    k: int,
)
    requires
        state.wf(),
        state.bounded(),
        state.knows_player(player@),
        forall|i: int| 0 <= i < later.len() ==> state.admits(#[trigger] later[i]),
        !(action is Immediate),
        forall|i: int| 0 <= i < submissions(later).len() ==> (#[trigger] submissions(later)[i]).0@ != player@,
        no_faction_grant(state, phase, player@, action),
        first_allowing(state.player_attrs(player@), phase, player@, action) == Some(k),
    ensures
        accepts(
            draft(state, phase, seq![Input::Use(player, action)] + later).verdicts.last(),
            (player, action),
        ),
        draft(state, phase, seq![Input::Use(player, action)] + later).plan.last() == (player, action),
        draft(state, phase, seq![Input::Use(player, action)] + later).state.player_attrs(player@)
            == state.player_attrs(player@).update(k, state.player_attrs(player@)[k].spec_tap()),
{
    let all = seq![Input::Use(player, action)] + later;
    assert(all.skip(1) =~= later);
    let d = draft(state, phase, later);
    lemma_draft(state, phase, later);
    lemma_draft_of_others(state, phase, later, player@, action);
    if has_name(d.acted, player@) {
        lemma_acted_have_submitted(state, phase, later, player@);
    }
    lemma_no_faction_grant(d.state, phase, player@, action, d.state.factions.len() as int);
    let at = slot(d.state.players, player@);
    assert(name_at(state.players, slot(state.players, player@)) == player@);
    lemma_first_allowing(
        state.player_attrs(player@),
        phase,
        player@,
        action,
        state.player_attrs(player@).len() as int,
    );
    let grant = Grant::Own(at as usize, k as usize);
    assert(d.state.find_grant(phase, player@, action) == Some(grant));
    let t = d.state.tap(grant);
    lemma_find_grant(d.state, phase, player@, action);
    lemma_tap(d.state, grant);
    lemma_same_names(d.state.players, t.players, player@);
}

} // verus!
