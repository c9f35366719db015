use vstd::prelude::*;
use rand::seq::SliceRandom;
use rand_core::SeedableRng;
use crate::attr::Attr;
use crate::census::alive_in;
use crate::effects::{lemma_carry, lemma_follows, lemma_record};
use crate::event::Event;
use crate::game::{Game, GameView};
use crate::order::{keyed, lemma_ranked, ranked, sort_by_rank};
use crate::query::{sum_votes, vote_total};
use crate::state::{alive_by, lemma_grant, lemma_slot, name_at, player_sound, StateView};
use crate::util::Player;
use crate::visibility::Visibility;

verus! {

/// The order into which the generator that is seeded with `seed` shuffles
/// `items`.
pub uninterp spec fn shuffled(seed: u64, items: Seq<usize>) -> Seq<usize>;

/// Shuffles the items with a generator that is seeded with `seed`.
///
/// Trusted: seeds a `Xoshiro256StarStar` of the crate rand_xoshiro by
/// `seed_from_u64` and hands it to `SliceRandom::shuffle` of the crate rand.
/// Neither reads anything but its arguments, so the result is a function of
/// the seed and the items; the shuffle only swaps items, so the result holds
/// the same items, as often.
#[verifier::external_body]
pub(crate) fn shuffle(seed: u64, items: Vec<usize>) -> (r: Vec<usize>)
    ensures
        r@ == shuffled(seed, items@),
        r@.to_multiset() == items@.to_multiset(),
{
    let mut rng = rand_xoshiro::Xoshiro256StarStar::seed_from_u64(seed);
    let mut items = items;
    items.shuffle(&mut rng);
    items
}

/// The numbers from 0 up to, and without, `n`.
pub open spec fn iota(n: int) -> Seq<usize> {
    Seq::new(n as nat, |i: int| i as usize)
}

/// The items in the given order: the `i`-th is the item whose place the
/// order gives `i`-th.
pub open spec fn dealt<T>(items: Seq<T>, order: Seq<usize>) -> Seq<T> {
    Seq::new(order.len(), |i: int| items[order[i] as int])
}

impl StateView {
    /// The living among the first `n` players, each with the votes against
    /// them, counted downwards: the more votes, the lower the number.
    pub open spec fn tally_upto(self, n: int) -> Seq<(int, Player)>
        decreases n,
    {
        if n <= 0 {
            Seq::empty()
        } else if alive_by(self.players[n - 1].1) {
            self.tally_upto(n - 1).push((-vote_total(self.players[n - 1].1), self.players[n - 1].0))
        } else {
            self.tally_upto(n - 1)
        }
    }

    /// The living players with the votes against them, counted downwards.
    pub open spec fn tally(self) -> Seq<(int, Player)> {
        self.tally_upto(self.players.len() as int)
    }

    /// The state after one more draw from its counter.
    pub open spec fn drawn(self) -> StateView {
        StateView { seed: (self.seed + 1) as u64, ..self }
    }

    /// The places in the tally, from the first to the last.
    pub open spec fn places(self) -> Seq<usize> {
        iota(self.tally().len() as int)
    }

    /// The order into which the state's counter shuffles the places in the tally.
    pub open spec fn draw(self) -> Seq<usize> {
        shuffled(self.seed, self.places())
    }

    /// Whether the order holds every place in the tally, and each once.
    pub open spec fn is_fair(self, order: Seq<usize>) -> bool {
        order.to_multiset() == self.places().to_multiset()
    }

    /// The living players in the order in which they stand to be eliminated:
    /// taken from the tally in the given order, then put by falling votes,
    /// players with the same votes staying as the order has them.
    pub open spec fn docket_by(self, order: Seq<usize>) -> Seq<(int, Player)> {
        ranked(dealt(self.tally(), order))
    }
}

impl GameView {
    /// The game after the vote of a day has been held with the living
    /// players taken in the given order: the first player on the docket has
    /// died if there is at least one vote against them.
    pub open spec fn lynch_by(self, order: Seq<usize>) -> GameView {
        let docket = self.state.docket_by(order);
        if docket.len() > 0 && docket[0].0 < 0 {
            self.slay(docket[0].1)
        } else {
            self
        }
    }

    /// The game after the state's counter has advanced by one.
    pub open spec fn drawn(self) -> GameView {
        GameView { state: self.state.drawn(), ..self }
    }

    /// The game after the vote of a day has been held: the state's counter
    /// has advanced by one, and the vote is held with the living players in
    /// the order into which the counter shuffles them.
    pub open spec fn lynch(self) -> GameView {
        self.drawn().lynch_by(self.state.drawn().draw())
    }
}

/// Everybody in the tally is a player.
pub proof fn lemma_tally(s: StateView, n: int)
    requires
        0 <= n <= s.players.len(),
    ensures
        s.tally_upto(n).len() <= n,
        forall|j: int|
            0 <= j < s.tally_upto(n).len() ==> exists|i: int|
                0 <= i < n && s.players[i].0 == (#[trigger] s.tally_upto(n)[j]).1,
    decreases n,
{
    if n > 0 {
        lemma_tally(s, n - 1);
        let t = s.tally_upto(n);
        assert forall|j: int| 0 <= j < t.len() implies exists|i: int|
            0 <= i < n && s.players[i].0 == (#[trigger] t[j]).1 by {
            if j < s.tally_upto(n - 1).len() {
                let i = choose|i: int| 0 <= i < n - 1 && s.players[i].0 == s.tally_upto(n - 1)[j].1;
                assert(s.players[i].0 == t[j].1);
            } else {
                assert(s.players[n - 1].0 == t[j].1);
            }
        }
    }
}

/// Everybody on the docket is a player, where the order is fair.
pub proof fn lemma_docket(s: StateView, order: Seq<usize>, j: int)
    requires
        s.wf(),
        s.is_fair(order),
        0 <= j < s.docket_by(order).len(),
    ensures
        s.knows_player(s.docket_by(order)[j].1@),
        exists|t: int| 0 <= t < s.tally().len() && s.tally()[t] == s.docket_by(order)[j],
{
    broadcast use vstd::seq_lib::group_to_multiset_ensures;

    let tally = s.tally();
    let queue = dealt(tally, order);
    lemma_shuffled_in_range(order, tally.len() as int);
    lemma_ranked(queue);
    let docket = ranked(queue);
    assert(docket.to_multiset().count(docket[j]) > 0);
    assert(queue.contains(docket[j]));
    let q = choose|q: int| 0 <= q < queue.len() && queue[q] == docket[j];
    lemma_tally(s, s.players.len() as int);
    let t = order[q] as int;
    assert(tally[t] == docket[j]);
    let i = choose|i: int| 0 <= i < s.players.len() && s.players[i].0 == tally[t].1;
    lemma_slot(s.players, i);
    assert(name_at(s.players, i) == docket[j].1@);
}

/// A shuffle of the first numbers holds just these numbers.
pub proof fn lemma_shuffled_in_range(order: Seq<usize>, n: int)
    requires
        0 <= n,
        order.to_multiset() == iota(n).to_multiset(),
    ensures
        order.len() == n,
        forall|i: int| 0 <= i < order.len() ==> 0 <= #[trigger] order[i] < n,
{
    broadcast use vstd::seq_lib::group_to_multiset_ensures;

    assert(order.to_multiset().len() == order.len());
    assert(iota(n).to_multiset().len() == iota(n).len());
    assert forall|i: int| 0 <= i < order.len() implies 0 <= #[trigger] order[i] < n by {
        assert(order.to_multiset().count(order[i]) > 0);
        assert(iota(n).contains(order[i]));
        let j = choose|j: int| 0 <= j < iota(n).len() && iota(n)[j] == order[i];
    }
}

impl Game {
    /// The living players with the votes against them, counted downwards.
    pub fn tally(&self) -> (r: Vec<(i128, Player)>)
        ensures
            keyed(r@) == self@.state.tally(),
    {
        let mut tally: Vec<(i128, Player)> = Vec::new();
        let mut i: usize = 0;
        assert(keyed(tally@) =~= self@.state.tally_upto(0));
        while i < self.state.players.len()
            invariant
                i <= self.state.players.len(),
                keyed(tally@) == self@.state.tally_upto(i as int),
            decreases self.state.players.len() - i,
        {
            if alive_in(&self.state.players[i].1) {
                let votes = sum_votes(&self.state.players[i].1);
                let ghost counted = keyed(tally@);
                tally.push((-votes, self.state.players[i].0.clone()));
                assert(keyed(tally@) =~= counted.push((-votes as int, self.state.players[i as int].0)));
            }
            i += 1;
        }
        tally
    }

    /// Holds the vote over a tally that has been taken.
    fn eliminate_from(&mut self, tally: Vec<(i128, Player)>, order: &Vec<usize>)
        requires
            old(self)@.wf(),
            keyed(tally@) == old(self)@.state.tally(),
            old(self)@.state.is_fair(order@),
        ensures
            final(self)@ == old(self)@.lynch_by(order@),
            final(self)@.wf(),
            final(self)@.follows(old(self)@),
    {
        let ghost before = self@;
        proof {
            lemma_shuffled_in_range(order@, tally.len() as int);
            assert(before.log.take(before.log.len() as int) =~= before.log);
        }
        let mut queue: Vec<(i128, Player)> = Vec::new();
        let mut q: usize = 0;
        while q < order.len()
            invariant
                q <= order.len(),
                queue.len() == q,
                order.len() == tally.len(),
                forall|j: int| 0 <= j < order.len() ==> 0 <= #[trigger] order[j] < tally.len(),
                forall|j: int| 0 <= j < q ==> queue[j] == tally[order[j] as int],
            decreases order.len() - q,
        {
            let place = order[q];
            queue.push((tally[place].0, tally[place].1.clone()));
            q += 1;
        }
        assert(keyed(queue@) =~= dealt(keyed(tally@), order@));
        let docket = sort_by_rank(queue);
        if docket.len() > 0 && docket[0].0 < 0 {
            proof {
                lemma_docket(before.state, order@, 0);
                let victim = docket[0].1;
                assert(keyed(docket@)[0].1 == victim);
                lemma_grant(before.state, victim@, Attr::Dead);
                lemma_record(before.grant(victim@, Attr::Dead), Visibility::Public, Event::Died(victim));
                lemma_carry(before, before.slay(victim));
            }
            self.make_dead(&docket[0].1);
        }
    }

    /// Holds the vote of a day with the living players taken in the given
    /// order: eliminates the one with the most votes, if anybody has a vote
    /// against them. Of players with the same votes the order decides.
    pub fn eliminate_by(&mut self, order: &Vec<usize>)
        requires
            old(self)@.wf(),
            old(self)@.state.is_fair(order@),
        ensures
            final(self)@ == old(self)@.lynch_by(order@),
            final(self)@.wf(),
            final(self)@.follows(old(self)@),
    {
        let tally = self.tally();
        self.eliminate_from(tally, order);
    }

    /// Holds the vote of a day: draws once from the state's counter to
    /// shuffle the living players, and eliminates the one with the most
    /// votes, if anybody has a vote against them. The shuffle is fair.
    pub fn resolve_elimination(&mut self)
        requires
            old(self)@.wf(),
            old(self).state.seed < u64::MAX,
        ensures
            final(self)@ == old(self)@.lynch(),
            final(self)@.wf(),
            final(self)@.follows(old(self)@),
            old(self)@.state.drawn().is_fair(old(self)@.state.drawn().draw()),
    {
        let ghost before = self@;
        self.state.seed = self.state.seed + 1;
        let ghost drawn = before.drawn();
        proof {
            assert(self@.state.players =~= drawn.state.players);
            assert(self@.state.factions =~= drawn.state.factions);
            assert(self@ == drawn);
            assert(drawn.state.wf()) by {
                assert forall|k: int| 0 <= k < drawn.state.players.len() implies player_sound(
                    (#[trigger] drawn.state.players[k]).1,
                    drawn.state.factions,
                ) by {
                    assert(player_sound(before.state.players[k].1, before.state.factions));
                }
            }
            assert(drawn.log.take(before.log.len() as int) =~= before.log);
            assert(drawn.log.skip(before.log.len() as int) =~= Seq::empty());
            lemma_carry(before, drawn);
        }
        let tally = self.tally();
        let mut places: Vec<usize> = Vec::new();
        let mut n: usize = 0;
        while n < tally.len()
            invariant
                n <= tally.len(),
                places.len() == n,
                forall|j: int| 0 <= j < n ==> places[j] == j,
            decreases tally.len() - n,
        {
            places.push(n);
            n += 1;
        }
        assert(places@ =~= drawn.state.places());
        let order = shuffle(self.state.seed, places);
        self.eliminate_from(tally, &order);
        proof {
            lemma_follows(before, drawn, self@);
        }
    }
}

/// A draw from the counter leaves the tally as it is.
pub proof fn lemma_tally_drawn(s: StateView, n: int)
    ensures
        s.drawn().tally_upto(n) == s.tally_upto(n),
    decreases n,
{
    if n > 0 {
        lemma_tally_drawn(s, n - 1);
    }
}

} // verus!
