use vstd::prelude::*;
use crate::alignment::Alignment;
use crate::attr::Attr;
use crate::fate::Fate;
use crate::game::Game;
use crate::objective::Objective;
use crate::order::{into_seconds, keyed, ranked, sort_by_rank};
use crate::player::PlayerStatus;
use crate::query::{first_match, newest, sum_votes, vote_total};
use crate::state::{
    alive_by, bulletproof_by, find, lemma_sound_faction, lemma_sound_player, membership_by,
    pick_alignment, pick_alive, pick_bulletproof, pick_membership, pick_objective, StateView,
};
use crate::util::{Faction, Player};
use crate::names::same_name;

verus! {

/// The second parts of the pairs.
pub open spec fn seconds<A, B>(pairs: Seq<(A, B)>) -> Seq<B> {
    Seq::new(pairs.len(), |i: int| pairs[i].1)
}

impl StateView {
    /// The living among the first `n` players.
    pub open spec fn living_upto(self, n: int) -> Seq<Player>
        decreases n,
    {
        if n <= 0 {
            Seq::empty()
        } else if alive_by(self.players[n - 1].1) {
            self.living_upto(n - 1).push(self.players[n - 1].0)
        } else {
            self.living_upto(n - 1)
        }
    }

    /// The living players, in the order of their names.
    pub open spec fn living(self) -> Seq<Player> {
        self.living_upto(self.players.len() as int)
    }

    /// Whether the `i`-th player is alive and belongs to the faction.
    pub open spec fn enrolled_at(self, faction: Seq<char>, i: int) -> bool {
        alive_by(self.players[i].1) && membership_by(self.players[i].1).unwrap().0@ == faction
    }

    /// The living members of the faction among the first `n` players, each
    /// with their rank.
    pub open spec fn enrolled_upto(self, faction: Seq<char>, n: int) -> Seq<(int, Player)>
        decreases n,
    {
        if n <= 0 {
            Seq::empty()
        } else if self.enrolled_at(faction, n - 1) {
            self.enrolled_upto(faction, n - 1).push(
                (membership_by(self.players[n - 1].1).unwrap().1 as int, self.players[n - 1].0),
            )
        } else {
            self.enrolled_upto(faction, n - 1)
        }
    }

    /// The living members of the faction, the best rank first, members of one
    /// rank in the order of their names.
    pub open spec fn members(self, faction: Seq<char>) -> Seq<Player> {
        seconds(ranked(self.enrolled_upto(faction, self.players.len() as int)))
    }

    /// The leader of the faction: the first of its living members.
    pub open spec fn leader(self, faction: Seq<char>) -> Option<Player> {
        if self.members(faction).len() == 0 {
            None
        } else {
            Some(self.members(faction)[0])
        }
    }

    /// How many of the first `n` players are alive and of the alignment.
    pub open spec fn aligned_upto(self, alignment: Alignment, n: int) -> nat
        decreases n,
    {
        if n <= 0 {
            0
        } else if alive_by(self.players[n - 1].1) && self.faction_alignment(
            membership_by(self.players[n - 1].1).unwrap().0@,
        ) == alignment {
            self.aligned_upto(alignment, n - 1) + 1
        } else {
            self.aligned_upto(alignment, n - 1)
        }
    }

    /// How many living players are of the alignment.
    pub open spec fn num_living_alignment(self, alignment: Alignment) -> nat {
        self.aligned_upto(alignment, self.players.len() as int)
    }

    /// How many living members the faction has.
    pub open spec fn num_living_members(self, faction: Seq<char>) -> nat {
        self.members(faction).len()
    }

    /// How many players are alive.
    pub open spec fn num_living_players(self) -> nat {
        self.living().len()
    }

    /// How the faction stands, by its objective.
    pub open spec fn fate(self, faction: Seq<char>) -> Fate {
        match self.faction_objective(faction) {
            Objective::Eliminate(alignment) => if self.num_living_alignment(alignment) == 0 {
                Fate::Won
            } else {
                Fate::Losing
            },
            Objective::EliminateFaction(other) => if self.num_living_members(other@) == 0 {
                Fate::Won
            } else {
                Fate::Losing
            },
            Objective::AchieveMajority => if 2 * self.num_living_members(faction)
                > self.num_living_players() {
                Fate::Won
            } else {
                Fate::Losing
            },
            Objective::Survive => if self.num_living_members(faction) == 0 {
                Fate::Lost
            } else {
                Fate::Winning
            },
        }
    }

    /// Every player with their status, in the order of their names.
    pub open spec fn statuses(self) -> Seq<(Player, PlayerStatus)> {
        Seq::new(
            self.players.len(),
            |i: int|
                (
                    self.players[i].0,
                    if alive_by(self.players[i].1) {
                        PlayerStatus::Alive
                    } else {
                        PlayerStatus::Dead
                    },
                ),
        )
    }

    /// The votes against the player.
    pub open spec fn votes_for(self, player: Seq<char>) -> int {
        vote_total(self.player_attrs(player))
    }
}

/// Whether a player with these attributes is alive.
pub fn alive_in(attrs: &Vec<Attr>) -> (r: bool)
    ensures
        r == alive_by(attrs@),
{
    let found = first_match(attrs, Attr::is_alive, Ghost(pick_alive()));
    match found {
        Some(b) => b,
        None => true,
    }
}

/// Whether a player with these attributes is bulletproof.
pub fn bulletproof_in(attrs: &Vec<Attr>) -> (r: bool)
    ensures
        r == bulletproof_by(attrs@),
{
    let found = first_match(attrs, Attr::is_bulletproof, Ghost(pick_bulletproof()));
    match found {
        Some(b) => b,
        None => false,
    }
}

/// The faction and rank that the newest membership among the attributes gives.
pub fn membership_in(attrs: &Vec<Attr>) -> (r: Option<(Faction, i64)>)
    ensures
        r == membership_by(attrs@),
{
    first_match(attrs, Attr::get_faction_and_rank, Ghost(pick_membership()))
}

/// The alignment that the newest attribute of a faction that gives one gives.
pub fn alignment_in(attrs: &Vec<Attr>) -> (r: Option<Alignment>)
    ensures
        r == newest(attrs@, pick_alignment()),
{
    first_match(attrs, Attr::get_alignment, Ghost(pick_alignment()))
}

/// The objective that the newest attribute of a faction that gives one gives.
pub fn objective_in(attrs: &Vec<Attr>) -> (r: Option<Objective>)
    ensures
        r == newest(attrs@, pick_objective()),
{
    first_match(attrs, Attr::get_objective, Ghost(pick_objective()))
}

impl Game {
    /// The attributes of the player, oldest first.
    pub fn get_attrs(&self, player: &str) -> (r: &Vec<Attr>)
        requires
            self@.state.wf(),
            self@.state.knows_player(player@),
        ensures
            r@ == self@.state.player_attrs(player@),
    {
        let i = find(&self.state.players, player).unwrap();
        &self.state.players[i].1
    }

    /// The attributes of the faction, oldest first.
    pub fn get_faction_attrs(&self, faction: &str) -> (r: &Vec<Attr>)
        requires
            self@.state.wf(),
            self@.state.knows_faction(faction@),
        ensures
            r@ == self@.state.faction_attrs(faction@),
    {
        let i = find(&self.state.factions, faction).unwrap();
        &self.state.factions[i].1
    }

    /// Whether the player is alive: nothing says that the player is dead.
    pub fn is_alive(&self, player: &str) -> (r: bool)
        requires
            self@.state.wf(),
            self@.state.knows_player(player@),
        ensures
            r == self@.state.alive(player@),
    {
        alive_in(self.get_attrs(player))
    }

    /// Whether the player is immune to kills.
    pub fn is_bulletproof(&self, player: &str) -> (r: bool)
        requires
            self@.state.wf(),
            self@.state.knows_player(player@),
        ensures
            r == self@.state.bulletproof(player@),
    {
        bulletproof_in(self.get_attrs(player))
    }

    /// Whether the player is alive or dead.
    pub fn get_status(&self, player: &str) -> (r: PlayerStatus)
        requires
            self@.state.wf(),
            self@.state.knows_player(player@),
        ensures
            r == (if self@.state.alive(player@) {
                PlayerStatus::Alive
            } else {
                PlayerStatus::Dead
            }),
    {
        PlayerStatus::alive(self.is_alive(player))
    }

    /// The faction of the player and the player's rank in it.
    pub fn get_faction_and_rank(&self, player: &str) -> (r: (Faction, i64))
        requires
            self@.state.wf(),
            self@.state.knows_player(player@),
        ensures
            r == self@.state.membership(player@),
            self@.state.knows_faction(r.0@),
    {
        let i = find(&self.state.players, player).unwrap();
        proof {
            assert(self@.state.players[i as int].1 == self.state.players[i as int].1@);
            lemma_sound_player(self@.state.players[i as int].1, self@.state.factions);
        }
        membership_in(&self.state.players[i].1).unwrap()
    }

    /// The faction of the player.
    pub fn get_faction(&self, player: &str) -> (r: Faction)
        requires
            self@.state.wf(),
            self@.state.knows_player(player@),
        ensures
            r == self@.state.membership(player@).0,
            self@.state.knows_faction(r@),
    {
        self.get_faction_and_rank(player).0
    }

    /// The alignment of the faction.
    pub fn get_faction_alignment(&self, faction: &str) -> (r: Alignment)
        requires
            self@.state.wf(),
            self@.state.knows_faction(faction@),
        ensures
            r == self@.state.faction_alignment(faction@),
    {
        let i = find(&self.state.factions, faction).unwrap();
        proof {
            assert(self@.state.factions[i as int].1 == self.state.factions[i as int].1@);
            lemma_sound_faction(self@.state.factions[i as int].1);
        }
        alignment_in(&self.state.factions[i].1).unwrap()
    }

    /// The objective of the faction.
    pub fn get_faction_objective(&self, faction: &str) -> (r: Objective)
        requires
            self@.state.wf(),
            self@.state.knows_faction(faction@),
        ensures
            r == self@.state.faction_objective(faction@),
    {
        let i = find(&self.state.factions, faction).unwrap();
        proof {
            assert(self@.state.factions[i as int].1 == self.state.factions[i as int].1@);
            lemma_sound_faction(self@.state.factions[i as int].1);
        }
        objective_in(&self.state.factions[i].1).unwrap()
    }

    /// The alignment of the player, which is that of the player's faction.
    pub fn get_player_alignment(&self, player: &str) -> (r: Alignment)
        requires
            self@.state.wf(),
            self@.state.knows_player(player@),
        ensures
            r == self@.state.player_alignment(player@),
    {
        let faction = self.get_faction(player);
        self.get_faction_alignment(faction.as_str())
    }

    /// The votes against the player.
    pub fn num_votes_for(&self, player: &str) -> (r: i128)
        requires
            self@.state.wf(),
            self@.state.knows_player(player@),
        ensures
            r == self@.state.votes_for(player@),
    {
        sum_votes(self.get_attrs(player))
    }

    /// The living players, in the order of their names.
    pub fn get_living_players(&self) -> (r: Vec<Player>)
        ensures
            r@ == self@.state.living(),
    {
        let mut out: Vec<Player> = Vec::new();
        let mut i: usize = 0;
        while i < self.state.players.len()
            invariant
                i <= self.state.players.len(),
                out@ == self@.state.living_upto(i as int),
            decreases self.state.players.len() - i,
        {
            if alive_in(&self.state.players[i].1) {
                out.push(self.state.players[i].0.clone());
            }
            i += 1;
        }
        out
    }

    /// How many players are alive.
    pub fn num_living_players(&self) -> (r: usize)
        ensures
            r == self@.state.num_living_players(),
    {
        self.get_living_players().len()
    }

    /// The living members of the faction, the best rank first, members of one
    /// rank in the order of their names.
    pub fn get_members(&self, faction: &str) -> (r: Vec<Player>)
        requires
            self@.state.wf(),
        ensures
            r@ == self@.state.members(faction@),
    {
        let mut enrolled: Vec<(i128, Player)> = Vec::new();
        let mut i: usize = 0;
        assert(keyed(enrolled@) =~= self@.state.enrolled_upto(faction@, 0));
        while i < self.state.players.len()
            invariant
                i <= self.state.players.len(),
                self@.state.wf(),
                keyed(enrolled@) == self@.state.enrolled_upto(faction@, i as int),
            decreases self.state.players.len() - i,
        {
            proof {
                assert(self@.state.players[i as int].1 == self.state.players[i as int].1@);
                lemma_sound_player(self@.state.players[i as int].1, self@.state.factions);
            }
            if alive_in(&self.state.players[i].1) {
                let (f, rank) = membership_in(&self.state.players[i].1).unwrap();
                if same_name(f.as_str(), faction) {
                    let ghost before = keyed(enrolled@);
                    enrolled.push((rank as i128, self.state.players[i].0.clone()));
                    assert(keyed(enrolled@) =~= before.push((rank as int, self.state.players[i as int].0)));
                }
            }
            i += 1;
        }
        let sorted = sort_by_rank(enrolled);
        let names = into_seconds(sorted);
        assert(names@ =~= self@.state.members(faction@));
        names
    }

    /// How many living members the faction has.
    pub fn num_living_members(&self, faction: &str) -> (r: usize)
        requires
            self@.state.wf(),
        ensures
            r == self@.state.num_living_members(faction@),
    {
        self.get_members(faction).len()
    }

    /// The leader of the faction: the first of its living members, if it has any.
    pub fn get_leader(&self, faction: &str) -> (r: Option<Player>)
        requires
            self@.state.wf(),
        ensures
            r == self@.state.leader(faction@),
    {
        let mut members = self.get_members(faction);
        if members.len() == 0 {
            None
        } else {
            Some(members.swap_remove(0))
        }
    }

    /// How many living players are of the alignment.
    pub fn num_living_alignment(&self, alignment: &Alignment) -> (r: usize)
        requires
            self@.state.wf(),
        ensures
            r == self@.state.num_living_alignment(*alignment),
    {
        let mut count: usize = 0;
        let mut i: usize = 0;
        while i < self.state.players.len()
            invariant
                i <= self.state.players.len(),
                self@.state.wf(),
                count == self@.state.aligned_upto(*alignment, i as int),
                count <= i,
            decreases self.state.players.len() - i,
        {
            proof {
                assert(self@.state.players[i as int].1 == self.state.players[i as int].1@);
                lemma_sound_player(self@.state.players[i as int].1, self@.state.factions);
            }
            if alive_in(&self.state.players[i].1) {
                let (f, _) = membership_in(&self.state.players[i].1).unwrap();
                if self.get_faction_alignment(f.as_str()) == *alignment {
                    count += 1;
                }
            }
            i += 1;
        }
        count
    }

    /// How the faction stands, by its objective.
    pub fn get_faction_fate(&self, faction: &str) -> (r: Fate)
        requires
            self@.state.wf(),
            self@.state.knows_faction(faction@),
        ensures
            r == self@.state.fate(faction@),
    {
        match self.get_faction_objective(faction) {
            Objective::Eliminate(alignment) => {
                if self.num_living_alignment(&alignment) == 0 {
                    Fate::Won
                } else {
                    Fate::Losing
                }
            },
            Objective::EliminateFaction(other) => {
                if self.num_living_members(other.as_str()) == 0 {
                    Fate::Won
                } else {
                    Fate::Losing
                }
            },
            Objective::AchieveMajority => {
                let members = self.num_living_members(faction);
                let players = self.num_living_players();
                if 2 * (members as u128) > players as u128 {
                    Fate::Won
                } else {
                    Fate::Losing
                }
            },
            Objective::Survive => {
                if self.num_living_members(faction) == 0 {
                    Fate::Lost
                } else {
                    Fate::Winning
                }
            },
        }
    }

    /// Every player with their status, in the order of their names.
    pub fn get_statuses(&self) -> (r: Vec<(Player, PlayerStatus)>)
        ensures
            r@ == self@.state.statuses(),
    {
        let mut out: Vec<(Player, PlayerStatus)> = Vec::new();
        let mut i: usize = 0;
        while i < self.state.players.len()
            invariant
                i <= self.state.players.len(),
                out.len() == i,
                forall|j: int| 0 <= j < i ==> out@[j] == self@.state.statuses()[j],
            decreases self.state.players.len() - i,
        {
            let status = PlayerStatus::alive(alive_in(&self.state.players[i].1));
            out.push((self.state.players[i].0.clone(), status));
            i += 1;
        }
        assert(out@ =~= self@.state.statuses());
        out
    }
}

} // verus!
