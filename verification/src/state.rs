use vstd::prelude::*;
use crate::alignment::Alignment;
use crate::action::Action;
use crate::attr::Attr;
use crate::input::Input;
use crate::objective::Objective;
use crate::query::{lemma_newest, newest};
use crate::names::{lemma_name_before_irreflexive, name_before, same_name};
use crate::util::{Faction, Player};

verus! {

/// The factions of a game, each with its attributes, in the order of their names.
pub type Factions = Vec<(Faction, Vec<Attr>)>;

/// The players of a game, each with their attributes, in the order of their names.
pub type Players = Vec<(Player, Vec<Attr>)>;

/// What a game holds besides its history: every faction and every player
/// with their attributes, oldest first, and the counter that ties are broken
/// from.
#[derive(Debug, PartialEq, Eq)]
pub struct State {
    pub factions: Factions,
    pub players: Players,
    pub seed: u64,
}

/// A copy of the entries.
fn clone_entries(entries: &Vec<(String, Vec<Attr>)>) -> (r: Vec<(String, Vec<Attr>)>)
    ensures
        roster(r@) == roster(entries@),
{
    let mut out: Vec<(String, Vec<Attr>)> = Vec::new();
    let mut i: usize = 0;
    while i < entries.len()
        invariant
            i <= entries.len(),
            out.len() == i,
            forall|j: int| 0 <= j < i ==> out[j].0 == entries[j].0 && out[j].1@ == entries[j].1@,
        decreases entries.len() - i,
    {
        let attrs = entries[i].1.clone();
        assert(attrs@ =~= entries[i as int].1@);
        out.push((entries[i].0.clone(), attrs));
        i += 1;
    }
    assert(roster(out@) =~= roster(entries@));
    out
}

impl Clone for State {
    fn clone(&self) -> (r: Self)
        ensures
            r@ == self@,
    {
        State {
            factions: clone_entries(&self.factions),
            players: clone_entries(&self.players),
            seed: self.seed,
        }
    }
}

impl State {
    /// A state without factions or players, whose counter is 0.
    pub fn new() -> (r: Self)
        ensures
            r@ == (StateView { factions: Seq::empty(), players: Seq::empty(), seed: 0 }),
            r@.wf(),
    {
        let r = State { factions: Vec::new(), players: Vec::new(), seed: 0 };
        assert(r@.factions =~= Seq::empty());
        assert(r@.players =~= Seq::empty());
        r
    }
}

/// Names with their attributes, as a sequence.
pub type Roster = Seq<(String, Seq<Attr>)>;

/// The mathematical value of a `State`.
pub struct StateView {
    pub factions: Roster,
    pub players: Roster,
    pub seed: u64,
}

/// The roster that a vector of entries stands for.
pub open spec fn roster(entries: Seq<(String, Vec<Attr>)>) -> Roster {
    Seq::new(entries.len(), |i: int| (entries[i].0, entries[i].1@))
}

impl View for State {
    type V = StateView;

    open spec fn view(&self) -> StateView {
        StateView {
            factions: roster(self.factions@),
            players: roster(self.players@),
            seed: self.seed,
        }
    }
}

/// The name of the `i`-th entry.
pub open spec fn name_at(r: Roster, i: int) -> Seq<char> {
    r[i].0@
}

/// Whether the roster has an entry of that name.
pub open spec fn knows(r: Roster, name: Seq<char>) -> bool {
    exists|i: int| 0 <= i < r.len() && #[trigger] name_at(r, i) == name
}

/// Where the entry of that name stands, if the roster knows the name.
pub open spec fn slot(r: Roster, name: Seq<char>) -> int {
    choose|i: int| 0 <= i < r.len() && #[trigger] name_at(r, i) == name
}

/// The attributes of the entry of that name, oldest first.
pub open spec fn attrs_of(r: Roster, name: Seq<char>) -> Seq<Attr> {
    r[slot(r, name)].1
}

/// Whether the entries stand in the order of their names, so that no name
/// occurs twice.
pub open spec fn in_order(r: Roster) -> bool {
    forall|i: int, j: int|
        0 <= i < j < r.len() ==> name_before(#[trigger] name_at(r, i), #[trigger] name_at(r, j))
}

/// Whether two rosters hold the same names at the same places.
pub open spec fn same_names(r: Roster, s: Roster) -> bool {
    &&& r.len() == s.len()
    &&& forall|i: int| 0 <= i < r.len() ==> #[trigger] r[i].0 == s[i].0
}

/// In a roster in order, an entry is found where it stands.
pub proof fn lemma_slot(r: Roster, i: int)
    requires
        in_order(r),
        0 <= i < r.len(),
    ensures
        knows(r, name_at(r, i)),
        slot(r, name_at(r, i)) == i,
{
    let name = name_at(r, i);
    let j = slot(r, name);
    assert(name_at(r, i) == name);
    lemma_name_before_irreflexive(name);
    if j < i {
        assert(name_before(name_at(r, j), name_at(r, i)));
    } else if i < j {
        assert(name_before(name_at(r, i), name_at(r, j)));
    }
}

/// Rosters with the same names know the same names, at the same places.
pub proof fn lemma_same_names(r: Roster, s: Roster, name: Seq<char>)
    requires
        same_names(r, s),
    ensures
        knows(r, name) == knows(s, name),
        in_order(r) == in_order(s),
        in_order(r) && knows(r, name) ==> slot(r, name) == slot(s, name),
{
    assert forall|i: int| 0 <= i < r.len() implies #[trigger] name_at(r, i) == name_at(s, i) by {
        assert(r[i].0 == s[i].0);
    }
    if knows(r, name) {
        let i = choose|i: int| 0 <= i < r.len() && #[trigger] name_at(r, i) == name;
        assert(name_at(s, i) == name);
    }
    if knows(s, name) {
        let i = choose|i: int| 0 <= i < s.len() && #[trigger] name_at(s, i) == name;
        assert(name_at(r, i) == name);
    }
    if in_order(r) {
        assert forall|i: int, j: int| 0 <= i < j < s.len() implies name_before(
            #[trigger] name_at(s, i),
            #[trigger] name_at(s, j),
        ) by {
            assert(name_before(name_at(r, i), name_at(r, j)));
        }
    }
    if in_order(s) {
        assert forall|i: int, j: int| 0 <= i < j < r.len() implies name_before(
            #[trigger] name_at(r, i),
            #[trigger] name_at(r, j),
        ) by {
            assert(name_before(name_at(s, i), name_at(s, j)));
        }
    }
    if in_order(r) && knows(r, name) {
        let i = slot(r, name);
        assert(name_at(s, i) == name);
        lemma_slot(s, i);
    }
}

/// Where the entry of that name stands among the entries.
pub fn find(entries: &Vec<(String, Vec<Attr>)>, name: &str) -> (r: Option<usize>)
    ensures
        match r {
            Some(i) => i < entries.len() && name_at(roster(entries@), i as int) == name@,
            None => !knows(roster(entries@), name@),
        },
        in_order(roster(entries@)) ==> (r matches Some(i) ==> i == slot(roster(entries@), name@)),
        r is Some == knows(roster(entries@), name@),
{
    let mut i: usize = 0;
    while i < entries.len()
        invariant
            i <= entries.len(),
            forall|j: int| 0 <= j < i ==> #[trigger] name_at(roster(entries@), j) != name@,
        decreases entries.len() - i,
    {
        if same_name(entries[i].0.as_str(), name) {
            proof {
                assert(name_at(roster(entries@), i as int) == name@);
                if in_order(roster(entries@)) {
                    lemma_slot(roster(entries@), i as int);
                }
            }
            return Some(i);
        }
        i += 1;
    }
    None
}

/// Picks out of an attribute whether it says that the player is dead.
pub open spec fn pick_alive() -> spec_fn(Attr) -> Option<bool> {
    |a: Attr| a.spec_is_alive()
}

/// Picks out of an attribute whether it says that the player is bulletproof.
pub open spec fn pick_bulletproof() -> spec_fn(Attr) -> Option<bool> {
    |a: Attr| a.spec_is_bulletproof()
}

/// Picks the faction and rank out of an attribute.
pub open spec fn pick_membership() -> spec_fn(Attr) -> Option<(Faction, i64)> {
    |a: Attr| a.spec_get_faction_and_rank()
}

/// Picks the alignment out of an attribute.
pub open spec fn pick_alignment() -> spec_fn(Attr) -> Option<Alignment> {
    |a: Attr| a.spec_get_alignment()
}

/// Picks the objective out of an attribute.
pub open spec fn pick_objective() -> spec_fn(Attr) -> Option<Objective> {
    |a: Attr| a.spec_get_objective()
}

/// Whether a player with these attributes is alive: no attribute says otherwise.
pub open spec fn alive_by(attrs: Seq<Attr>) -> bool {
    match newest(attrs, pick_alive()) {
        Some(b) => b,
        None => true,
    }
}

/// Whether a player with these attributes is bulletproof: an attribute says so.
pub open spec fn bulletproof_by(attrs: Seq<Attr>) -> bool {
    match newest(attrs, pick_bulletproof()) {
        Some(b) => b,
        None => false,
    }
}

/// The faction and rank that the newest membership among the attributes gives.
pub open spec fn membership_by(attrs: Seq<Attr>) -> Option<(Faction, i64)> {
    newest(attrs, pick_membership())
}

/// Whether a player can hold these attributes for good: each can be carried
/// over a phase boundary and names only factions of the game, and one of them
/// is a membership that does not lapse.
pub open spec fn player_sound(attrs: Seq<Attr>, factions: Roster) -> bool {
    &&& forall|k: int|
        0 <= k < attrs.len() ==> (#[trigger] attrs[k]).can_expire() && attrs[k].factions_known(
            factions,
        )
    &&& exists|k: int| 0 <= k < attrs.len() && #[trigger] attrs[k] is Member
}

/// Whether a faction can hold these attributes for good: each can be carried
/// over a phase boundary, and among them are an alignment and an objective
/// that do not lapse.
pub open spec fn faction_sound(attrs: Seq<Attr>) -> bool {
    &&& forall|k: int| 0 <= k < attrs.len() ==> (#[trigger] attrs[k]).can_expire()
    &&& exists|k: int| 0 <= k < attrs.len() && #[trigger] attrs[k] is Alignment
    &&& exists|k: int| 0 <= k < attrs.len() && #[trigger] attrs[k] is Objective
}

impl StateView {
    /// Whether the game has a player of that name.
    pub open spec fn knows_player(self, name: Seq<char>) -> bool {
        knows(self.players, name)
    }

    /// Whether the game has a faction of that name.
    pub open spec fn knows_faction(self, name: Seq<char>) -> bool {
        knows(self.factions, name)
    }

    /// The attributes of the player of that name, oldest first.
    pub open spec fn player_attrs(self, name: Seq<char>) -> Seq<Attr> {
        attrs_of(self.players, name)
    }

    /// The attributes of the faction of that name, oldest first.
    pub open spec fn faction_attrs(self, name: Seq<char>) -> Seq<Attr> {
        attrs_of(self.factions, name)
    }

    /// Whether the player is alive.
    pub open spec fn alive(self, player: Seq<char>) -> bool {
        alive_by(self.player_attrs(player))
    }

    /// Whether the player is immune to kills.
    pub open spec fn bulletproof(self, player: Seq<char>) -> bool {
        bulletproof_by(self.player_attrs(player))
    }

    /// The faction of the player and the player's rank in it.
    pub open spec fn membership(self, player: Seq<char>) -> (Faction, i64) {
        membership_by(self.player_attrs(player)).unwrap()
    }

    /// The alignment of the faction.
    pub open spec fn faction_alignment(self, faction: Seq<char>) -> Alignment {
        newest(self.faction_attrs(faction), pick_alignment()).unwrap()
    }

    /// The objective of the faction.
    pub open spec fn faction_objective(self, faction: Seq<char>) -> Objective {
        newest(self.faction_attrs(faction), pick_objective()).unwrap()
    }

    /// The alignment of the player, which is that of the player's faction.
    pub open spec fn player_alignment(self, player: Seq<char>) -> Alignment {
        self.faction_alignment(self.membership(player).0@)
    }

    /// Whether the input speaks only of players of the game: the one who
    /// submits, and every target that resolving the action looks up, at once
    /// or at the end of the phase.
    pub open spec fn admits(self, input: Input) -> bool {
        match input {
            Input::EndPhase => true,
            Input::Use(player, action) => knows(self.players, player@) && action.targets_known(
                self.players,
            ) && match action {
                Action::Immediate(a) => a.targets_known(self.players),
                Action::Order(_, inner) => match *inner {
                    Action::Immediate(a) => a.targets_known(self.players),
                    _ => true,
                },
                _ => true,
            },
        }
    }

    /// The state with one more attribute for the player, as the newest.
    pub open spec fn grant(self, player: Seq<char>, attr: Attr) -> StateView {
        let i = slot(self.players, player);
        StateView {
            players: self.players.update(i, (self.players[i].0, self.players[i].1.push(attr))),
            ..self
        }
    }

    /// The closed world of a game: factions and players stand in the order of
    /// their names, every player belongs for good to a faction of the game,
    /// every faction has for good an alignment and an objective, and every
    /// attribute can be carried over a phase boundary.
    pub open spec fn wf(self) -> bool {
        &&& in_order(self.factions)
        &&& in_order(self.players)
        &&& forall|i: int|
            0 <= i < self.players.len() ==> player_sound(
                (#[trigger] self.players[i]).1,
                self.factions,
            )
        &&& forall|i: int|
            0 <= i < self.factions.len() ==> faction_sound((#[trigger] self.factions[i]).1)
    }
}

/// Rosters with the same names are the same to an attribute that names factions.
pub proof fn lemma_factions_known_same(attr: Attr, r: Roster, s: Roster)
    requires
        same_names(r, s),
    ensures
        attr.factions_known(r) == attr.factions_known(s),
    decreases attr,
{
    match attr {
        Attr::Member(f, _) => lemma_same_names(r, s, f@),
        Attr::Phases(_, a) => lemma_factions_known_same(*a, r, s),
        Attr::Tapped(a) => lemma_factions_known_same(*a, r, s),
        _ => {},
    }
}

/// An attribute that gives a membership gives one in a faction that it names.
pub proof fn lemma_membership_known(attr: Attr, factions: Roster)
    requires
        attr.factions_known(factions),
    ensures
        attr.spec_get_faction_and_rank() matches Some(m) ==> knows(factions, m.0@),
    decreases attr,
{
    match attr {
        Attr::Phases(_, a) => lemma_membership_known(*a, factions),
        Attr::Tapped(a) => lemma_membership_known(*a, factions),
        _ => {},
    }
}

/// A player with sound attributes has a faction, and it is one of the game.
pub proof fn lemma_sound_player(attrs: Seq<Attr>, factions: Roster)
    requires
        player_sound(attrs, factions),
    ensures
        membership_by(attrs) matches Some(m) && knows(factions, m.0@),
{
    lemma_newest(attrs, pick_membership());
    let w = choose|k: int| 0 <= k < attrs.len() && #[trigger] attrs[k] is Member;
    assert(pick_membership()(attrs[w]) is Some);
    let m = membership_by(attrs).unwrap();
    let k = choose|k: int|
        0 <= k < attrs.len() && pick_membership()(#[trigger] attrs[k]) == Some(m) && forall|j: int|
            k < j < attrs.len() ==> pick_membership()(#[trigger] attrs[j]) is None;
    lemma_membership_known(attrs[k], factions);
}

/// A faction with sound attributes has an alignment and an objective.
pub proof fn lemma_sound_faction(attrs: Seq<Attr>)
    requires
        faction_sound(attrs),
    ensures
        newest(attrs, pick_alignment()) is Some,
        newest(attrs, pick_objective()) is Some,
{
    lemma_newest(attrs, pick_alignment());
    lemma_newest(attrs, pick_objective());
    let a = choose|k: int| 0 <= k < attrs.len() && #[trigger] attrs[k] is Alignment;
    assert(pick_alignment()(attrs[a]) is Some);
    let o = choose|k: int| 0 <= k < attrs.len() && #[trigger] attrs[k] is Objective;
    assert(pick_objective()(attrs[o]) is Some);
}

/// A sound state stays sound when a player is given an attribute that can be
/// carried over a phase boundary and names only factions of the game; its
/// names stay as they are.
pub proof fn lemma_grant(s: StateView, player: Seq<char>, attr: Attr)
    requires
        s.wf(),
        s.knows_player(player),
        attr.can_expire(),
        attr.factions_known(s.factions),
    ensures
        s.grant(player, attr).wf(),
        same_names(s.players, s.grant(player, attr).players),
        s.grant(player, attr).factions == s.factions,
        s.grant(player, attr).seed == s.seed,
{
    let t = s.grant(player, attr);
    let i = slot(s.players, player);
    assert(name_at(s.players, i) == player);
    assert(same_names(s.players, t.players));
    lemma_same_names(s.players, t.players, player);
    assert forall|j: int| 0 <= j < t.players.len() implies player_sound(
        (#[trigger] t.players[j]).1,
        t.factions,
    ) by {
        assert(player_sound(s.players[j].1, s.factions));
        if j == i {
            let old_attrs = s.players[i].1;
            let new_attrs = t.players[i].1;
            let w = choose|k: int| 0 <= k < old_attrs.len() && #[trigger] old_attrs[k] is Member;
            assert(new_attrs[w] is Member);
            assert forall|k: int| 0 <= k < new_attrs.len() implies (#[trigger] new_attrs[k]).can_expire()
                && new_attrs[k].factions_known(t.factions) by {
                if k < old_attrs.len() {
                    assert(old_attrs[k].can_expire());
                }
            }
        }
    }
}

/// Giving a player an attribute adds it to that player's attributes and
/// leaves everybody else's as they are.
pub proof fn lemma_grant_attrs(s: StateView, player: Seq<char>, attr: Attr, other: Seq<char>)
    requires
        s.wf(),
        s.knows_player(player),
        s.knows_player(other),
    ensures
        s.grant(player, attr).player_attrs(other) == (if other == player {
            s.player_attrs(other).push(attr)
        } else {
            s.player_attrs(other)
        }),
{
    let t = s.grant(player, attr);
    let i = slot(s.players, player);
    let j = slot(s.players, other);
    assert(name_at(s.players, i) == player);
    assert(name_at(s.players, j) == other);
    assert(same_names(s.players, t.players));
    lemma_same_names(s.players, t.players, other);
}

} // verus!
