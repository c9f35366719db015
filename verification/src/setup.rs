use vstd::prelude::*;
use crate::action::Action;
use crate::alignment::Alignment;
use crate::attr::Attr;
use crate::membership::Membership;
use crate::objective::Objective;
use crate::names::{
    comes_before, lemma_name_before_irreflexive, lemma_name_before_total,
    lemma_name_before_transitive, name_before, same_name,
};
use crate::state::{
    attrs_of, faction_sound, in_order, knows, lemma_slot, name_at, player_sound, roster, slot, Roster,
    State, StateView,
};
use crate::util::{Faction, Player};

verus! {

/// Whether `at` is the place of the name in the roster: every entry before
/// it has a name that comes before the name, and the entry at it has not.
pub open spec fn is_place(r: Roster, name: Seq<char>, at: int) -> bool {
    &&& 0 <= at <= r.len()
    &&& forall|j: int| 0 <= j < at ==> name_before(#[trigger] name_at(r, j), name)
    &&& at < r.len() ==> !name_before(name_at(r, at), name)
}

/// The place of the name in the roster.
pub open spec fn place(r: Roster, name: Seq<char>) -> int {
    choose|at: int| is_place(r, name, at)
}

/// The roster with the attributes under the name: in place of those that the
/// name had, or as a new entry at the place of the name.
pub open spec fn with_entry(r: Roster, name: String, attrs: Seq<Attr>) -> Roster {
    let at = place(r, name@);
    if at < r.len() && name_at(r, at) == name@ {
        r.update(at, (r[at].0, attrs))
    } else {
        r.insert(at, (name, attrs))
    }
}

/// A name has one place only.
pub proof fn lemma_place(r: Roster, name: Seq<char>, at: int)
    requires
        is_place(r, name, at),
    ensures
        place(r, name) == at,
{
    let p = place(r, name);
    if p < at {
        assert(name_before(name_at(r, p), name));
    } else if at < p {
        assert(name_before(name_at(r, at), name));
    }
}

/// A roster in order with an entry put in is in order, holds the attributes
/// under the name, and holds under every other name what it held.
pub proof fn lemma_with_entry(r: Roster, name: String, attrs: Seq<Attr>, at: int)
    requires
        in_order(r),
        is_place(r, name@, at),
    ensures
        in_order(with_entry(r, name, attrs)),
        knows(with_entry(r, name, attrs), name@),
        slot(with_entry(r, name, attrs), name@) == at,
        with_entry(r, name, attrs)[at].1 == attrs,
        with_entry(r, name, attrs).len() == r.len() + (if knows(r, name@) {
            0int
        } else {
            1int
        }),
        forall|other: Seq<char>|
            other != name@ ==> knows(with_entry(r, name, attrs), other) == knows(r, other),
        forall|other: Seq<char>|
            other != name@ && #[trigger] knows(r, other) ==> with_entry(r, name, attrs)[slot(
                with_entry(r, name, attrs),
                other,
            )] == r[slot(r, other)],
{
    lemma_place(r, name@, at);
    let s = with_entry(r, name, attrs);
    if knows(r, name@) {
        let i = slot(r, name@);
        lemma_name_before_irreflexive(name@);
        if i < at {
            assert(name_before(name_at(r, i), name@));
        } else if i > at {
            assert(name_before(name_at(r, at), name_at(r, i)));
        }
    }
    if at < r.len() && name_at(r, at) == name@ {
        assert forall|i: int, j: int| 0 <= i < j < s.len() implies name_before(
            #[trigger] name_at(s, i),
            #[trigger] name_at(s, j),
        ) by {
            assert(name_before(name_at(r, i), name_at(r, j)));
        }
        assert(name_at(s, at) == name@);
        lemma_slot(s, at);
        assert forall|other: Seq<char>| other != name@ implies knows(s, other) == knows(r, other) by {
            if knows(r, other) {
                let i = slot(r, other);
                assert(name_at(s, i) == other);
            }
            if knows(s, other) {
                let i = slot(s, other);
                assert(name_at(r, i) == other);
            }
        }
        assert forall|other: Seq<char>| other != name@ && #[trigger] knows(r, other) implies s[slot(
            s,
            other,
        )] == r[slot(r, other)] by {
            let i = slot(r, other);
            assert(name_at(s, i) == other);
            lemma_slot(s, i);
        }
    } else {
        assert forall|j: int| at <= j < r.len() implies name_before(name@, #[trigger] name_at(r, j)) by {
            if name_at(r, at) != name@ {
                lemma_name_before_total(name_at(r, at), name@);
            }
            if j > at {
                assert(name_before(name_at(r, at), name_at(r, j)));
                lemma_name_before_transitive(name@, name_at(r, at), name_at(r, j));
            }
        }
        assert forall|i: int, j: int| 0 <= i < j < s.len() implies name_before(
            #[trigger] name_at(s, i),
            #[trigger] name_at(s, j),
        ) by {
            if j < at {
                assert(name_before(name_at(r, i), name_at(r, j)));
            } else if j == at {
                assert(name_before(name_at(r, i), name@));
            } else if i < at {
                assert(name_before(name_at(r, i), name_at(r, j - 1)));
            } else if i == at {
                assert(name_before(name@, name_at(r, j - 1)));
            } else {
                assert(name_before(name_at(r, i - 1), name_at(r, j - 1)));
            }
        }
        assert(name_at(s, at) == name@);
        lemma_slot(s, at);
        assert forall|other: Seq<char>| other != name@ implies knows(s, other) == knows(r, other) by {
            if knows(r, other) {
                let i = slot(r, other);
                if i < at {
                    assert(name_at(s, i) == other);
                } else {
                    assert(name_at(s, i + 1) == other);
                }
            }
            if knows(s, other) {
                let i = slot(s, other);
                if i < at {
                    assert(name_at(r, i) == other);
                } else {
                    assert(name_at(r, i - 1) == other);
                }
            }
        }
        assert forall|other: Seq<char>| other != name@ && #[trigger] knows(r, other) implies s[slot(
            s,
            other,
        )] == r[slot(r, other)] by {
            let i = slot(r, other);
            if i < at {
                assert(name_at(s, i) == other);
                lemma_slot(s, i);
            } else {
                assert(name_at(s, i + 1) == other);
                lemma_slot(s, i + 1);
            }
        }
    }
}

/// What holds of the attributes of every entry of a roster holds of those of
/// a roster with an entry put in, if it holds of the attributes put in.
pub proof fn lemma_with_entry_all(
    r: Roster,
    name: String,
    attrs: Seq<Attr>,
    at: int,
    holds: spec_fn(Seq<Attr>) -> bool,
)
    requires
        is_place(r, name@, at),
        forall|i: int| 0 <= i < r.len() ==> holds(#[trigger] r[i].1),
        holds(attrs),
    ensures
        forall|i: int|
            0 <= i < with_entry(r, name, attrs).len() ==> holds(#[trigger] with_entry(r, name, attrs)[i].1),
{
    lemma_place(r, name@, at);
    let s = with_entry(r, name, attrs);
    assert forall|i: int| 0 <= i < s.len() implies holds(#[trigger] s[i].1) by {
        if at < r.len() && name_at(r, at) == name@ {
            if i != at {
                assert(holds(r[i].1));
            }
        } else {
            if i < at {
                assert(holds(r[i].1));
            } else if i > at {
                assert(holds(r[i - 1].1));
            }
        }
    }
}

/// Puts the attributes under the name: in place of those that the name had,
/// or as a new entry where the order of names has it.
pub fn insert_entry(entries: &mut Vec<(String, Vec<Attr>)>, name: String, attrs: Vec<Attr>)
    ensures
        roster(final(entries)@) == with_entry(roster(old(entries)@), name, attrs@),
        is_place(roster(old(entries)@), name@, place(roster(old(entries)@), name@)),
{
    let ghost r = roster(entries@);
    let mut at: usize = 0;
    while at < entries.len() && comes_before(entries[at].0.as_str(), name.as_str())
        invariant
            at <= entries.len(),
            r == roster(entries@),
            forall|j: int| 0 <= j < at ==> name_before(#[trigger] name_at(r, j), name@),
        decreases entries.len() - at,
    {
        at += 1;
    }
    proof {
        assert(is_place(r, name@, at as int));
        lemma_place(r, name@, at as int);
    }
    if at < entries.len() && same_name(entries[at].0.as_str(), name.as_str()) {
        entries[at].1 = attrs;
        assert(roster(entries@) =~= with_entry(r, name, attrs@));
    } else {
        entries.insert(at, (name, attrs));
        assert(roster(entries@) =~= with_entry(r, name, attrs@));
    }
}

impl State {
    /// Puts a faction with its attributes into the state, in place of the
    /// faction of that name if there is one.
    pub fn insert_faction(&mut self, name: Faction, attrs: Vec<Attr>)
        ensures
            final(self)@ == (StateView {
                factions: with_entry(old(self)@.factions, name, attrs@),
                ..old(self)@
            }),
            in_order(old(self)@.factions) ==> in_order(final(self)@.factions),
            in_order(old(self)@.factions) ==> final(self)@.knows_faction(name@),
            in_order(old(self)@.factions) ==> final(self)@.faction_attrs(name@) == attrs@,
    {
        let ghost before = self@.factions;
        insert_entry(&mut self.factions, name, attrs);
        proof {
            if in_order(before) {
                lemma_insert(before, name, attrs@);
            }
        }
    }

    /// Puts a player with their attributes into the state, in place of the
    /// player of that name if there is one.
    pub fn insert_player(&mut self, name: Player, attrs: Vec<Attr>)
        ensures
            final(self)@ == (StateView {
                players: with_entry(old(self)@.players, name, attrs@),
                ..old(self)@
            }),
            in_order(old(self)@.players) ==> in_order(final(self)@.players),
            in_order(old(self)@.players) ==> final(self)@.knows_player(name@),
            in_order(old(self)@.players) ==> final(self)@.player_attrs(name@) == attrs@,
    {
        let ghost before = self@.players;
        insert_entry(&mut self.players, name, attrs);
        proof {
            if in_order(before) {
                lemma_insert(before, name, attrs@);
            }
        }
    }
}

/// Whether the player's oldest attribute makes them a member of the faction
/// with the rank.
pub open spec fn enrolls(s: StateView, player: Seq<char>, faction: Seq<char>, rank: i64) -> bool {
    &&& s.knows_player(player)
    &&& s.player_attrs(player).len() >= 1
    &&& s.player_attrs(player)[0] matches Attr::Member(f, r) && f@ == faction && r == rank
}

/// Whether the state is the setup of a game for five: the town of Alice, who
/// can investigate anybody, Bob, and Charlie, who can protect anybody else,
/// which is good and wants all that is evil gone; and the mafia of Eve and
/// Malory, which is evil, wants to be the majority, and whose leader can
/// order a member to kill anybody.
pub open spec fn is_default_setup(s: StateView) -> bool {
    &&& s.factions.len() == 2
    &&& s.players.len() == 5
    &&& s.knows_faction("Mafia"@)
    &&& s.knows_faction("Town"@)
    &&& s.faction_attrs("Mafia"@).len() == 4
    &&& s.faction_attrs("Mafia"@)[0] matches Attr::Has(Action::Order(who, what)) && who@ == "$MEMBER"@
        && (*what matches Action::Kill(whom) && whom@ == "$PLAYER"@)
    &&& s.faction_attrs("Mafia"@)[1] == Attr::Alignment(Alignment::Evil)
    &&& s.faction_attrs("Mafia"@)[2] == Attr::Membership(Membership::Visible)
    &&& s.faction_attrs("Mafia"@)[3] == Attr::Objective(Objective::AchieveMajority)
    &&& s.faction_attrs("Town"@) == seq![
        Attr::Alignment(Alignment::Good),
        Attr::Membership(Membership::Hidden),
        Attr::Objective(Objective::Eliminate(Alignment::Evil)),
    ]
    &&& enrolls(s, "Alice"@, "Town"@, 0)
    &&& s.player_attrs("Alice"@).len() == 2
    &&& s.player_attrs("Alice"@)[1] matches Attr::Has(Action::Investigate(whom)) && whom@ == "$PLAYER"@
    &&& enrolls(s, "Bob"@, "Town"@, 0)
    &&& s.player_attrs("Bob"@).len() == 1
    &&& enrolls(s, "Charlie"@, "Town"@, 0)
    &&& s.player_attrs("Charlie"@).len() == 2
    &&& s.player_attrs("Charlie"@)[1] matches Attr::Has(Action::Protect(whom)) && whom@
        == "$OTHER_PLAYER"@
    &&& enrolls(s, "Eve"@, "Mafia"@, 1)
    &&& s.player_attrs("Eve"@).len() == 1
    &&& enrolls(s, "Malory"@, "Mafia"@, 2)
    &&& s.player_attrs("Malory"@).len() == 1
}

/// What putting an entry into a roster in order does to what is found in it.
pub proof fn lemma_insert(r: Roster, name: String, attrs: Seq<Attr>)
    requires
        in_order(r),
        is_place(r, name@, place(r, name@)),
    ensures
        in_order(with_entry(r, name, attrs)),
        knows(with_entry(r, name, attrs), name@),
        attrs_of(with_entry(r, name, attrs), name@) == attrs,
        with_entry(r, name, attrs).len() == r.len() + (if knows(r, name@) {
            0int
        } else {
            1int
        }),
        forall|other: Seq<char>|
            other != name@ ==> #[trigger] knows(with_entry(r, name, attrs), other) == knows(r, other),
        forall|other: Seq<char>|
            other != name@ && knows(r, other) ==> #[trigger] attrs_of(with_entry(r, name, attrs), other)
                == attrs_of(r, other),
{
    lemma_with_entry(r, name, attrs, place(r, name@));
}

/// The five names of the default setup, and its two factions, differ.
pub proof fn lemma_default_names()
    ensures
        "Mafia"@ != "Town"@,
        "Alice"@ != "Bob"@,
        "Alice"@ != "Charlie"@,
        "Alice"@ != "Eve"@,
        "Alice"@ != "Malory"@,
        "Bob"@ != "Charlie"@,
        "Bob"@ != "Eve"@,
        "Bob"@ != "Malory"@,
        "Charlie"@ != "Eve"@,
        "Charlie"@ != "Malory"@,
        "Eve"@ != "Malory"@,
{
    reveal_strlit("Mafia");
    reveal_strlit("Town");
    reveal_strlit("Alice");
    reveal_strlit("Bob");
    reveal_strlit("Charlie");
    reveal_strlit("Eve");
    reveal_strlit("Malory");
    assert("Mafia"@.len() == 5 && "Town"@.len() == 4);
    assert("Alice"@.len() == 5 && "Charlie"@.len() == 7 && "Malory"@.len() == 6);
    assert("Bob"@.len() == 3 && "Eve"@.len() == 3);
    assert("Bob"@[0] != "Eve"@[0]);
}

/// Puts a faction with sound attributes into a state whose factions are
/// sound and in order.
fn add_faction(state: &mut State, name: &str, attrs: Vec<Attr>)
    requires
        in_order(old(state)@.factions),
        forall|i: int| 0 <= i < old(state)@.factions.len() ==> faction_sound(#[trigger] old(state)@.factions[i].1),
        faction_sound(attrs@),
    ensures
        final(state)@.players == old(state)@.players,
        final(state)@.seed == old(state)@.seed,
        in_order(final(state)@.factions),
        forall|i: int| 0 <= i < final(state)@.factions.len() ==> faction_sound(#[trigger] final(state)@.factions[i].1),
        final(state)@.factions.len() == old(state)@.factions.len() + (if knows(old(state)@.factions, name@) {
            0int
        } else {
            1int
        }),
        knows(final(state)@.factions, name@),
        attrs_of(final(state)@.factions, name@) == attrs@,
        forall|other: Seq<char>|
            other != name@ ==> #[trigger] knows(final(state)@.factions, other) == knows(
                old(state)@.factions,
                other,
            ),
        forall|other: Seq<char>|
            other != name@ && knows(old(state)@.factions, other) ==> #[trigger] attrs_of(
                final(state)@.factions,
                other,
            ) == attrs_of(old(state)@.factions, other),
{
    let ghost before = state@.factions;
    let ghost sound = |a: Seq<Attr>| faction_sound(a);
    let owned = name.to_string();
    insert_entry(&mut state.factions, owned, attrs);
    proof {
        lemma_insert(before, owned, attrs@);
        lemma_with_entry_all(before, owned, attrs@, place(before, owned@), sound);
        assert forall|i: int| 0 <= i < state@.factions.len() implies faction_sound(
            #[trigger] state@.factions[i].1,
        ) by {
            assert(sound(state@.factions[i].1));
        }
    }
}

/// Puts a player with sound attributes into a state whose players are sound
/// and in order.
fn add_player(state: &mut State, name: &str, attrs: Vec<Attr>)
    requires
        in_order(old(state)@.players),
        forall|i: int|
            0 <= i < old(state)@.players.len() ==> player_sound(
                #[trigger] old(state)@.players[i].1,
                old(state)@.factions,
            ),
        player_sound(attrs@, old(state)@.factions),
    ensures
        final(state)@.factions == old(state)@.factions,
        final(state)@.seed == old(state)@.seed,
        in_order(final(state)@.players),
        forall|i: int|
            0 <= i < final(state)@.players.len() ==> player_sound(
                #[trigger] final(state)@.players[i].1,
                final(state)@.factions,
            ),
        final(state)@.players.len() == old(state)@.players.len() + (if knows(old(state)@.players, name@) {
            0int
        } else {
            1int
        }),
        knows(final(state)@.players, name@),
        attrs_of(final(state)@.players, name@) == attrs@,
        forall|other: Seq<char>|
            other != name@ ==> #[trigger] knows(final(state)@.players, other) == knows(
                old(state)@.players,
                other,
            ),
        forall|other: Seq<char>|
            other != name@ && knows(old(state)@.players, other) ==> #[trigger] attrs_of(
                final(state)@.players,
                other,
            ) == attrs_of(old(state)@.players, other),
{
    let ghost before = state@.players;
    let ghost factions = state@.factions;
    let ghost sound = |a: Seq<Attr>| player_sound(a, factions);
    let owned = name.to_string();
    insert_entry(&mut state.players, owned, attrs);
    proof {
        lemma_insert(before, owned, attrs@);
        lemma_with_entry_all(before, owned, attrs@, place(before, owned@), sound);
        assert forall|i: int| 0 <= i < state@.players.len() implies player_sound(
            #[trigger] state@.players[i].1,
            state@.factions,
        ) by {
            assert(sound(state@.players[i].1));
        }
    }
}

/// What the mafia of the default setup holds.
fn mafia_attrs() -> (r: Vec<Attr>)
    ensures
        faction_sound(r@),
        r@.len() == 4,
        r@[0] matches Attr::Has(Action::Order(who, what)) && who@ == "$MEMBER"@ && (*what matches Action::Kill(
            whom,
        ) && whom@ == "$PLAYER"@),
        r@[1] == Attr::Alignment(Alignment::Evil),
        r@[2] == Attr::Membership(Membership::Visible),
        r@[3] == Attr::Objective(Objective::AchieveMajority),
{
    let r = vec![
        Attr::Has(Action::Order("$MEMBER".to_string(), Box::new(Action::Kill("$PLAYER".to_string())))),
        Attr::Alignment(Alignment::Evil),
        Attr::Membership(Membership::Visible),
        Attr::Objective(Objective::AchieveMajority),
    ];
    assert(r@[1] is Alignment);
    assert(r@[3] is Objective);
    r
}

/// What the town of the default setup holds.
fn town_attrs() -> (r: Vec<Attr>)
    ensures
        faction_sound(r@),
        r@ == seq![
            Attr::Alignment(Alignment::Good),
            Attr::Membership(Membership::Hidden),
            Attr::Objective(Objective::Eliminate(Alignment::Evil)),
        ],
{
    let r = vec![
        Attr::Alignment(Alignment::Good),
        Attr::Membership(Membership::Hidden),
        Attr::Objective(Objective::Eliminate(Alignment::Evil)),
    ];
    assert(r@[0] is Alignment);
    assert(r@[2] is Objective);
    assert(r@ =~= seq![
        Attr::Alignment(Alignment::Good),
        Attr::Membership(Membership::Hidden),
        Attr::Objective(Objective::Eliminate(Alignment::Evil)),
    ]);
    r
}

/// The membership of a player of the default setup, and what the player can do.
fn recruit(faction: &str, rank: i64, ability: Option<Attr>) -> (r: Vec<Attr>)
    requires
        ability matches Some(a) ==> a is Has,
    ensures
        r@.len() == (if ability is Some {
            2int
        } else {
            1int
        }),
        r@[0] matches Attr::Member(f, n) && f@ == faction@ && n == rank,
        ability matches Some(a) ==> r@[1] == a,
        forall|factions: Roster| knows(factions, faction@) ==> #[trigger] player_sound(r@, factions),
{
    let mut r = vec![Attr::Member(faction.to_string(), rank)];
    match ability {
        Some(a) => {
            r.push(a);
        },
        None => {},
    }
    assert forall|factions: Roster| knows(factions, faction@) implies #[trigger] player_sound(
        r@,
        factions,
    ) by {
        assert(r@[0] is Member);
    }
    r
}

/// The setup of a game for five, with the given seed for its counter.
pub fn default_setup(seed: u64) -> (r: State)
    ensures
        r@.wf(),
        r@.seed == seed,
        is_default_setup(r@),
{
    let mut setup = State::new();
    proof {
        lemma_default_names();
    }
    add_faction(&mut setup, "Mafia", mafia_attrs());
    add_faction(&mut setup, "Town", town_attrs());
    let investigate = Attr::Has(Action::Investigate("$PLAYER".to_string()));
    let protect = Attr::Has(Action::Protect("$OTHER_PLAYER".to_string()));
    add_player(&mut setup, "Alice", recruit("Town", 0, Some(investigate)));
    add_player(&mut setup, "Bob", recruit("Town", 0, None));
    add_player(&mut setup, "Charlie", recruit("Town", 0, Some(protect)));
    add_player(&mut setup, "Eve", recruit("Mafia", 1, None));
    add_player(&mut setup, "Malory", recruit("Mafia", 2, None));
    setup.seed = seed;
    setup
}

} // verus!
