use vstd::prelude::*;
use crate::census::membership_in;
use crate::event::Event;
use crate::game::Game;
use crate::names::same_name;
use crate::player::PlayerStatus;
use crate::state::{find, membership_by, StateView};
use crate::util::Player;
use crate::visibility::Visibility;

verus! {

impl StateView {
    /// Whether the game has a player of that name whose faction, as of now,
    /// is the one of that name.
    pub open spec fn belongs(self, player: Seq<char>, faction: Seq<char>) -> bool {
        self.knows_player(player) && match membership_by(self.player_attrs(player)) {
            Some(m) => m.0@ == faction,
            None => false,
        }
    }

    /// Whether an observer may see what is tagged with `tag`.
    ///
    /// Everybody sees what is public, and the moderator sees everything. What
    /// is for a player, that player sees; what is for a faction, an observer
    /// for that faction sees, and every player who belongs to it.
    pub open spec fn visible(self, tag: Visibility, viewer: Visibility) -> bool {
        match tag {
            Visibility::Public => true,
            Visibility::Moderator => viewer is Moderator,
            Visibility::Player(p) => match viewer {
                Visibility::Moderator => true,
                Visibility::Player(q) => p@ == q@,
                _ => false,
            },
            Visibility::Faction(f) => match viewer {
                Visibility::Moderator => true,
                Visibility::Faction(g) => f@ == g@,
                Visibility::Player(q) => self.belongs(q@, f@),
                Visibility::Public => false,
            },
        }
    }

    /// Of the first `n` updates, the events that the observer may see.
    pub open spec fn seen_upto(self, viewer: Visibility, updates: Seq<(Visibility, Event)>, n: int) -> Seq<Event>
        decreases n,
    {
        if n <= 0 {
            Seq::empty()
        } else if self.visible(updates[n - 1].0, viewer) {
            self.seen_upto(viewer, updates, n - 1).push(updates[n - 1].1)
        } else {
            self.seen_upto(viewer, updates, n - 1)
        }
    }

    /// The events among the updates that the observer may see, in their order.
    pub open spec fn seen(self, viewer: Visibility, updates: Seq<(Visibility, Event)>) -> Seq<Event> {
        self.seen_upto(viewer, updates, updates.len() as int)
    }
}

/// Whether an event may have changed who is alive: a phase began, or somebody died.
pub open spec fn touches_statuses(event: Event) -> bool {
    event is PhaseBegan || event is Died
}

/// Whether any of the updates may have changed who is alive, whoever may see it.
pub open spec fn call_for_statuses(updates: Seq<(Visibility, Event)>) -> bool {
    exists|i: int| 0 <= i < updates.len() && touches_statuses((#[trigger] updates[i]).1)
}

/// What an observer is sent for a batch of updates: the events that the
/// observer may see, and the status of every player where an update may have
/// changed who is alive.
#[derive(Debug, PartialEq, Eq)]
pub struct Delivery {
    pub events: Vec<Event>,
    pub statuses: Option<Vec<(Player, PlayerStatus)>>,
}

impl Game {
    /// Whether the player belongs, as of now, to the faction.
    pub fn is_member(&self, player: &str, faction: &str) -> (r: bool)
        requires
            self@.state.wf(),
        ensures
            r == self@.state.belongs(player@, faction@),
    {
        match find(&self.state.players, player) {
            Some(i) => match membership_in(&self.state.players[i].1) {
                Some(m) => same_name(m.0.as_str(), faction),
                None => false,
            },
            None => false,
        }
    }

    /// Whether an observer may see what is tagged with `tag`.
    pub fn visible(&self, tag: &Visibility, viewer: &Visibility) -> (r: bool)
        requires
            self@.state.wf(),
        ensures
            r == self@.state.visible(*tag, *viewer),
    {
        match tag {
            Visibility::Public => true,
            Visibility::Moderator => match viewer {
                Visibility::Moderator => true,
                _ => false,
            },
            Visibility::Player(p) => match viewer {
                Visibility::Moderator => true,
                Visibility::Player(q) => same_name(p.as_str(), q.as_str()),
                _ => false,
            },
            Visibility::Faction(f) => match viewer {
                Visibility::Moderator => true,
                Visibility::Faction(g) => same_name(f.as_str(), g.as_str()),
                Visibility::Player(q) => self.is_member(q.as_str(), f.as_str()),
                Visibility::Public => false,
            },
        }
    }

    /// What the observer is to be sent for the updates.
    pub fn deliver(&self, viewer: &Visibility, updates: &[(Visibility, Event)]) -> (r: Delivery)
        requires
            self@.state.wf(),
        ensures
            r.events@ == self@.state.seen(*viewer, updates@),
            match r.statuses {
                Some(statuses) => call_for_statuses(updates@) && statuses@ == self@.state.statuses(),
                None => !call_for_statuses(updates@),
            },
    {
        let mut events: Vec<Event> = Vec::new();
        let mut send_players = false;
        let mut i: usize = 0;
        while i < updates.len()
            invariant
                i <= updates.len(),
                self@.state.wf(),
                events@ == self@.state.seen_upto(*viewer, updates@, i as int),
                send_players == exists|j: int| 0 <= j < i && touches_statuses((#[trigger] updates@[j]).1),
            decreases updates.len() - i,
        {
            if self.visible(&updates[i].0, viewer) {
                events.push(updates[i].1.clone());
            }
            match &updates[i].1 {
                Event::PhaseBegan(_) => {
                    send_players = true;
                },
                Event::Died(_) => {
                    send_players = true;
                },
                _ => {},
            }
            i += 1;
        }
        let statuses = if send_players {
            Some(self.get_statuses())
        } else {
            None
        };
        Delivery { events: events, statuses: statuses }
    }
}

} // verus!
