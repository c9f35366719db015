use vstd::prelude::*;
use crate::action::Action;
use crate::alignment::Alignment;
use crate::membership::Membership;
use crate::objective::Objective;
use crate::phase::Phase;
use crate::state::{knows, Roster};
use crate::util::Faction;

verus! {

/// A fact about a player or a faction, or something either one can do.
///
/// Each player and each faction holds a sequence of attributes, oldest first.
#[derive(Debug, PartialEq, Eq)]
pub enum Attr {
    /// Faction only: Moral alignment.
    Alignment(Alignment),
    /// Player only: Player is immune to normal kills.
    Bulletproof,
    /// Player only: Player is dead.
    Dead,
    /// Faction or player: Faction leader or player has the given action.
    Has(Action),
    /// Player only: Player belongs to the given faction, with a rank within
    /// it. Lower is better.
    Member(Faction, i64),
    /// Faction only: Whether faction members know each other's identities.
    Membership(Membership),
    /// Faction only: Win condition.
    Objective(Objective),
    /// An attribute that expires after the given number of phases.
    Phases(u64, Box<Attr>),
    /// Player only: Player will die after a number of phases.
    Poisoned(u64),
    /// Player only: Player received a number of elimination votes.
    ReceivedVotes(i64),
    /// An attribute which can't be used for another phase.
    Tapped(Box<Attr>),
}

impl Clone for Attr {
    fn clone(&self) -> (r: Self)
        ensures
            r == *self,
        decreases self,
    {
        match self {
            Attr::Alignment(a) => Attr::Alignment(*a),
            Attr::Bulletproof => Attr::Bulletproof,
            Attr::Dead => Attr::Dead,
            Attr::Has(a) => Attr::Has(a.clone()),
            Attr::Member(f, r) => Attr::Member(f.clone(), *r),
            Attr::Membership(m) => Attr::Membership(*m),
            Attr::Objective(o) => Attr::Objective(o.clone()),
            Attr::Phases(n, a) => Attr::Phases(*n, Box::new((**a).clone())),
            Attr::Poisoned(n) => Attr::Poisoned(*n),
            Attr::ReceivedVotes(n) => Attr::ReceivedVotes(*n),
            Attr::Tapped(a) => Attr::Tapped(Box::new((**a).clone())),
        }
    }
}

impl Attr {
    /// The action that the attribute grants, looked for under `Phases`. An
    /// attribute that is tapped grants none.
    pub open spec fn spec_get_action(self) -> Option<Action>
        decreases self,
    {
        match self {
            Attr::Has(a) => Some(a),
            Attr::Phases(_, a) => a.spec_get_action(),
            _ => None,
        }
    }

    /// Whether the attribute grants an action that covers `action` when
    /// `actor` submits it in `phase`.
    pub open spec fn spec_allows_action(self, phase: Phase, actor: Seq<char>, action: Action) -> bool {
        match self.spec_get_action() {
            Some(a) => a.spec_matches(phase, actor, action),
            None => false,
        }
    }

    /// The alignment that the attribute gives, looked for under `Phases` and `Tapped`.
    pub open spec fn spec_get_alignment(self) -> Option<Alignment>
        decreases self,
    {
        match self {
            Attr::Alignment(a) => Some(a),
            Attr::Phases(_, a) => a.spec_get_alignment(),
            Attr::Tapped(a) => a.spec_get_alignment(),
            _ => None,
        }
    }

    /// The faction and rank that the attribute gives, looked for under `Phases`
    /// and `Tapped`.
    pub open spec fn spec_get_faction_and_rank(self) -> Option<(Faction, i64)>
        decreases self,
    {
        match self {
            Attr::Member(f, r) => Some((f, r)),
            Attr::Phases(_, a) => a.spec_get_faction_and_rank(),
            Attr::Tapped(a) => a.spec_get_faction_and_rank(),
            _ => None,
        }
    }

    /// The objective that the attribute gives, looked for under `Phases` and `Tapped`.
    pub open spec fn spec_get_objective(self) -> Option<Objective>
        decreases self,
    {
        match self {
            Attr::Objective(o) => Some(o),
            Attr::Phases(_, a) => a.spec_get_objective(),
            Attr::Tapped(a) => a.spec_get_objective(),
            _ => None,
        }
    }

    /// `Some(false)` where the attribute, looked at under `Phases` and `Tapped`,
    /// is `Dead`.
    pub open spec fn spec_is_alive(self) -> Option<bool>
        decreases self,
    {
        match self {
            Attr::Dead => Some(false),
            Attr::Phases(_, a) => a.spec_is_alive(),
            Attr::Tapped(a) => a.spec_is_alive(),
            _ => None,
        }
    }

    /// `Some(true)` where the attribute, looked at under `Phases` and `Tapped`,
    /// is `Bulletproof`.
    pub open spec fn spec_is_bulletproof(self) -> Option<bool>
        decreases self,
    {
        match self {
            Attr::Bulletproof => Some(true),
            Attr::Phases(_, a) => a.spec_is_bulletproof(),
            Attr::Tapped(a) => a.spec_is_bulletproof(),
            _ => None,
        }
    }

    /// The votes that the attribute records, looked for under `Phases` and `Tapped`.
    pub open spec fn spec_num_votes(self) -> Option<i64>
        decreases self,
    {
        match self {
            Attr::ReceivedVotes(n) => Some(n),
            Attr::Phases(_, a) => a.spec_num_votes(),
            Attr::Tapped(a) => a.spec_num_votes(),
            _ => None,
        }
    }

    /// Whether the attribute can be carried over every phase boundary to come:
    /// an attribute that lasts a number of phases lasts one at least, also
    /// where it is tapped.
    pub open spec fn can_expire(self) -> bool
        decreases self,
    {
        match self {
            Attr::Phases(n, _) => n >= 1,
            Attr::Tapped(a) => a.can_expire(),
            _ => true,
        }
    }

    /// Whether every faction that the attribute makes a player a member of,
    /// now or while it lasts, is one of `factions`.
    pub open spec fn factions_known(self, factions: Roster) -> bool
        decreases self,
    {
        match self {
            Attr::Member(f, _) => knows(factions, f@),
            Attr::Phases(_, a) => a.factions_known(factions),
            Attr::Tapped(a) => a.factions_known(factions),
            _ => true,
        }
    }

    /// What becomes of the attribute at a phase boundary: an attribute in its
    /// last phase is dropped, one with phases left has one fewer, a tapped
    /// one is restored, and any other stays as it is.
    pub open spec fn spec_next_phase(self) -> Option<Attr> {
        match self {
            Attr::Phases(n, a) => if n == 1 {
                None
            } else {
                Some(Attr::Phases((n - 1) as u64, a))
            },
            Attr::Tapped(a) => Some(*a),
            _ => Some(self),
        }
    }

    /// The attribute, marked as used.
    pub open spec fn spec_tap(self) -> Attr {
        Attr::Tapped(Box::new(self))
    }

    /// Whether this attribute allows the given action to be taken.
    pub fn allows_action(&self, phase: &Phase, actor: &str, action: &Action) -> (r: bool)
        ensures
            r == self.spec_allows_action(*phase, actor@, *action),
        decreases self,
    {
        match self {
            Attr::Has(a) => a.matches(phase, actor, action),
            Attr::Phases(_, a) => a.allows_action(phase, actor, action),
            _ => false,
        }
    }

    /// The action that the attribute grants, if it grants one.
    pub fn get_action(&self) -> (r: Option<Action>)
        ensures
            r == self.spec_get_action(),
        decreases self,
    {
        match self {
            Attr::Has(a) => Some(a.clone()),
            Attr::Phases(_, a) => a.get_action(),
            _ => None,
        }
    }

    /// The alignment that the attribute gives, if it gives one.
    pub fn get_alignment(&self) -> (r: Option<Alignment>)
        ensures
            r == self.spec_get_alignment(),
        decreases self,
    {
        match self {
            Attr::Alignment(a) => Some(*a),
            Attr::Phases(_, a) => a.get_alignment(),
            Attr::Tapped(a) => a.get_alignment(),
            _ => None,
        }
    }

    /// The faction and rank that the attribute gives, if it gives them.
    pub fn get_faction_and_rank(&self) -> (r: Option<(Faction, i64)>)
        ensures
            r == self.spec_get_faction_and_rank(),
        decreases self,
    {
        match self {
            Attr::Member(f, r) => Some((f.clone(), *r)),
            Attr::Phases(_, a) => a.get_faction_and_rank(),
            Attr::Tapped(a) => a.get_faction_and_rank(),
            _ => None,
        }
    }

    /// The objective that the attribute gives, if it gives one.
    pub fn get_objective(&self) -> (r: Option<Objective>)
        ensures
            r == self.spec_get_objective(),
        decreases self,
    {
        match self {
            Attr::Objective(o) => Some(o.clone()),
            Attr::Phases(_, o) => o.get_objective(),
            Attr::Tapped(o) => o.get_objective(),
            _ => None,
        }
    }

    /// `Some(false)` where the attribute says that the player is dead.
    pub fn is_alive(&self) -> (r: Option<bool>)
        ensures
            r == self.spec_is_alive(),
        decreases self,
    {
        match self {
            Attr::Dead => Some(false),
            Attr::Phases(_, a) => a.is_alive(),
            Attr::Tapped(a) => a.is_alive(),
            _ => None,
        }
    }

    /// `Some(true)` where the attribute says that the player is bulletproof.
    pub fn is_bulletproof(&self) -> (r: Option<bool>)
        ensures
            r == self.spec_is_bulletproof(),
        decreases self,
    {
        match self {
            Attr::Bulletproof => Some(true),
            Attr::Phases(_, a) => a.is_bulletproof(),
            Attr::Tapped(a) => a.is_bulletproof(),
            _ => None,
        }
    }

    /// The attribute as it is after a phase boundary, if it is still there.
    pub fn next_phase(&self) -> (r: Option<Attr>)
        requires
            self matches Attr::Phases(n, _) ==> n >= 1,
        ensures
            r == self.spec_next_phase(),
            self.can_expire() ==> (r matches Some(a) ==> a.can_expire()),
    {
        match self {
            Attr::Phases(n, a) => {
                if *n == 1 {
                    None
                } else {
                    Some(Attr::Phases(*n - 1, Box::new((**a).clone())))
                }
            },
            Attr::Tapped(a) => Some((**a).clone()),
            _ => Some(self.clone()),
        }
    }

    /// The votes that the attribute records, if it records any.
    pub fn num_votes(&self) -> (r: Option<i64>)
        ensures
            r == self.spec_num_votes(),
        decreases self,
    {
        match self {
            Attr::ReceivedVotes(n) => Some(*n),
            Attr::Phases(_, a) => a.num_votes(),
            Attr::Tapped(a) => a.num_votes(),
            _ => None,
        }
    }

    /// Return used version of the attribute.
    pub fn tap(&self) -> (r: Attr)
        ensures
            r == self.spec_tap(),
    {
        Attr::Tapped(Box::new(self.clone()))
    }
}

} // verus!
