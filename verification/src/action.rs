use vstd::prelude::*;
use crate::phase::Phase;
use crate::state::{knows, Roster};
use crate::names::same_name;
use crate::util::Player;

verus! {

/// An action a player can take or has taken in the game.
///
/// An action that a player or a faction has been granted is a template: the
/// names in it may be placeholders. A submitted action names its targets.
#[derive(Debug, PartialEq, Eq)]
pub enum Action {
    /// An action which is used during the day instead of the night.
    Day(Box<Action>),
    /// Immediately resolve an action.
    Immediate(Box<Action>),
    /// Investigate a player's alignment.
    Investigate(Player),
    /// Kill a player.
    Kill(Player),
    /// Order a minion to perform an action.
    Order(Player, Box<Action>),
    /// Protect a player from kills.
    Protect(Player),
    /// Vote to eliminate a player from the game.
    Vote(Player),
}

impl Clone for Action {
    fn clone(&self) -> (r: Self)
        ensures
            r == *self,
        decreases self,
    {
        match self {
            Action::Day(a) => Action::Day(Box::new((**a).clone())),
            Action::Immediate(a) => Action::Immediate(Box::new((**a).clone())),
            Action::Investigate(p) => Action::Investigate(p.clone()),
            Action::Kill(p) => Action::Kill(p.clone()),
            Action::Order(p, a) => Action::Order(p.clone(), Box::new((**a).clone())),
            Action::Protect(p) => Action::Protect(p.clone()),
            Action::Vote(p) => Action::Vote(p.clone()),
        }
    }
}

/// Whether the name in a template stands for `target` when `actor` acts.
///
/// `$PLAYER` and `$MEMBER` stand for anybody, `$OTHER_PLAYER` for anybody but
/// the actor, and any other name for itself.
pub open spec fn placeholder_accepts(placeholder: Seq<char>, actor: Seq<char>, target: Seq<char>) -> bool {
    if placeholder == "$MEMBER"@ {
        true
    } else if placeholder == "$OTHER_PLAYER"@ {
        target != actor
    } else if placeholder == "$PLAYER"@ {
        true
    } else {
        target == placeholder
    }
}

/// Return whether a target player matches a placeholder.
pub fn placeholder_matches(placeholder: &str, actor: &str, target: &str) -> (r: bool)
    ensures
        r == placeholder_accepts(placeholder@, actor@, target@),
{
    if same_name(placeholder, "$MEMBER") {
        true
    } else if same_name(placeholder, "$OTHER_PLAYER") {
        !same_name(target, actor)
    } else if same_name(placeholder, "$PLAYER") {
        true
    } else {
        same_name(target, placeholder)
    }
}

impl Action {
    /// Whether this template covers `action` when `actor` submits it in `phase`.
    ///
    /// By day only a `Day` template covers anything: what it wraps is held
    /// against the action as by night. By night both must be of one kind, the
    /// name in the template must stand for the name in the action, and what
    /// an `Immediate` or an `Order` wraps must match in turn, for an `Order`
    /// with the ordered player as the actor.
    pub open spec fn spec_matches(self, phase: Phase, actor: Seq<char>, action: Action) -> bool
        decreases self,
    {
        match phase {
            Phase::Day(n) => match self {
                Action::Day(a1) => a1.spec_matches(Phase::Night(n), actor, action),
                _ => false,
            },
            Phase::Night(_) => match (self, action) {
                (Action::Immediate(a1), Action::Immediate(a2)) => a1.spec_matches(phase, actor, *a2),
                (Action::Investigate(pp), Action::Investigate(p)) => placeholder_accepts(pp@, actor, p@),
                (Action::Protect(pp), Action::Protect(p)) => placeholder_accepts(pp@, actor, p@),
                (Action::Kill(pp), Action::Kill(p)) => placeholder_accepts(pp@, actor, p@),
                (Action::Order(pp, pa), Action::Order(p, a)) => placeholder_accepts(pp@, actor, p@)
                    && pa.spec_matches(phase, p@, *a),
                (Action::Vote(pp), Action::Vote(p)) => placeholder_accepts(pp@, actor, p@),
                _ => false,
            },
        }
    }

    /// Whether every player whom resolving the action looks up is one of
    /// `players`: the target of what is done, also where it is ordered.
    pub open spec fn targets_known(self, players: Roster) -> bool
        decreases self,
    {
        match self {
            Action::Investigate(t) => knows(players, t@),
            Action::Kill(t) => knows(players, t@),
            Action::Protect(t) => knows(players, t@),
            Action::Vote(t) => knows(players, t@),
            Action::Order(_, a) => a.targets_known(players),
            _ => true,
        }
    }

    /// Rank by which the actions of a phase are ordered: lower resolves first.
    pub open spec fn spec_precedence(self) -> nat
        decreases self,
    {
        match self {
            Action::Day(a) => a.spec_precedence(),
            Action::Immediate(_) => 0,
            Action::Investigate(_) => 1,
            Action::Protect(_) => 2,
            Action::Kill(_) => 1000,
            Action::Order(_, a) => a.spec_precedence(),
            Action::Vote(_) => 1000,
        }
    }

    /// Return whether another action matches this one, respecting placeholders.
    pub fn matches(&self, phase: &Phase, actor: &str, action: &Action) -> (r: bool)
        ensures
            r == self.spec_matches(*phase, actor@, *action),
        decreases self,
    {
        match phase {
            Phase::Day(n) => match self {
                Action::Day(a1) => a1.matches(&Phase::Night(*n), actor, action),
                _ => false,
            },
            Phase::Night(_) => match (self, action) {
                (Action::Immediate(a1), Action::Immediate(a2)) => a1.matches(phase, actor, a2),
                (Action::Investigate(pp), Action::Investigate(p)) => placeholder_matches(pp.as_str(), actor, p.as_str()),
                (Action::Protect(pp), Action::Protect(p)) => placeholder_matches(pp.as_str(), actor, p.as_str()),
                (Action::Kill(pp), Action::Kill(p)) => placeholder_matches(pp.as_str(), actor, p.as_str()),
                (Action::Order(pp, pa), Action::Order(p, a)) => {
                    placeholder_matches(pp.as_str(), actor, p.as_str()) && pa.matches(phase, p.as_str(), a)
                },
                (Action::Vote(pp), Action::Vote(p)) => placeholder_matches(pp.as_str(), actor, p.as_str()),
                _ => false,
            },
        }
    }

    /// Return resolution priority. Lower numbers are resolved first.
    pub fn precedence(&self) -> (r: usize)
        ensures
            r == self.spec_precedence(),
        decreases self,
    {
        match self {
            Action::Day(a) => a.precedence(),
            Action::Immediate(_) => 0,
            Action::Investigate(_) => 1,
            Action::Protect(_) => 2,
            Action::Kill(_) => 1000,
            Action::Order(_, a) => a.precedence(),
            Action::Vote(_) => 1000,
        }
    }
}

} // verus!
