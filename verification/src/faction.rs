use vstd::prelude::*;
use crate::action::Action;
use crate::alignment::Alignment;
use crate::attr::Attr;
use crate::membership::Membership;
use crate::objective::Objective;
use crate::state::faction_sound;

verus! {

/// What a faction is set up with.
#[derive(Debug, PartialEq, Eq)]
pub struct FactionState {
    /// What the leader of the faction can do.
    pub actions: Vec<Action>,
    pub alignment: Alignment,
    pub membership: Membership,
    pub objective: Objective,
}

/// For each action, the attribute that grants it.
pub open spec fn grants(actions: Seq<Action>) -> Seq<Attr> {
    Seq::new(actions.len(), |i: int| Attr::Has(actions[i]))
}

impl FactionState {
    /// The attributes that a faction set up so begins with: those that grant
    /// its actions, then its alignment, its membership and its objective.
    pub open spec fn spec_attrs(self) -> Seq<Attr> {
        grants(self.actions@) + seq![
            Attr::Alignment(self.alignment),
            Attr::Membership(self.membership),
            Attr::Objective(self.objective),
        ]
    }

    /// The attributes that a faction set up so begins with. A faction can
    /// hold them for good.
    pub fn attrs(&self) -> (r: Vec<Attr>)
        ensures
            r@ == self.spec_attrs(),
            faction_sound(r@),
    {
        let mut out: Vec<Attr> = Vec::new();
        let mut i: usize = 0;
        while i < self.actions.len()
            invariant
                i <= self.actions.len(),
                out@ == grants(self.actions@.take(i as int)),
            decreases self.actions.len() - i,
        {
            out.push(Attr::Has(self.actions[i].clone()));
            assert(out@ =~= grants(self.actions@.take(i + 1)));
            i += 1;
        }
        assert(self.actions@.take(self.actions.len() as int) =~= self.actions@);
        let ghost n = out@.len() as int;
        out.push(Attr::Alignment(self.alignment));
        out.push(Attr::Membership(self.membership));
        out.push(Attr::Objective(self.objective.clone()));
        assert(out@ =~= self.spec_attrs());
        assert(out@[n] is Alignment);
        assert(out@[n + 2] is Objective);
        out
    }
}

} // verus!
