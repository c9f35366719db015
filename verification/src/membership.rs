use vstd::prelude::*;

verus! {

/// Faction membership status.
#[derive(Debug, Clone, Copy, PartialEq, Eq, PartialOrd, Ord, Structural)]
pub enum Membership {
    /// Members don't know other members.
    Hidden,
    /// Membership is visible to all faction members.
    Visible,
}

} // verus!
