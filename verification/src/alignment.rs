use vstd::prelude::*;

verus! {

/// Moral alignment of a faction and, through it, of its members.
#[derive(Debug, Clone, Copy, PartialEq, Eq, PartialOrd, Ord, Structural)]
pub enum Alignment {
    Evil,
    Good,
    Neutral,
}

} // verus!
