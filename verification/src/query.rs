use vstd::prelude::*;
use crate::attr::Attr;

verus! {

/// What the newest attribute that `pick` selects anything from gives.
pub open spec fn newest<T>(attrs: Seq<Attr>, pick: spec_fn(Attr) -> Option<T>) -> Option<T>
    decreases attrs.len(),
{
    if attrs.len() == 0 {
        None
    } else {
        match pick(attrs.last()) {
            Some(x) => Some(x),
            None => newest(attrs.drop_last(), pick),
        }
    }
}

/// The votes that an attribute counts for.
pub open spec fn votes_of(attr: Attr) -> int {
    match attr.spec_num_votes() {
        Some(n) => n as int,
        None => 0,
    }
}

/// The votes that all the attributes record, taken together.
pub open spec fn vote_total(attrs: Seq<Attr>) -> int
    decreases attrs.len(),
{
    if attrs.len() == 0 {
        0
    } else {
        vote_total(attrs.drop_last()) + votes_of(attrs.last())
    }
}

/// `newest` gives what the last attribute that `pick` selects from gives, and
/// nothing where there is none.
pub proof fn lemma_newest<T>(attrs: Seq<Attr>, pick: spec_fn(Attr) -> Option<T>)
    ensures
        match newest(attrs, pick) {
            Some(x) => exists|k: int|
                0 <= k < attrs.len() && pick(#[trigger] attrs[k]) == Some(x) && forall|j: int|
                    k < j < attrs.len() ==> pick(#[trigger] attrs[j]) is None,
            None => forall|k: int| 0 <= k < attrs.len() ==> pick(#[trigger] attrs[k]) is None,
        },
    decreases attrs.len(),
{
    if attrs.len() > 0 {
        let rest = attrs.drop_last();
        lemma_newest(rest, pick);
        match pick(attrs.last()) {
            Some(x) => {
                assert(pick(attrs[attrs.len() - 1]) == Some(x));
            },
            None => {
                assert forall|j: int| 0 <= j < rest.len() implies rest[j] == attrs[j] by {}
                match newest(rest, pick) {
                    Some(x) => {
                        let k = choose|k: int|
                            0 <= k < rest.len() && pick(#[trigger] rest[k]) == Some(x) && forall|j: int|
                                k < j < rest.len() ==> pick(#[trigger] rest[j]) is None;
                        assert(pick(attrs[k]) == Some(x));
                        assert forall|j: int| k < j < attrs.len() implies pick(
                            #[trigger] attrs[j],
                        ) is None by {
                            if j < rest.len() {
                                assert(pick(rest[j]) is None);
                            }
                        }
                    },
                    None => {
                        assert forall|k: int| 0 <= k < attrs.len() implies pick(
                            #[trigger] attrs[k],
                        ) is None by {
                            if k < rest.len() {
                                assert(pick(rest[k]) is None);
                            }
                        }
                    },
                }
            },
        }
    }
}

/// An attribute added last counts for its votes on top of the others'.
pub proof fn lemma_vote_total_push(attrs: Seq<Attr>, attr: Attr)
    ensures
        vote_total(attrs.push(attr)) == vote_total(attrs) + votes_of(attr),
{
    assert(attrs.push(attr).drop_last() =~= attrs);
}

/// The first thing that `f` finds in an attribute, going from the newest
/// attribute to the oldest.
pub(crate) fn first_match<T, F: Fn(&Attr) -> Option<T>>(
    attrs: &Vec<Attr>,
    f: F,
    Ghost(pick): Ghost<spec_fn(Attr) -> Option<T>>,
) -> (r: Option<T>)
    requires
        forall|a: &Attr| #[trigger] f.requires((a,)),
        forall|a: &Attr, x: Option<T>| #[trigger] f.ensures((a,), x) ==> x == pick(*a),
    ensures
        r == newest(attrs@, pick),
{
    let mut i = attrs.len();
    proof {
        assert(attrs@.take(attrs.len() as int) =~= attrs@);
    }
    while i > 0
        invariant
            i <= attrs.len(),
            forall|a: &Attr| #[trigger] f.requires((a,)),
            forall|a: &Attr, x: Option<T>| #[trigger] f.ensures((a,), x) ==> x == pick(*a),
            newest(attrs@, pick) == newest(attrs@.take(i as int), pick),
        decreases i,
    {
        i -= 1;
        let found = f(&attrs[i]);
        proof {
            let upto = attrs@.take(i + 1);
            assert(upto.last() == attrs@[i as int]);
            assert(upto.drop_last() =~= attrs@.take(i as int));
        }
        if found.is_some() {
            return found;
        }
    }
    None
}

/// The votes that all the attributes record, taken together.
pub(crate) fn sum_votes(attrs: &Vec<Attr>) -> (r: i128)
    ensures
        r == vote_total(attrs@),
        i128::MIN < r,
{
    let mut total: i128 = 0;
    let mut i: usize = 0;
    while i < attrs.len()
        invariant
            i <= attrs.len(),
            total == vote_total(attrs@.take(i as int)),
            -0x8000_0000_0000_0000 * i <= total <= 0x7fff_ffff_ffff_ffff * i,
        decreases attrs.len() - i,
    {
        proof {
            let upto = attrs@.take(i + 1);
            assert(upto.last() == attrs@[i as int]);
            assert(upto.drop_last() =~= attrs@.take(i as int));
        }
        match attrs[i].num_votes() {
            Some(n) => {
                total = total + n as i128;
            },
            None => {},
        }
        i += 1;
    }
    proof {
        assert(attrs@.take(attrs.len() as int) =~= attrs@);
    }
    total
}

} // verus!
