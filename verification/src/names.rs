use vstd::prelude::*;

verus! {

/// The order of names: character by character, a name coming before every
/// longer name that it begins.
pub open spec fn name_before(a: Seq<char>, b: Seq<char>) -> bool
    decreases a.len(),
{
    if b.len() == 0 {
        false
    } else if a.len() == 0 {
        true
    } else if a[0] != b[0] {
        a[0] < b[0]
    } else {
        name_before(a.skip(1), b.skip(1))
    }
}

/// Whether two names are spelled the same.
///
/// Trusted: stands for `==` on `str` of the standard library, which holds
/// exactly when both strings consist of the same characters.
#[verifier::external_body]
pub(crate) fn same_name(a: &str, b: &str) -> (r: bool)
    ensures
        r == (a@ == b@),
{
    a == b
}

/// Whether a name comes before another in the order of names.
///
/// Trusted: stands for `<` on `str` of the standard library, which compares
/// strings lexicographically by their bytes and, so its documentation says,
/// thereby by the code points of their characters.
#[verifier::external_body]
pub(crate) fn comes_before(a: &str, b: &str) -> (r: bool)
    ensures
        r == name_before(a@, b@),
{
    a < b
}

/// No name comes before itself.
pub proof fn lemma_name_before_irreflexive(a: Seq<char>)
    ensures
        !name_before(a, a),
    decreases a.len(),
{
    if a.len() > 0 {
        lemma_name_before_irreflexive(a.skip(1));
    }
}

/// Of two different names one comes before the other.
pub proof fn lemma_name_before_total(a: Seq<char>, b: Seq<char>)
    requires
        a != b,
    ensures
        name_before(a, b) || name_before(b, a),
    decreases a.len(),
{
    if a.len() > 0 && b.len() > 0 && a[0] == b[0] {
        if a.skip(1) == b.skip(1) {
            assert(a =~= seq![a[0]] + a.skip(1));
            assert(b =~= seq![b[0]] + b.skip(1));
        }
        lemma_name_before_total(a.skip(1), b.skip(1));
    } else if a.len() == 0 && b.len() == 0 {
        assert(a =~= b);
    }
}

/// A name that comes before a second, which comes before a third, comes
/// before the third.
pub proof fn lemma_name_before_transitive(a: Seq<char>, b: Seq<char>, c: Seq<char>)
    requires
        name_before(a, b),
        name_before(b, c),
    ensures
        name_before(a, c),
    decreases a.len(),
{
    if a.len() > 0 && a[0] == b[0] && b[0] == c[0] {
        lemma_name_before_transitive(a.skip(1), b.skip(1), c.skip(1));
    }
}

} // verus!
