use vstd::prelude::*;

verus! {

/// A sequence of ranked items with one more put in: behind every item whose
/// rank is no higher, before every item whose rank is higher.
pub open spec fn insert_ranked<T>(sorted: Seq<(int, T)>, item: (int, T)) -> Seq<(int, T)>
    decreases sorted.len(),
{
    if sorted.len() == 0 {
        seq![item]
    } else if sorted.last().0 <= item.0 {
        sorted.push(item)
    } else {
        insert_ranked(sorted.drop_last(), item).push(sorted.last())
    }
}

/// The items by rising rank, items of one rank in the order in which they came.
pub open spec fn ranked<T>(items: Seq<(int, T)>) -> Seq<(int, T)>
    decreases items.len(),
{
    if items.len() == 0 {
        Seq::empty()
    } else {
        insert_ranked(ranked(items.drop_last()), items.last())
    }
}

/// Whether the ranks never fall from one item to the next.
pub open spec fn rising<T>(items: Seq<(int, T)>) -> bool {
    forall|i: int, j: int| 0 <= i < j < items.len() ==> items[i].0 <= items[j].0
}

/// The ranked items that a vector of them stands for.
pub open spec fn keyed<T>(v: Seq<(i128, T)>) -> Seq<(int, T)> {
    Seq::new(v.len(), |i: int| (v[i].0 as int, v[i].1))
}

/// Putting an item in is putting it at the place behind which every rank is higher
/// and before which the rank is no higher.
pub proof fn lemma_insert_ranked_at<T>(sorted: Seq<(int, T)>, item: (int, T), at: int)
    requires
        0 <= at <= sorted.len(),
        forall|j: int| at <= j < sorted.len() ==> sorted[j].0 > item.0,
        at > 0 ==> sorted[at - 1].0 <= item.0,
    ensures
        insert_ranked(sorted, item) == sorted.insert(at, item),
    decreases sorted.len(),
{
    if sorted.len() == 0 {
        assert(sorted.insert(at, item) =~= seq![item]);
    } else if at == sorted.len() {
        assert(sorted.insert(at, item) =~= sorted.push(item));
    } else {
        lemma_insert_ranked_at(sorted.drop_last(), item, at);
        assert(sorted.insert(at, item) =~= sorted.drop_last().insert(at, item).push(sorted.last()));
    }
}

/// Putting an item into a sequence of rising ranks leaves the ranks rising,
/// makes the sequence longer by one, and puts no other item in or out.
pub proof fn lemma_insert_ranked<T>(sorted: Seq<(int, T)>, item: (int, T))
    requires
        rising(sorted),
    ensures
        rising(insert_ranked(sorted, item)),
        insert_ranked(sorted, item).len() == sorted.len() + 1,
        insert_ranked(sorted, item).to_multiset() == sorted.to_multiset().insert(item),
    decreases sorted.len(),
{
    broadcast use vstd::seq_lib::group_to_multiset_ensures;

    let r = insert_ranked(sorted, item);
    if sorted.len() == 0 {
        assert(r =~= sorted.push(item));
    } else if sorted.last().0 <= item.0 {
    } else {
        let rest = sorted.drop_last();
        lemma_insert_ranked(rest, item);
        let inner = insert_ranked(rest, item);
        assert(sorted =~= rest.push(sorted.last()));
        assert forall|i: int, j: int| 0 <= i < j < r.len() implies r[i].0 <= r[j].0 by {
            if j == r.len() - 1 {
                assert(inner.to_multiset().count(inner[i]) > 0);
                if inner[i] != item {
                    assert(rest.to_multiset().count(inner[i]) > 0);
                    let k = choose|k: int| 0 <= k < rest.len() && rest[k] == inner[i];
                    assert(sorted[k].0 <= sorted[sorted.len() - 1].0);
                }
            }
        }
        assert(r.to_multiset() =~= sorted.to_multiset().insert(item));
    }
}

/// The ranked items have rising ranks and are the same items, as often.
pub proof fn lemma_ranked<T>(items: Seq<(int, T)>)
    ensures
        rising(ranked(items)),
        ranked(items).len() == items.len(),
        ranked(items).to_multiset() == items.to_multiset(),
    decreases items.len(),
{
    broadcast use vstd::seq_lib::group_to_multiset_ensures;

    if items.len() > 0 {
        lemma_ranked(items.drop_last());
        lemma_insert_ranked(ranked(items.drop_last()), items.last());
        assert(items =~= items.drop_last().push(items.last()));
    }
}

/// The items of the given rank, in their order.
pub open spec fn of_rank<T>(items: Seq<(int, T)>, rank: int) -> Seq<(int, T)>
    decreases items.len(),
{
    if items.len() == 0 {
        Seq::empty()
    } else if items.last().0 == rank {
        of_rank(items.drop_last(), rank).push(items.last())
    } else {
        of_rank(items.drop_last(), rank)
    }
}

/// Putting an item in puts it behind the items of its rank and leaves the
/// items of every other rank as they stand.
pub proof fn lemma_insert_ranked_stable<T>(sorted: Seq<(int, T)>, item: (int, T), rank: int)
    ensures
        of_rank(insert_ranked(sorted, item), rank) == (if item.0 == rank {
            of_rank(sorted, rank).push(item)
        } else {
            of_rank(sorted, rank)
        }),
    decreases sorted.len(),
{
    if sorted.len() == 0 {
        let one = seq![item];
        assert(one.drop_last() =~= sorted);
        assert(one.last() == item);
        assert(of_rank(sorted, rank) =~= Seq::empty());
    } else if sorted.last().0 <= item.0 {
        assert(sorted.push(item).drop_last() =~= sorted);
        assert(sorted.push(item).last() == item);
    } else {
        let inner = insert_ranked(sorted.drop_last(), item);
        lemma_insert_ranked_stable(sorted.drop_last(), item, rank);
        assert(inner.push(sorted.last()).drop_last() =~= inner);
        assert(inner.push(sorted.last()).last() == sorted.last());
    }
}

/// Ranking is stable: the items of one rank stand in the order in which they came.
pub proof fn law_ranking_is_stable<T>(items: Seq<(int, T)>, rank: int)
    ensures
        of_rank(ranked(items), rank) == of_rank(items, rank),
    decreases items.len(),
{
    if items.len() > 0 {
        law_ranking_is_stable(items.drop_last(), rank);
        lemma_insert_ranked_stable(ranked(items.drop_last()), items.last(), rank);
    }
}

/// The items from last to first.
pub(crate) fn reversed<T>(items: Vec<T>) -> (r: Vec<T>)
    ensures
        r@ == items@.reverse(),
{
    let mut rest = items;
    let mut out: Vec<T> = Vec::new();
    while rest.len() > 0
        invariant
            rest.len() <= items.len(),
            rest@ == items@.take(rest.len() as int),
            out.len() == items.len() - rest.len(),
            forall|j: int| 0 <= j < out.len() ==> out[j] == items[items.len() - 1 - j],
        decreases rest.len(),
    {
        let x = rest.pop().unwrap();
        out.push(x);
    }
    assert(out@ =~= items@.reverse());
    out
}

/// The second part of each pair, in the order of the pairs.
pub(crate) fn into_seconds<A, B>(pairs: Vec<(A, B)>) -> (r: Vec<B>)
    ensures
        r@ == Seq::new(pairs@.len(), |i: int| pairs@[i].1),
{
    let mut stack = reversed(pairs);
    let mut out: Vec<B> = Vec::new();
    while stack.len() > 0
        invariant
            stack.len() <= pairs.len(),
            forall|j: int| 0 <= j < stack.len() ==> stack[j] == pairs[pairs.len() - 1 - j],
            out.len() == pairs.len() - stack.len(),
            forall|j: int| 0 <= j < out.len() ==> out[j] == pairs[j].1,
        decreases stack.len(),
    {
        let pair = stack.pop().unwrap();
        out.push(pair.1);
    }
    assert(out@ =~= Seq::new(pairs@.len(), |i: int| pairs@[i].1));
    out
}

/// The items by rising rank, items of one rank in the order in which they came.
pub(crate) fn sort_by_rank<T>(items: Vec<(i128, T)>) -> (r: Vec<(i128, T)>)
    ensures
        keyed(r@) == ranked(keyed(items@)),
        r.len() == items.len(),
{
    let ghost all = keyed(items@);
    let mut stack = reversed(items);
    let mut out: Vec<(i128, T)> = Vec::new();
    assert(all.take(0) =~= Seq::empty());
    assert(keyed(out@) =~= Seq::empty());
    while stack.len() > 0
        invariant
            stack.len() <= all.len(),
            forall|j: int| 0 <= j < stack.len() ==> (stack[j].0 as int, stack[j].1) == all[all.len() - 1 - j],
            out.len() == all.len() - stack.len(),
            keyed(out@) == ranked(all.take(all.len() - stack.len())),
        decreases stack.len(),
    {
        let ghost done = all.len() - stack.len();
        let item = stack.pop().unwrap();
        let mut at = out.len();
        while at > 0 && out[at - 1].0 > item.0
            invariant
                at <= out.len(),
                forall|j: int| at <= j < out.len() ==> out[j].0 > item.0,
            decreases at,
        {
            at -= 1;
        }
        proof {
            let entry = (item.0 as int, item.1);
            assert(entry == all[done]);
            lemma_insert_ranked_at(keyed(out@), entry, at as int);
            assert(all.take(done + 1).drop_last() =~= all.take(done));
            assert(all.take(done + 1).last() == all[done]);
            assert(keyed(out@.insert(at as int, item)) =~= keyed(out@).insert(at as int, entry));
        }
        out.insert(at, item);
    }
    assert(all.take(all.len() as int) =~= all);
    out
}

} // verus!
