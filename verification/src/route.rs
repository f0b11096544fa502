use vstd::prelude::*;
use vstd::multiset::Multiset;

verus! {

/// The subsequence of `s` routed to partition `side`, given the routing bit
/// recorded for each element of `s` in `r` (`true` means the item belongs to
/// the "true" partition). Elements keep the relative order they had in `s`.
pub open spec fn route_side<I>(s: Seq<I>, r: Seq<bool>, side: bool) -> Seq<I>
    decreases s.len(),
{
    if s.len() == 0 {
        Seq::empty()
    } else {
        let init = route_side(s.drop_last(), r.drop_last(), side);
        if r.len() == s.len() && r[s.len() - 1] == side {
            init.push(s.last())
        } else {
            init
        }
    }
}

/// The positions of `r` whose bit equals `side`, in increasing order.
pub open spec fn side_indices(r: Seq<bool>, side: bool) -> Seq<int>
    decreases r.len(),
{
    if r.len() == 0 {
        Seq::empty()
    } else if r.last() == side {
        side_indices(r.drop_last(), side).push(r.len() - 1)
    } else {
        side_indices(r.drop_last(), side)
    }
}

/// Routing one more element extends exactly the partition named by its bit.
pub proof fn lemma_route_side_push<I>(s: Seq<I>, r: Seq<bool>, x: I, b: bool, side: bool)
    requires
        s.len() == r.len(),
    ensures
        route_side(s.push(x), r.push(b), side) == if b == side {
            route_side(s, r, side).push(x)
        } else {
            route_side(s, r, side)
        },
{
    assert(s.push(x).drop_last() =~= s);
    assert(r.push(b).drop_last() =~= r);
    assert(s.push(x).last() == x);
    assert(r.push(b)[s.push(x).len() - 1] == b);
}

/// Partition correctness, exactness: routing splits the items into the two
/// partitions with nothing lost and nothing duplicated — the two partitions'
/// contents, taken together as a bag, are exactly the routed items.
pub proof fn lemma_route_side_partition<I>(s: Seq<I>, r: Seq<bool>)
    requires
        s.len() == r.len(),
    ensures
        route_side(s, r, true).to_multiset().add(route_side(s, r, false).to_multiset())
            == s.to_multiset(),
    decreases s.len(),
{
    broadcast use vstd::seq_lib::group_to_multiset_ensures;

    if s.len() == 0 {
        assert(s.to_multiset() =~= Multiset::<I>::empty());
        assert(route_side(s, r, true).to_multiset().add(route_side(s, r, false).to_multiset())
            =~= Multiset::<I>::empty());
    } else {
        let s0 = s.drop_last();
        let r0 = r.drop_last();
        lemma_route_side_partition(s0, r0);
        lemma_route_side_push(s0, r0, s.last(), r.last(), true);
        lemma_route_side_push(s0, r0, s.last(), r.last(), false);
        assert(s0.push(s.last()) =~= s);
        assert(r0.push(r.last()) =~= r);
        assert(route_side(s, r, true).to_multiset().add(route_side(s, r, false).to_multiset())
            =~= s.to_multiset());
    }
}

/// Partition correctness and order preservation of the routing model: the
/// `side` partition selects elements of `s` from strictly increasing
/// positions — exactly the positions whose routing bit equals `side` — and
/// keeps them in that order.
pub proof fn lemma_route_side_selection<I>(s: Seq<I>, r: Seq<bool>, side: bool)
    requires
        s.len() == r.len(),
    ensures
        route_side(s, r, side).len() == side_indices(r, side).len(),
        forall|k: int|
            0 <= k < side_indices(r, side).len() ==> 0 <= #[trigger] side_indices(r, side)[k]
                < s.len(),
        forall|k: int|
            0 <= k < side_indices(r, side).len() ==> route_side(s, r, side)[k] == s[#[trigger] side_indices(
                r,
                side,
            )[k]] && r[side_indices(r, side)[k]] == side,
        forall|k1: int, k2: int|
            0 <= k1 < k2 < side_indices(r, side).len() ==> #[trigger] side_indices(r, side)[k1]
                < #[trigger] side_indices(r, side)[k2],
        forall|j: int| 0 <= j < r.len() && r[j] == side ==> side_indices(r, side).contains(j),
    decreases s.len(),
{
    if s.len() == 0 {
    } else {
        let s0 = s.drop_last();
        let r0 = r.drop_last();
        lemma_route_side_selection(s0, r0, side);
        lemma_route_side_push(s0, r0, s.last(), r.last(), side);
        assert(s0.push(s.last()) =~= s);
        assert(r0.push(r.last()) =~= r);
        let idx0 = side_indices(r0, side);
        let idx = side_indices(r, side);
        assert forall|j: int| 0 <= j < r.len() && r[j] == side implies idx.contains(j) by {
            if j < r.len() - 1 {
                assert(r0[j] == side);
                assert(idx0.contains(j));
                let k = choose|k: int| 0 <= k < idx0.len() && idx0[k] == j;
                if r.last() == side {
                    assert(idx[k] == j);
                } else {
                    assert(idx =~= idx0);
                    assert(idx[k] == j);
                }
            } else {
                assert(r.last() == side);
                assert(idx[idx.len() - 1] == j);
            }
        }
    }
}

} // verus!
