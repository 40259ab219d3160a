//! Lists of which some entries are left out, and the others keep their order.
use vstd::prelude::*;

verus! {

/// The entry at `k` of `out` is the one that stands at `at[k]` in `list`, from
/// the first one on, and no entry of `list` is left out.
pub open spec fn picked_at<T>(list: Seq<Option<T>>, out: Seq<T>, at: Seq<int>) -> bool {
    &&& at.len() == out.len()
    &&& forall|p: int, q: int| 0 <= p < q < at.len() ==> at[p] < at[q]
    &&& forall|p: int|
        0 <= p < at.len() ==> 0 <= #[trigger] at[p] < list.len() && list[at[p]] == Some(out[p])
    &&& forall|i: int| 0 <= i < list.len() && (#[trigger] list[i]) is Some ==> at.contains(i)
}

/// `out` holds every entry that is there in `list`, once, and nothing else, in
/// the order of `list`.
pub open spec fn keeps_order<T>(list: Seq<Option<T>>, out: Seq<T>) -> bool {
    exists|at: Seq<int>| picked_at(list, out, at)
}

/// The entries that are there.
pub open spec fn present<T>(list: Seq<Option<T>>) -> Seq<T>
    decreases list.len(),
{
    if list.len() == 0 {
        Seq::empty()
    } else {
        match list.last() {
            Some(entry) => present(list.drop_last()).push(entry),
            None => present(list.drop_last()),
        }
    }
}

/// The entries that are there keep their order.
pub proof fn lemma_present<T>(list: Seq<Option<T>>) -> (at: Seq<int>)
    ensures
        picked_at(list, present(list), at),
        keeps_order(list, present(list)),
    decreases list.len(),
{
    if list.len() == 0 {
        let at = Seq::<int>::empty();
        assert(picked_at(list, present(list), at));
        at
    } else {
        let fewer = list.drop_last();
        let before = lemma_present(fewer);
        let n = list.len() - 1;
        let at = match list.last() {
            Some(_) => before.push(n),
            None => before,
        };
        assert forall|p: int| 0 <= p < at.len() implies 0 <= #[trigger] at[p] < list.len()
            && list[at[p]] == Some(present(list)[p]) by {
            if p < before.len() {
                assert(before[p] == at[p]);
                assert(fewer[at[p]] == list[at[p]]);
            }
        }
        assert forall|p: int, q: int| 0 <= p < q < at.len() implies at[p] < at[q] by {
            assert(before[p] == at[p]);
        }
        assert forall|i: int| 0 <= i < list.len() && (#[trigger] list[i]) is Some implies at.contains(
            i,
        ) by {
            if i < n {
                assert(fewer[i] == list[i]);
                let p = before.index_of(i);
                assert(at[p] == i);
            } else {
                assert(at[at.len() - 1] == i);
            }
        }
        assert(picked_at(list, present(list), at));
        at
    }
}

/// Of two entries that are there, the one that stands first in the list stands
/// first in what was picked.
pub proof fn lemma_pair_in_order<T>(list: Seq<Option<T>>, out: Seq<T>, i: int, j: int) -> (places: (
    int,
    int,
))
    requires
        keeps_order(list, out),
        0 <= i < j < list.len(),
        list[i] is Some,
        list[j] is Some,
    ensures
        0 <= places.0 < places.1 < out.len(),
        out[places.0] == list[i]->0,
        out[places.1] == list[j]->0,
{
    let at = choose|at: Seq<int>| picked_at(list, out, at);
    let p = at.index_of(i);
    let q = at.index_of(j);
    assert(at[p] == i && at[q] == j);
    if q < p {
        assert(at[q] < at[p]);
    }
    (p, q)
}

/// Where all entries are there, all are picked, each at its place.
pub proof fn lemma_all_present<T>(list: Seq<Option<T>>, out: Seq<T>)
    requires
        keeps_order(list, out),
        forall|i: int| 0 <= i < list.len() ==> (#[trigger] list[i]) is Some,
    ensures
        out.len() == list.len(),
        forall|i: int| 0 <= i < list.len() ==> #[trigger] list[i] == Some(out[i]),
{
    let at = choose|at: Seq<int>| picked_at(list, out, at);
    assert forall|p: int| 0 <= p < list.len() implies p < at.len() && #[trigger] at[p] == p by {
        lemma_at_itself(list, out, at, p);
    }
    if list.len() > 0 {
        assert(at[list.len() - 1] == list.len() - 1);
    }
    if at.len() > list.len() {
        let last = list.len() as int;
        if last > 0 {
            assert(at[last - 1] < at[last]);
        }
        assert(0 <= at[last] < list.len());
    }
    assert forall|i: int| 0 <= i < list.len() implies #[trigger] list[i] == Some(out[i]) by {
        assert(at[i] == i);
    }
}

proof fn lemma_at_itself<T>(list: Seq<Option<T>>, out: Seq<T>, at: Seq<int>, p: int)
    requires
        picked_at(list, out, at),
        forall|i: int| 0 <= i < list.len() ==> (#[trigger] list[i]) is Some,
        0 <= p < list.len(),
    ensures
        p < at.len(),
        at[p] == p,
    decreases p,
{
    if p > 0 {
        lemma_at_itself(list, out, at, p - 1);
    }
    assert(list[p] is Some);
    let q = at.index_of(p);
    assert(at[q] == p);
    if q < p {
        lemma_at_itself(list, out, at, q);
    }
    if q > p {
        assert(at[p] < at[q]);
        if p > 0 {
            assert(at[p - 1] < at[p]);
        }
    }
}

/// What is picked is picked from the list, and what is there is picked.
pub proof fn lemma_picked<T>(list: Seq<Option<T>>, out: Seq<T>, entry: T)
    requires
        keeps_order(list, out),
    ensures
        out.contains(entry) == list.contains(Some(entry)),
{
    let at = choose|at: Seq<int>| picked_at(list, out, at);
    if out.contains(entry) {
        let p = out.index_of(entry);
        assert(list[at[p]] == Some(entry));
    }
    if list.contains(Some(entry)) {
        let i = list.index_of(Some(entry));
        assert(list[i] is Some);
        let p = at.index_of(i);
        assert(at[p] == i);
        assert(out[p] == entry);
    }
}

/// Leaving entries out twice leaves out those that either leaves out.
pub proof fn lemma_present_twice<A, B>(
    list: Seq<Option<A>>,
    found: spec_fn(A) -> Option<B>,
    both: spec_fn(Option<A>) -> Option<B>,
)
    requires
        forall|entry: Option<A>| #[trigger]
            both(entry) == (match entry {
                Some(there) => found(there),
                None => None,
            }),
    ensures
        present(present(list).map_values(found)) == present(list.map_values(both)),
    decreases list.len(),
{
    if list.len() == 0 {
        assert(present(list).map_values(found) =~= Seq::empty());
    } else {
        let fewer = list.drop_last();
        lemma_present_twice(fewer, found, both);
        assert(list.map_values(both).drop_last() =~= fewer.map_values(both));
        match list.last() {
            Some(entry) => {
                let before = present(fewer).map_values(found);
                let now = present(list).map_values(found);
                assert(now =~= before.push(found(entry)));
                assert(now.drop_last() =~= before);
            },
            None => {},
        }
    }
}

} // verus!
