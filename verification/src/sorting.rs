use vstd::prelude::*;
use crate::order::{le_spec, comparable, total_order};

verus! {

broadcast use vstd::seq_lib::group_to_multiset_ensures;

/// The elements of `s` that are `<=` the pivot `p`, in their order.
pub open spec fn le_part<T: PartialOrd>(s: Seq<T>, p: T) -> Seq<T> {
    s.filter(|x: T| le_spec(x, p))
}

/// One step of the rotation the partition applies to the elements above
/// the pivot: the first moves to the end.
pub open spec fn rotate_first<T>(g: Seq<T>) -> Seq<T> {
    if g.len() == 0 { g } else { g.drop_first().push(g[0]) }
}

/// The elements above the pivot `p`, in the order the partition leaves
/// them after scanning `s`: an element above the pivot joins at the end;
/// an element `<=` the pivot is swapped with the first of them, which so
/// moves to the end.
pub open spec fn above_pivot_order<T: PartialOrd>(s: Seq<T>, p: T) -> Seq<T>
    decreases s.len(),
{
    if s.len() == 0 {
        Seq::empty()
    } else if le_spec(s.last(), p) {
        rotate_first(above_pivot_order(s.drop_last(), p))
    } else {
        above_pivot_order(s.drop_last(), p).push(s.last())
    }
}

/// `<[T]>::swap`: exchanges the elements at `a` and `b` (the standard library
/// panics when either index is out of bounds, which `requires` rules out).
#[verifier::external_body]
fn slice_swap<T>(v: &mut [T], a: usize, b: usize)
    requires
        a < old(v)@.len(),
        b < old(v)@.len(),
    ensures
        final(v)@ == old(v)@.update(a as int, old(v)@[b as int]).update(b as int, old(v)@[a as int]),
{
    v.swap(a, b);
}

proof fn lemma_swap_multiset<T>(s: Seq<T>, a: int, b: int)
    requires
        0 <= a < s.len(),
        0 <= b < s.len(),
    ensures
        s.update(a, s[b]).update(b, s[a]).to_multiset() == s.to_multiset(),
{
    broadcast use vstd::seq_lib::to_multiset_update;
    broadcast use vstd::multiset::group_multiset_axioms;
    let s1 = s.update(a, s[b]);
    assert(s1.to_multiset() == s.to_multiset().insert(s[b]).remove(s[a]));
    assert(s1.update(b, s[a]).to_multiset() == s1.to_multiset().insert(s[a]).remove(s1[b]));
    if a == b {
        assert(s.update(a, s[b]).update(b, s[a]) =~= s);
    } else {
        assert(s1[b] == s[b]);
        assert(s1.to_multiset().insert(s[a]).remove(s[b]) =~= s.to_multiset());
    }
}

/// Lomuto partition around the last element. The elements `<=` the pivot
/// come first, in their original order, then the pivot, then the rest.
/// Returns the pivot's new index.
pub fn partition<T: PartialOrd + Send>(v: &mut [T]) -> (mid: usize)
    requires
        old(v)@.len() >= 1,
    ensures
        final(v)@.len() == old(v)@.len(),
        mid < final(v)@.len(),
        final(v)@.to_multiset() == old(v)@.to_multiset(),
        final(v)@[mid as int] == old(v)@.last(),
        comparable::<T>() ==> final(v)@.subrange(0, mid as int)
            == le_part(old(v)@.drop_last(), old(v)@.last()),
        comparable::<T>() ==> forall|k: int|
            mid < k < final(v)@.len() ==> !le_spec(#[trigger] final(v)@[k], old(v)@.last()),
        comparable::<T>() ==> final(v)@.subrange(mid + 1, final(v)@.len() as int)
            == rotate_first(above_pivot_order(old(v)@.drop_last(), old(v)@.last())),
{
    let ghost s0 = v@;
    let ghost p = v@.last();
    let n = v.len();
    let pivot = n - 1;
    let mut i: usize = 0;
    let mut j: usize = 0;
    while j < pivot
        invariant
            n == s0.len(),
            pivot == n - 1,
            p == s0.last(),
            v@.len() == n,
            i <= j <= pivot,
            v@.to_multiset() == s0.to_multiset(),
            v@.subrange(j as int, n as int) == s0.subrange(j as int, n as int),
            comparable::<T>() ==> v@.subrange(0, i as int) == le_part(s0.subrange(0, j as int), p),
            comparable::<T>() ==> forall|k: int| i <= k < j ==> !le_spec(#[trigger] v@[k], p),
            comparable::<T>() ==> v@.subrange(i as int, j as int) == above_pivot_order(s0.subrange(0, j as int), p),
        decreases pivot - j,
    {
        let ghost before = v@;
        assert(before[j as int] == s0[j as int]) by {
            assert(before[j as int] == before.subrange(j as int, n as int)[0]);
        }
        assert(before[pivot as int] == p) by {
            assert(before[pivot as int] == before.subrange(j as int, n as int)[pivot - j]);
        }
        assert(s0.subrange(0, j + 1) == s0.subrange(0, j as int).push(s0[j as int]));
        let is_le = v[j] <= v[pivot];
        if is_le {
            proof { lemma_swap_multiset(before, i as int, j as int); }
            slice_swap(v, i, j);
            proof {
                if comparable::<T>() {
                    assert(s0.subrange(0, j + 1).drop_last() =~= s0.subrange(0, j as int));
                    assert(s0.subrange(0, j + 1).last() == s0[j as int]);
                    let g = before.subrange(i as int, j as int);
                    if i < j {
                        assert(v@.subrange(i + 1, j + 1) =~= g.drop_first().push(g[0]));
                    } else {
                        assert(v@.subrange(i + 1, j + 1) =~= g);
                    }
                    s0.subrange(0, j as int).lemma_filter_push(s0[j as int], |x: T| le_spec(x, p));
                    assert(v@.subrange(0, i + 1) =~= before.subrange(0, i as int).push(s0[j as int]));
                    assert forall|k: int| i + 1 <= k < j + 1 implies !le_spec(#[trigger] v@[k], p) by {
                        if k == j && i < j {
                            assert(v@[k] == before[i as int]);
                        } else if k < j {
                            assert(v@[k] == before[k]);
                        }
                    }
                }
                assert(v@.subrange(j + 1, n as int) =~= before.subrange(j + 1, n as int));
                assert(before.subrange(j + 1, n as int) =~= before.subrange(j as int, n as int).subrange(1, n - j));
                assert(s0.subrange(j + 1, n as int) =~= s0.subrange(j as int, n as int).subrange(1, n - j));
            }
            i = i + 1;
        } else {
            proof {
                if comparable::<T>() {
                    s0.subrange(0, j as int).lemma_filter_push(s0[j as int], |x: T| le_spec(x, p));
                    assert(s0.subrange(0, j + 1).drop_last() =~= s0.subrange(0, j as int));
                    assert(s0.subrange(0, j + 1).last() == s0[j as int]);
                    assert(v@.subrange(i as int, j + 1) =~= before.subrange(i as int, j as int).push(s0[j as int]));
                }
                assert(before.subrange(j + 1, n as int) =~= before.subrange(j as int, n as int).subrange(1, n - j));
                assert(s0.subrange(j + 1, n as int) =~= s0.subrange(j as int, n as int).subrange(1, n - j));
            }
        }
        j = j + 1;
    }
    let ghost before = v@;
    assert(before[pivot as int] == p) by {
        assert(before[pivot as int] == before.subrange(j as int, n as int)[0]);
    }
    proof { lemma_swap_multiset(before, i as int, pivot as int); }
    slice_swap(v, i, pivot);
    proof {
        assert(s0.subrange(0, pivot as int) =~= s0.drop_last());
        if comparable::<T>() {
            let g = before.subrange(i as int, pivot as int);
            assert(s0.subrange(0, pivot as int) =~= s0.drop_last());
            if i < pivot {
                assert(v@.subrange(i + 1, n as int) =~= g.drop_first().push(g[0]));
            } else {
                assert(v@.subrange(i + 1, n as int) =~= g);
            }
            assert(v@.subrange(0, i as int) =~= before.subrange(0, i as int));
            assert forall|k: int| i < k < n implies !le_spec(#[trigger] v@[k], p) by {
                if k == pivot {
                    assert(v@[k] == before[i as int]);
                } else {
                    assert(v@[k] == before[k]);
                }
            }
        }
    }
    i
}


/// Every element is `<=` every element at a later index.
pub open spec fn sorted_le<T: PartialOrd>(s: Seq<T>) -> bool {
    forall|a: int, b: int| 0 <= a < b < s.len() ==> le_spec(#[trigger] s[a], #[trigger] s[b])
}

/// Sorts both halves at once with `rayon::join`, each half by `quick_sort`.
/// Trusted: `rayon::join` runs both closures to completion before it
/// returns, so each half ends as `quick_sort` leaves it.
#[verifier::external_body]
fn join_sorts<T: PartialOrd + Send>(lo: &mut [T], hi: &mut [T])
    requires
        total_order::<T>(),
    ensures
        final(lo)@.to_multiset() == old(lo)@.to_multiset(),
        final(lo)@.len() == old(lo)@.len(),
        sorted_le(final(lo)@),
        final(hi)@.to_multiset() == old(hi)@.to_multiset(),
        final(hi)@.len() == old(hi)@.len(),
        sorted_le(final(hi)@),
{
    rayon::join(|| quick_sort(lo), || quick_sort(hi));
}

pub(crate) proof fn lemma_multiset_member<T>(s: Seq<T>, t: Seq<T>, x: T) -> (k: int)
    requires
        s.to_multiset() == t.to_multiset(),
        s.contains(x),
    ensures
        0 <= k < t.len(),
        t[k] == x,
{
    broadcast use vstd::seq_lib::to_multiset_contains;
    assert(s.to_multiset().count(x) > 0);
    assert(t.contains(x));
    choose|k: int| 0 <= k < t.len() && t[k] == x
}

/// Sorts `v` in place: partitions it, then sorts both parts in parallel.
/// Needs a total order on `T`; without one the recursion need not end.
pub fn quick_sort<T: PartialOrd + Send>(v: &mut [T])
    requires
        total_order::<T>(),
    ensures
        final(v)@.len() == old(v)@.len(),
        final(v)@.to_multiset() == old(v)@.to_multiset(),
        sorted_le(final(v)@),
{
    if v.len() <= 1 {
        return;
    }
    let ghost s0 = v@;
    let mid = partition(v);
    let ghost s1 = v@;
    let ghost p = s0.last();
    let (lo, hi) = v.split_at_mut(mid);
    let ghost lo0 = lo@;
    let ghost hi0 = hi@;
    join_sorts(lo, hi);
    proof {
        broadcast use vstd::seq_lib::lemma_multiset_commutative;
        let l = final(lo)@;
        let h = final(hi)@;
        assert(s1 =~= lo0 + hi0);
        assert forall|x: T| l.contains(x) implies le_spec(x, p) by {
            let k = lemma_multiset_member(l, lo0, x);
            assert(lo0[k] == s1.subrange(0, mid as int)[k]);
            s0.drop_last().lemma_filter_pred(|y: T| le_spec(y, p), k);
        }
        assert forall|x: T| h.contains(x) implies (x == p || !le_spec(x, p)) by {
            let k = lemma_multiset_member(h, hi0, x);
            assert(hi0[k] == s1[mid + k]);
        }
        assert forall|a: int, b: int| 0 <= a < b < l.len() + h.len() implies
            le_spec(#[trigger] (l + h)[a], #[trigger] (l + h)[b]) by {
            if b < l.len() {
            } else if a >= l.len() {
                assert((l + h)[a] == h[a - l.len()]);
                assert((l + h)[b] == h[b - l.len()]);
            } else {
                let x = l[a];
                let y = h[b - l.len()];
                assert(l.contains(x));
                assert(h.contains(y));
                if y != p {
                    assert(le_spec(p, y));
                }
            }
        }
    }
}

} // verus!
