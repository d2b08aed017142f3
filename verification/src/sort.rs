//! A stable merge sort.

use vstd::prelude::*;

use crate::order::Ranked;

verus! {

/// Every value ranks at or below the ones after it.
pub open spec fn is_sorted<T: Ranked>(s: Seq<T>) -> bool {
    forall|i: int, j: int| 0 <= i < j < s.len() ==> (#[trigger] s[i]).ranks_le(#[trigger] s[j])
}

/// `origin` names, for each place in `sorted`, the place in `s` that the value came from. Each
/// place of `s` is named once, and values of the same rank keep the order they had.
pub open spec fn is_stable_order<T: Ranked>(s: Seq<T>, sorted: Seq<T>, origin: Seq<int>) -> bool {
    &&& sorted.len() == s.len()
    &&& origin.len() == s.len()
    &&& origin.no_duplicates()
    &&& forall|i: int|
        0 <= i < origin.len() ==> 0 <= #[trigger] origin[i] < s.len() && sorted[i] == s[origin[i]]
    &&& is_sorted(sorted)
    &&& forall|i: int, j: int|
        #![trigger origin[i], origin[j]]
        0 <= i < j < origin.len() && sorted[j].ranks_le(sorted[i]) ==> origin[i] < origin[j]
}

/// `sorted` holds the values of `s` in order, those of the same rank as they came.
pub open spec fn is_stable_sort<T: Ranked>(s: Seq<T>, sorted: Seq<T>) -> bool {
    &&& exists|origin: Seq<int>| is_stable_order(s, sorted, origin)
    &&& sorted.to_multiset() == s.to_multiset()
}

/// A sequence that names places below its length, none twice, names them all.
pub proof fn lemma_no_place_is_missing(origin: Seq<int>, place: int)
    requires
        origin.no_duplicates(),
        forall|i: int| 0 <= i < origin.len() ==> 0 <= #[trigger] origin[i] < origin.len(),
        0 <= place < origin.len(),
    ensures
        origin.contains(place),
{
    let places = vstd::set_lib::set_int_range(0, origin.len() as int);
    vstd::set_lib::lemma_int_range(0, origin.len() as int);
    origin.unique_seq_to_set();
    assert(origin.to_set().subset_of(places)) by {
        assert forall|p: int| origin.to_set().contains(p) implies places.contains(p) by {
            let i = choose|i: int| 0 <= i < origin.len() && origin[i] == p;
            assert(0 <= origin[i] < origin.len());
        }
    }
    vstd::set_lib::lemma_subset_equality(origin.to_set(), places);
    assert(places.contains(place));
}

/// The values in reverse order.
fn reversed<T>(items: Vec<T>) -> (r: Vec<T>)
    ensures
        r@ == items@.reverse(),
{
    let mut items = items;
    let mut r: Vec<T> = Vec::new();
    let ghost all = items@;
    while items.len() > 0
        invariant
            items@.len() + r@.len() == all.len(),
            items@ == all.take(items@.len() as int),
            r@ == all.skip(items@.len() as int).reverse(),
        decreases items@.len(),
    {
        let ghost before = items@.len() as int;
        match items.pop() {
            Some(item) => {
                r.push(item);
            },
            None => {},
        }
        assert(items@ =~= all.take(before - 1));
        assert(r@ =~= all.skip(before - 1).reverse());
    }
    assert(all.skip(0) =~= all);
    r
}

/// What the merge of `left` and `right` looks like when it has used the first `i` values of
/// `left` and the first `j` of `right`.
spec fn merged_so_far<T: Ranked>(
    left: Seq<T>,
    right: Seq<T>,
    i: int,
    j: int,
    out: Seq<T>,
    origin: Seq<int>,
) -> bool {
    let all = left + right;
    &&& 0 <= i <= left.len()
    &&& 0 <= j <= right.len()
    &&& out.len() == i + j
    &&& origin.len() == i + j
    &&& is_sorted(out)
    &&& forall|k: int|
        #![trigger origin[k]]
        0 <= k < origin.len() ==> {
            &&& 0 <= origin[k] < i || left.len() <= origin[k] < left.len() + j
            &&& out[k] == all[origin[k]]
        }
    &&& origin.no_duplicates()
    &&& forall|k: int, m: int|
        0 <= k < out.len() && i <= m < left.len() ==> (#[trigger] out[k]).ranks_le(
            #[trigger] left[m],
        )
    &&& forall|k: int, m: int|
        0 <= k < out.len() && j <= m < right.len() ==> (#[trigger] out[k]).ranks_le(
            #[trigger] right[m],
        )
    &&& forall|k: int, m: int|
        #![trigger origin[k], left[m]]
        0 <= k < out.len() && left.len() <= origin[k] && i <= m < left.len() ==> !left[m].ranks_le(
            out[k],
        )
    &&& forall|a: int, b: int|
        #![trigger origin[a], origin[b]]
        0 <= a < b < origin.len() && out[b].ranks_le(out[a]) ==> origin[a] < origin[b]
}

proof fn lemma_merge_takes_left<T: Ranked>(
    left: Seq<T>,
    right: Seq<T>,
    i: int,
    j: int,
    out: Seq<T>,
    origin: Seq<int>,
)
    requires
        is_sorted(left),
        is_sorted(right),
        merged_so_far(left, right, i, j, out, origin),
        i < left.len(),
        j < right.len() ==> left[i].ranks_le(right[j]),
    ensures
        merged_so_far(left, right, i + 1, j, out.push(left[i]), origin.push(i)),
{
    let all = left + right;
    let out2 = out.push(left[i]);
    let origin2 = origin.push(i);
    assert(all[i] == left[i]);
    assert forall|m: int| j <= m < right.len() implies left[i].ranks_le(#[trigger] right[m]) by {
        if m > j {
            T::lemma_transitive(left[i], right[j], right[m]);
        }
    }
    assert forall|a: int, b: int|
        #![trigger origin2[a], origin2[b]]
        0 <= a < b < origin2.len() && out2[b].ranks_le(out2[a]) implies origin2[a] < origin2[b] by {
        if b == origin.len() {
            assert(origin[a] == origin2[a]);
            assert(out2[a] == out[a]);
            assert(out2[b] == left[i]);
        } else {
            assert(origin[a] == origin2[a] && origin[b] == origin2[b]);
        }
    }
    assert(origin2.no_duplicates());
}

proof fn lemma_merge_takes_right<T: Ranked>(
    left: Seq<T>,
    right: Seq<T>,
    i: int,
    j: int,
    out: Seq<T>,
    origin: Seq<int>,
)
    requires
        is_sorted(left),
        is_sorted(right),
        merged_so_far(left, right, i, j, out, origin),
        j < right.len(),
        i < left.len() ==> !left[i].ranks_le(right[j]),
    ensures
        merged_so_far(left, right, i, j + 1, out.push(right[j]), origin.push(left.len() + j)),
{
    let all = left + right;
    let out2 = out.push(right[j]);
    let origin2 = origin.push(left.len() + j);
    assert(all[left.len() + j] == right[j]);
    assert forall|m: int| i <= m < left.len() implies right[j].ranks_le(#[trigger] left[m])
        && !left[m].ranks_le(right[j]) by {
        T::lemma_total(right[j], left[i]);
        if m > i {
            T::lemma_transitive(right[j], left[i], left[m]);
            if left[m].ranks_le(right[j]) {
                T::lemma_transitive(left[i], left[m], right[j]);
            }
        }
    }
    assert forall|a: int, b: int|
        #![trigger origin2[a], origin2[b]]
        0 <= a < b < origin2.len() && out2[b].ranks_le(out2[a]) implies origin2[a] < origin2[b] by {
        if b == origin.len() {
            assert(origin[a] == origin2[a]);
        } else {
            assert(origin[a] == origin2[a] && origin[b] == origin2[b]);
        }
    }
    assert(origin2.no_duplicates());
}

/// Merges two sorted sequences. Of values of the same rank those of `left` come first.
fn merge<T: Ranked>(left: Vec<T>, right: Vec<T>) -> (out: Vec<T>)
    requires
        is_sorted(left@),
        is_sorted(right@),
    ensures
        is_stable_sort(left@ + right@, out@),
{
    broadcast use vstd::seq_lib::group_to_multiset_ensures;

    let ghost l = left@;
    let ghost r = right@;
    let mut left = reversed(left);
    let mut right = reversed(right);
    let mut out: Vec<T> = Vec::new();
    let ghost mut i: int = 0;
    let ghost mut j: int = 0;
    let ghost mut origin: Seq<int> = seq![];
    proof {
        assert(l.skip(0) =~= l);
        assert(r.skip(0) =~= r);
        assert(l.take(0) =~= Seq::<T>::empty());
        assert(r.take(0) =~= Seq::<T>::empty());
        l.take(0).to_multiset_ensures();
        assert(out@.to_multiset() =~= l.take(0).to_multiset().add(r.take(0).to_multiset()));
    }
    while left.len() > 0 || right.len() > 0
        invariant
            is_sorted(l),
            is_sorted(r),
            merged_so_far(l, r, i, j, out@, origin),
            left@ == l.skip(i).reverse(),
            right@ == r.skip(j).reverse(),
            out@.to_multiset() == l.take(i).to_multiset().add(r.take(j).to_multiset()),
        decreases left@.len() + right@.len(),
    {
        broadcast use vstd::seq_lib::group_to_multiset_ensures;

        let from_left = if left.len() == 0 {
            false
        } else if right.len() == 0 {
            true
        } else {
            left[left.len() - 1].le(&right[right.len() - 1])
        };
        if from_left {
            match left.pop() {
                Some(item) => {
                    proof {
                        assert(item == l[i]);
                        lemma_merge_takes_left(l, r, i, j, out@, origin);
                        assert(left@ =~= l.skip(i + 1).reverse());
                        assert(l.take(i + 1) =~= l.take(i).push(l[i]));
                        origin = origin.push(i);
                        i = i + 1;
                        assert(out@.push(item).to_multiset() =~= l.take(i).to_multiset().add(
                            r.take(j).to_multiset(),
                        ));
                    }
                    out.push(item);
                },
                None => {},
            }
        } else {
            match right.pop() {
                Some(item) => {
                    proof {
                        assert(item == r[j]);
                        lemma_merge_takes_right(l, r, i, j, out@, origin);
                        assert(right@ =~= r.skip(j + 1).reverse());
                        assert(r.take(j + 1) =~= r.take(j).push(r[j]));
                        origin = origin.push(l.len() + j);
                        j = j + 1;
                        assert(out@.push(item).to_multiset() =~= l.take(i).to_multiset().add(
                            r.take(j).to_multiset(),
                        ));
                    }
                    out.push(item);
                },
                None => {},
            }
        }
    }
    proof {
        assert(l.skip(i).len() == 0 && r.skip(j).len() == 0);
        assert(l.take(i) =~= l);
        assert(r.take(j) =~= r);
        vstd::seq_lib::lemma_multiset_commutative(l, r);
        assert(is_stable_order(l + r, out@, origin));
    }
    out
}

proof fn lemma_sorted_halves<T: Ranked>(
    s: Seq<T>,
    mid: int,
    left: Seq<T>,
    right: Seq<T>,
    sorted: Seq<T>,
)
    requires
        0 <= mid <= s.len(),
        is_stable_sort(s.take(mid), left),
        is_stable_sort(s.skip(mid), right),
        is_stable_sort(left + right, sorted),
    ensures
        is_stable_sort(s, sorted),
{
    let in_left = choose|origin: Seq<int>| is_stable_order(s.take(mid), left, origin);
    let in_right = choose|origin: Seq<int>| is_stable_order(s.skip(mid), right, origin);
    let in_both = choose|origin: Seq<int>| is_stable_order(left + right, sorted, origin);
    let place = |p: int|
        if p < mid {
            in_left[p]
        } else {
            mid + in_right[p - mid]
        };
    let origin = in_both.map_values(place);
    assert forall|i: int| 0 <= i < origin.len() implies 0 <= #[trigger] origin[i] < s.len()
        && sorted[i] == s[origin[i]] by {
        let p = in_both[i];
        assert(0 <= p < s.len());
        if p < mid {
            assert(0 <= in_left[p] < mid);
        } else {
            assert(0 <= in_right[p - mid] < s.len() - mid);
        }
    }
    assert forall|i: int, j: int|
        #![trigger origin[i], origin[j]]
        0 <= i < j < origin.len() && sorted[j].ranks_le(sorted[i]) implies origin[i] < origin[j] by {
        let p = in_both[i];
        let q = in_both[j];
        assert(p < q);
        assert(sorted[i] == (left + right)[p] && sorted[j] == (left + right)[q]);
        if q < mid {
            assert(in_left[p] < in_left[q]);
        } else if p >= mid {
            assert(in_right[p - mid] < in_right[q - mid]);
        } else {
            assert(0 <= in_left[p] < mid);
            assert(0 <= in_right[q - mid]);
        }
    }
    assert(origin.no_duplicates()) by {
        assert forall|i: int, j: int| 0 <= i < origin.len() && 0 <= j < origin.len() && i != j
            implies origin[i] != origin[j] by {
            let p = in_both[i];
            let q = in_both[j];
            assert(p != q);
            assert(0 <= p < s.len() && 0 <= q < s.len());
            if p < mid {
                assert(0 <= in_left[p] < mid);
            } else {
                assert(0 <= in_right[p - mid]);
            }
            if q < mid {
                assert(0 <= in_left[q] < mid);
            } else {
                assert(0 <= in_right[q - mid]);
            }
        }
    }
    assert(is_stable_order(s, sorted, origin));
    vstd::seq_lib::lemma_multiset_commutative(left, right);
    vstd::seq_lib::lemma_multiset_commutative(s.take(mid), s.skip(mid));
    assert(s =~= s.take(mid) + s.skip(mid));
}

/// Sorts `items`. Values of the same rank keep their order.
pub fn sorted<T: Ranked>(items: Vec<T>) -> (r: Vec<T>)
    ensures
        is_stable_sort(items@, r@),
    decreases items@.len(),
{
    if items.len() <= 1 {
        proof {
            let origin = Seq::new(items@.len(), |i: int| i);
            assert(is_stable_order(items@, items@, origin));
        }
        return items;
    }
    let ghost s = items@;
    let mid = items.len() / 2;
    let mut left = items;
    let right = left.split_off(mid);
    assert(left@ =~= s.take(mid as int));
    assert(right@ =~= s.skip(mid as int));
    let left = sorted(left);
    let right = sorted(right);
    let r = merge(left, right);
    proof {
        lemma_sorted_halves(s, mid as int, left@, right@, r@);
    }
    r
}

} // verus!
