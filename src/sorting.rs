//! In-place comparison sorts over any type whose comparison is a total order.
use vstd::prelude::*;
use vstd::std_specs::cmp::PartialOrdSpec;
use core::cmp::Ordering;

verus! {

/// `a` comes no later than `b` in `T`'s order.
pub open spec fn le<T: PartialOrd>(a: T, b: T) -> bool {
    a.partial_cmp_spec(&b) matches Some(Ordering::Less | Ordering::Equal)
}

/// `T`'s comparison is a total preorder: any two values compare, the order is
/// transitive, and `a < b` exactly when `b > a`.
pub open spec fn total_order<T: PartialOrd>() -> bool {
    &&& T::obeys_partial_cmp_spec()
    &&& forall|a: T, b: T| #[trigger] a.partial_cmp_spec(&b) is Some
    &&& forall|a: T, b: T|
        (#[trigger] a.partial_cmp_spec(&b) == Some(Ordering::Less)) == (b.partial_cmp_spec(&a) == Some(Ordering::Greater))
    &&& forall|a: T, b: T, c: T| #[trigger] le(a, b) && #[trigger] le(b, c) ==> le(a, c)
}

/// `s[lo..hi]` is in order.
pub open spec fn sorted_between<T: PartialOrd>(s: Seq<T>, lo: int, hi: int) -> bool {
    forall|k: int, l: int| lo <= k < l < hi ==> #[trigger] le(s[k], s[l])
}

/// The whole of `s` is in order.
pub open spec fn sorted<T: PartialOrd>(s: Seq<T>) -> bool {
    sorted_between(s, 0, s.len() as int)
}

pub proof fn lemma_le_total<T: PartialOrd>(a: T, b: T)
    requires
        total_order::<T>(),
    ensures
        le(a, b) || le(b, a),
        le(a, a),
{
    assert(a.partial_cmp_spec(&b) is Some);
    assert(b.partial_cmp_spec(&a) is Some);
    assert(a.partial_cmp_spec(&a) is Some);
    if a.partial_cmp_spec(&a) == Some(Ordering::Greater) {
        assert(a.partial_cmp_spec(&a) == Some(Ordering::Less));
    }
    if a.partial_cmp_spec(&b) == Some(Ordering::Greater) {
        assert(b.partial_cmp_spec(&a) == Some(Ordering::Less));
    }
}

pub proof fn lemma_swap_perm<T>(s: Seq<T>, i: int, j: int)
    requires
        0 <= i < s.len(),
        0 <= j < s.len(),
    ensures
        s.update(i, s[j]).update(j, s[i]).to_multiset() == s.to_multiset(),
{
    broadcast use vstd::seq_lib::group_to_multiset_ensures;
    broadcast use vstd::multiset::group_multiset_axioms;

    let s1 = s.update(i, s[j]);
    assert(s1.to_multiset() == s.to_multiset().insert(s[j]).remove(s[i]));
    assert(s1.update(j, s[i]).to_multiset() == s1.to_multiset().insert(s[i]).remove(s1[j]));
    assert(s1.update(j, s[i]).to_multiset() =~= s.to_multiset());
}

/// Relies on `<[T]>::swap`: exchanges the items at `i` and `j`.
#[verifier::external_body]
pub(crate) fn swap_items<T>(array: &mut [T], i: usize, j: usize)
    requires
        i < old(array)@.len(),
        j < old(array)@.len(),
    ensures
        final(array)@ == old(array)@.update(i as int, old(array)@[j as int]).update(j as int, old(array)@[i as int]),
{
    array.swap(i, j)
}

/// Sorts `array` by moving each item left past the larger ones before it.
pub fn insertion_sort<T: PartialOrd>(array: &mut [T])
    requires
        total_order::<T>(),
    ensures
        sorted(final(array)@),
        final(array)@.to_multiset() == old(array)@.to_multiset(),
{
    let n = array.len();
    if n == 0 {
        return;
    }
    let mut i: usize = 1;
    while i < n
        invariant
            total_order::<T>(),
            1 <= i <= n,
            n == array@.len(),
            sorted_between(array@, 0, i as int),
            array@.to_multiset() == old(array)@.to_multiset(),
        decreases n - i,
    {
        let mut j = i;
        while j > 0
            invariant
                total_order::<T>(),
                0 <= j <= i < n,
                n == array@.len(),
                sorted_between(array@, 0, j as int),
                sorted_between(array@, j as int, i + 1),
                forall|k: int, l: int| 0 <= k < j < l <= i ==> #[trigger] le(array@[k], array@[l]),
                array@.to_multiset() == old(array)@.to_multiset(),
            ensures
                sorted_between(array@, 0, i + 1),
                array@.to_multiset() == old(array)@.to_multiset(),
            decreases j,
        {
            if array[j] > array[j - 1] {
                proof {
                    let s = array@;
                    lemma_le_total(s[j as int], s[j - 1]);
                    assert forall|k: int, l: int| 0 <= k < l < i + 1 implies #[trigger] le(s[k], s[l]) by {
                        if k < j && l == j {
                            lemma_le_total(s[k], s[k]);
                            if k < j - 1 {
                                assert(le(s[k], s[j - 1]));
                            }
                        }
                    }
                }
                break;
            }
            let ghost s = array@;
            proof {
                lemma_le_total(s[j as int], s[j - 1]);
                lemma_swap_perm(s, j as int, j - 1);
            }
            swap_items(array, j, j - 1);
            proof {
                let t = array@;
                assert forall|k: int, l: int| j - 1 <= k < l < i + 1 implies #[trigger] le(t[k], t[l]) by {
                    if k == j - 1 && l > j {
                        assert(le(s[j as int], s[l]));
                    } else if k == j && l > j {
                        assert(le(s[j - 1], s[l]));
                    }
                }
                assert forall|k: int, l: int| 0 <= k < j - 1 < l <= i implies #[trigger] le(t[k], t[l]) by {
                    if l == j {
                        assert(le(s[k], s[j - 1]));
                    } else if l > j {
                        assert(le(s[k], s[l]));
                    }
                }
            }
            j = j - 1;
        }
        i = i + 1;
    }
}

/// Sorts `array` by moving the smallest remaining item to the front, repeatedly.
pub fn selection_sort<T: PartialOrd>(array: &mut [T])
    requires
        total_order::<T>(),
    ensures
        sorted(final(array)@),
        final(array)@.to_multiset() == old(array)@.to_multiset(),
{
    let len = array.len();
    let mut i: usize = 0;
    while i < len
        invariant
            total_order::<T>(),
            i <= len,
            len == array@.len(),
            sorted_between(array@, 0, i as int),
            forall|k: int, l: int| 0 <= k < i <= l < len ==> #[trigger] le(array@[k], array@[l]),
            array@.to_multiset() == old(array)@.to_multiset(),
        decreases len - i,
    {
        let mut min = i;
        let mut j = i;
        while j < len
            invariant
                total_order::<T>(),
                i <= min < len,
                i <= j <= len,
                min <= j,
                len == array@.len(),
                forall|l: int| i <= l < j ==> #[trigger] le(array@[min as int], array@[l]),
            decreases len - j,
        {
            if array[j] < array[min] {
                proof {
                    let s = array@;
                    lemma_le_total(s[j as int], s[min as int]);
                    assert forall|l: int| i <= l < j + 1 implies #[trigger] le(s[j as int], s[l]) by {
                        if l < j {
                            assert(le(s[min as int], s[l]));
                        }
                    }
                }
                min = j;
            } else {
                proof {
                    lemma_le_total(array@[j as int], array@[min as int]);
                    lemma_le_total(array@[min as int], array@[j as int]);
                }
            }
            j = j + 1;
        }
        let ghost s = array@;
        proof {
            lemma_swap_perm(s, min as int, i as int);
            lemma_le_total(s[min as int], s[min as int]);
        }
        swap_items(array, min, i);
        proof {
            let t = array@;
            assert forall|k: int, l: int| 0 <= k < l < i + 1 implies #[trigger] le(t[k], t[l]) by {
                if l == i {
                    assert(le(s[k], s[min as int]));
                }
            }
            assert forall|k: int, l: int| 0 <= k < i + 1 <= l < len implies #[trigger] le(t[k], t[l]) by {
                if k < i {
                    if l == min {
                        assert(le(s[k], s[i as int]));
                    } else {
                        assert(le(s[k], s[l]));
                    }
                } else {
                    if l == min {
                        assert(le(s[min as int], s[i as int]));
                    } else {
                        assert(le(s[min as int], s[l]));
                    }
                }
            }
        }
        i = i + 1;
    }
}

pub proof fn lemma_not_lt<T: PartialOrd>(a: T, b: T)
    requires
        total_order::<T>(),
        a.partial_cmp_spec(&b) != Some(Ordering::Less),
    ensures
        le(b, a),
{
    assert(b.partial_cmp_spec(&a) is Some);
    if b.partial_cmp_spec(&a) == Some(Ordering::Greater) {
        assert(a.partial_cmp_spec(&b) == Some(Ordering::Less));
    }
}

pub proof fn lemma_split_multiset<T>(s: Seq<T>, lo: int, mid: int, hi: int)
    requires
        0 <= lo <= mid <= hi <= s.len(),
    ensures
        s.subrange(lo, hi).to_multiset() == s.subrange(lo, mid).to_multiset().add(s.subrange(mid, hi).to_multiset()),
{
    assert(s.subrange(lo, hi) =~= s.subrange(lo, mid) + s.subrange(mid, hi));
    vstd::seq_lib::lemma_multiset_commutative(s.subrange(lo, mid), s.subrange(mid, hi));
}

/// Sorts `array` by sorting each half and merging them.
pub fn merge_sort<T: PartialOrd + Copy>(array: &mut [T])
    requires
        total_order::<T>(),
    ensures
        sorted(final(array)@),
        final(array)@.to_multiset() == old(array)@.to_multiset(),
{
    let n = array.len();
    sort_range(array, 0, n);
    assert(array@.subrange(0, n as int) =~= array@);
    assert(old(array)@.subrange(0, n as int) =~= old(array)@);
}

/// Sorts `array[lo..hi]`, leaving the rest alone.
fn sort_range<T: PartialOrd + Copy>(array: &mut [T], lo: usize, hi: usize)
    requires
        total_order::<T>(),
        lo <= hi <= old(array)@.len(),
    ensures
        final(array)@.len() == old(array)@.len(),
        forall|k: int| 0 <= k < lo || hi <= k < old(array)@.len() ==> #[trigger] final(array)@[k] == old(array)@[k],
        sorted_between(final(array)@, lo as int, hi as int),
        final(array)@.subrange(lo as int, hi as int).to_multiset() == old(array)@.subrange(lo as int, hi as int).to_multiset(),
    decreases hi - lo,
{
    if hi - lo > 1 {
        let mid = lo + (hi - lo) / 2;
        sort_range(array, lo, mid);
        let ghost s1 = array@;
        sort_range(array, mid, hi);
        let ghost s2 = array@;
        proof {
            assert(s2.subrange(lo as int, mid as int) =~= s1.subrange(lo as int, mid as int));
            assert(s1.subrange(mid as int, hi as int) =~= old(array)@.subrange(mid as int, hi as int));
            lemma_split_multiset(old(array)@, lo as int, mid as int, hi as int);
            lemma_split_multiset(s2, lo as int, mid as int, hi as int);
            assert forall|k: int, l: int| lo <= k < l < mid implies #[trigger] le(s2[k], s2[l]) by {
                assert(s2[k] == s1[k] && s2[l] == s1[l]);
            }
        }
        merge(array, lo, mid, hi);
    }
}

/// Merges the sorted runs `array[lo..mid]` and `array[mid..hi]`.
fn merge<T: PartialOrd + Copy>(array: &mut [T], lo: usize, mid: usize, hi: usize)
    requires
        total_order::<T>(),
        lo <= mid <= hi <= old(array)@.len(),
        sorted_between(old(array)@, lo as int, mid as int),
        sorted_between(old(array)@, mid as int, hi as int),
    ensures
        final(array)@.len() == old(array)@.len(),
        forall|k: int| 0 <= k < lo || hi <= k < old(array)@.len() ==> #[trigger] final(array)@[k] == old(array)@[k],
        sorted_between(final(array)@, lo as int, hi as int),
        final(array)@.subrange(lo as int, hi as int).to_multiset() == old(array)@.subrange(lo as int, hi as int).to_multiset(),
{
    broadcast use vstd::seq_lib::group_to_multiset_ensures;
    broadcast use vstd::multiset::group_multiset_axioms;

    let ghost s0 = array@;
    let mut aux: Vec<T> = Vec::new();
    let mut x: usize = lo;
    while x < hi
        invariant
            lo <= x <= hi <= s0.len(),
            array@ == s0,
            aux@ == s0.subrange(lo as int, x as int),
        decreases hi - x,
    {
        aux.push(array[x]);
        x = x + 1;
        assert(aux@ =~= s0.subrange(lo as int, x as int));
    }
    let ghost a = aux@;
    let mut l: usize = lo;
    let mut r: usize = mid;
    let mut k: usize = lo;
    while k < hi
        invariant
            total_order::<T>(),
            lo <= l <= mid <= r <= hi <= s0.len(),
            k - lo == (l - lo) + (r - mid),
            a == s0.subrange(lo as int, hi as int),
            aux@ == a,
            sorted_between(s0, lo as int, mid as int),
            sorted_between(s0, mid as int, hi as int),
            array@.len() == s0.len(),
            forall|p: int| 0 <= p < lo || hi <= p < s0.len() ==> #[trigger] array@[p] == s0[p],
            sorted_between(array@, lo as int, k as int),
            k > lo && l < mid ==> le(array@[k - 1], s0[l as int]),
            k > lo && r < hi ==> le(array@[k - 1], s0[r as int]),
            array@.subrange(lo as int, k as int).to_multiset()
                == s0.subrange(lo as int, l as int).to_multiset().add(s0.subrange(mid as int, r as int).to_multiset()),
        decreases hi - k,
    {
        let ghost before = array@;
        let take_left = r >= hi || (l < mid && aux[l - lo] < aux[r - lo]);
        let v = if take_left {
            aux[l - lo]
        } else {
            aux[r - lo]
        };
        proof {
            if take_left {
                assert(v == s0[l as int]);
                if r < hi {
                    assert(le(s0[l as int], s0[r as int]));
                }
                if l + 1 < mid {
                    assert(le(s0[l as int], s0[l + 1]));
                }
            } else {
                assert(v == s0[r as int]);
                if l < mid {
                    lemma_not_lt(s0[l as int], s0[r as int]);
                }
                if r + 1 < hi {
                    assert(le(s0[r as int], s0[r + 1]));
                }
            }
        }
        array[k] = v;
        proof {
            let t = array@;
            lemma_le_total(v, v);
            assert forall|p: int, q: int| lo <= p < q < k + 1 implies #[trigger] le(t[p], t[q]) by {
                if q == k && p < k - 1 {
                    assert(le(before[p], before[k - 1]));
                }
            }
            assert(t.subrange(lo as int, k + 1) =~= before.subrange(lo as int, k as int).push(v));
            let ml = s0.subrange(lo as int, l as int).to_multiset();
            let mr = s0.subrange(mid as int, r as int).to_multiset();
            vstd::seq_lib::to_multiset_build(before.subrange(lo as int, k as int), v);
            assert(t.subrange(lo as int, k + 1).to_multiset() == ml.add(mr).insert(v));
            if take_left {
                assert(s0.subrange(lo as int, l + 1) =~= s0.subrange(lo as int, l as int).push(v));
                vstd::seq_lib::to_multiset_build(s0.subrange(lo as int, l as int), v);
                assert(ml.insert(v).add(mr) =~= ml.add(mr).insert(v));
            } else {
                assert(s0.subrange(mid as int, r + 1) =~= s0.subrange(mid as int, r as int).push(v));
                vstd::seq_lib::to_multiset_build(s0.subrange(mid as int, r as int), v);
                assert(ml.add(mr.insert(v)) =~= ml.add(mr).insert(v));
            }
        }
        if take_left {
            l = l + 1;
        } else {
            r = r + 1;
        }
        k = k + 1;
    }
    proof {
        lemma_split_multiset(s0, lo as int, mid as int, hi as int);
    }
}

/// Every item of `s[lo..hi]` is related to `pivot` as `below` says: `le(x, pivot)`
/// when `below`, `le(pivot, x)` otherwise.
pub open spec fn all_on_side<T: PartialOrd>(s: Seq<T>, lo: int, hi: int, pivot: T, below: bool) -> bool {
    forall|k: int| lo <= k < hi ==> if below { le(#[trigger] s[k], pivot) } else { le(pivot, s[k]) }
}

pub proof fn lemma_side_kept<T: PartialOrd>(a: Seq<T>, b: Seq<T>, lo: int, hi: int, pivot: T, below: bool)
    requires
        0 <= lo <= hi <= a.len(),
        hi <= b.len(),
        b.subrange(lo, hi).to_multiset() == a.subrange(lo, hi).to_multiset(),
        all_on_side(a, lo, hi, pivot, below),
    ensures
        all_on_side(b, lo, hi, pivot, below),
{
    broadcast use vstd::seq_lib::group_to_multiset_ensures;

    assert forall|k: int| lo <= k < hi implies (if below { le(#[trigger] b[k], pivot) } else { le(pivot, b[k]) }) by {
        let x = b[k];
        assert(b.subrange(lo, hi)[k - lo] == x);
        assert(b.subrange(lo, hi).contains(x));
        assert(a.subrange(lo, hi).to_multiset().count(x) > 0);
        assert(a.subrange(lo, hi).contains(x));
        let w = choose|w: int| 0 <= w < hi - lo && a.subrange(lo, hi)[w] == x;
        assert(a[lo + w] == x);
    }
}

/// Sorts `array` by partitioning around a pivot and sorting each side.
pub fn quick_sort<T: PartialOrd>(array: &mut [T])
    requires
        total_order::<T>(),
    ensures
        sorted(final(array)@),
        final(array)@.to_multiset() == old(array)@.to_multiset(),
{
    let n = array.len();
    _quick_sort(array, 0, n);
    assert(array@.subrange(0, n as int) =~= array@);
    assert(old(array)@.subrange(0, n as int) =~= old(array)@);
}

/// Sorts `array[lo..hi]`, leaving the rest alone.
fn _quick_sort<T: PartialOrd>(array: &mut [T], lo: usize, hi: usize)
    requires
        total_order::<T>(),
        lo <= hi <= old(array)@.len(),
    ensures
        final(array)@.len() == old(array)@.len(),
        forall|k: int| 0 <= k < lo || hi <= k < old(array)@.len() ==> #[trigger] final(array)@[k] == old(array)@[k],
        sorted_between(final(array)@, lo as int, hi as int),
        final(array)@.subrange(lo as int, hi as int).to_multiset() == old(array)@.subrange(lo as int, hi as int).to_multiset(),
    decreases hi - lo,
{
    if hi - lo <= 1 {
        return;
    }
    let m = partition(array, lo, hi);
    let ghost s1 = array@;
    let ghost pivot = s1[m as int];
    _quick_sort(array, lo, m);
    let ghost s2 = array@;
    _quick_sort(array, m + 1, hi);
    let ghost s3 = array@;
    proof {
        lemma_side_kept(s1, s2, lo as int, m as int, pivot, true);
        assert(s3.subrange(lo as int, m as int) =~= s2.subrange(lo as int, m as int));
        assert(s2.subrange(m + 1, hi as int) =~= s1.subrange(m + 1, hi as int));
        lemma_side_kept(s2, s3, m + 1, hi as int, pivot, false);
        assert(s3[m as int] == pivot);
        lemma_le_total(pivot, pivot);
        assert forall|k: int, l: int| lo <= k < l < hi implies #[trigger] le(s3[k], s3[l]) by {
            if k < m && l < m {
                assert(s3[k] == s2[k] && s3[l] == s2[l]);
            } else if k < m && l == m {
                assert(s3[k] == s2[k]);
            } else if k < m && l > m {
                assert(s3[k] == s2[k]);
                assert(le(s3[k], pivot));
                assert(le(pivot, s3[l]));
            }
        }
        lemma_split_multiset(s1, lo as int, m as int, hi as int);
        lemma_split_multiset(s3, lo as int, m as int, hi as int);
        lemma_split_multiset(s1, m as int, m + 1, hi as int);
        lemma_split_multiset(s3, m as int, m + 1, hi as int);
        assert(s3.subrange(m as int, m + 1) =~= s1.subrange(m as int, m + 1));
    }
}

/// Moves the items of `array[lo..hi]` less than the first one before it, the
/// rest after it, and returns its new position.
fn partition<T: PartialOrd>(array: &mut [T], lo: usize, hi: usize) -> (m: usize)
    requires
        total_order::<T>(),
        lo < hi <= old(array)@.len(),
    ensures
        lo <= m < hi,
        final(array)@[m as int] == old(array)@[lo as int],
        final(array)@.len() == old(array)@.len(),
        forall|k: int| 0 <= k < lo || hi <= k < old(array)@.len() ==> #[trigger] final(array)@[k] == old(array)@[k],
        final(array)@.subrange(lo as int, hi as int).to_multiset() == old(array)@.subrange(lo as int, hi as int).to_multiset(),
        all_on_side(final(array)@, lo as int, m as int, final(array)@[m as int], true),
        all_on_side(final(array)@, m + 1, hi as int, final(array)@[m as int], false),
{
    let ghost s0 = array@;
    let mut i = lo;
    let mut j = lo + 1;
    while j < hi
        invariant
            total_order::<T>(),
            lo <= i < j <= hi <= s0.len(),
            array@.len() == s0.len(),
            array@[lo as int] == s0[lo as int],
            forall|k: int| 0 <= k < lo || hi <= k < s0.len() ==> #[trigger] array@[k] == s0[k],
            array@.subrange(lo as int, hi as int).to_multiset() == s0.subrange(lo as int, hi as int).to_multiset(),
            all_on_side(array@, lo + 1, i + 1, s0[lo as int], true),
            all_on_side(array@, i + 1, j as int, s0[lo as int], false),
        decreases hi - j,
    {
        let ghost before = array@;
        if array[j] < array[lo] {
            i = i + 1;
            proof {
                lemma_swap_perm(before.subrange(lo as int, hi as int), i - lo, j - lo);
                assert(before.update(i as int, before[j as int]).update(j as int, before[i as int]).subrange(lo as int, hi as int)
                    =~= before.subrange(lo as int, hi as int).update(i - lo, before[j as int]).update(j - lo, before[i as int]));
                lemma_le_total(before[j as int], s0[lo as int]);
                assert(le(before[j as int], s0[lo as int]));
            }
            swap_items(array, i, j);
        } else {
            proof {
                lemma_not_lt(before[j as int], s0[lo as int]);
            }
        }
        j = j + 1;
    }
    let ghost before = array@;
    let ghost p = s0[lo as int];
    proof {
        lemma_swap_perm(before.subrange(lo as int, hi as int), 0, i - lo);
        assert(before.update(lo as int, before[i as int]).update(i as int, before[lo as int]).subrange(lo as int, hi as int)
            =~= before.subrange(lo as int, hi as int).update(0, before[i as int]).update(i - lo, before[lo as int]));
    }
    swap_items(array, lo, i);
    proof {
        let t = array@;
        assert(t[i as int] == p);
        assert forall|k: int| lo <= k < i implies le(#[trigger] t[k], p) by {
            if k == lo {
                if i > lo {
                    assert(t[k] == before[i as int]);
                }
            } else {
                assert(t[k] == before[k]);
            }
        }
        assert forall|k: int| i + 1 <= k < hi implies le(p, #[trigger] t[k]) by {
            assert(t[k] == before[k]);
        }
    }
    i
}

} // verus!
