//! Binary search in a sorted slice.
use vstd::prelude::*;
use vstd::std_specs::cmp::PartialOrdSpec;
use core::cmp::Ordering;
use crate::sorting::{le, lemma_le_total, sorted, total_order};

verus! {

/// `a` and `b` are in the same place of `T`'s order.
pub open spec fn same_rank<T: PartialOrd>(a: T, b: T) -> bool {
    le(a, b) && le(b, a)
}

/// Finds a position of `key` in the sorted `array`.
pub fn search<T: PartialOrd>(key: T, array: &[T]) -> (r: Option<usize>)
    requires
        total_order::<T>(),
        sorted(array@),
    ensures
        r matches Some(i) ==> i < array@.len() && same_rank(array@[i as int], key),
        r is None ==> forall|i: int| 0 <= i < array@.len() ==> !same_rank(#[trigger] array@[i], key),
{
    let mut low: usize = 0;
    let mut high: usize = array.len();
    while low < high
        invariant
            total_order::<T>(),
            sorted(array@),
            low <= high <= array@.len(),
            forall|i: int| 0 <= i < low ==> !same_rank(#[trigger] array@[i], key),
            forall|i: int| high <= i < array@.len() ==> !same_rank(#[trigger] array@[i], key),
        decreases high - low,
    {
        let middle = low + (high - low) / 2;
        if key < array[middle] {
            proof {
                let s = array@;
                assert(key.partial_cmp_spec(&s[middle as int]) == Some(Ordering::Less));
                assert(s[middle as int].partial_cmp_spec(&key) == Some(Ordering::Greater));
                assert forall|i: int| middle <= i < s.len() implies !same_rank(#[trigger] s[i], key) by {
                    if i > middle && le(s[i], key) {
                        assert(le(s[middle as int], s[i]));
                        assert(le(s[middle as int], key));
                    }
                }
            }
            high = middle;
        } else if key > array[middle] {
            proof {
                let s = array@;
                assert(key.partial_cmp_spec(&s[middle as int]) == Some(Ordering::Greater));
                assert(!le(key, s[middle as int]));
                assert forall|i: int| 0 <= i <= middle implies !same_rank(#[trigger] s[i], key) by {
                    if i < middle && le(key, s[i]) {
                        assert(le(s[i], s[middle as int]));
                        assert(le(key, s[middle as int]));
                    }
                }
            }
            low = middle + 1;
        } else {
            proof {
                let s = array@;
                assert(key.partial_cmp_spec(&s[middle as int]) is Some);
                lemma_le_total(key, s[middle as int]);
                assert(s[middle as int].partial_cmp_spec(&key) is Some);
                if s[middle as int].partial_cmp_spec(&key) == Some(Ordering::Greater) {
                    assert(key.partial_cmp_spec(&s[middle as int]) == Some(Ordering::Less));
                }
                if key.partial_cmp_spec(&s[middle as int]) == Some(Ordering::Greater) {
                    assert(s[middle as int].partial_cmp_spec(&key) == Some(Ordering::Less));
                }
            }
            return Some(middle);
        }
    }
    None
}

} // verus!
