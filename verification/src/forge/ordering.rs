//! Order by `Ord`: what ascending order is, and std's sort and binary
//! search of a vector.

use vstd::prelude::*;
use vstd::laws_cmp::obeys_cmp;
use vstd::std_specs::cmp::OrdSpec;
use core::cmp::Ordering;

verus! {

/// Whether the elements stand in ascending order by `Ord`: no element
/// comes after a greater one.
pub open spec fn ascending<T: Ord>(s: Seq<T>) -> bool {
    forall|i: int, j: int| 0 <= i < j < s.len() ==> s[i].cmp_spec(&s[j]) != Ordering::Greater
}

/// Whether `Ord` on the type is a total order that agrees with its `==`
/// and `PartialOrd`, as vstd's laws put it.
pub open spec fn total_order<T: Ord>() -> bool {
    obeys_cmp::<T>()
}

/// An index as an integer.
pub open spec fn index_of(i: usize) -> int {
    i as int
}

/// Whether the element at `i` is equal by `Ord` to `x`.
pub open spec fn found_at<T: Ord>(s: Seq<T>, x: T, i: usize) -> bool {
    i < s.len() && s[index_of(i)].cmp_spec(&x) == Ordering::Equal
}

/// Whether `x` belongs at `i`: every element before is less than it, every
/// element from there on greater.
pub open spec fn belongs_at<T: Ord>(s: Seq<T>, x: T, i: usize) -> bool {
    &&& i <= s.len()
    &&& forall|j: int| 0 <= j < index_of(i) ==> s[j].cmp_spec(&x) == Ordering::Less
    &&& forall|j: int| index_of(i) <= j < s.len() ==> s[j].cmp_spec(&x) == Ordering::Greater
}

/// std's `slice::sort`: the same elements in ascending order. It is
/// called only for an `Ord` that is a total order, as std asks (a sort may
/// panic on an order that is not).
#[verifier::external_body]
pub(crate) fn vec_sort<T: Ord>(v: &mut Vec<T>)
    requires
        total_order::<T>(),
    ensures
        final(v)@.to_multiset() == old(v)@.to_multiset(),
        ascending(final(v)@),
{
    v.sort()
}

/// std's `slice::binary_search`: on elements in ascending order, the index
/// of an element equal to `x` (any one, when several are), or else the
/// index where `x` belongs. On elements in another order the result is
/// left open, as std leaves it.
#[verifier::external_body]
pub(crate) fn vec_binary_search<T: Ord>(v: &Vec<T>, x: &T) -> (r: Result<usize, usize>)
    ensures
        total_order::<T>() && ascending(v@) ==> match r {
            Ok(i) => found_at(v@, *x, i),
            Err(i) => belongs_at(v@, *x, i),
        },
{
    v.binary_search(x)
}

} // verus!
