//! The range validator and range index: lock ranges must fit the user
//! region, and ranges that protect memory must not overlap one another.
//!
//! The index is a linear scan over the declared locks. For the small number
//! of locks a region carries, this is equivalent to an interval tree over
//! the same ranges, and it reports the lowest index of an existing lock that
//! the incoming range intersects, which the overlap diagnostic needs.

use vstd::prelude::*;

use crate::kinds::GenericLock;
use crate::layout::{lock_geom_eq, locks_geom_eq};

verus! {

/// A lock range is acceptable for a user region of `map_size` bytes: either
/// it protects nothing and sits at offset 0, or it lies entirely inside the
/// region.
pub open spec fn lock_range_valid_spec(map_size: usize, offset: usize, length: usize) -> bool {
    if length == 0 {
        offset == 0
    } else {
        offset + length <= map_size
    }
}

/// The half-open byte ranges `[a_off, a_off + a_len)` and
/// `[b_off, b_off + b_len)` do not intersect.
pub open spec fn ranges_disjoint_spec(
    a_off: usize,
    a_len: usize,
    b_off: usize,
    b_len: usize,
) -> bool {
    a_off + a_len <= b_off || b_off + b_len <= a_off
}

/// The byte ranges of two locks do not intersect.
pub open spec fn locks_disjoint_spec(a: GenericLock, b: GenericLock) -> bool {
    ranges_disjoint_spec(a.offset, a.length, b.offset, b.length)
}

/// Every lock fits the user region and the ranges of locks that protect
/// memory are pairwise disjoint.
pub open spec fn locks_wf(map_size: usize, locks: Seq<GenericLock>) -> bool {
    &&& forall|i: int|
        0 <= i < locks.len() ==> lock_range_valid_spec(
            map_size,
            (#[trigger] locks[i]).offset,
            locks[i].length,
        )
    &&& forall|i: int, j: int|
        #![trigger locks[i], locks[j]]
        0 <= i < j < locks.len() && locks[i].length > 0 && locks[j].length > 0
            ==> locks_disjoint_spec(locks[i], locks[j])
}

/// Looks for an already-declared lock whose range intersects the incoming
/// range `[offset, offset + length)`, and reports the first one's index so
/// that the overlap error can name it.
pub fn find_overlapping(locks: &Vec<GenericLock>, offset: usize, length: usize) -> (r: Option<
    usize,
>)
    requires
        length > 0,
        offset + length <= usize::MAX,
        forall|k: int|
            0 <= k < locks@.len() ==> (#[trigger] locks@[k]).offset + locks@[k].length
                <= usize::MAX,
    ensures
        match r {
            Some(idx) => {
                &&& idx < locks@.len()
                &&& locks@[idx as int].length > 0
                &&& !ranges_disjoint_spec(
                    locks@[idx as int].offset,
                    locks@[idx as int].length,
                    offset,
                    length,
                )
            },
            None => forall|k: int|
                0 <= k < locks@.len() && (#[trigger] locks@[k]).length > 0 ==> ranges_disjoint_spec(
                    locks@[k].offset,
                    locks@[k].length,
                    offset,
                    length,
                ),
        },
{
    let mut j: usize = 0;
    while j < locks.len()
        invariant
            j <= locks.len(),
            offset + length <= usize::MAX,
            forall|k: int|
                0 <= k < locks@.len() ==> (#[trigger] locks@[k]).offset + locks@[k].length
                    <= usize::MAX,
            forall|k: int|
                0 <= k < j && (#[trigger] locks@[k]).length > 0 ==> ranges_disjoint_spec(
                    locks@[k].offset,
                    locks@[k].length,
                    offset,
                    length,
                ),
        decreases locks.len() - j,
    {
        let l = locks[j];
        if l.length > 0 && l.offset < offset + length && offset < l.offset + l.length {
            return Some(j);
        }
        j = j + 1;
    }
    None
}

/// Validity and disjointness depend only on the locks' kinds and ranges.
pub proof fn lemma_locks_wf_geom(map_size: usize, a: Seq<GenericLock>, b: Seq<GenericLock>)
    requires
        locks_wf(map_size, a),
        locks_geom_eq(b, a),
    ensures
        locks_wf(map_size, b),
{
    assert forall|i: int|
        0 <= i < b.len() implies lock_range_valid_spec(
        map_size,
        (#[trigger] b[i]).offset,
        b[i].length,
    ) by {
        assert(lock_geom_eq(b[i], a[i]));
    }
    assert forall|i: int, j: int|
        #![trigger b[i], b[j]]
        0 <= i < j < b.len() && b[i].length > 0 && b[j].length > 0 implies locks_disjoint_spec(
        b[i],
        b[j],
    ) by {
        assert(lock_geom_eq(b[i], a[i]));
        assert(lock_geom_eq(b[j], a[j]));
    }
}

} // verus!
