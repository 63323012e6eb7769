//! Which object a ray meets first.
//!
//! A ray is tested against every object of the scene. Each test either misses or yields a
//! squared distance from the ray's origin, as a binary32 bit pattern. The nearest hit is
//! the one with the smallest distance; of several at the same distance, the object that
//! stands first in the scene.

use vstd::prelude::*;
use crate::binary32::{less, less_than, INFINITY};

verus! {

/// Whether a test reached its object at a distance that can win: one below infinity. A
/// distance that is infinite or not a number never wins, and neither does a miss.
pub open spec fn in_reach(measured: Option<u32>) -> bool {
    measured matches Some(d) && less(d, INFINITY)
}

/// Whether `i` is an object of the scene that the ray reaches.
pub open spec fn reachable(distances: Seq<Option<u32>>, i: int) -> bool {
    0 <= i < distances.len() && in_reach(distances[i])
}

/// Whether object `i` is the nearest hit: it is reachable, no reachable object is
/// strictly nearer, and every reachable object before it is strictly farther.
pub open spec fn is_nearest(distances: Seq<Option<u32>>, i: int) -> bool {
    &&& reachable(distances, i)
    &&& forall|j: int|
        #![trigger distances[j]]
        #![trigger reachable(distances, j)]
        reachable(distances, j) ==> !less(distances[j].unwrap(), distances[i].unwrap())
    &&& forall|j: int|
        #![trigger distances[j]]
        #![trigger reachable(distances, j)]
        0 <= j < i && reachable(distances, j) ==> less(
            distances[i].unwrap(),
            distances[j].unwrap(),
        )
}

/// The index of the nearest hit, if the ray reaches anything.
pub open spec fn nearest(distances: Seq<Option<u32>>) -> Option<int> {
    if exists|i: int| is_nearest(distances, i) {
        Some(choose|i: int| is_nearest(distances, i))
    } else {
        None
    }
}

/// At most one object is the nearest hit.
pub proof fn lemma_nearest_is_unique(distances: Seq<Option<u32>>, i: int, j: int)
    requires
        is_nearest(distances, i),
        is_nearest(distances, j),
    ensures
        i == j,
{
    if i < j {
        assert(reachable(distances, i));
    } else if j < i {
        assert(reachable(distances, j));
    }
}

/// Scans the whole scene and returns the index of the nearest hit.
///
/// The scan keeps the best distance so far, starting from infinity, and replaces it only
/// by a strictly smaller one. So an earlier object keeps its place against a later one at
/// the same distance.
pub fn nearest_hit(distances: &[Option<u32>]) -> (hit: Option<usize>)
    ensures
        hit matches Some(i) ==> is_nearest(distances@, i as int),
        hit is None <==> forall|j: int|
            0 <= j < distances@.len() ==> !in_reach(#[trigger] distances@[j]),
        match hit {
            Some(i) => nearest(distances@) == Some(i as int),
            None => nearest(distances@) is None,
        },
{
    let mut best: u32 = INFINITY;
    let mut hit: Option<usize> = None;
    let mut k: usize = 0;
    while k < distances.len()
        invariant
            k <= distances.len(),
            hit is None ==> best == INFINITY,
            hit is None ==> forall|j: int| 0 <= j < k ==> !in_reach(#[trigger] distances@[j]),
            hit matches Some(i) ==> {
                &&& i < k
                &&& reachable(distances@, i as int)
                &&& distances@[i as int] == Some(best)
                &&& forall|j: int|
                    0 <= j < k && reachable(distances@, j) ==> !less(
                        (#[trigger] distances@[j]).unwrap(),
                        best,
                    )
                &&& forall|j: int|
                    0 <= j < i && reachable(distances@, j) ==> less(
                        best,
                        (#[trigger] distances@[j]).unwrap(),
                    )
            },
        decreases distances.len() - k,
    {
        match distances[k] {
            Some(d) => {
                if less_than(d, best) {
                    best = d;
                    hit = Some(k);
                }
            },
            None => {},
        }
        k += 1;
    }
    proof {
        match hit {
            Some(i) => {
                assert(is_nearest(distances@, i as int));
                lemma_nearest_is_unique(
                    distances@,
                    i as int,
                    choose|n: int| is_nearest(distances@, n),
                );
            },
            None => {
                assert forall|n: int| !is_nearest(distances@, n) by {
                    if is_nearest(distances@, n) {
                        assert(reachable(distances@, n));
                    }
                }
            },
        }
    }
    hit
}

} // verus!
