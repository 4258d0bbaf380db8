//! Picking the nearest of several ray hits.
//!
//! A hit is ranked by a key: its squared distance from the ray origin in any
//! encoding whose integer order is the order of the distances. For
//! non-negative floating-point distances the IEEE-754 bit pattern is such an
//! encoding.

use vstd::prelude::*;

verus! {

/// `keys[i]` is a hit no farther than any other hit, and strictly nearer than
/// every hit before it: the first of the nearest hits.
pub open spec fn is_closest(keys: Seq<Option<u64>>, i: int) -> bool {
    &&& 0 <= i < keys.len()
    &&& keys[i] is Some
    &&& forall|j: int| 0 <= j < keys.len() && keys[j] is Some ==> keys[i]->0 <= keys[j]->0
    &&& forall|j: int| 0 <= j < i && keys[j] is Some ==> keys[i]->0 < keys[j]->0
}

/// Whether no entry of `keys` is a hit.
pub open spec fn no_hit(keys: Seq<Option<u64>>) -> bool {
    forall|j: int| 0 <= j < keys.len() ==> keys[j] is None
}

/// The index of the nearest hit among `keys` (`None` marks a miss); among
/// equally near hits the first one wins.
pub fn closest_hit(keys: &Vec<Option<u64>>) -> (r: Option<usize>)
    ensures
        r is None <==> no_hit(keys@),
        r matches Some(i) ==> is_closest(keys@, i as int),
{
    let mut best: Option<usize> = None;
    let mut i: usize = 0;
    while i < keys.len()
        invariant
            0 <= i <= keys.len(),
            best is None <==> no_hit(keys@.subrange(0, i as int)),
            best matches Some(b) ==> is_closest(keys@.subrange(0, i as int), b as int),
        decreases keys.len() - i,
    {
        if let Some(k) = keys[i] {
            match best {
                None => {
                    best = Some(i);
                },
                Some(b) => {
                    if k < keys[b].unwrap() {
                        best = Some(i);
                    }
                },
            }
        }
        proof {
            let prev = keys@.subrange(0, i as int);
            let next = keys@.subrange(0, i + 1);
            assert(forall|j: int| 0 <= j < i ==> next[j] == prev[j]);
            assert(next[i as int] == keys@[i as int]);
        }
        i += 1;
    }
    assert(keys@.subrange(0, keys.len() as int) =~= keys@);
    best
}

} // verus!
