//! Locating the onset of emergence along a sweep of coupling strengths.

use vstd::prelude::*;

verus! {

/// Index of the first sample of a coupling sweep that is emergent, given
/// whether each sample is; `None` when no sample is. The critical coupling
/// strength is the strength of that sample.
pub fn first_emergent_index(emergent: &[bool]) -> (first: Option<usize>)
    ensures
        match first {
            Some(k) => {
                &&& k < emergent.len()
                &&& emergent[k as int]
                &&& forall|j: int| 0 <= j < k ==> !emergent[j]
            },
            None => forall|j: int| 0 <= j < emergent.len() ==> !emergent[j],
        },
{
    let mut k: usize = 0;
    while k < emergent.len()
        invariant
            k <= emergent.len(),
            forall|j: int| 0 <= j < k ==> !emergent[j],
        decreases emergent.len() - k,
    {
        if emergent[k] {
            return Some(k);
        }
        k = k + 1;
    }
    None
}

/// The sample points of a sweep of coupling strength from 0 to 1 in `steps`
/// equal steps: sample `k` is at strength `k / steps`, and this returns the
/// numerators `0, 1, ..., steps` in order: the sweep starts at strength 0,
/// ends at strength `steps / steps` (1 when `steps >= 1`) and rises strictly.
pub fn sweep_points(steps: usize) -> (points: Vec<usize>)
    requires
        steps < usize::MAX,
    ensures
        points@.len() == steps + 1,
        forall|k: int| 0 <= k <= steps ==> points@[k] == k,
        points@[0] == 0,
        points@[steps as int] == steps,
        forall|k1: int, k2: int| 0 <= k1 < k2 <= steps ==> points@[k1] < points@[k2],
{
    let mut points: Vec<usize> = Vec::new();
    let mut k: usize = 0;
    while k <= steps
        invariant
            k <= steps + 1,
            steps < usize::MAX,
            points@.len() == k,
            forall|j: int| 0 <= j < k ==> points@[j] == j,
        decreases steps + 1 - k,
    {
        points.push(k);
        k = k + 1;
    }
    points
}

} // verus!
