//! Things on the canvas that belong to a peer, such as the sprite that
//! shows where that peer is.

use vstd::prelude::*;

verus! {

/// Marks something as belonging to the peer named `owner`.
pub struct NetworkOwned {
    pub owner: String,
}

impl NetworkOwned {
    /// Whether this belongs to the peer named `peer`.
    pub fn is_owned_by(&self, peer: &String) -> (r: bool)
        ensures
            r == (self.owner@ == peer@),
    {
        self.owner == *peer
    }
}

/// The positions, in order, of the things that belong to the peer named
/// `from`: those that a state update sent by that peer moves.
pub fn owned_by(items: &Vec<NetworkOwned>, from: &String) -> (r: Vec<usize>)
    ensures
        forall|k: int| 0 <= k < r@.len() ==> #[trigger] r@[k] < items@.len(),
        forall|k: int, l: int| 0 <= k < l < r@.len() ==> r@[k] < r@[l],
        forall|i: int|
            0 <= i < items@.len() ==> (items@[i].owner@ == from@ <==> r@.contains(i as usize)),
{
    let mut r: Vec<usize> = Vec::new();
    let mut i: usize = 0;
    while i < items.len()
        invariant
            i <= items@.len(),
            forall|k: int| 0 <= k < r@.len() ==> #[trigger] r@[k] < i,
            forall|k: int, l: int| 0 <= k < l < r@.len() ==> r@[k] < r@[l],
            forall|j: int| 0 <= j < i ==> (items@[j].owner@ == from@ <==> r@.contains(j as usize)),
        decreases items.len() - i,
    {
        if items[i].is_owned_by(from) {
            let ghost before = r@;
            r.push(i);
            assert forall|j: int| 0 <= j < i implies (items@[j].owner@ == from@ <==> r@.contains(
                j as usize,
            )) by {
                if before.contains(j as usize) {
                    let k = choose|k: int| 0 <= k < before.len() && before[k] == j as usize;
                    assert(r@[k] == j as usize);
                }
                if r@.contains(j as usize) {
                    let k = choose|k: int| 0 <= k < r@.len() && r@[k] == j as usize;
                    if k < before.len() {
                        assert(before[k] == j as usize);
                    }
                }
            }
            assert(r@[r@.len() - 1] == i);
        } else {
            assert forall|j: int| 0 <= j <= i implies (items@[j].owner@ == from@ <==> r@.contains(
                j as usize,
            )) by {
                if j == i {
                    if r@.contains(j as usize) {
                        let k = choose|k: int| 0 <= k < r@.len() && r@[k] == j as usize;
                        assert(r@[k] < i);
                    }
                }
            }
        }
        i = i + 1;
    }
    r
}

} // verus!
