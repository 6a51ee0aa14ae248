//! Points of strokes being drawn by peers.

use vstd::prelude::*;

use crate::active_strokes::active_stroke::{NewPointData, NewPointModel};
use crate::networking::packets::new_point::NewPointPacketData;

verus! {

/// The point that a new-point packet from the peer `from` carries, owned by
/// that peer.
pub fn point_from_peer(packet: &NewPointPacketData, from: &String) -> (d: NewPointData)
    ensures
        d@ == (NewPointModel { owner: Some(from@), ..packet.data@ }),
{
    let mut data = packet.data.duplicate();
    data.owner = Some(from.clone());
    data
}

} // verus!
