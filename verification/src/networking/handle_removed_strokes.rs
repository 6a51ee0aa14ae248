//! Removals asked for by peers.

use vstd::prelude::*;

use crate::active_strokes::active_stroke::RemoveStrokeEvent;
use crate::networking::packets::stroke_removed::StrokeRemovedPacket;

verus! {

/// The removal that a removal packet from the peer `from` asks for.
pub fn remove_event_for(packet: &StrokeRemovedPacket, from: &String) -> (e: RemoveStrokeEvent)
    ensures
        e.timestamp == packet.timestamp,
        e.id_random == packet.id_random,
        e.owner matches Some(o) && o@ == from@,
{
    RemoveStrokeEvent {
        timestamp: packet.timestamp,
        id_random: packet.id_random,
        owner: Some(from.clone()),
    }
}

} // verus!
