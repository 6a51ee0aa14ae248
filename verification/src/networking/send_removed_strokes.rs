//! Which stroke removals are sent to peers.

use vstd::prelude::*;

use crate::active_strokes::active_stroke::RemoveStrokeEvent;
use crate::networking::packets::stroke_removed::StrokeRemovedPacket;

verus! {

/// The packets for a batch of removals: one per removal asked here, in
/// order, up to the first removal that a peer asked for (which ends the
/// batch).
pub open spec fn removal_packets_spec(events: Seq<RemoveStrokeEvent>) -> Seq<StrokeRemovedPacket>
    decreases events.len(),
{
    if events.len() == 0 || events[0].owner is Some {
        Seq::empty()
    } else {
        seq![StrokeRemovedPacket { timestamp: events[0].timestamp, id_random: events[0].id_random }]
            + removal_packets_spec(events.skip(1))
    }
}

/// The packets to send for a batch of removals.
pub fn removal_packets(events: &Vec<RemoveStrokeEvent>) -> (r: Vec<StrokeRemovedPacket>)
    ensures
        r@ == removal_packets_spec(events@),
{
    let mut out: Vec<StrokeRemovedPacket> = Vec::new();
    let mut i: usize = 0;
    assert(events@.skip(0) =~= events@);
    assert(out@ + removal_packets_spec(events@.skip(0)) =~= removal_packets_spec(events@));
    while i < events.len()
        invariant
            i <= events@.len(),
            out@ + removal_packets_spec(events@.skip(i as int)) == removal_packets_spec(events@),
        decreases events.len() - i,
    {
        let ghost rest = events@.skip(i as int);
        if events[i].owner.is_some() {
            return out;
        }
        out.push(StrokeRemovedPacket { timestamp: events[i].timestamp, id_random: events[i].id_random });
        assert(rest.skip(1) =~= events@.skip(i + 1));
        i = i + 1;
        assert(out@ + removal_packets_spec(events@.skip(i as int)) =~= removal_packets_spec(events@));
    }
    assert(out@ + removal_packets_spec(events@.skip(i as int)) =~= out@);
    out
}

} // verus!
