//! What is sent to peers about the strokes being drawn here.

use vstd::prelude::*;

use crate::active_strokes::active_stroke::{ActiveStroke, NewPointData};
use crate::networking::packets::new_point::NewPointPacketData;
use crate::networking::packets::stroke_complete::StrokeCompleteData;
use crate::stroke::{
    Stroke, StrokeData, StrokeDataModel, StrokeMetadata, StrokeMetadataModel, StrokeModel,
    StrokeType,
};

verus! {

/// The packet for a new point, unless the point came from a peer (it has an
/// owner).
pub fn point_packet(d: &NewPointData) -> (r: Option<NewPointPacketData>)
    ensures
        d.owner is Some ==> r is None,
        d.owner is None ==> (r matches Some(p) && p.data@ == d@),
{
    if d.owner.is_some() {
        return None;
    }
    Some(NewPointPacketData { data: d.duplicate() })
}

/// The stroke sent to peers when an active stroke is finished: no owner, and
/// all its pressures.
pub open spec fn sent_stroke(s: ActiveStroke) -> StrokeModel {
    StrokeModel {
        metadata: StrokeMetadataModel {
            timestamp: s.timestamp,
            id_random: s.id_random,
            owner: None,
            origin: s.stroke_origin,
        },
        data: StrokeDataModel {
            stroke_type: StrokeType::Paint(s.color),
            width: s.width,
            points: s.points@,
            pressures: Some(s.pressures@),
        },
    }
}

/// The finished-stroke packet for an active stroke.
pub fn complete_packet(s: &ActiveStroke) -> (p: StrokeCompleteData)
    ensures
        p.data@ == sent_stroke(*s),
        p.data.data.points@ == s.points@,
        p.data.metadata.origin == s.stroke_origin,
{
    StrokeCompleteData {
        data: Stroke {
            metadata: StrokeMetadata {
                id_random: s.id_random,
                timestamp: s.timestamp,
                owner: None,
                origin: s.stroke_origin,
            },
            data: StrokeData {
                stroke_type: StrokeType::Paint(s.color),
                width: s.width,
                points: s.points.clone(),
                pressures: Some(s.pressures.clone()),
            },
        },
    }
}

/// The stroke sent to peers when an active stroke is finished is that
/// stroke as drawn: its time, tag and origin, no owner, its colour and width,
/// exactly its points, and all its pressures.
pub proof fn law_sent_stroke_is_what_was_drawn(s: ActiveStroke)
    ensures
        sent_stroke(s).metadata.timestamp == s.timestamp,
        sent_stroke(s).metadata.id_random == s.id_random,
        sent_stroke(s).metadata.origin == s.stroke_origin,
        sent_stroke(s).metadata.owner is None,
        sent_stroke(s).data.stroke_type == StrokeType::Paint(s.color),
        sent_stroke(s).data.width == s.width,
        sent_stroke(s).data.points == s.points@,
        sent_stroke(s).data.pressures == Some(s.pressures@),
{
}

} // verus!
