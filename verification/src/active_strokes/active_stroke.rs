//! The events of strokes that are still being drawn.

use vstd::prelude::*;

use crate::float_bits::{f32_bits_eq, f32_eq, f64_bits_eq, f64_eq};
use crate::stroke::{
    Rgb8, Stroke, StrokeData, StrokeDataModel, StrokeMetadata, StrokeMetadataModel, StrokeModel,
    StrokeSource, StrokeType, Vec2Bits, clone_owner, owner_view,
};

verus! {

/// One more point of a stroke being drawn. Times are bits of an `f64`, the
/// other numbers bits of an `f32`.
pub struct NewPointData {
    pub timestamp: u64,
    pub id_random: u32,
    pub stroke_origin: Vec2Bits,
    pub point: Vec2Bits,
    pub width: u32,
    pub pressure: u32,
    pub color: Rgb8,
    pub owner: Option<String>,
    pub source: StrokeSource,
}

/// The mathematical value of a [`NewPointData`].
#[verifier::ext_equal]
pub struct NewPointModel {
    pub timestamp: u64,
    pub id_random: u32,
    pub stroke_origin: Vec2Bits,
    pub point: Vec2Bits,
    pub width: u32,
    pub pressure: u32,
    pub color: Rgb8,
    pub owner: Option<Seq<char>>,
    pub source: StrokeSource,
}

impl View for NewPointData {
    type V = NewPointModel;

    open spec fn view(&self) -> NewPointModel {
        NewPointModel {
            timestamp: self.timestamp,
            id_random: self.id_random,
            stroke_origin: self.stroke_origin,
            point: self.point,
            width: self.width,
            pressure: self.pressure,
            color: self.color,
            owner: owner_view(self.owner),
            source: self.source,
        }
    }
}

/// A stroke that is complete (or is to be dropped), named by its time and tag.
pub struct StrokeFinishedData {
    pub timestamp: u64,
    pub id_random: u32,
    pub stroke_origin: Vec2Bits,
    pub owner: Option<String>,
    pub source: StrokeSource,
}

/// What happens to a stroke being drawn.
pub enum ActiveStrokeEvent {
    NewPoint(NewPointData),
    StrokeFinished(StrokeFinishedData),
    DeleteActiveStroke(StrokeFinishedData),
}

/// A request to remove a stroke, named by its time and tag; the owner is the
/// peer that asked, none when asked here.
pub struct RemoveStrokeEvent {
    pub timestamp: u64,
    pub id_random: u32,
    pub owner: Option<String>,
}

impl NewPointData {
    /// A copy.
    pub fn duplicate(&self) -> (d: NewPointData)
        ensures
            d@ == self@,
    {
        NewPointData {
            timestamp: self.timestamp,
            id_random: self.id_random,
            stroke_origin: self.stroke_origin,
            point: self.point,
            width: self.width,
            pressure: self.pressure,
            color: self.color,
            owner: clone_owner(&self.owner),
            source: self.source,
        }
    }
}

/// Whether a time and tag name the same stroke as another time and tag: the
/// times are equal as `f64` and the tags are equal.
pub open spec fn names_same_stroke(ts_a: u64, id_a: u32, ts_b: u64, id_b: u32) -> bool {
    f64_bits_eq(ts_a, ts_b) && id_a == id_b
}

/// Whether some pressure differs (as an `f32`) from the one before it.
pub open spec fn pressure_varies(p: Seq<u32>) -> bool {
    exists|i: int| 1 <= i < p.len() && !f32_bits_eq(#[trigger] p[i - 1], p[i])
}

/// Whether some pressure differs from the one before it.
pub fn pressure_changes(p: &Vec<u32>) -> (r: bool)
    ensures
        r == pressure_varies(p@),
{
    let mut i: usize = 1;
    while i < p.len()
        invariant
            1 <= i,
            i <= p@.len() || p@.len() == 0,
            forall|k: int| 1 <= k < i && k < p@.len() ==> f32_bits_eq(#[trigger] p@[k - 1], p@[k]),
        decreases p.len() - i,
    {
        if !f32_eq(p[i - 1], p[i]) {
            assert(!f32_bits_eq(p@[i - 1], p@[i as int]));
            return true;
        }
        i = i + 1;
    }
    false
}

/// A stroke being drawn: who and when, its colour and width, the points so
/// far (relative to the origin) with their pressures, and whether it has
/// been handed to storage.
pub struct ActiveStroke {
    pub timestamp: u64,
    pub id_random: u32,
    pub stroke_origin: Vec2Bits,
    pub color: Rgb8,
    pub width: u32,
    pub points: Vec<Vec2Bits>,
    pub pressures: Vec<u32>,
    pub is_submitted_to_database: bool,
}

/// The stroke that a finished active stroke is stored as.
pub open spec fn finished_stroke(
    s: ActiveStroke,
    timestamp: u64,
    id_random: u32,
    origin: Vec2Bits,
    owner: Option<Seq<char>>,
) -> StrokeModel {
    StrokeModel {
        metadata: StrokeMetadataModel {
            timestamp: timestamp,
            id_random: id_random,
            owner: owner,
            origin: origin,
        },
        data: StrokeDataModel {
            stroke_type: StrokeType::Paint(s.color),
            width: s.width,
            points: s.points@,
            pressures: if pressure_varies(s.pressures@) {
                Some(s.pressures@)
            } else {
                None
            },
        },
    }
}

/// The stroke stored when an active stroke is finished is placed and named
/// by the finish and drawn as the active stroke was: its time, tag, origin
/// and owner are those that the finish gives, its colour, width and points
/// those of the active stroke, and its pressures are kept exactly when they
/// vary.
pub proof fn law_finished_stroke_is_what_was_drawn(a: ActiveStroke, data: StrokeFinishedData)
    ensures
        ({
            let m = finished_stroke(
                a,
                data.timestamp,
                data.id_random,
                data.stroke_origin,
                owner_view(data.owner),
            );
            &&& m.metadata.timestamp == data.timestamp
            &&& m.metadata.id_random == data.id_random
            &&& m.metadata.origin == data.stroke_origin
            &&& m.metadata.owner == owner_view(data.owner)
            &&& m.data.stroke_type == StrokeType::Paint(a.color)
            &&& m.data.width == a.width
            &&& m.data.points == a.points@
            &&& pressure_varies(a.pressures@) ==> m.data.pressures == Some(a.pressures@)
            &&& !pressure_varies(a.pressures@) ==> m.data.pressures is None
        }),
{
}

impl ActiveStroke {
    /// The active stroke that the first point of a stroke starts: no points
    /// yet.
    pub fn from_new_point(d: &NewPointData) -> (s: ActiveStroke)
        ensures
            s.timestamp == d.timestamp,
            s.id_random == d.id_random,
            s.stroke_origin == d.stroke_origin,
            s.color == d.color,
            s.width == d.width,
            s.points@ == Seq::<Vec2Bits>::empty(),
            s.pressures@ == Seq::<u32>::empty(),
            !s.is_submitted_to_database,
    {
        ActiveStroke {
            timestamp: d.timestamp,
            id_random: d.id_random,
            stroke_origin: d.stroke_origin,
            color: d.color,
            width: d.width,
            points: Vec::new(),
            pressures: Vec::new(),
            is_submitted_to_database: false,
        }
    }

    /// Whether this is the stroke named by a time and tag.
    pub fn is_for(&self, timestamp: u64, id_random: u32) -> (r: bool)
        ensures
            r == names_same_stroke(self.timestamp, self.id_random, timestamp, id_random),
    {
        f64_eq(self.timestamp, timestamp) && self.id_random == id_random
    }

    /// Adds a point (relative to the origin) and its pressure.
    pub fn add_point(&mut self, point: Vec2Bits, pressure: u32)
        ensures
            final(self).points@ == old(self).points@.push(point),
            final(self).pressures@ == old(self).pressures@.push(pressure),
            final(self).timestamp == old(self).timestamp,
            final(self).id_random == old(self).id_random,
            final(self).stroke_origin == old(self).stroke_origin,
            final(self).color == old(self).color,
            final(self).width == old(self).width,
            final(self).is_submitted_to_database == old(self).is_submitted_to_database,
    {
        self.points.push(point);
        self.pressures.push(pressure);
    }

    /// Finishes the stroke: unless it has fewer than two points or was
    /// handed to storage already, gives the stroke to store (its pressures
    /// only when they vary) and marks it as handed over.
    pub fn finish(&mut self, data: &StrokeFinishedData) -> (r: Option<Stroke>)
        requires
            old(self).points@.len() >= 2 && !old(self).is_submitted_to_database ==> old(
                self,
            ).pressures@.len() > 0,
        ensures
            final(self).points@ == old(self).points@,
            final(self).pressures@ == old(self).pressures@,
            final(self).timestamp == old(self).timestamp,
            final(self).id_random == old(self).id_random,
            final(self).stroke_origin == old(self).stroke_origin,
            final(self).color == old(self).color,
            final(self).width == old(self).width,
            old(self).points@.len() < 2 || old(self).is_submitted_to_database ==> r is None
                && final(self).is_submitted_to_database == old(self).is_submitted_to_database,
            r matches Some(s) ==> s.metadata.origin == data.stroke_origin && s.metadata.timestamp
                == data.timestamp && s.metadata.id_random == data.id_random && s.data.points@ == old(
                self,
            ).points@,
            old(self).points@.len() >= 2 && !old(self).is_submitted_to_database ==> (r matches Some(
                s,
            ) && s@ == finished_stroke(
                *old(self),
                data.timestamp,
                data.id_random,
                data.stroke_origin,
                owner_view(data.owner),
            ) && final(self).is_submitted_to_database),
    {
        if self.points.len() < 2 {
            return None;
        }
        if self.is_submitted_to_database {
            return None;
        }
        let pressures = if pressure_changes(&self.pressures) {
            Some(self.pressures.clone())
        } else {
            None
        };
        let stroke = Stroke {
            metadata: StrokeMetadata {
                timestamp: data.timestamp,
                id_random: data.id_random,
                origin: data.stroke_origin,
                owner: clone_owner(&data.owner),
            },
            data: StrokeData {
                stroke_type: StrokeType::Paint(self.color),
                width: self.width,
                points: self.points.clone(),
                pressures: pressures,
            },
        };
        self.is_submitted_to_database = true;
        Some(stroke)
    }
}

/// Whether one of the strokes is the one named by a time and tag.
pub fn stroke_exists(strokes: &Vec<ActiveStroke>, timestamp: u64, id_random: u32) -> (r: bool)
    ensures
        r == exists|i: int|
            0 <= i < strokes@.len() && names_same_stroke(
                #[trigger] strokes@[i].timestamp,
                strokes@[i].id_random,
                timestamp,
                id_random,
            ),
{
    let mut i: usize = 0;
    while i < strokes.len()
        invariant
            i <= strokes@.len(),
            forall|k: int|
                0 <= k < i ==> !names_same_stroke(
                    #[trigger] strokes@[k].timestamp,
                    strokes@[k].id_random,
                    timestamp,
                    id_random,
                ),
        decreases strokes.len() - i,
    {
        if strokes[i].is_for(timestamp, id_random) {
            assert(names_same_stroke(strokes@[i as int].timestamp, strokes@[i as int].id_random, timestamp, id_random));
            return true;
        }
        i = i + 1;
    }
    false
}

} // verus!
