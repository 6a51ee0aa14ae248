//! The paintbrush: what a press, a move or a release of the stylus does to
//! the stroke being drawn.
//!
//! Positions, widths and pressures arrive already worked out (as bits of
//! `f32`); whether the stylus moved far enough on screen to add a point is
//! decided by the caller and handed in as a flag.

use vstd::prelude::*;

use crate::active_strokes::active_stroke::{
    ActiveStroke, ActiveStrokeEvent, NewPointData, NewPointModel, StrokeFinishedData,
    names_same_stroke,
};
use crate::stroke::{Rgb8, StrokeSource, Vec2Bits, clone_owner, owner_view};

verus! {

/// The state of the paintbrush: whether the stylus is down, and the first
/// point of the stroke it is drawing, if any.
pub struct ToolPaintBrush {
    pub is_down: bool,
    pub current_stroke_info: Option<NewPointData>,
}

/// What the stylus did, as the paintbrush needs it.
pub enum BrushInput {
    /// Pressed: a new stroke starts here, with the time, tag, width, colour
    /// and owner that the caller chose for it.
    Down {
        point: Vec2Bits,
        pressure: u32,
        timestamp: u64,
        id_random: u32,
        width: u32,
        color: Rgb8,
        owner: Option<String>,
    },
    /// Released.
    Up,
    /// Moved; `moved_enough` says whether it went far enough on screen to
    /// add a point.
    Move { point: Vec2Bits, pressure: u32, color: Rgb8, moved_enough: bool },
}

/// The events that one stylus input sends, in order: the end of the stroke
/// that was being drawn, then a new point.
pub struct BrushOutput {
    pub finished: Option<ActiveStrokeEvent>,
    pub new_point: Option<NewPointData>,
}

/// Whether `d` names the stroke that started with `cur`, as drawn here.
pub open spec fn finish_data_for(d: StrokeFinishedData, cur: NewPointModel) -> bool {
    &&& d.timestamp == cur.timestamp
    &&& d.id_random == cur.id_random
    &&& d.stroke_origin == cur.stroke_origin
    &&& owner_view(d.owner) == cur.owner
    &&& d.source == StrokeSource::User
}

/// Whether one of the active strokes is the stroke named by a time and tag
/// and has fewer than two points.
pub open spec fn drawn_too_short(active: Seq<ActiveStroke>, timestamp: u64, id_random: u32) -> bool {
    exists|i: int|
        0 <= i < active.len() && names_same_stroke(
            #[trigger] active[i].timestamp,
            active[i].id_random,
            timestamp,
            id_random,
        ) && active[i].points@.len() < 2
}

/// The event that ends the stroke that started with `cur`: it is dropped
/// when its active stroke has fewer than two points, else it is finished.
pub open spec fn finish_event_for(
    e: ActiveStrokeEvent,
    cur: NewPointModel,
    active: Seq<ActiveStroke>,
) -> bool {
    if drawn_too_short(active, cur.timestamp, cur.id_random) {
        e matches ActiveStrokeEvent::DeleteActiveStroke(d) && finish_data_for(d, cur)
    } else {
        e matches ActiveStrokeEvent::StrokeFinished(d) && finish_data_for(d, cur)
    }
}

/// What ending the current stroke sends: nothing when there is none.
pub open spec fn finish_outcome(
    r: Option<ActiveStrokeEvent>,
    current: Option<NewPointData>,
    active: Seq<ActiveStroke>,
) -> bool {
    match current {
        None => r is None,
        Some(cur) => r matches Some(e) && finish_event_for(e, cur@, active),
    }
}

/// Whether one of the active strokes is the one named by a time and tag and
/// has fewer than two points.
fn find_too_short(active: &Vec<ActiveStroke>, timestamp: u64, id_random: u32) -> (r: bool)
    ensures
        r == drawn_too_short(active@, timestamp, id_random),
{
    let mut i: usize = 0;
    while i < active.len()
        invariant
            i <= active@.len(),
            forall|k: int|
                0 <= k < i ==> !(names_same_stroke(
                    #[trigger] active@[k].timestamp,
                    active@[k].id_random,
                    timestamp,
                    id_random,
                ) && active@[k].points@.len() < 2),
        decreases active.len() - i,
    {
        if active[i].is_for(timestamp, id_random) && active[i].points.len() < 2 {
            assert(names_same_stroke(
                active@[i as int].timestamp,
                active@[i as int].id_random,
                timestamp,
                id_random,
            ));
            return true;
        }
        i = i + 1;
    }
    false
}

impl ToolPaintBrush {
    /// Up, drawing nothing.
    pub fn new() -> (b: ToolPaintBrush)
        ensures
            !b.is_down,
            b.current_stroke_info is None,
    {
        ToolPaintBrush { is_down: false, current_stroke_info: None }
    }

    /// Ends the stroke being drawn: the stylus is up and no stroke is
    /// current afterwards; the stroke is dropped when its active stroke
    /// has fewer than two points, else finished.
    pub fn finish_stroke(&mut self, active: &Vec<ActiveStroke>) -> (r: Option<ActiveStrokeEvent>)
        ensures
            !final(self).is_down,
            final(self).current_stroke_info is None,
            finish_outcome(r, old(self).current_stroke_info, active@),
    {
        self.is_down = false;
        let current = self.current_stroke_info.take();
        match current {
            None => None,
            Some(cur) => {
                let data = StrokeFinishedData {
                    timestamp: cur.timestamp,
                    id_random: cur.id_random,
                    stroke_origin: cur.stroke_origin,
                    owner: clone_owner(&cur.owner),
                    source: StrokeSource::User,
                };
                if find_too_short(active, cur.timestamp, cur.id_random) {
                    Some(ActiveStrokeEvent::DeleteActiveStroke(data))
                } else {
                    Some(ActiveStrokeEvent::StrokeFinished(data))
                }
            },
        }
    }

    /// Handles one stylus input.
    ///
    /// A press ends the stroke being drawn, if any, and starts a new one at
    /// the pressed point, which is also its first point. A release ends the
    /// stroke being drawn. A move adds a point to the stroke being drawn,
    /// with that stroke's origin, time, tag, width and owner, when it went
    /// far enough; else it does nothing.
    pub fn handle_input(&mut self, input: BrushInput, active: &Vec<ActiveStroke>) -> (r: BrushOutput)
        ensures
            match input {
                BrushInput::Down { point, pressure, timestamp, id_random, width, color, owner } => {
                    let started = NewPointModel {
                        timestamp: timestamp,
                        id_random: id_random,
                        stroke_origin: point,
                        point: point,
                        width: width,
                        pressure: pressure,
                        color: color,
                        owner: owner_view(owner),
                        source: StrokeSource::User,
                    };
                    &&& final(self).is_down
                    &&& final(self).current_stroke_info matches Some(c) && c@ == started
                    &&& r.new_point matches Some(p) && p@ == started
                    &&& finish_outcome(r.finished, old(self).current_stroke_info, active@)
                },
                BrushInput::Up => {
                    &&& !final(self).is_down
                    &&& final(self).current_stroke_info is None
                    &&& r.new_point is None
                    &&& finish_outcome(r.finished, old(self).current_stroke_info, active@)
                },
                BrushInput::Move { point, pressure, color, moved_enough } => {
                    &&& final(self).is_down == old(self).is_down
                    &&& same_first_point(final(self).current_stroke_info, old(self).current_stroke_info)
                    &&& r.finished is None
                    &&& match old(self).current_stroke_info {
                        Some(cur) => if moved_enough {
                            r.new_point matches Some(p) && p@ == NewPointModel {
                                point: point,
                                pressure: pressure,
                                color: color,
                                source: StrokeSource::User,
                                ..cur@
                            }
                        } else {
                            r.new_point is None
                        },
                        None => r.new_point is None,
                    }
                },
            },
    {
        match input {
            BrushInput::Down { point, pressure, timestamp, id_random, width, color, owner } => {
                let finished = if self.current_stroke_info.is_some() {
                    self.finish_stroke(active)
                } else {
                    None
                };
                let info = NewPointData {
                    timestamp,
                    id_random,
                    stroke_origin: point,
                    point,
                    width,
                    pressure,
                    color,
                    owner,
                    source: StrokeSource::User,
                };
                self.is_down = true;
                self.current_stroke_info = Some(info.duplicate());
                BrushOutput { finished, new_point: Some(info) }
            },
            BrushInput::Up => {
                let finished = self.finish_stroke(active);
                BrushOutput { finished, new_point: None }
            },
            BrushInput::Move { point, pressure, color, moved_enough } => {
                let new_point = match &self.current_stroke_info {
                    Some(cur) => {
                        if moved_enough {
                            Some(
                                NewPointData {
                                    timestamp: cur.timestamp,
                                    id_random: cur.id_random,
                                    stroke_origin: cur.stroke_origin,
                                    point,
                                    width: cur.width,
                                    pressure,
                                    color,
                                    owner: clone_owner(&cur.owner),
                                    source: StrokeSource::User,
                                },
                            )
                        } else {
                            None
                        }
                    },
                    None => None,
                };
                BrushOutput { finished: None, new_point }
            },
        }
    }
}

/// Whether two optional first points have the same mathematical value.
pub open spec fn same_first_point(a: Option<NewPointData>, b: Option<NewPointData>) -> bool {
    match (a, b) {
        (Some(x), Some(y)) => x@ == y@,
        (None, None) => true,
        _ => false,
    }
}

} // verus!
