//! Which new points start a new active stroke.

use vstd::prelude::*;

use crate::active_strokes::active_stroke::{
    ActiveStroke, ActiveStrokeEvent, NewPointModel, names_same_stroke, stroke_exists,
};
use crate::active_strokes::active_stroke_updater::is_named;
use crate::float_bits::f64_bits_is_nan;

verus! {

/// Whether one of the active strokes is named by a time and tag.
pub open spec fn any_named(strokes: Seq<ActiveStroke>, timestamp: u64, id_random: u32) -> bool {
    exists|i: int| 0 <= i < strokes.len() && is_named(#[trigger] strokes[i], timestamp, id_random)
}

/// Whether one of the points names the stroke named by a time and tag.
pub open spec fn any_point_named(points: Seq<NewPointModel>, timestamp: u64, id_random: u32) -> bool {
    exists|i: int|
        0 <= i < points.len() && names_same_stroke(
            #[trigger] points[i].timestamp,
            points[i].id_random,
            timestamp,
            id_random,
        )
}

/// The points, in order, that start a new active stroke in a batch of
/// events: each new point whose stroke is neither among the existing active
/// strokes nor started earlier in the batch.
pub open spec fn started_by(existing: Seq<ActiveStroke>, events: Seq<ActiveStrokeEvent>) -> Seq<
    NewPointModel,
>
    decreases events.len(),
{
    if events.len() == 0 {
        Seq::empty()
    } else {
        let prev = started_by(existing, events.drop_last());
        match events.last() {
            ActiveStrokeEvent::NewPoint(d) => if any_named(existing, d.timestamp, d.id_random)
                || any_point_named(prev, d.timestamp, d.id_random) {
                prev
            } else {
                prev.push(d@)
            },
            _ => prev,
        }
    }
}

/// Whether `a` is the active stroke that the point `d` starts: its name,
/// origin, colour and width, and no points yet.
pub open spec fn started_from(a: ActiveStroke, d: NewPointModel) -> bool {
    &&& a.timestamp == d.timestamp
    &&& a.id_random == d.id_random
    &&& a.stroke_origin == d.stroke_origin
    &&& a.color == d.color
    &&& a.width == d.width
    &&& a.points@.len() == 0
    &&& a.pressures@.len() == 0
    &&& !a.is_submitted_to_database
}

/// The active strokes that a batch of events starts, one per point that
/// starts a stroke, in order.
pub fn spawn_strokes(existing: &Vec<ActiveStroke>, events: &Vec<ActiveStrokeEvent>) -> (r: Vec<
    ActiveStroke,
>)
    ensures
        r@.len() == started_by(existing@, events@).len(),
        forall|i: int| 0 <= i < r@.len() ==> started_from(#[trigger] r@[i], started_by(existing@, events@)[i]),
{
    let mut spawned: Vec<ActiveStroke> = Vec::new();
    let mut i: usize = 0;
    assert(events@.take(0) =~= Seq::<ActiveStrokeEvent>::empty());
    while i < events.len()
        invariant
            i <= events@.len(),
            spawned@.len() == started_by(existing@, events@.take(i as int)).len(),
            forall|j: int|
                0 <= j < spawned@.len() ==> started_from(
                    #[trigger] spawned@[j],
                    started_by(existing@, events@.take(i as int))[j],
                ),
        decreases events.len() - i,
    {
        let ghost prev = started_by(existing@, events@.take(i as int));
        assert(events@.take(i + 1).drop_last() =~= events@.take(i as int));
        assert(events@.take(i + 1).last() == events@[i as int]);
        match &events[i] {
            ActiveStrokeEvent::NewPoint(d) => {
                let in_existing = stroke_exists(existing, d.timestamp, d.id_random);
                assert(in_existing == any_named(existing@, d.timestamp, d.id_random)) by {
                    if in_existing {
                        let k = choose|k: int|
                            0 <= k < existing@.len() && names_same_stroke(
                                #[trigger] existing@[k].timestamp,
                                existing@[k].id_random,
                                d.timestamp,
                                d.id_random,
                            );
                        assert(is_named(existing@[k], d.timestamp, d.id_random));
                    }
                }
                let in_spawned = stroke_exists(&spawned, d.timestamp, d.id_random);
                assert(in_spawned == any_point_named(prev, d.timestamp, d.id_random)) by {
                    if in_spawned {
                        let k = choose|k: int|
                            0 <= k < spawned@.len() && names_same_stroke(
                                #[trigger] spawned@[k].timestamp,
                                spawned@[k].id_random,
                                d.timestamp,
                                d.id_random,
                            );
                        assert(started_from(spawned@[k], prev[k]));
                        assert(names_same_stroke(prev[k].timestamp, prev[k].id_random, d.timestamp, d.id_random));
                    }
                    if any_point_named(prev, d.timestamp, d.id_random) {
                        let k = choose|k: int|
                            0 <= k < prev.len() && names_same_stroke(
                                #[trigger] prev[k].timestamp,
                                prev[k].id_random,
                                d.timestamp,
                                d.id_random,
                            );
                        assert(started_from(spawned@[k], prev[k]));
                        assert(names_same_stroke(spawned@[k].timestamp, spawned@[k].id_random, d.timestamp, d.id_random));
                    }
                }
                if !(in_existing || in_spawned) {
                    spawned.push(ActiveStroke::from_new_point(d));
                }
            },
            _ => {},
        }
        i = i + 1;
    }
    assert(events@.take(i as int) =~= events@);
    spawned
}


/// The points started by the first `k` events come first among those
/// started by all of them.
proof fn lemma_started_grows(existing: Seq<ActiveStroke>, events: Seq<ActiveStrokeEvent>, k: int)
    requires
        0 <= k <= events.len(),
    ensures
        started_by(existing, events.take(k)).len() <= started_by(existing, events).len(),
        forall|j: int|
            0 <= j < started_by(existing, events.take(k)).len() ==> #[trigger] started_by(
                existing,
                events.take(k),
            )[j] == started_by(existing, events)[j],
    decreases events.len() - k,
{
    if k == events.len() {
        assert(events.take(k) =~= events);
    } else {
        lemma_started_grows(existing, events, k + 1);
        let pre = started_by(existing, events.take(k));
        let cur = started_by(existing, events.take(k + 1));
        assert(events.take(k + 1).drop_last() =~= events.take(k));
        assert(events.take(k + 1).last() == events[k]);
        assert(pre.len() <= cur.len() && forall|j: int| 0 <= j < pre.len() ==> cur[j] == pre[j]) by {
            match events[k] {
                ActiveStrokeEvent::NewPoint(d) => {
                    if !(any_named(existing, d.timestamp, d.id_random) || any_point_named(
                        pre,
                        d.timestamp,
                        d.id_random,
                    )) {
                        assert(cur == pre.push(d@));
                    }
                },
                _ => {},
            }
        }
    }
}

/// After the active strokes of a batch are started, every new point of the
/// batch whose time is a number has its stroke: one that existed before, or
/// one that the batch started.
pub proof fn law_points_find_their_stroke(
    existing: Seq<ActiveStroke>,
    events: Seq<ActiveStrokeEvent>,
    i: int,
)
    requires
        0 <= i < events.len(),
        events[i] matches ActiveStrokeEvent::NewPoint(d) && !f64_bits_is_nan(d.timestamp),
    ensures
        events[i] matches ActiveStrokeEvent::NewPoint(d) && (any_named(existing, d.timestamp, d.id_random)
            || any_point_named(started_by(existing, events), d.timestamp, d.id_random)),
{
    let d = events[i]->NewPoint_0;
    let pre = started_by(existing, events.take(i));
    let cur = started_by(existing, events.take(i + 1));
    assert(events.take(i + 1).drop_last() =~= events.take(i));
    assert(events.take(i + 1).last() == events[i]);
    lemma_started_grows(existing, events, i + 1);
    if !any_named(existing, d.timestamp, d.id_random) {
        if any_point_named(pre, d.timestamp, d.id_random) {
            let j = choose|j: int|
                0 <= j < pre.len() && names_same_stroke(
                    #[trigger] pre[j].timestamp,
                    pre[j].id_random,
                    d.timestamp,
                    d.id_random,
                );
            assert(cur[j] == pre[j]);
            assert(started_by(existing, events)[j] == pre[j]);
            assert(names_same_stroke(
                started_by(existing, events)[j].timestamp,
                started_by(existing, events)[j].id_random,
                d.timestamp,
                d.id_random,
            ));
        } else {
            assert(cur == pre.push(d@));
            let j = pre.len() as int;
            assert(cur[j] == d@);
            assert(started_by(existing, events)[j] == d@);
            assert(names_same_stroke(
                started_by(existing, events)[j].timestamp,
                started_by(existing, events)[j].id_random,
                d.timestamp,
                d.id_random,
            ));
        }
    }
}


/// A batch starts no stroke that already exists, and no stroke twice: no
/// point that starts a stroke names an existing active stroke, and no two of
/// them name the same stroke. (With the law above, each new stroke of the
/// batch whose time is a number is started exactly once.)
pub proof fn law_started_are_new_and_once(existing: Seq<ActiveStroke>, events: Seq<ActiveStrokeEvent>)
    ensures
        forall|i: int|
            0 <= i < started_by(existing, events).len() ==> !any_named(
                existing,
                #[trigger] started_by(existing, events)[i].timestamp,
                started_by(existing, events)[i].id_random,
            ),
        forall|i: int, j: int|
            0 <= i < j < started_by(existing, events).len() ==> !names_same_stroke(
                #[trigger] started_by(existing, events)[i].timestamp,
                started_by(existing, events)[i].id_random,
                #[trigger] started_by(existing, events)[j].timestamp,
                started_by(existing, events)[j].id_random,
            ),
    decreases events.len(),
{
    if events.len() > 0 {
        let prev_events = events.drop_last();
        law_started_are_new_and_once(existing, prev_events);
        let prev = started_by(existing, prev_events);
        let cur = started_by(existing, events);
        match events.last() {
            ActiveStrokeEvent::NewPoint(d) => {
                if !(any_named(existing, d.timestamp, d.id_random) || any_point_named(
                    prev,
                    d.timestamp,
                    d.id_random,
                )) {
                    assert(cur == prev.push(d@));
                    assert forall|i: int, j: int| 0 <= i < j < cur.len() implies !names_same_stroke(
                        #[trigger] cur[i].timestamp,
                        cur[i].id_random,
                        #[trigger] cur[j].timestamp,
                        cur[j].id_random,
                    ) by {
                        if j == prev.len() {
                            assert(cur[i] == prev[i]);
                            assert(cur[j] == d@);
                            if names_same_stroke(prev[i].timestamp, prev[i].id_random, d.timestamp, d.id_random) {
                                assert(any_point_named(prev, d.timestamp, d.id_random));
                            }
                        } else {
                            assert(cur[i] == prev[i] && cur[j] == prev[j]);
                        }
                    }
                    assert forall|i: int| 0 <= i < cur.len() implies !any_named(
                        existing,
                        #[trigger] cur[i].timestamp,
                        cur[i].id_random,
                    ) by {
                        if i < prev.len() {
                            assert(cur[i] == prev[i]);
                        }
                    }
                }
            },
            _ => {},
        }
    }
}

} // verus!
