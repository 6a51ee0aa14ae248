//! What the events of strokes being drawn do to the active strokes: new
//! points are added, finished strokes are handed to storage, and dropped
//! strokes fade out.

use vstd::prelude::*;

use crate::active_strokes::active_stroke::{
    ActiveStroke, StrokeFinishedData, finished_stroke, names_same_stroke,
};
use crate::stroke::{Stroke, StrokeModel, Vec2Bits, owner_view};

verus! {

/// Whether `b` is `a` with nothing changed.
pub open spec fn unchanged(a: ActiveStroke, b: ActiveStroke) -> bool {
    &&& b.timestamp == a.timestamp
    &&& b.id_random == a.id_random
    &&& b.stroke_origin == a.stroke_origin
    &&& b.color == a.color
    &&& b.width == a.width
    &&& b.points@ == a.points@
    &&& b.pressures@ == a.pressures@
    &&& b.is_submitted_to_database == a.is_submitted_to_database
}

/// Whether `b` is `a` with one more point and pressure.
pub open spec fn with_point(a: ActiveStroke, b: ActiveStroke, point: Vec2Bits, pressure: u32) -> bool {
    &&& b.timestamp == a.timestamp
    &&& b.id_random == a.id_random
    &&& b.stroke_origin == a.stroke_origin
    &&& b.color == a.color
    &&& b.width == a.width
    &&& b.points@ == a.points@.push(point)
    &&& b.pressures@ == a.pressures@.push(pressure)
    &&& b.is_submitted_to_database == a.is_submitted_to_database
}

/// Whether the active stroke `a` is the one named by a time and tag.
pub open spec fn is_named(a: ActiveStroke, timestamp: u64, id_random: u32) -> bool {
    names_same_stroke(a.timestamp, a.id_random, timestamp, id_random)
}

/// Whether an active stroke is stored when it is finished: it has at least
/// two points and was not handed to storage yet.
pub open spec fn ready_to_store(a: ActiveStroke) -> bool {
    a.points@.len() >= 2 && !a.is_submitted_to_database
}

/// Whether `ks` lists, in increasing order, exactly the places in `s` where
/// `pred` holds.
pub open spec fn lists_places<T>(s: Seq<T>, ks: Seq<usize>, pred: spec_fn(T) -> bool) -> bool {
    &&& forall|k: int| 0 <= k < ks.len() ==> #[trigger] ks[k] < s.len()
    &&& forall|k: int, l: int| 0 <= k < l < ks.len() ==> ks[k] < ks[l]
    &&& forall|i: int| 0 <= i < s.len() ==> (pred(s[i]) <==> ks.contains(i as usize))
}

/// The strokes stored when the stroke named in `data` is finished: one for
/// each active stroke of that name that is ready to store, in order.
pub open spec fn stored_strokes(strokes: Seq<ActiveStroke>, data: StrokeFinishedData) -> Seq<StrokeModel>
    decreases strokes.len(),
{
    if strokes.len() == 0 {
        Seq::empty()
    } else {
        let prev = stored_strokes(strokes.drop_last(), data);
        let a = strokes.last();
        if is_named(a, data.timestamp, data.id_random) && ready_to_store(a) {
            prev.push(
                finished_stroke(a, data.timestamp, data.id_random, data.stroke_origin, owner_view(data.owner)),
            )
        } else {
            prev
        }
    }
}

proof fn lemma_places_push<T>(s: Seq<T>, ks: Seq<usize>, pred: spec_fn(T) -> bool, i: int, x: T)
    requires
        i == s.len(),
        i < usize::MAX,
        lists_places(s, ks, pred),
    ensures
        pred(x) ==> lists_places(s.push(x), ks.push(i as usize), pred),
        !pred(x) ==> lists_places(s.push(x), ks, pred),
{
    let s2 = s.push(x);
    if pred(x) {
        let ks2 = ks.push(i as usize);
        assert forall|j: int| 0 <= j < s2.len() implies (pred(s2[j]) <==> ks2.contains(j as usize)) by {
            if j < i {
                assert(s2[j] == s[j]);
                if ks.contains(j as usize) {
                    let k = choose|k: int| 0 <= k < ks.len() && ks[k] == j as usize;
                    assert(ks2[k] == j as usize);
                }
                if ks2.contains(j as usize) {
                    let k = choose|k: int| 0 <= k < ks2.len() && ks2[k] == j as usize;
                    if k == ks.len() {
                        assert(ks2[k] == i as usize);
                    } else {
                        assert(ks[k] == j as usize);
                    }
                }
            } else {
                assert(ks2[ks.len() as int] == i as usize);
            }
        }
        assert forall|k: int, l: int| 0 <= k < l < ks2.len() implies ks2[k] < ks2[l] by {
            if l == ks.len() {
                assert(ks[k] < s.len());
            } else {
                assert(ks2[k] == ks[k] && ks2[l] == ks[l]);
            }
        }
        assert forall|k: int| 0 <= k < ks2.len() implies #[trigger] ks2[k] < s2.len() by {
            if k < ks.len() {
                assert(ks2[k] == ks[k]);
            }
        }
    } else {
        assert forall|j: int| 0 <= j < s2.len() implies (pred(s2[j]) <==> ks.contains(j as usize)) by {
            if j < i {
                assert(s2[j] == s[j]);
            } else if ks.contains(j as usize) {
                let k = choose|k: int| 0 <= k < ks.len() && ks[k] == j as usize;
                assert(ks[k] < s.len());
            }
        }
    }
}

/// Adds a point (relative to the stroke's origin) and its pressure to every
/// active stroke named by a time and tag. Gives the places of those strokes
/// that now have at least two points, whose mesh is drawn again.
pub fn add_point_to_strokes(
    strokes: &mut Vec<ActiveStroke>,
    timestamp: u64,
    id_random: u32,
    point: Vec2Bits,
    pressure: u32,
) -> (remesh: Vec<usize>)
    ensures
        final(strokes)@.len() == old(strokes)@.len(),
        forall|i: int|
            0 <= i < old(strokes)@.len() ==> if is_named(#[trigger] old(strokes)@[i], timestamp, id_random) {
                with_point(old(strokes)@[i], final(strokes)@[i], point, pressure)
            } else {
                unchanged(old(strokes)@[i], final(strokes)@[i])
            },
        lists_places(
            final(strokes)@,
            remesh@,
            |a: ActiveStroke| is_named(a, timestamp, id_random) && a.points@.len() >= 2,
        ),
{
    let ghost orig = strokes@;
    let ghost pred: spec_fn(ActiveStroke) -> bool = |a: ActiveStroke| is_named(a, timestamp, id_random) && a.points@.len() >= 2;
    let mut rest: Vec<ActiveStroke> = Vec::new();
    std::mem::swap(&mut rest, strokes);
    let mut remesh: Vec<usize> = Vec::new();
    let n = rest.len();
    let mut i: usize = 0;
    assert(rest@.skip(0) =~= orig);
    while i < n
        invariant
            n == orig.len(),
            i <= n,
            rest@ == orig.skip(i as int),
            strokes@.len() == i,
            pred == (|a: ActiveStroke| is_named(a, timestamp, id_random) && a.points@.len() >= 2),
            forall|j: int|
                0 <= j < i ==> if is_named(#[trigger] orig[j], timestamp, id_random) {
                    with_point(orig[j], strokes@[j], point, pressure)
                } else {
                    unchanged(orig[j], strokes@[j])
                },
            lists_places(strokes@, remesh@, pred),
        decreases n - i,
    {
        let ghost before = strokes@;
        let mut s = rest.remove(0);
        assert(s == orig[i as int]);
        assert(rest@ =~= orig.skip(i + 1));
        if s.is_for(timestamp, id_random) {
            s.add_point(point, pressure);
        }
        let ghost after = s;
        let hit = s.is_for(timestamp, id_random) && s.points.len() >= 2;
        assert(hit == pred(after));
        proof {
            lemma_places_push(before, remesh@, pred, i as int, after);
        }
        if hit {
            remesh.push(i);
        }
        strokes.push(s);
        assert(strokes@ == before.push(after));
        i = i + 1;
    }
    remesh
}

/// Whether `after` is `before` once the stroke named in `data` is
/// finished: each active stroke of that name that was ready to store is now
/// marked as handed over, and nothing else changed.
pub open spec fn finished_after(before: Seq<ActiveStroke>, after: Seq<ActiveStroke>, data: StrokeFinishedData) -> bool {
    &&& after.len() == before.len()
    &&& forall|i: int|
        0 <= i < before.len() ==> {
            let a = #[trigger] before[i];
            let b = after[i];
            if is_named(a, data.timestamp, data.id_random) && ready_to_store(a) {
                unchanged(a, ActiveStroke { is_submitted_to_database: false, ..b })
                    && b.is_submitted_to_database
            } else {
                unchanged(a, b)
            }
        }
}

proof fn lemma_none_stored(strokes: Seq<ActiveStroke>, data: StrokeFinishedData)
    requires
        forall|i: int|
            0 <= i < strokes.len() ==> !(is_named(#[trigger] strokes[i], data.timestamp, data.id_random)
                && ready_to_store(strokes[i])),
    ensures
        stored_strokes(strokes, data) == Seq::<StrokeModel>::empty(),
    decreases strokes.len(),
{
    if strokes.len() > 0 {
        let init = strokes.drop_last();
        assert forall|i: int| 0 <= i < init.len() implies !(is_named(
            #[trigger] init[i],
            data.timestamp,
            data.id_random,
        ) && ready_to_store(init[i])) by {
            assert(init[i] == strokes[i]);
        }
        lemma_none_stored(init, data);
        assert(strokes.last() == strokes[strokes.len() - 1]);
    }
}

/// Finishing a stroke a second time stores nothing: after the first finish,
/// no active stroke of that name is ready to store.
pub proof fn law_second_finish_stores_nothing(
    before: Seq<ActiveStroke>,
    after: Seq<ActiveStroke>,
    data: StrokeFinishedData,
)
    requires
        finished_after(before, after, data),
    ensures
        stored_strokes(after, data) == Seq::<StrokeModel>::empty(),
{
    assert forall|i: int| 0 <= i < after.len() implies !(is_named(
        #[trigger] after[i],
        data.timestamp,
        data.id_random,
    ) && ready_to_store(after[i])) by {
        let a = before[i];
        let b = after[i];
        if is_named(a, data.timestamp, data.id_random) && ready_to_store(a) {
            let c = ActiveStroke { is_submitted_to_database: false, ..b };
            assert(unchanged(a, c));
            assert(b.is_submitted_to_database);
        } else {
            assert(unchanged(a, b));
            assert(b.points@.len() == a.points@.len());
        }
    }
    lemma_none_stored(after, data);
}

/// Finishes every active stroke named in `data`: each that is ready to store
/// is given to storage, in order, and marked as handed over; the others are
/// left alone.
pub fn finish_strokes(strokes: &mut Vec<ActiveStroke>, data: &StrokeFinishedData) -> (stored: Vec<Stroke>)
    requires
        forall|i: int|
            0 <= i < old(strokes)@.len() && is_named(#[trigger] old(strokes)@[i], data.timestamp, data.id_random)
                && ready_to_store(old(strokes)@[i]) ==> old(strokes)@[i].pressures@.len() > 0,
    ensures
        final(strokes)@.len() == old(strokes)@.len(),
        finished_after(old(strokes)@, final(strokes)@, *data),
        stored@.map_values(|s: Stroke| s@) == stored_strokes(old(strokes)@, *data),
{
    let ghost orig = strokes@;
    let mut rest: Vec<ActiveStroke> = Vec::new();
    std::mem::swap(&mut rest, strokes);
    let mut stored: Vec<Stroke> = Vec::new();
    let n = rest.len();
    let mut i: usize = 0;
    assert(rest@.skip(0) =~= orig);
    assert(stored@.map_values(|s: Stroke| s@) =~= stored_strokes(orig.take(0), *data));
    while i < n
        invariant
            n == orig.len(),
            i <= n,
            rest@ == orig.skip(i as int),
            strokes@.len() == i,
            forall|j: int|
                0 <= j < orig.len() && is_named(#[trigger] orig[j], data.timestamp, data.id_random)
                    && ready_to_store(orig[j]) ==> orig[j].pressures@.len() > 0,
            forall|j: int|
                0 <= j < i ==> {
                    let a = #[trigger] orig[j];
                    let b = strokes@[j];
                    if is_named(a, data.timestamp, data.id_random) && ready_to_store(a) {
                        unchanged(a, ActiveStroke { is_submitted_to_database: false, ..b })
                            && b.is_submitted_to_database
                    } else {
                        unchanged(a, b)
                    }
                },
            stored@.map_values(|s: Stroke| s@) == stored_strokes(orig.take(i as int), *data),
        decreases n - i,
    {
        let ghost before = strokes@;
        let ghost stored_before = stored@;
        let mut s = rest.remove(0);
        assert(s == orig[i as int]);
        assert(rest@ =~= orig.skip(i + 1));
        assert(orig.take(i + 1).drop_last() =~= orig.take(i as int));
        assert(orig.take(i + 1).last() == orig[i as int]);
        if s.is_for(data.timestamp, data.id_random) {
            match s.finish(data) {
                Some(stroke) => {
                    stored.push(stroke);
                    assert(stored@.map_values(|s: Stroke| s@) =~= stored_before.map_values(
                        |s: Stroke| s@,
                    ).push(stroke@));
                },
                None => {},
            }
        }
        strokes.push(s);
        assert(strokes@ == before.push(s));
        i = i + 1;
    }
    assert(orig.take(n as int) =~= orig);
    stored
}

/// The places of the active strokes named by a time and tag: those that fade
/// out when the stroke is dropped, and those sent to peers when it is
/// finished.
pub fn strokes_named(strokes: &Vec<ActiveStroke>, timestamp: u64, id_random: u32) -> (r: Vec<usize>)
    ensures
        lists_places(strokes@, r@, |a: ActiveStroke| is_named(a, timestamp, id_random)),
{
    let ghost pred: spec_fn(ActiveStroke) -> bool = |a: ActiveStroke| is_named(a, timestamp, id_random);
    let mut r: Vec<usize> = Vec::new();
    let mut i: usize = 0;
    while i < strokes.len()
        invariant
            i <= strokes@.len(),
            pred == (|a: ActiveStroke| is_named(a, timestamp, id_random)),
            lists_places(strokes@.take(i as int), r@, pred),
        decreases strokes.len() - i,
    {
        proof {
            lemma_places_push(strokes@.take(i as int), r@, pred, i as int, strokes@[i as int]);
            assert(strokes@.take(i as int).push(strokes@[i as int]) =~= strokes@.take(i + 1));
        }
        let named = strokes[i].is_for(timestamp, id_random);
        assert(named == pred(strokes@[i as int]));
        if named {
            r.push(i);
        }
        i = i + 1;
    }
    assert(strokes@.take(i as int) =~= strokes@);
    r
}

} // verus!
