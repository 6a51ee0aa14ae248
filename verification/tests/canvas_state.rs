use draw::active_strokes::active_stroke::{
    ActiveStroke, ActiveStrokeEvent, NewPointData, StrokeFinishedData, pressure_changes, stroke_exists,
};
use draw::chunks::chunk::{AppendAction, Chunk, first_position, merge_stroke_mesh, remove_verts};
use draw::chunks::{ChunkController, ChunkEvent, add_visible, contains_id, visible_contains};
use draw::active_strokes::active_stroke_spawner::spawn_strokes;
use draw::active_strokes::active_stroke_updater::{add_point_to_strokes, finish_strokes, strokes_named};
use draw::database::{ChunkQueues, JsMeshData, LatestByChunk, RemoveVertsData, split_batches};
use draw::line_builder::{LineJointMode, Orientation, StripIndexer, joint_mode_at};
use draw::retained_camera::RetainedCameraToggle;
use draw::retained_view::resize_texture::TextureResizer;
use draw::retained_view::{
    CameraChangeDetector, CameraMovementStatusEvent, RenderAction, RetainedView, RetainedViewEvent,
    render_request_for,
};
use draw::stroke::{Rgb8, StrokeMesh, StrokeSource, StrokeType, Vec2Bits};
use draw::tools::paintbrush::{BrushInput, ToolPaintBrush};
use draw::tools::undo::UndoQueue;

fn v(x: f32, y: f32) -> Vec2Bits {
    Vec2Bits { x: x.to_bits(), y: y.to_bits() }
}

fn s(x: &str) -> String {
    String::from(x)
}

fn first_point(ts: f64, id: u32) -> NewPointData {
    NewPointData {
        timestamp: ts.to_bits(),
        id_random: id,
        stroke_origin: v(1.0, 1.0),
        point: v(1.0, 1.0),
        width: 2.0f32.to_bits(),
        pressure: 1.0f32.to_bits(),
        color: Rgb8 { r: 5, g: 6, b: 7 },
        owner: None,
        source: StrokeSource::User,
    }
}

#[test]
fn chunk_visibility_events() {
    let mut c = ChunkController::new();
    let ev = c.update_visible(&vec![(s("a"), 1), (s("b"), 2)]);
    assert_eq!(ev.len(), 2);
    assert!(matches!(&ev[0], ChunkEvent::Visible(id, 1) if id == "a"));
    assert!(matches!(&ev[1], ChunkEvent::Visible(id, 2) if id == "b"));
    let ev = c.update_visible(&vec![(s("b"), 2), (s("c"), 3)]);
    assert_eq!(ev.len(), 2);
    assert!(matches!(&ev[0], ChunkEvent::NotVisible(id) if id == "a"));
    assert!(matches!(&ev[1], ChunkEvent::Visible(id, 3) if id == "c"));
    assert_eq!(c.loaded_chunks, vec![s("b"), s("c")]);
    assert!(c.update_visible(&vec![(s("b"), 2), (s("c"), 3)]).is_empty());
}

#[test]
fn visible_list_has_no_repeats() {
    let mut vis: Vec<(String, i32)> = Vec::new();
    add_visible(&mut vis, s("x"), 1);
    add_visible(&mut vis, s("y"), 2);
    add_visible(&mut vis, s("x"), 3);
    assert_eq!(vis, vec![(s("x"), 1), (s("y"), 2)]);
    assert!(visible_contains(&vis, &s("y")));
    assert!(!visible_contains(&vis, &s("z")));
    assert!(contains_id(&vec![s("p"), s("q")], &s("q")));
    assert!(!contains_id(&vec![], &s("q")));
}

#[test]
fn chunk_load_requests() {
    let mut c = Chunk::new(s("0_0"), (0, 0));
    let mut reload = vec![s("1_1")];
    assert!(c.take_load_request(&mut reload));
    assert!(c.has_requested_db_chunks);
    assert!(!c.take_load_request(&mut reload));
    let mut reload = vec![s("1_1"), s("0_0"), s("0_0")];
    assert!(c.take_load_request(&mut reload));
    assert_eq!(reload, vec![s("1_1"), s("0_0")]);
    assert_eq!(first_position(&reload, &s("0_0")), Some(1));
    assert_eq!(first_position(&reload, &s("9")), None);
}

#[test]
fn chunk_mesh_merge() {
    let incoming = || StrokeMesh::new(vec![10, 11], vec![0, 1, 0], vec!['a', 'b']);
    let mut placeholder = StrokeMesh::new(vec![0], vec![], vec!['z']);
    assert_eq!(merge_stroke_mesh(&mut placeholder, incoming(), Some(0)), Some(AppendAction::Replace));
    assert_eq!(placeholder.vertices, vec![10, 11]);
    assert_eq!(merge_stroke_mesh(&mut placeholder, incoming(), Some(2)), Some(AppendAction::Append));
    assert_eq!(placeholder.vertices, vec![10, 11, 10, 11]);
    assert_eq!(placeholder.indices, vec![0, 1, 0, 0, 1, 0]);
    assert_eq!(placeholder.colors, vec!['a', 'b', 'a', 'b']);
    assert_eq!(merge_stroke_mesh(&mut placeholder, incoming(), Some(7)), Some(AppendAction::Respawn));
    assert_eq!(placeholder.vertices.len(), 4);
    assert_eq!(merge_stroke_mesh(&mut placeholder, incoming(), None), None);
    assert_eq!(placeholder.vertices.len(), 4);
}

#[test]
fn mesh_append_shifts_indices() {
    let mut m = StrokeMesh::new(vec![1, 2, 3], vec![0, 1, 2], vec![1, 1, 1]);
    assert_eq!(m.append_shifted(vec![4, 5], vec![2, 2], &vec![0, 1, 1]), Some((3, 2)));
    assert_eq!(m.indices, vec![0, 1, 2, 3, 4, 4]);
    assert_eq!(m.vertices, vec![1, 2, 3, 4, 5]);
    assert_eq!(m.append_shifted(vec![6], vec![3], &vec![u32::MAX]), None);
    assert_eq!(m.vertices.len(), 5);
}

#[test]
fn remove_chunk_verts() {
    let mut verts = vec![1, 2, 3, 4, 5];
    assert_eq!(remove_verts(&mut verts, 1, 2, 0), Some(true));
    assert_eq!(verts, vec![1, 0, 0, 4, 5]);
    assert_eq!(remove_verts(&mut verts, 4, 2, 0), Some(false));
    assert_eq!(verts, vec![1, 0, 0, 4, 5]);
    assert_eq!(remove_verts(&mut verts, u32::MAX, 1, 0), None);
}

#[test]
fn retained_view_settles_after_stop() {
    let mut view = RetainedView { frames_until_disabled: -1 };
    view.handle_render_event(render_request_for(CameraMovementStatusEvent::StartedMoving));
    assert_eq!(view.frames_until_disabled, i32::MAX);
    assert_eq!(view.render_step(), RenderAction::DrawLive);
    view.handle_render_event(render_request_for(CameraMovementStatusEvent::StoppedMoving));
    let actions: Vec<RenderAction> = (0..8).map(|_| view.render_step()).collect();
    assert_eq!(
        actions,
        vec![
            RenderAction::DrawLive,
            RenderAction::DrawLive,
            RenderAction::DrawLive,
            RenderAction::DrawLive,
            RenderAction::CaptureRetained,
            RenderAction::StopCapture,
            RenderAction::Idle,
            RenderAction::Idle,
        ]
    );
    assert_eq!(view.frames_until_disabled, -1);
}

#[test]
fn retained_view_update_frame_adds_two() {
    let mut view = RetainedView { frames_until_disabled: -1 };
    view.handle_render_event(RetainedViewEvent::UpdateFrame);
    assert_eq!(view.frames_until_disabled, 1);
    view.handle_render_event(RetainedViewEvent::UpdateFrame);
    assert_eq!(view.frames_until_disabled, 3);
    let mut full = RetainedView { frames_until_disabled: i32::MAX };
    full.handle_render_event(RetainedViewEvent::UpdateFrame);
    assert_eq!(full.frames_until_disabled, i32::MAX);
}

#[test]
fn camera_change_detection() {
    let mut d = CameraChangeDetector { did_change_last_frame: false };
    assert_eq!(d.observe(false), None);
    assert_eq!(d.observe(true), Some(CameraMovementStatusEvent::StartedMoving));
    assert_eq!(d.observe(true), None);
    assert_eq!(d.observe(false), Some(CameraMovementStatusEvent::StoppedMoving));
}

#[test]
fn retained_camera_captures_once_per_stop() {
    let mut t = RetainedCameraToggle { disable_next_frame: false, camera_active: false, shows_live_layer: false };
    t.step(true);
    assert!(t.shows_live_layer && !t.camera_active);
    t.step(false);
    assert!(t.camera_active && !t.shows_live_layer && t.disable_next_frame);
    t.step(false);
    assert_eq!(t, RetainedCameraToggle { disable_next_frame: false, camera_active: false, shows_live_layer: false });
}

#[test]
fn texture_resizer() {
    let mut t = TextureResizer::new();
    assert_eq!(t.observe(800, 600, Some((1, 1))), Some((800, 600)));
    assert_eq!(t.observe(800, 600, Some((1, 1))), None);
    assert_eq!(t.observe(1024, 600, Some((1024, 600))), None);
    assert_eq!(t.prev_width, 1024);
    assert_eq!(t.observe(10, 10, None), None);
    assert_eq!((t.prev_width, t.prev_height), (10, 10));
}

#[test]
fn strip_indices() {
    let mut s = StripIndexer::new();
    s.strip_begin();
    s.strip_add_quad();
    assert_eq!(s.vertex_count(), 4);
    assert_eq!(s.indices(), &vec![0, 3, 1, 0, 2, 3]);
    s.strip_add_tri(Orientation::Up);
    assert_eq!(&s.indices()[6..], &[3, 4, 2]);
    s.strip_add_tri(Orientation::Down);
    assert_eq!(&s.indices()[9..], &[2, 5, 4]);
    s.new_arc(2);
    assert_eq!(s.vertex_count(), 10);
    assert_eq!(&s.indices()[12..], &[6, 7, 8, 6, 8, 9]);
    assert_eq!(s.into_indices().len(), 18);
}

#[test]
fn joint_modes() {
    assert_eq!(joint_mode_at(LineJointMode::Sharp, true, false), LineJointMode::Sharp);
    assert_eq!(joint_mode_at(LineJointMode::Sharp, true, true), LineJointMode::Bevel);
    assert_eq!(joint_mode_at(LineJointMode::Sharp, false, false), LineJointMode::Bevel);
    assert_eq!(joint_mode_at(LineJointMode::Round, false, true), LineJointMode::Round);
}

#[test]
fn chunk_queues_keep_order_per_chunk() {
    let mut q: ChunkQueues<u32> = ChunkQueues::new();
    q.push(&s("a"), 1);
    q.push(&s("b"), 2);
    q.push(&s("a"), 3);
    assert_eq!(q.take(&s("a")), vec![1, 3]);
    assert!(q.take(&s("a")).is_empty());
    assert_eq!(q.take(&s("b")), vec![2]);
    assert!(q.take(&s("c")).is_empty());
}

#[test]
fn strokes_stored_in_batches() {
    let items: Vec<u32> = (0..1100).collect();
    let batches = split_batches(items);
    assert_eq!(batches.iter().map(|b| b.len()).collect::<Vec<_>>(), vec![501, 501, 98]);
    assert_eq!(batches[1][0], 501);
    assert_eq!(batches.concat(), (0..1100).collect::<Vec<u32>>());
    assert!(split_batches(Vec::<u32>::new()).is_empty());
    assert_eq!(split_batches(vec![7u32; 501]).len(), 1);
    assert_eq!(split_batches(vec![7u32; 502]).len(), 2);
}

#[test]
fn mesh_data_from_storage() {
    let m = JsMeshData::new(s("k"), vec![1], vec![0], vec![2]);
    assert!(m.has_mesh());
    let e = JsMeshData::new(s("k"), vec![], vec![0], vec![2]);
    assert!(!e.has_mesh());
    let r = RemoveVertsData { chunk_key: s("k"), offset: 3, num_verts: 4 };
    assert_eq!(r.offset + r.num_verts, 7);
}

#[test]
fn undo_takes_newest_own_stroke() {
    let mut u = UndoQueue::new();
    u.store_finished(1, 1, false);
    u.store_finished(2, 2, true);
    u.store_finished(3, 3, false);
    assert_eq!(u.undo(), Some((3, 3)));
    assert_eq!(u.undo(), Some((1, 1)));
    assert_eq!(u.undo(), None);
}

#[test]
fn active_stroke_finish() {
    let d = first_point(100.0, 5);
    let mut a = ActiveStroke::from_new_point(&d);
    let fin = StrokeFinishedData {
        timestamp: d.timestamp,
        id_random: 5,
        stroke_origin: d.stroke_origin,
        owner: None,
        source: StrokeSource::User,
    };
    a.add_point(v(0.0, 0.0), 1.0f32.to_bits());
    assert!(a.finish(&fin).is_none());
    a.add_point(v(1.0, 0.0), 1.0f32.to_bits());
    let stroke = a.finish(&fin).unwrap();
    assert_eq!(stroke.data.points.len(), 2);
    assert_eq!(stroke.data.pressures, None);
    assert_eq!(stroke.data.stroke_type, StrokeType::Paint(Rgb8 { r: 5, g: 6, b: 7 }));
    assert!(a.is_submitted_to_database);
    assert!(a.finish(&fin).is_none());
    assert!(a.is_for(100.0f64.to_bits(), 5));
    assert!(!a.is_for(100.0f64.to_bits(), 6));
    assert!(stroke_exists(&vec![a], 100.0f64.to_bits(), 5));
}

#[test]
fn pressures_kept_only_when_they_vary() {
    assert!(!pressure_changes(&vec![]));
    assert!(!pressure_changes(&vec![1.0f32.to_bits(), 1.0f32.to_bits()]));
    assert!(pressure_changes(&vec![1.0f32.to_bits(), 0.5f32.to_bits()]));
    assert!(!pressure_changes(&vec![0.0f32.to_bits(), (-0.0f32).to_bits()]));
}

#[test]
fn paintbrush_press_move_release() {
    let mut brush = ToolPaintBrush::new();
    let down = BrushInput::Down {
        point: v(2.0, 3.0),
        pressure: 1.0f32.to_bits(),
        timestamp: 50.0f64.to_bits(),
        id_random: 8,
        width: 4.0f32.to_bits(),
        color: Rgb8 { r: 1, g: 1, b: 1 },
        owner: Some(s("me")),
    };
    let out = brush.handle_input(down, &vec![]);
    assert!(out.finished.is_none());
    let p = out.new_point.unwrap();
    assert_eq!((p.point, p.stroke_origin, p.id_random), (v(2.0, 3.0), v(2.0, 3.0), 8));
    assert!(brush.is_down);

    let still = BrushInput::Move { point: v(2.1, 3.0), pressure: 0, color: Rgb8 { r: 1, g: 1, b: 1 }, moved_enough: false };
    assert!(brush.handle_input(still, &vec![]).new_point.is_none());
    let moved = BrushInput::Move { point: v(9.0, 3.0), pressure: 7, color: Rgb8 { r: 2, g: 2, b: 2 }, moved_enough: true };
    let p = brush.handle_input(moved, &vec![]).new_point.unwrap();
    assert_eq!((p.point, p.stroke_origin, p.pressure, p.width), (v(9.0, 3.0), v(2.0, 3.0), 7, 4.0f32.to_bits()));
    assert_eq!(p.owner, Some(s("me")));

    let mut active = ActiveStroke::from_new_point(&first_point(50.0, 8));
    active.add_point(v(0.0, 0.0), 1);
    active.add_point(v(7.0, 0.0), 1);
    let out = brush.handle_input(BrushInput::Up, &vec![active]);
    assert!(out.new_point.is_none());
    match out.finished {
        Some(ActiveStrokeEvent::StrokeFinished(f)) => {
            assert_eq!((f.timestamp, f.id_random, f.stroke_origin), (50.0f64.to_bits(), 8, v(2.0, 3.0)));
            assert_eq!(f.owner, Some(s("me")));
        }
        _ => panic!("the stroke should be finished"),
    }
    assert!(!brush.is_down);
    assert!(brush.current_stroke_info.is_none());
    assert!(brush.handle_input(BrushInput::Up, &vec![]).finished.is_none());
}

#[test]
fn paintbrush_drops_stroke_too_short() {
    let mut brush = ToolPaintBrush::new();
    let press = |id: u32| BrushInput::Down {
        point: v(0.0, 0.0),
        pressure: 0,
        timestamp: 60.0f64.to_bits(),
        id_random: id,
        width: 1,
        color: Rgb8 { r: 0, g: 0, b: 0 },
        owner: None,
    };
    brush.handle_input(press(1), &vec![]);
    let active = ActiveStroke::from_new_point(&first_point(60.0, 1));
    let out = brush.handle_input(press(2), &vec![active]);
    assert!(matches!(out.finished, Some(ActiveStrokeEvent::DeleteActiveStroke(ref f)) if f.id_random == 1));
    assert_eq!(out.new_point.unwrap().id_random, 2);
    assert_eq!(brush.current_stroke_info.as_ref().map(|c| c.id_random), Some(2));
}

#[test]
fn latest_mesh_per_chunk() {
    let mut m: LatestByChunk<u32> = LatestByChunk::new();
    m.insert(s("a"), 1);
    m.insert(s("b"), 2);
    m.insert(s("a"), 3);
    assert_eq!(m.take(&s("a")), Some(3));
    assert_eq!(m.take(&s("a")), None);
    assert_eq!(m.take(&s("b")), Some(2));
    assert_eq!(m.take(&s("zz")), None);
    m.insert(s("a"), 4);
    assert_eq!(m.take(&s("a")), Some(4));
}

#[test]
fn new_points_start_strokes_once() {
    let existing = vec![ActiveStroke::from_new_point(&first_point(1.0, 1))];
    let events = vec![
        ActiveStrokeEvent::NewPoint(first_point(1.0, 1)),
        ActiveStrokeEvent::NewPoint(first_point(2.0, 2)),
        ActiveStrokeEvent::StrokeFinished(StrokeFinishedData {
            timestamp: 9.0f64.to_bits(),
            id_random: 9,
            stroke_origin: v(0.0, 0.0),
            owner: None,
            source: StrokeSource::User,
        }),
        ActiveStrokeEvent::NewPoint(first_point(2.0, 2)),
        ActiveStrokeEvent::NewPoint(first_point(2.0, 3)),
    ];
    let spawned = spawn_strokes(&existing, &events);
    let names: Vec<(u64, u32)> = spawned.iter().map(|a| (a.timestamp, a.id_random)).collect();
    assert_eq!(names, vec![(2.0f64.to_bits(), 2), (2.0f64.to_bits(), 3)]);
    assert!(spawned.iter().all(|a| a.points.is_empty() && !a.is_submitted_to_database));
}

#[test]
fn points_go_to_their_strokes() {
    let mut strokes = vec![
        ActiveStroke::from_new_point(&first_point(1.0, 1)),
        ActiveStroke::from_new_point(&first_point(2.0, 2)),
    ];
    assert!(add_point_to_strokes(&mut strokes, 2.0f64.to_bits(), 2, v(0.0, 0.0), 7).is_empty());
    assert_eq!(add_point_to_strokes(&mut strokes, 2.0f64.to_bits(), 2, v(1.0, 0.0), 8), vec![1]);
    assert!(strokes[0].points.is_empty());
    assert_eq!(strokes[1].points, vec![v(0.0, 0.0), v(1.0, 0.0)]);
    assert_eq!(strokes[1].pressures, vec![7, 8]);
    let fin = StrokeFinishedData {
        timestamp: 2.0f64.to_bits(),
        id_random: 2,
        stroke_origin: v(1.0, 1.0),
        owner: Some(s("peer")),
        source: StrokeSource::Remote,
    };
    let stored = finish_strokes(&mut strokes, &fin);
    assert_eq!(stored.len(), 1);
    assert_eq!(stored[0].metadata.owner, Some(s("peer")));
    assert_eq!(stored[0].data.pressures, Some(vec![7, 8]));
    assert!(strokes[1].is_submitted_to_database);
    assert!(finish_strokes(&mut strokes, &fin).is_empty());
    assert_eq!(strokes_named(&strokes, 1.0f64.to_bits(), 1), vec![0]);
    assert!(strokes_named(&strokes, 1.0f64.to_bits(), 2).is_empty());
}

#[test]
fn mesh_bytes_roundtrip() {
    let verts = vec![[1.0f32.to_bits(), 2.0f32.to_bits(), 0], [3.5f32.to_bits(), (-4.0f32).to_bits(), 7]];
    let colors = vec![[0.25f32.to_bits(), 0.5f32.to_bits(), 0.75f32.to_bits(), 1.0f32.to_bits()]];
    let m = StrokeMesh::new(verts.clone(), vec![0, 1, 1], colors.clone());
    let vb = m.write_vertex_data();
    let cb = m.write_color_data();
    let as_floats: Vec<[f32; 3]> = vec![[1.0, 2.0, f32::from_bits(0)], [3.5, -4.0, f32::from_bits(7)]];
    assert_eq!(vb, safe_transmute::transmute_to_bytes(&as_floats).to_vec());
    assert_eq!(cb, safe_transmute::transmute_to_bytes(&[[0.25f32, 0.5, 0.75, 1.0]]).to_vec());
    let back = StrokeMesh::from_bytes(vb, vec![0, 1, 1], cb);
    assert_eq!(back.vertices, verts);
    assert_eq!(back.colors, colors);
    assert_eq!(back.indices, vec![0, 1, 1]);
}

#[test]
fn mesh_bytes_ignore_partial_groups() {
    let m = StrokeMesh::from_bytes(vec![1; 13], vec![], vec![2; 15]);
    assert_eq!(m.vertices, vec![[0x0101_0101u32; 3]]);
    assert!(m.colors.is_empty());
}
