//! The retained view: strokes are drawn into a texture that is shown while
//! the camera is still, and drawn live while it moves. These are the
//! decisions of when to draw which.

pub mod resize_texture;

use vstd::prelude::*;

verus! {

/// A request about how the retained view is drawn.
#[derive(Clone, Copy, Debug, PartialEq, Eq, Structural)]
pub enum RetainedViewEvent {
    /// Something changed: draw live for a couple more frames.
    UpdateFrame,
    /// The camera moves: draw live until told otherwise.
    UpdateContinuous,
    /// The camera stopped: draw live a few frames more, then keep the image.
    RetainFrame,
}

/// Whether the camera started or stopped moving.
#[derive(Clone, Copy, Debug, PartialEq, Eq, Structural)]
pub enum CameraMovementStatusEvent {
    StartedMoving,
    StoppedMoving,
}

/// What one frame of the render loop does.
#[derive(Clone, Copy, Debug, PartialEq, Eq, Structural)]
pub enum RenderAction {
    /// Draw strokes live and keep the retained camera off.
    DrawLive,
    /// Capture the retained image: the retained camera on, the live strokes
    /// hidden and the retained image shown.
    CaptureRetained,
    /// Turn the retained camera off.
    StopCapture,
    /// Change nothing.
    Idle,
}

/// How many frames are left before the retained view stops drawing live;
/// -1 when it is idle.
pub struct RetainedView {
    pub frames_until_disabled: i32,
}

/// The render request that a change of camera movement makes.
pub open spec fn movement_request(e: CameraMovementStatusEvent) -> RetainedViewEvent {
    match e {
        CameraMovementStatusEvent::StartedMoving => RetainedViewEvent::UpdateContinuous,
        CameraMovementStatusEvent::StoppedMoving => RetainedViewEvent::RetainFrame,
    }
}

/// The render request that a change of camera movement makes.
pub fn render_request_for(e: CameraMovementStatusEvent) -> (r: RetainedViewEvent)
    ensures
        r == movement_request(e),
{
    match e {
        CameraMovementStatusEvent::StartedMoving => RetainedViewEvent::UpdateContinuous,
        CameraMovementStatusEvent::StoppedMoving => RetainedViewEvent::RetainFrame,
    }
}

/// The frame count after a render request.
pub open spec fn after_request(frames: i32, e: RetainedViewEvent) -> i32 {
    match e {
        RetainedViewEvent::UpdateFrame => if frames + 2 <= i32::MAX {
            (frames + 2) as i32
        } else {
            frames
        },
        RetainedViewEvent::UpdateContinuous => i32::MAX,
        RetainedViewEvent::RetainFrame => 5,
    }
}

/// What a frame does with `frames` frames left.
pub open spec fn frame_action(frames: i32) -> RenderAction {
    if frames == 1 {
        RenderAction::CaptureRetained
    } else if frames == 0 {
        RenderAction::StopCapture
    } else if frames > 0 {
        RenderAction::DrawLive
    } else {
        RenderAction::Idle
    }
}

/// The frame count after a frame: one less, but not below -1.
pub open spec fn after_frame(frames: i32) -> i32 {
    if frames - 1 >= -1 {
        (frames - 1) as i32
    } else {
        -1i32
    }
}

/// The actions of the next `n` frames from `frames` frames left, with no
/// request in between.
pub open spec fn frame_actions(frames: i32, n: nat) -> Seq<RenderAction>
    decreases n,
{
    if n == 0 {
        Seq::empty()
    } else {
        seq![frame_action(frames)] + frame_actions(after_frame(frames), (n - 1) as nat)
    }
}

impl RetainedView {
    /// Applies a render request.
    pub fn handle_render_event(&mut self, event: RetainedViewEvent)
        ensures
            final(self).frames_until_disabled == after_request(
                old(self).frames_until_disabled,
                event,
            ),
    {
        match event {
            RetainedViewEvent::UpdateFrame => {
                match self.frames_until_disabled.checked_add(2) {
                    Some(new) => {
                        self.frames_until_disabled = new;
                    },
                    None => {},
                }
            },
            RetainedViewEvent::UpdateContinuous => self.frames_until_disabled = i32::MAX,
            RetainedViewEvent::RetainFrame => {
                self.frames_until_disabled = 5;
            },
        }
    }

    /// Runs one frame of the render loop: says what to draw, and counts the
    /// frame.
    pub fn render_step(&mut self) -> (a: RenderAction)
        requires
            old(self).frames_until_disabled > i32::MIN,
        ensures
            a == frame_action(old(self).frames_until_disabled),
            final(self).frames_until_disabled == after_frame(old(self).frames_until_disabled),
    {
        let frames = self.frames_until_disabled;
        let action = if frames == 1 {
            RenderAction::CaptureRetained
        } else if frames == 0 {
            RenderAction::StopCapture
        } else if frames > 0 {
            RenderAction::DrawLive
        } else {
            RenderAction::Idle
        };
        self.frames_until_disabled = if frames - 1 >= -1 {
            frames - 1
        } else {
            -1i32
        };
        action
    }
}

/// With `f` frames left (at least one) and no request in between, the view
/// draws live for `f - 1` frames, captures the retained image once, turns
/// the retained camera off, and then stays idle.
pub proof fn lemma_settles_after(f: i32, idle: nat)
    requires
        f >= 1,
    ensures
        frame_actions(f, (f + 1 + idle) as nat) == Seq::new((f - 1) as nat, |i: int| RenderAction::DrawLive)
            + seq![RenderAction::CaptureRetained, RenderAction::StopCapture] + Seq::new(
            idle,
            |i: int| RenderAction::Idle,
        ),
    decreases f, idle,
{
    if f > 1 {
        lemma_settles_after((f - 1) as i32, idle);
        let tail = frame_actions((f - 1) as i32, (f + idle) as nat);
        assert(frame_actions(f, (f + 1 + idle) as nat) == seq![RenderAction::DrawLive] + tail);
        assert(Seq::new((f - 1) as nat, |i: int| RenderAction::DrawLive) =~= seq![
            RenderAction::DrawLive,
        ] + Seq::new((f - 2) as nat, |i: int| RenderAction::DrawLive));
    } else {
        lemma_idle_forever(idle);
        assert(frame_actions(0, (1 + idle) as nat) == seq![RenderAction::StopCapture]
            + frame_actions(-1i32, idle));
        assert(frame_actions(1, (2 + idle) as nat) == seq![RenderAction::CaptureRetained]
            + frame_actions(0, (1 + idle) as nat));
        assert(Seq::new(0, |i: int| RenderAction::DrawLive) =~= Seq::<RenderAction>::empty());
    }
}

/// An idle view stays idle.
pub proof fn lemma_idle_forever(n: nat)
    ensures
        frame_actions(-1i32, n) == Seq::new(n, |i: int| RenderAction::Idle),
    decreases n,
{
    if n > 0 {
        lemma_idle_forever((n - 1) as nat);
        assert(Seq::new(n, |i: int| RenderAction::Idle) =~= seq![RenderAction::Idle] + Seq::new(
            (n - 1) as nat,
            |i: int| RenderAction::Idle,
        ));
    } else {
        assert(Seq::new(0, |i: int| RenderAction::Idle) =~= Seq::<RenderAction>::empty());
    }
}

/// Once the camera stops, the view draws live for four more frames,
/// captures the retained image once, turns the retained camera off, and then
/// stays idle for as long as no request comes.
pub proof fn law_stop_then_retain(frames: i32, idle: nat)
    ensures
        frame_actions(after_request(frames, movement_request(CameraMovementStatusEvent::StoppedMoving)), 6 + idle)
            == seq![
            RenderAction::DrawLive,
            RenderAction::DrawLive,
            RenderAction::DrawLive,
            RenderAction::DrawLive,
            RenderAction::CaptureRetained,
            RenderAction::StopCapture,
        ] + Seq::new(idle, |i: int| RenderAction::Idle),
{
    lemma_settles_after(5, idle);
    assert(Seq::new(4, |i: int| RenderAction::DrawLive) + seq![
        RenderAction::CaptureRetained,
        RenderAction::StopCapture,
    ] =~= seq![
        RenderAction::DrawLive,
        RenderAction::DrawLive,
        RenderAction::DrawLive,
        RenderAction::DrawLive,
        RenderAction::CaptureRetained,
        RenderAction::StopCapture,
    ]);
}

/// The change of movement status when the camera changed last frame
/// (`before`) and this frame (`now`), if any.
pub open spec fn movement_change(before: bool, now: bool) -> Option<CameraMovementStatusEvent> {
    if before && !now {
        Some(CameraMovementStatusEvent::StoppedMoving)
    } else if !before && now {
        Some(CameraMovementStatusEvent::StartedMoving)
    } else {
        None
    }
}

/// Whether the camera changed in the last of the frames `changes`, the
/// detector having started from `start`.
pub open spec fn changed_last(start: bool, changes: Seq<bool>) -> bool {
    if changes.len() == 0 {
        start
    } else {
        changes.last()
    }
}

/// The changes of movement status that a detector starting from `start`
/// reports over the frames `changes`, in order.
pub open spec fn movement_events(start: bool, changes: Seq<bool>) -> Seq<CameraMovementStatusEvent>
    decreases changes.len(),
{
    if changes.len() == 0 {
        Seq::empty()
    } else {
        let prev = movement_events(start, changes.drop_last());
        match movement_change(changed_last(start, changes.drop_last()), changes.last()) {
            Some(e) => prev.push(e),
            None => prev,
        }
    }
}

/// Over any run from a still camera, the detector reports starting and
/// stopping in turn, starting first; it has reported an odd number of them
/// exactly when the camera changed in the last frame.
pub proof fn law_movement_alternates(changes: Seq<bool>)
    ensures
        forall|k: int|
            0 <= k < movement_events(false, changes).len() ==> #[trigger] movement_events(false, changes)[k]
                == if k % 2 == 0 {
                CameraMovementStatusEvent::StartedMoving
            } else {
                CameraMovementStatusEvent::StoppedMoving
            },
        (movement_events(false, changes).len() % 2 == 1) == changed_last(false, changes),
    decreases changes.len(),
{
    if changes.len() > 0 {
        let init = changes.drop_last();
        law_movement_alternates(init);
        let prev = movement_events(false, init);
        let cur = movement_events(false, changes);
        assert forall|k: int| 0 <= k < cur.len() implies #[trigger] cur[k] == if k % 2 == 0 {
            CameraMovementStatusEvent::StartedMoving
        } else {
            CameraMovementStatusEvent::StoppedMoving
        } by {
            if k < prev.len() {
                assert(cur[k] == prev[k]);
            }
        }
    }
}

/// Whether the camera moved, from one frame to the next.
pub struct CameraChangeDetector {
    pub did_change_last_frame: bool,
}

impl CameraChangeDetector {
    /// Takes whether the camera changed this frame, and gives the change of
    /// movement status, if any.
    pub fn observe(&mut self, has_changed: bool) -> (r: Option<CameraMovementStatusEvent>)
        ensures
            r == movement_change(old(self).did_change_last_frame, has_changed),
            final(self).did_change_last_frame == has_changed,
    {
        let r = if self.did_change_last_frame && !has_changed {
            Some(CameraMovementStatusEvent::StoppedMoving)
        } else if !self.did_change_last_frame && has_changed {
            Some(CameraMovementStatusEvent::StartedMoving)
        } else {
            None
        };
        self.did_change_last_frame = has_changed;
        r
    }
}

/// From a frame count of at least -1, requests and frames keep it at least
/// -1, so a frame can always be counted.
pub proof fn law_frames_stay_valid(frames: i32, e: RetainedViewEvent)
    requires
        frames >= -1,
    ensures
        after_request(frames, e) >= -1,
        after_frame(frames) >= -1,
        frames > i32::MIN,
{
}

} // verus!
