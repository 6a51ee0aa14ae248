//! A second form of the retained view, driven by camera movement alone: the
//! retained camera draws one frame when the camera comes to rest.

use vstd::prelude::*;

verus! {

/// The state that the toggle reads and sets: whether the retained camera
/// must be turned off next frame, whether it is on, and whether the main
/// camera shows the live stroke layer (rather than the retained image).
#[derive(Clone, Copy, Debug, PartialEq, Eq, Structural)]
pub struct RetainedCameraToggle {
    pub disable_next_frame: bool,
    pub camera_active: bool,
    pub shows_live_layer: bool,
}

/// The state after a frame in which the camera moved (`should_activate`) or
/// not.
pub open spec fn toggle_step(s: RetainedCameraToggle, should_activate: bool) -> RetainedCameraToggle {
    let s1 = if s.disable_next_frame {
        RetainedCameraToggle { camera_active: false, disable_next_frame: false, ..s }
    } else {
        s
    };
    if should_activate {
        RetainedCameraToggle { shows_live_layer: true, camera_active: false, disable_next_frame: false }
    } else if s1.shows_live_layer {
        RetainedCameraToggle { shows_live_layer: false, camera_active: true, disable_next_frame: true }
    } else {
        s1
    }
}

impl RetainedCameraToggle {
    /// Runs the toggle for one frame.
    pub fn step(&mut self, should_activate: bool)
        ensures
            *final(self) == toggle_step(*old(self), should_activate),
    {
        if self.disable_next_frame {
            self.camera_active = false;
            self.disable_next_frame = false;
        }
        if should_activate {
            self.shows_live_layer = true;
            self.camera_active = false;
            self.disable_next_frame = false;
        }
        if !should_activate && self.shows_live_layer {
            self.shows_live_layer = false;
            self.camera_active = true;
            self.disable_next_frame = true;
        }
    }
}

/// When the camera comes to rest after moving, the retained camera is on for
/// the first still frame only, and the retained image stays shown.
pub proof fn law_one_capture_per_stop(s: RetainedCameraToggle)
    ensures
        ({
            let moving = toggle_step(s, true);
            let first = toggle_step(moving, false);
            let second = toggle_step(first, false);
            &&& moving.shows_live_layer && !moving.camera_active
            &&& first.camera_active && !first.shows_live_layer
            &&& !second.camera_active && !second.shows_live_layer
            &&& toggle_step(second, false) == second
        }),
{
}

} // verus!
