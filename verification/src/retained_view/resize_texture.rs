//! Keeping the retained texture as large as the window.

use vstd::prelude::*;

verus! {

/// The window size seen last, in physical pixels.
pub struct TextureResizer {
    pub prev_width: u32,
    pub prev_height: u32,
}

/// The size the retained image is to be given when the window is `width` by
/// `height` after having been `prev_width` by `prev_height`: none when the
/// window kept its size, when there is no image, or when the image already
/// has that size.
pub open spec fn resize_to(
    prev_width: u32,
    prev_height: u32,
    width: u32,
    height: u32,
    image_size: Option<(u32, u32)>,
) -> Option<(u32, u32)> {
    if prev_width == width && prev_height == height {
        None
    } else {
        match image_size {
            Some((w, h)) => if w != width || h != height {
                Some((width, height))
            } else {
                None
            },
            None => None,
        }
    }
}

impl TextureResizer {
    /// No size seen yet (zero by zero).
    pub fn new() -> (t: TextureResizer)
        ensures
            t.prev_width == 0,
            t.prev_height == 0,
    {
        TextureResizer { prev_width: 0, prev_height: 0 }
    }

    /// Takes in the window size and the size of the retained image, if there
    /// is one, and says what size to give the image. The window size is
    /// remembered.
    pub fn observe(&mut self, width: u32, height: u32, image_size: Option<(u32, u32)>) -> (r: Option<(u32, u32)>)
        ensures
            final(self).prev_width == width,
            final(self).prev_height == height,
            r == resize_to(old(self).prev_width, old(self).prev_height, width, height, image_size),
    {
        if self.prev_height == height && self.prev_width == width {
            return None;
        }
        self.prev_height = height;
        self.prev_width = width;
        match image_size {
            Some((w, h)) => {
                if w != width || h != height {
                    Some((width, height))
                } else {
                    None
                }
            },
            None => None,
        }
    }
}

/// The same window size seen twice in a row resizes nothing the second time.
pub proof fn law_same_size_twice(
    prev_width: u32,
    prev_height: u32,
    width: u32,
    height: u32,
    first: Option<(u32, u32)>,
    second: Option<(u32, u32)>,
)
    ensures
        resize_to(width, height, width, height, second) is None,
        resize_to(prev_width, prev_height, width, height, first) matches Some(s) ==> s == (width, height),
{
}

} // verus!
