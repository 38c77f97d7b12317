//! Plain geometry data: rectangles and monitor snapshots.

use vstd::prelude::*;

verus! {

/// Height in pixels of the status-bar strip reserved at the top of a
/// monitor by every tiling layout except the full-screen one.
pub const BAR_HEIGHT: u32 = 16;

/// Height in pixels of the decoration strip a frame draws above the
/// client window it wraps.
pub const FRAME_HEIGHT: u32 = 16;

/// A rectangle in screen coordinates.  Positions may be negative (a
/// monitor can sit left of or above the primary one); sizes are positive.
#[derive(Clone, Copy, Debug, PartialEq, Eq, Structural)]
pub struct Rect {
    pub x: i32,
    pub y: i32,
    pub w: u32,
    pub h: u32,
}

impl Rect {
    /// Bounds that keep every rectangle representable on the wire
    /// (positions as 16-bit signed, sizes as 16-bit unsigned values)
    /// and keep all layout arithmetic free of overflow.
    pub open spec fn wf(self) -> bool {
        &&& -0x8000 <= self.x <= 0x7fff
        &&& -0x8000 <= self.y <= 0x7fff
        &&& 1 <= self.w <= 0xffff
        &&& 1 <= self.h <= 0xffff
    }

    pub fn new(x: i32, y: i32, w: u32, h: u32) -> (r: Rect)
        requires
            -0x8000 <= x <= 0x7fff,
            -0x8000 <= y <= 0x7fff,
            1 <= w <= 0xffff,
            1 <= h <= 0xffff,
        ensures
            r == (Rect { x, y, w, h }),
            r.wf(),
    {
        Rect { x, y, w, h }
    }
}

/// An immutable snapshot of one physical display for one layout pass:
/// a stable id plus its geometry.
#[derive(Clone, Copy, Debug, PartialEq, Eq, Structural)]
pub struct Monitor {
    pub id: usize,
    pub rect: Rect,
}

impl Monitor {
    /// A monitor must at least be tall enough to hold the bar strip and
    /// one pixel row of client area.
    pub open spec fn wf(self) -> bool {
        &&& self.rect.wf()
        &&& self.rect.h > BAR_HEIGHT
    }

    pub fn new(id: usize, rect: Rect) -> (r: Monitor)
        requires
            rect.wf(),
            rect.h > BAR_HEIGHT,
        ensures
            r == (Monitor { id, rect }),
            r.wf(),
    {
        Monitor { id, rect }
    }
}

} // verus!
