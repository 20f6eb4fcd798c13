//! Drawing the frame of a rectangle.

use vstd::prelude::*;
use crate::bindings::{on_outline, DRAW_LIMIT};
use crate::raster::Image;

verus! {

/// A rectangle of samples: its top left corner, its width and its height.
#[derive(Clone, Copy, Debug, PartialEq, Eq, Structural)]
pub struct Rect {
    pub left: i32,
    pub top: i32,
    pub width: u32,
    pub height: u32,
}

impl Rect {
    /// The column of the rightmost samples.
    pub open spec fn right(self) -> int {
        self.left + self.width - 1
    }

    /// The row of the lowest samples.
    pub open spec fn bottom(self) -> int {
        self.top + self.height - 1
    }

    /// Whether a frame of the given thickness around this rectangle can be
    /// drawn: the rectangle and the thickness are not empty, and no
    /// coordinate leaves the range in which the drawing is exact.
    pub open spec fn drawable(self, thickness: u32) -> bool {
        &&& self.width >= 1
        &&& self.height >= 1
        &&& thickness >= 1
        &&& -DRAW_LIMIT <= self.left
        &&& -DRAW_LIMIT <= self.top
        &&& self.right() + thickness <= DRAW_LIMIT
        &&& self.bottom() + thickness <= DRAW_LIMIT
    }

    /// Whether `(x, y)` belongs to the frame of the given thickness: to the
    /// outline of one of four bands, each `thickness` wide, that start at
    /// the top, bottom, left and right edge of the rectangle and reach to
    /// the right and downwards from there.
    pub open spec fn on_frame(self, thickness: u32, x: int, y: int) -> bool {
        ||| on_outline(self.left as int, self.top as int, self.width as int, thickness as int, x, y)
        ||| on_outline(self.left as int, self.bottom(), self.width as int, thickness as int, x, y)
        ||| on_outline(self.left as int, self.top as int, thickness as int, self.height as int, x, y)
        ||| on_outline(self.right(), self.top as int, thickness as int, self.height as int, x, y)
    }
}

/// Draws the frame of a rectangle on an image, as far as it lies on it.
pub fn rectangle(canvas: &mut Image, rect: Rect, color: u8, thickness: u32)
    requires
        old(canvas).wf(),
        old(canvas).spec_width() <= DRAW_LIMIT,
        old(canvas).spec_height() <= DRAW_LIMIT,
        rect.drawable(thickness),
    ensures
        final(canvas).wf(),
        final(canvas).same_shape(old(canvas)),
        forall|x: int, y: int|
            old(canvas).contains(x, y) ==> #[trigger] final(canvas).at(x, y) == (if rect.on_frame(
                thickness,
                x,
                y,
            ) {
                color
            } else {
                old(canvas).at(x, y)
            }),
{
    let left = rect.left;
    let top = rect.top;
    let right: i32 = rect.left + (rect.width as i32) - 1;
    let bottom: i32 = rect.top + (rect.height as i32) - 1;
    canvas.draw_hollow_rect(left, top, rect.width, thickness, color);
    canvas.draw_hollow_rect(left, bottom, rect.width, thickness, color);
    canvas.draw_hollow_rect(left, top, thickness, rect.height, color);
    canvas.draw_hollow_rect(right, top, thickness, rect.height, color);
}

} // verus!
