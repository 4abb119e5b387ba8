//! Rectangles in integer length units.
//!
//! Three coordinate bases run through the pipeline and are never mixed
//! without an explicit conversion:
//! - *local*: position relative to the immediate parent, origin top-left,
//!   y growing downward (the solver's native output);
//! - *absolute top-left*: local rects translated along the root-to-node
//!   path (`add_position`);
//! - *bottom-left*: y flipped against the page height, applied exactly once,
//!   immediately before a drawing primitive is emitted
//!   (`to_bottom_left_base`).

use vstd::prelude::*;

verus! {

/// Every rect handed in by the solver driver keeps each field within this
/// bound, so that sums along a root-to-node path of at most `DEPTH_LIMIT`
/// rects stay well inside `i64`.
pub const RECT_LIMIT: i64 = 1_000_000_000_000;

/// Upper bound on the height of a layout tree accepted by the renderer.
pub const DEPTH_LIMIT: i64 = 1_000_000;

/// `DEPTH_LIMIT * RECT_LIMIT`: every absolute coordinate, accumulated over
/// at most `DEPTH_LIMIT` bounded local rects, stays within this.
pub const ABS_LIMIT: i64 = 1_000_000_000_000_000_000;

/// Working bound for the rects handed to drawing primitives; sums of three
/// such coordinates still fit an `i64`.
pub const DRAW_LIMIT: i64 = 3_000_000_000_000_000_000;

/// A rectangle; which of the three bases its values are in is decided by
/// the context that computed it.
#[derive(Clone, Copy, Debug, PartialEq, Eq, Structural)]
pub struct Rect {
    pub x: i64,
    pub y: i64,
    pub width: i64,
    pub height: i64,
}

/// All four fields within `bound` in magnitude.
pub open spec fn rect_within(r: Rect, bound: int) -> bool {
    &&& -bound <= r.x <= bound
    &&& -bound <= r.y <= bound
    &&& -bound <= r.width <= bound
    &&& -bound <= r.height <= bound
}

impl Rect {
    /// A solver-supplied rect: each field within `RECT_LIMIT`.
    pub open spec fn in_bounds(self) -> bool {
        rect_within(self, RECT_LIMIT as int)
    }

    pub fn new(x: i64, y: i64, width: i64, height: i64) -> (r: Rect)
        ensures
            r == (Rect { x, y, width, height }),
    {
        Rect { x, y, width, height }
    }

    /// Translate a local rect by its parent's absolute position; the size is
    /// kept. Accumulating this along a path realises
    /// `absolute(node) == absolute(parent) + local(node)`.
    pub fn add_position(&self, rect: &Rect) -> (r: Rect)
        requires
            i64::MIN <= self.x + rect.x <= i64::MAX,
            i64::MIN <= self.y + rect.y <= i64::MAX,
        ensures
            r.x == self.x + rect.x,
            r.y == self.y + rect.y,
            r.width == self.width,
            r.height == self.height,
    {
        Rect { x: self.x + rect.x, y: self.y + rect.y, width: self.width, height: self.height }
    }

    /// Flip a top-left-based rect against the page height, for an output
    /// format whose origin is the bottom-left corner with y growing upward.
    /// The result satisfies `r.y + self.y + self.height == page_height`.
    pub fn to_bottom_left_base(&self, page_height: i64) -> (r: Rect)
        requires
            i64::MIN <= page_height - self.y <= i64::MAX,
            i64::MIN <= page_height - self.y - self.height <= i64::MAX,
        ensures
            r.x == self.x,
            r.y == page_height - self.y - self.height,
            r.width == self.width,
            r.height == self.height,
            r.y + self.y + self.height == page_height,
    {
        Rect {
            x: self.x,
            y: page_height - self.y - self.height,
            width: self.width,
            height: self.height,
        }
    }

    /// The same rect with its height replaced.
    pub fn set_height(&self, height: i64) -> (r: Rect)
        ensures
            r == (Rect { x: self.x, y: self.y, width: self.width, height }),
    {
        Rect { x: self.x, y: self.y, width: self.width, height }
    }

    pub fn right(&self) -> (v: i64)
        requires
            i64::MIN <= self.x + self.width <= i64::MAX,
        ensures
            v == self.x + self.width,
    {
        self.x + self.width
    }

    pub fn bottom(&self) -> (v: i64)
        requires
            i64::MIN <= self.y + self.height <= i64::MAX,
        ensures
            v == self.y + self.height,
    {
        self.y + self.height
    }

    /// The four corners, in drawing order: top-left, top-right, bottom-right,
    /// bottom-left (in the basis of `self`). The driver turns them into the
    /// writer's closed polygon.
    pub fn to_points(&self) -> (pts: Vec<(i64, i64)>)
        requires
            i64::MIN <= self.x + self.width <= i64::MAX,
            i64::MIN <= self.y + self.height <= i64::MAX,
        ensures
            pts@ =~= seq![
                (self.x, self.y),
                ((self.x + self.width) as i64, self.y),
                ((self.x + self.width) as i64, (self.y + self.height) as i64),
                (self.x, (self.y + self.height) as i64),
            ],
    {
        let r = self.right();
        let b = self.bottom();
        let mut pts: Vec<(i64, i64)> = Vec::new();
        pts.push((self.x, self.y));
        pts.push((r, self.y));
        pts.push((r, b));
        pts.push((self.x, b));
        pts
    }
}

} // verus!
