//! Border drawing: up to four thin filled rectangles.
//!
//! Left and right edges are full-height strips at the horizontal extents;
//! bottom and top edges are full-width strips at the vertical extents. An
//! edge is drawn only when its thickness resolves to a positive number of
//! points. The rect is already in the page's bottom-left basis.

use vstd::prelude::*;

use crate::hex_color::Rgb;
use crate::rect::{rect_within, Rect, DRAW_LIMIT};
use crate::render::{cmds_view, spec_border, Cmd, CmdV};
use crate::style::{dim_rect_bounded, DimRect, Dimension};

verus! {

/// One node's border paint job.
#[derive(Debug)]
pub struct Border {
    pub border: DimRect,
    pub border_color: Rgb,
    pub rect: Rect,
}

impl Border {
    /// Append the edge commands for this rect, left, right, bottom, top.
    pub fn draw(&self, cmds: &mut Vec<Cmd>)
        requires
            rect_within(self.rect, DRAW_LIMIT as int),
            dim_rect_bounded(self.border),
        ensures
            cmds_view(final(cmds)@) =~= cmds_view(old(cmds)@) + spec_border(
                self.border,
                self.border_color,
                self.rect,
            ),
    {
        if let Dimension::Points(left) = self.border.left {
            if left > 0 {
                self.draw_border(
                    cmds,
                    Rect::new(self.rect.x, self.rect.y, left, self.rect.height),
                );
            }
        }
        if let Dimension::Points(right) = self.border.right {
            if right > 0 {
                self.draw_border(
                    cmds,
                    Rect::new(
                        self.rect.x + self.rect.width - right,
                        self.rect.y,
                        right,
                        self.rect.height,
                    ),
                );
            }
        }
        if let Dimension::Points(bottom) = self.border.bottom {
            if bottom > 0 {
                self.draw_border(
                    cmds,
                    Rect::new(self.rect.x, self.rect.y, self.rect.width, bottom),
                );
            }
        }
        if let Dimension::Points(top) = self.border.top {
            if top > 0 {
                self.draw_border(
                    cmds,
                    Rect::new(
                        self.rect.x,
                        self.rect.y + self.rect.height - top,
                        self.rect.width,
                        top,
                    ),
                );
            }
        }
    }

    /// Append one filled edge rectangle in this border's colour.
    pub fn draw_border(&self, cmds: &mut Vec<Cmd>, rect: Rect)
        ensures
            cmds_view(final(cmds)@) =~= cmds_view(old(cmds)@).push(
                CmdV::Poly { rect, color: self.border_color },
            ),
    {
        cmds.push(Cmd::Poly { rect, color: self.border_color });
        proof {
            assert(cmds_view(cmds@) =~= cmds_view(old(cmds)@).push(
                CmdV::Poly { rect, color: self.border_color },
            ));
        }
    }
}

} // verus!
