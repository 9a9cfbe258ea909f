//! Drawing backend interface consumed by the drawing helpers.
use vstd::prelude::*;

use crate::draw::DrawOp;
use crate::widget::{Color, Rect};

verus! {

/// A drawing backend: verbs invoked one at a time.
pub trait Renderer {
    /// The fill and blend calls this renderer has received, oldest first.
    ///
    /// Verified drawing code states its effect as the calls it appends
    /// here; a backend outside verified code implements it by returning the
    /// calls it has recorded.
    spec fn drawn(&self) -> Vec<DrawOp>;

    /// Overwrite the pixels of `rect` with `color`.
    fn fill_rect(&mut self, rect: Rect, color: Color)
        ensures
            final(self).drawn()@ == old(self).drawn()@.push(DrawOp::Fill(rect, color)),
    ;

    /// Alpha-blend `color` over the pixels of `rect`.
    fn blend_rect(&mut self, rect: Rect, color: Color)
        ensures
            final(self).drawn()@ == old(self).drawn()@.push(DrawOp::Blend(rect, color)),
    ;

    /// Draw `text` with its origin at `pos`.
    fn draw_text(&mut self, pos: (i32, i32), text: &str, color: Color);
}

} // verus!
