//! Visual style of a widget's box: background, border and opacity.
use vstd::prelude::*;

use crate::widget::Color;

verus! {

/// Box style consumed by [`crate::draw::draw_widget_bg`].
#[derive(Debug, Clone, Copy, PartialEq, Eq, Structural)]
pub struct Style {
    /// Background colour.
    pub bg_color: Color,
    /// Border colour.
    pub border_color: Color,
    /// Border width in pixels.
    pub border_width: u8,
    /// Opacity applied to background and border.
    pub alpha: u8,
    /// Corner radius in pixels.
    pub radius: u8,
}

} // verus!
