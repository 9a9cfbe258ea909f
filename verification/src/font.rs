//! Backend-neutral font metrics, shaping, and greedy LTR wrapping.
//!
//! A font backend reports per-glyph advances and font-wide line metrics
//! through [`FontMetrics`]; measurement, shaping and wrapping are computed
//! from those reports alone.
use vstd::prelude::*;
use vstd::std_specs::iter::IteratorSpec;

use crate::edit::{lemma_encode_take_step, utf8_width};
use crate::widget::Rect;
use vstd::utf8::encode_utf8;

verus! {

/// Opaque identifier for a font registered with a display or platform font registry.
#[derive(Debug, Clone, Copy, PartialEq, Eq, PartialOrd, Ord, Hash, Structural)]
pub struct FontId(pub u16);

impl FontId {
    /// The default font registered for a display.
    #[allow(non_snake_case)]
    pub fn DEFAULT() -> (r: Self)
        ensures
            r == FontId(0),
    {
        FontId(0)
    }
}

/// Per-glyph advance and bitmap extent information.
#[derive(Debug, Clone, Copy, PartialEq, Eq, Structural)]
pub struct GlyphInfo {
    /// Horizontal advance in 1/16 pixel units.
    pub advance_fp16: u16,
    /// Left bearing from the glyph origin in pixels.
    pub bearing_x: i16,
    /// Top bearing from the baseline in pixels.
    pub bearing_y: i16,
    /// Glyph bitmap width in pixels.
    pub width: u16,
    /// Glyph bitmap height in pixels.
    pub height: u16,
}

/// Font-level vertical metrics.
#[derive(Debug, Clone, Copy, PartialEq, Eq, Structural)]
pub struct FontLineMetrics {
    /// Full line height in pixels.
    pub line_height: u16,
    /// Pixels above the baseline.
    pub ascent: i16,
    /// Pixels below the baseline, stored as a positive value.
    pub descent: i16,
}

/// Absolute placement of one shaped glyph.
#[derive(Debug, Clone, Copy, PartialEq, Eq, Structural)]
pub struct GlyphPlacement {
    /// Source character represented by this placement.
    pub ch: char,
    /// Glyph metrics used for this placement.
    pub info: GlyphInfo,
    /// Absolute glyph origin on the horizontal axis.
    pub x: i32,
    /// Absolute glyph origin on the vertical axis; this is the baseline.
    pub y: i32,
}

/// Tight bitmap extent of a glyph placed at `(x, y)`, as integer edges.
pub open spec fn extent_spec(x: int, y: int, info: GlyphInfo) -> (int, int, int, int) {
    (x + info.bearing_x, y - info.bearing_y, info.width as int, info.height as int)
}

/// Whether the extent of a glyph placed at `(x, y)` fits in `i32`.
pub open spec fn extent_fits(x: int, y: int, info: GlyphInfo) -> bool {
    let e = extent_spec(x, y, info);
    i32::MIN <= e.0 <= i32::MAX && i32::MIN <= e.1 <= i32::MAX
}

/// Rectangle with the given integer edges.
pub open spec fn rect_from(e: (int, int, int, int)) -> Rect {
    Rect { x: e.0 as i32, y: e.1 as i32, width: e.2 as i32, height: e.3 as i32 }
}

impl GlyphPlacement {
    /// This glyph's tight bitmap extent in absolute coordinates.
    pub fn extent(&self) -> (r: Rect)
        requires
            extent_fits(self.x as int, self.y as int, self.info),
        ensures
            r == rect_from(extent_spec(self.x as int, self.y as int, self.info)),
    {
        Rect {
            x: self.x + self.info.bearing_x as i32,
            y: self.y - self.info.bearing_y as i32,
            width: self.info.width as i32,
            height: self.info.height as i32,
        }
    }
}

/// Glyph-level metrics query for a font backend.
///
/// A backend reports what it knows of each glyph through
/// [`FontMetrics::glyph_metrics`] and of its lines through
/// [`FontMetrics::line_metrics`]. Both answers are fixed per font:
/// [`FontMetrics::glyph_spec`] and [`FontMetrics::line_spec`] name them, and
/// a backend outside verified code implements each by returning the answer
/// of the corresponding query.
pub trait FontMetrics {
    /// What [`FontMetrics::glyph_metrics`] reports for `ch`.
    spec fn glyph_spec(&self, ch: char) -> Option<GlyphInfo>;

    /// What [`FontMetrics::line_metrics`] reports.
    spec fn line_spec(&self) -> FontLineMetrics;

    /// Per-glyph advance and extent information for `ch`, or `None` when
    /// the font has no glyph for it.
    fn glyph_metrics(&self, ch: char) -> (r: Option<GlyphInfo>)
        ensures
            r == self.glyph_spec(ch),
    ;

    /// Font-level vertical metrics.
    fn line_metrics(&self) -> (r: FontLineMetrics)
        ensures
            r == self.line_spec(),
    ;

    /// Fill one row of glyph coverage for `ch`; `false` means this backend
    /// has no coverage data for `ch`.
    fn glyph_coverage_row(&self, ch: char, row: u16, x_offset: u16, coverage: &mut [u8]) -> (r: bool)
        default_ensures
            !r,
            final(coverage)@ == old(coverage)@,
    {
        false
    }
}

/// The zero-width space, a break opportunity that takes no room.
pub open spec fn is_zero_width_break_spec(ch: char) -> bool {
    ch == '\u{200B}'
}

/// Advance used for a character the font has no glyph for: half the line
/// height, rounded up, in 1/16 pixel units.
pub open spec fn fallback_advance_spec<F: FontMetrics + ?Sized>(font: &F) -> int {
    ((font.line_spec().line_height as int + 1) / 2) * 16
}

/// Advance of `ch` in 1/16 pixel units.
pub open spec fn glyph_advance_spec<F: FontMetrics + ?Sized>(font: &F, ch: char) -> int {
    match font.glyph_spec(ch) {
        Some(info) => info.advance_fp16 as int,
        None => fallback_advance_spec(font),
    }
}

/// Running `(total, glyphs)` after measuring `chars` with `spacing` (1/16
/// pixel units) between adjacent visible glyphs; zero-width spaces are
/// skipped.
pub open spec fn measure_state<F: FontMetrics + ?Sized>(font: &F, chars: Seq<char>, spacing: int) -> (int, int)
    decreases chars.len(),
{
    if chars.len() == 0 {
        (0, 0)
    } else {
        let prev = measure_state(font, chars.drop_last(), spacing);
        let c = chars.last();
        if is_zero_width_break_spec(c) {
            prev
        } else {
            let t = if prev.1 > 0 { prev.0 + spacing } else { prev.0 };
            (t + glyph_advance_spec(font, c), prev.1 + 1)
        }
    }
}

/// Whether every running total of [`measure_state`] fits in `i32`.
pub open spec fn measure_fits<F: FontMetrics + ?Sized>(font: &F, chars: Seq<char>, spacing: int) -> bool
    decreases chars.len(),
{
    if chars.len() == 0 {
        true
    } else {
        let prev = measure_state(font, chars.drop_last(), spacing);
        let c = chars.last();
        let t = if prev.1 > 0 { prev.0 + spacing } else { prev.0 };
        &&& measure_fits(font, chars.drop_last(), spacing)
        &&& !is_zero_width_break_spec(c) ==> {
            &&& i32::MIN <= t <= i32::MAX
            &&& i32::MIN <= t + glyph_advance_spec(font, c) <= i32::MAX
        }
    }
}

/// Measured width of `chars` in 1/16 pixel units (never below zero).
pub open spec fn measure_spec<F: FontMetrics + ?Sized>(font: &F, chars: Seq<char>, spacing: int) -> int {
    let t = measure_state(font, chars, spacing).0;
    if t > 0 { t } else { 0 }
}

/// Fitting is inherited by every prefix.
proof fn lemma_measure_fits_prefix<F: FontMetrics + ?Sized>(font: &F, chars: Seq<char>, spacing: int, i: int)
    requires
        measure_fits(font, chars, spacing),
        0 <= i <= chars.len(),
    ensures
        measure_fits(font, chars.take(i), spacing),
    decreases chars.len() - i,
{
    if i < chars.len() {
        assert(chars.drop_last().take(i) =~= chars.take(i));
        lemma_measure_fits_prefix(font, chars.drop_last(), spacing, i);
    } else {
        assert(chars.take(i) =~= chars);
    }
}

fn is_zero_width_break(ch: char) -> (r: bool)
    ensures
        r == is_zero_width_break_spec(ch),
{
    ch == '\u{200B}'
}

fn fallback_advance_fp16<F: FontMetrics + ?Sized>(font: &F) -> (r: i32)
    ensures
        r == fallback_advance_spec(font),
{
    let lm = font.line_metrics();
    ((lm.line_height as i32 + 1) / 2) * 16
}

fn glyph_advance_fp16<F: FontMetrics + ?Sized>(font: &F, ch: char) -> (r: i32)
    ensures
        r == glyph_advance_spec(font, ch),
{
    match font.glyph_metrics(ch) {
        Some(info) => info.advance_fp16 as i32,
        None => fallback_advance_fp16(font),
    }
}

/// The number of chars of `s`, which fits in `usize`.
pub(crate) fn char_bound(s: &str) -> (r: usize)
    ensures
        r == s@.len(),
{
    s.unicode_len()
}

/// Measure `text` with additional per-glyph letter spacing.
///
/// `letter_spacing_px` is applied between adjacent visible glyphs. It may be
/// negative; the measured width never drops below zero.
pub fn measure_text_fp16<F: FontMetrics + ?Sized>(font: &F, text: &str, letter_spacing_px: i8) -> (r: i32)
    requires
        measure_fits(font, text@, letter_spacing_px * 16),
    ensures
        r == measure_spec(font, text@, letter_spacing_px * 16),
        r >= 0,
{
    let ghost all = text@;
    let ghost sp = letter_spacing_px * 16;
    let _n = char_bound(text);
    let spacing: i32 = letter_spacing_px as i32 * 16;
    let mut total: i32 = 0;
    let mut any = false;
    let mut i: usize = 0;
    let mut it = text.chars();
    proof {
        assert(all.take(0) =~= Seq::<char>::empty());
    }
    loop
        invariant
            all == text@,
            sp == spacing,
            all.len() <= usize::MAX,
            measure_fits(font, all, sp),
            i <= all.len(),
            it.remaining() == all.skip(i as int),
            total == measure_state(font, all.take(i as int), sp).0,
            any == (measure_state(font, all.take(i as int), sp).1 > 0),
            measure_state(font, all.take(i as int), sp).1 >= 0,
        ensures
            total == measure_state(font, all, sp).0,
        decreases all.len() - i,
    {
        match it.next() {
            Some(ch) => {
                proof {
                    assert(all.take(i + 1).drop_last() =~= all.take(i as int));
                    assert(all.take(i + 1).last() == ch);
                    lemma_measure_fits_prefix(font, all, sp, i + 1);
                    assert(all.skip(i + 1) =~= all.skip(i as int).drop_first());
                }
                if !is_zero_width_break(ch) {
                    if any {
                        total = total + spacing;
                    }
                    total = total + glyph_advance_fp16(font, ch);
                    any = true;
                }
                i = i + 1;
            },
            None => {
                proof {
                    assert(all.take(i as int) =~= all);
                }
                break;
            },
        }
    }
    if total > 0 {
        total
    } else {
        0
    }
}

/// Shaped text ready for measurement, wrapping, clipping, or drawing.
pub struct ShapedText<'a> {
    /// Glyph placements in visual draw order.
    pub glyphs: Vec<GlyphPlacement>,
    /// Total horizontal advance in 1/16 pixel units.
    pub total_advance_fp16: i32,
    /// Tight bounding box of all glyph extents.
    pub bounds: Rect,
    /// Paragraph bidi level; shaping is LTR-only and sets this to `0`.
    pub bidi_level: u8,
    /// Font that produced this shaped run, when available.
    pub font: Option<&'a dyn FontMetrics>,
}

impl<'a> ShapedText<'a> {
    /// An empty shaped run anchored at `origin`.
    pub fn empty(origin: (i32, i32)) -> (r: Self)
        ensures
            r.glyphs@.len() == 0,
            r.total_advance_fp16 == 0,
            r.bounds == (Rect { x: origin.0, y: origin.1, width: 0, height: 0 }),
            r.bidi_level == 0,
            r.font is None,
    {
        ShapedText {
            glyphs: Vec::new(),
            total_advance_fp16: 0,
            bounds: Rect { x: origin.0, y: origin.1, width: 0, height: 0 },
            bidi_level: 0,
            font: None,
        }
    }
}

/// Shaping state after a prefix of the text: the pen position (1/16 px),
/// the number of glyphs consumed, the placements made and their bounds.
pub struct ShapeState {
    /// Pen position in 1/16 pixel units.
    pub cursor: int,
    /// Visible characters consumed, including those without a glyph.
    pub count: int,
    /// Placements of the characters that have a glyph.
    pub glyphs: Seq<GlyphPlacement>,
    /// Union of the placed extents, if any glyph was placed.
    pub bounds: Option<Rect>,
}

/// Pen offset in whole pixels for a pen position in 1/16 pixel units,
/// rounded to the nearest pixel.
pub open spec fn pen_pixels(cursor_fp16: int) -> int {
    (cursor_fp16 + 8) / 16
}

/// Shaping state after `chars`, see [`ShapeState`].
pub open spec fn shape_state<F: FontMetrics + ?Sized>(font: &F, chars: Seq<char>, origin: (i32, i32), spacing: int) -> ShapeState
    decreases chars.len(),
{
    if chars.len() == 0 {
        ShapeState { cursor: 0, count: 0, glyphs: Seq::empty(), bounds: None }
    } else {
        let prev = shape_state(font, chars.drop_last(), origin, spacing);
        let c = chars.last();
        if is_zero_width_break_spec(c) {
            prev
        } else {
            let cursor = if prev.count > 0 { prev.cursor + spacing } else { prev.cursor };
            match font.glyph_spec(c) {
                None => ShapeState {
                    cursor: cursor + fallback_advance_spec(font),
                    count: prev.count + 1,
                    glyphs: prev.glyphs,
                    bounds: prev.bounds,
                },
                Some(info) => {
                    let x = origin.0 + pen_pixels(cursor);
                    let placement = GlyphPlacement { ch: c, info, x: x as i32, y: origin.1 };
                    let extent = rect_from(extent_spec(x, origin.1 as int, info));
                    let bounds = match prev.bounds {
                        None => extent,
                        Some(b) => rect_from(b.union_spec(extent)),
                    };
                    ShapeState {
                        cursor: cursor + info.advance_fp16,
                        count: prev.count + 1,
                        glyphs: prev.glyphs.push(placement),
                        bounds: Some(bounds),
                    }
                },
            }
        }
    }
}

/// Shaping advances the pen exactly as measuring does: after any text the
/// shaping cursor is the measured running total and the shaped glyph count
/// the measured count, so a shaped run's total advance is the text's
/// measured width.
pub proof fn lemma_shaping_advances_as_measured<F: FontMetrics + ?Sized>(
    font: &F,
    chars: Seq<char>,
    origin: (i32, i32),
    spacing: int,
)
    ensures
        shape_state(font, chars, origin, spacing).cursor == measure_state(font, chars, spacing).0,
        shape_state(font, chars, origin, spacing).count == measure_state(font, chars, spacing).1,
        (if shape_state(font, chars, origin, spacing).cursor > 0 { shape_state(font, chars, origin, spacing).cursor } else { 0 })
            == measure_spec(font, chars, spacing),
    decreases chars.len(),
{
    if chars.len() > 0 {
        lemma_shaping_advances_as_measured(font, chars.drop_last(), origin, spacing);
    }
}

/// Whether shaping `chars` stays within `i32` arithmetic.
pub open spec fn shape_fits<F: FontMetrics + ?Sized>(font: &F, chars: Seq<char>, origin: (i32, i32), spacing: int) -> bool
    decreases chars.len(),
{
    if chars.len() == 0 {
        true
    } else {
        let prev = shape_state(font, chars.drop_last(), origin, spacing);
        let c = chars.last();
        let cursor = if prev.count > 0 { prev.cursor + spacing } else { prev.cursor };
        &&& shape_fits(font, chars.drop_last(), origin, spacing)
        &&& !is_zero_width_break_spec(c) ==> {
            &&& i32::MIN <= cursor && cursor + 8 <= i32::MAX
            &&& match font.glyph_spec(c) {
                None => i32::MIN <= cursor + fallback_advance_spec(font) <= i32::MAX,
                Some(info) => {
                    let x = origin.0 + pen_pixels(cursor);
                    let extent = rect_from(extent_spec(x, origin.1 as int, info));
                    &&& i32::MIN <= x <= i32::MAX
                    &&& extent_fits(x, origin.1 as int, info)
                    &&& prev.bounds matches Some(b) ==> b.union_fits(extent)
                    &&& i32::MIN <= cursor + info.advance_fp16 <= i32::MAX
                },
            }
        }
    }
}

/// Fitting is inherited by every prefix.
proof fn lemma_shape_fits_prefix<F: FontMetrics + ?Sized>(font: &F, chars: Seq<char>, origin: (i32, i32), spacing: int, i: int)
    requires
        shape_fits(font, chars, origin, spacing),
        0 <= i <= chars.len(),
    ensures
        shape_fits(font, chars.take(i), origin, spacing),
    decreases chars.len() - i,
{
    if i < chars.len() {
        assert(chars.drop_last().take(i) =~= chars.take(i));
        lemma_shape_fits_prefix(font, chars.drop_last(), origin, spacing, i);
    } else {
        assert(chars.take(i) =~= chars);
    }
}

/// Pen offset in whole pixels, see [`pen_pixels`].
fn pen_offset(cursor: i32) -> (r: i32)
    requires
        cursor + 8 <= i32::MAX,
    ensures
        r == pen_pixels(cursor as int),
{
    let v: i64 = cursor as i64 + 8;
    let q: i64 = if v >= 0 {
        v / 16
    } else {
        proof {
            let w = -v;
            assert((-w) / 16 == -((w + 15) / 16)) by (nonlinear_arith)
                requires
                    w > 0,
            ;
        }
        -((-v + 15) / 16)
    };
    q as i32
}

/// Placements, total advance and bounds of `text` shaped at `origin`.
fn shape_glyphs<F: FontMetrics + ?Sized>(
    font: &F,
    text: &str,
    origin: (i32, i32),
    letter_spacing_px: i8,
) -> (r: (Vec<GlyphPlacement>, i32, Rect))
    requires
        shape_fits(font, text@, origin, letter_spacing_px * 16),
    ensures
        ({
            let st = shape_state(font, text@, origin, letter_spacing_px * 16);
            &&& r.0@ == st.glyphs
            &&& r.1 == if st.cursor > 0 { st.cursor } else { 0 }
            &&& r.2 == match st.bounds {
                Some(b) => b,
                None => Rect { x: origin.0, y: origin.1, width: 0, height: 0 },
            }
        }),
{
    let ghost all = text@;
    let ghost sp = letter_spacing_px * 16;
    let _n = char_bound(text);
    let spacing: i32 = letter_spacing_px as i32 * 16;
    let mut glyphs: Vec<GlyphPlacement> = Vec::new();
    let mut bounds = Rect { x: origin.0, y: origin.1, width: 0, height: 0 };
    let mut has_bounds = false;
    let mut cursor: i32 = 0;
    let mut any = false;
    let mut i: usize = 0;
    let mut it = text.chars();
    proof {
        assert(all.take(0) =~= Seq::<char>::empty());
    }
    loop
        invariant
            all == text@,
            sp == spacing,
            all.len() <= usize::MAX,
            shape_fits(font, all, origin, sp),
            i <= all.len(),
            it.remaining() == all.skip(i as int),
            cursor == shape_state(font, all.take(i as int), origin, sp).cursor,
            any == (shape_state(font, all.take(i as int), origin, sp).count > 0),
            shape_state(font, all.take(i as int), origin, sp).count >= 0,
            glyphs@ == shape_state(font, all.take(i as int), origin, sp).glyphs,
            has_bounds == shape_state(font, all.take(i as int), origin, sp).bounds is Some,
            has_bounds ==> shape_state(font, all.take(i as int), origin, sp).bounds == Some(bounds),
            !has_bounds ==> bounds == (Rect { x: origin.0, y: origin.1, width: 0, height: 0 }),
        ensures
            cursor == shape_state(font, all, origin, sp).cursor,
            glyphs@ == shape_state(font, all, origin, sp).glyphs,
            has_bounds == shape_state(font, all, origin, sp).bounds is Some,
            has_bounds ==> shape_state(font, all, origin, sp).bounds == Some(bounds),
            !has_bounds ==> bounds == (Rect { x: origin.0, y: origin.1, width: 0, height: 0 }),
        decreases all.len() - i,
    {
        match it.next() {
            Some(ch) => {
                proof {
                    assert(all.take(i + 1).drop_last() =~= all.take(i as int));
                    assert(all.take(i + 1).last() == ch);
                    lemma_shape_fits_prefix(font, all, origin, sp, i + 1);
                    assert(all.skip(i + 1) =~= all.skip(i as int).drop_first());
                    assert(shape_fits(font, all.take(i + 1), origin, sp));
                    let prev = shape_state(font, all.take(i as int), origin, sp);
                    if !is_zero_width_break_spec(ch) {
                        let c1 = if prev.count > 0 { prev.cursor + sp } else { prev.cursor };
                        assert(i32::MIN <= c1 && c1 + 8 <= i32::MAX);
                    }
                }
                if !is_zero_width_break(ch) {
                    if any {
                        cursor = cursor + spacing;
                    }
                    match font.glyph_metrics(ch) {
                        None => {
                            cursor = cursor + fallback_advance_fp16(font);
                        },
                        Some(info) => {
                            let x = origin.0 + pen_offset(cursor);
                            let placement = GlyphPlacement { ch, info, x, y: origin.1 };
                            let extent = placement.extent();
                            bounds = if has_bounds {
                                bounds.union(extent)
                            } else {
                                extent
                            };
                            has_bounds = true;
                            glyphs.push(placement);
                            cursor = cursor + info.advance_fp16 as i32;
                        },
                    }
                    any = true;
                }
                i = i + 1;
            },
            None => {
                proof {
                    assert(all.take(i as int) =~= all);
                }
                break;
            },
        }
    }
    (glyphs, if cursor > 0 { cursor } else { 0 }, bounds)
}

/// Shape `text` in logical LTR order with optional letter spacing.
///
/// Characters the font has no glyph for advance the pen by the fallback
/// advance and produce no placement; zero-width spaces are skipped.
pub fn shape_text_ltr<'a>(
    font: &'a dyn FontMetrics,
    text: &str,
    origin: (i32, i32),
    letter_spacing_px: i8,
) -> (r: ShapedText<'a>)
    requires
        shape_fits(font, text@, origin, letter_spacing_px * 16),
    ensures
        ({
            let st = shape_state(font, text@, origin, letter_spacing_px * 16);
            &&& r.glyphs@ == st.glyphs
            &&& r.total_advance_fp16 == if st.cursor > 0 { st.cursor } else { 0 }
            &&& r.bounds == match st.bounds {
                Some(b) => b,
                None => Rect { x: origin.0, y: origin.1, width: 0, height: 0 },
            }
            &&& r.bidi_level == 0
            &&& r.font is Some
        }),
{
    let (glyphs, total_advance_fp16, bounds) = shape_glyphs(font, text, origin, letter_spacing_px);
    let r = ShapedText { glyphs, total_advance_fp16, bounds, bidi_level: 0, font: Some(font) };
    r
}

/// A font-handle slot for text widgets: an optional process-lifetime font.
#[derive(Clone, Copy)]
pub struct WidgetFont(Option<&'static dyn FontMetrics>);

impl WidgetFont {
    /// Whether a font is assigned.
    pub closed spec fn assigned(self) -> bool {
        self.0 is Some
    }

    /// The assigned font, if any.
    pub closed spec fn held(self) -> Option<&'static dyn FontMetrics> {
        self.0
    }

    /// A slot with no assigned font.
    pub fn new() -> (r: Self)
        ensures
            !r.assigned(),
            r.held() is None,
    {
        WidgetFont(None)
    }

    /// A slot pre-assigned to `font`.
    pub fn with_font(font: &'static dyn FontMetrics) -> (r: Self)
        ensures
            r.assigned(),
            r.held() matches Some(f) && f == font,
    {
        let held = Some(font);
        WidgetFont(held)
    }

    /// Assign `font`, replacing any previous assignment.
    pub fn set(&mut self, font: &'static dyn FontMetrics)
        ensures
            final(self).assigned(),
            final(self).held() matches Some(f) && f == font,
    {
        let held = Some(font);
        self.0 = held;
    }

    /// Clear the assignment.
    pub fn clear(&mut self)
        ensures
            !final(self).assigned(),
            final(self).held() is None,
    {
        self.0 = None;
    }

    /// Whether a font has been explicitly assigned.
    pub fn is_set(&self) -> (r: bool)
        ensures
            r == self.assigned(),
    {
        self.0.is_some()
    }

    /// The assigned font, if any.
    pub fn font(&self) -> (r: Option<&'static dyn FontMetrics>)
        ensures
            r is Some == self.assigned(),
            r == self.held(),
    {
        self.0
    }
}

/// A `FontId -> font` lookup table borrowed from the application.
#[derive(Clone, Copy)]
pub struct FontRegistry<'a> {
    entries: &'a [(FontId, &'static dyn FontMetrics)],
}

/// Whether `entries` registers a font under `id`.
pub open spec fn registers(entries: Seq<(FontId, &'static dyn FontMetrics)>, id: FontId) -> bool {
    exists|k: int| 0 <= k < entries.len() && entries[k].0 == id
}

impl<'a> FontRegistry<'a> {
    /// The registered `(id, font)` entries.
    pub closed spec fn entries(&self) -> Seq<(FontId, &'static dyn FontMetrics)> {
        self.entries@
    }

    /// Wrap a table of `(FontId, handle)` entries.
    pub fn new(entries: &'a [(FontId, &'static dyn FontMetrics)]) -> (r: Self)
        ensures
            r.entries() == entries@,
    {
        FontRegistry { entries }
    }

    /// Resolve `id` to its first registered handle; the default id never
    /// resolves, so widgets keep their own assignment or default.
    pub fn resolve(&self, id: FontId) -> (r: Option<&'static dyn FontMetrics>)
        ensures
            r is Some <==> (id != FontId(0) && registers(self.entries(), id)),
    {
        if id == FontId::DEFAULT() {
            return None;
        }
        let mut i: usize = 0;
        while i < self.entries.len()
            invariant
                i <= self.entries@.len(),
                id != FontId(0),
                forall|j: int| 0 <= j < i ==> #[trigger] self.entries@[j].0 != id,
            decreases self.entries@.len() - i,
        {
            if self.entries[i].0 == id {
                assert(self.entries@[i as int].0 == id);
                return Some(self.entries[i].1);
            }
            i = i + 1;
        }
        None
    }
}

impl FontRegistry<'static> {
    /// An empty registry: every id resolves to `None`.
    #[allow(non_snake_case)]
    pub fn EMPTY() -> (r: Self)
        ensures
            r.entries().len() == 0,
    {
        FontRegistry { entries: &[] }
    }
}

// ---------------------------------------------------------------------------
// Greedy LTR wrapping
// ---------------------------------------------------------------------------

/// One line produced by greedy wrapping.
#[derive(Debug, Clone, Copy, PartialEq, Eq, Structural)]
pub struct WrappedLine {
    /// Byte offset where the line starts in the original string.
    pub start: usize,
    /// Byte offset where the line ends in the original string.
    pub end: usize,
    /// Measured line advance in 1/16 pixel units.
    pub advance_fp16: i32,
}

/// Result of greedy LTR wrapping.
#[derive(Debug, Clone, PartialEq, Eq)]
pub struct WrappedText {
    /// Wrapped line byte ranges into the original string.
    pub lines: Vec<WrappedLine>,
    /// Total vertical space used by the wrapped lines in pixels.
    pub used_height: i32,
}

/// Break opportunities: space, hyphen-minus and zero-width space.
pub open spec fn is_soft_break_spec(ch: char) -> bool {
    ch == ' ' || ch == '-' || is_zero_width_break_spec(ch)
}

/// First position at or after `a` (and at most `e`) that is not a space.
pub open spec fn skip_spaces(s: Seq<char>, a: int, e: int) -> int
    decreases e - a,
{
    if a < e && s[a] == ' ' { skip_spaces(s, a + 1, e) } else { a }
}

/// End of `a..e` with its trailing spaces removed.
pub open spec fn trim_spaces(s: Seq<char>, a: int, e: int) -> int
    decreases e - a,
{
    if a < e && s[e - 1] == ' ' { trim_spaces(s, a, e - 1) } else { e }
}

/// Measured width of the characters `a..b`, in 1/16 pixel units.
pub open spec fn range_width<F: FontMetrics + ?Sized>(font: &F, s: Seq<char>, a: int, b: int, spacing: int) -> int {
    measure_spec(font, s.subrange(a, b), spacing)
}

/// Scan of a candidate line starting at `ls` after examining `ls..k`:
/// the end of the fitting prefix, the position after its last break
/// opportunity, and the first character that overflowed, if any.
pub open spec fn scan_state<F: FontMetrics + ?Sized>(
    font: &F,
    s: Seq<char>,
    ls: int,
    k: int,
    max_fp16: int,
    spacing: int,
) -> (int, Option<int>, Option<int>)
    decreases k - ls,
{
    if k <= ls {
        (ls, None, None)
    } else {
        let prev = scan_state(font, s, ls, k - 1, max_fp16, spacing);
        if prev.2 is Some {
            prev
        } else if range_width(font, s, ls, k, spacing) > max_fp16 {
            (prev.0, prev.1, Some(k - 1))
        } else {
            (k, if is_soft_break_spec(s[k - 1]) { Some(k) } else { prev.1 }, None)
        }
    }
}

/// One line taken from a span starting at `ls` (not at its end `e`): the
/// line's character range and where the next line starts, or `None` when
/// the rest of the span fitted.
pub open spec fn line_step<F: FontMetrics + ?Sized>(
    font: &F,
    s: Seq<char>,
    ls: int,
    e: int,
    max_fp16: int,
    spacing: int,
) -> ((int, int), Option<int>) {
    let st = scan_state(font, s, ls, e, max_fp16, spacing);
    match st.2 {
        None => ((ls, trim_spaces(s, ls, st.0)), None),
        Some(o) => {
            let brk = match st.1 {
                Some(b) => b,
                None => ls,
            };
            if brk > ls {
                ((ls, trim_spaces(s, ls, brk)), Some(skip_spaces(s, brk, e)))
            } else {
                let hard = if o == ls { ls + 1 } else { o };
                ((ls, hard), Some(skip_spaces(s, hard, e)))
            }
        },
    }
}

/// Lines of the span `ls..e` once leading spaces are skipped.
pub open spec fn span_lines<F: FontMetrics + ?Sized>(
    font: &F,
    s: Seq<char>,
    ls: int,
    e: int,
    max_fp16: int,
    spacing: int,
) -> Seq<(int, int)>
    decreases e - ls,
{
    if ls >= e {
        Seq::empty()
    } else {
        let step = line_step(font, s, ls, e, max_fp16, spacing);
        match step.1 {
            Some(next) => if ls < next <= e {
                seq![step.0] + span_lines(font, s, next, e, max_fp16, spacing)
            } else {
                seq![step.0]
            },
            None => seq![step.0],
        }
    }
}

/// Lines of one paragraph `a..e`: an empty paragraph is one empty line.
pub open spec fn paragraph_lines<F: FontMetrics + ?Sized>(
    font: &F,
    s: Seq<char>,
    a: int,
    e: int,
    max_fp16: int,
    spacing: int,
) -> Seq<(int, int)> {
    if a == e {
        seq![(a, a)]
    } else {
        span_lines(font, s, skip_spaces(s, a, e), e, max_fp16, spacing)
    }
}

/// Position of the first `'\n'` at or after `a`, or the end of `s`.
pub open spec fn next_newline(s: Seq<char>, a: int) -> int
    decreases s.len() - a,
{
    if a >= s.len() || s[a] == '\n' { if a >= s.len() { s.len() as int } else { a } } else { next_newline(s, a + 1) }
}

/// Lines of every paragraph from position `a` on; hard newlines always
/// start a new paragraph.
pub open spec fn text_lines<F: FontMetrics + ?Sized>(
    font: &F,
    s: Seq<char>,
    a: int,
    max_fp16: int,
    spacing: int,
) -> Seq<(int, int)>
    decreases s.len() - a, 1int,
{
    if a > s.len() {
        Seq::empty()
    } else {
        let nl = next_newline(s, a);
        if nl < s.len() && nl >= a {
            paragraph_lines(font, s, a, nl, max_fp16, spacing) + text_lines(font, s, nl + 1, max_fp16, spacing)
        } else {
            paragraph_lines(font, s, a, s.len() as int, max_fp16, spacing)
        }
    }
}

/// Byte offset of character position `k` in the UTF-8 encoding of `s`.
pub open spec fn byte_offset_of(s: Seq<char>, k: int) -> int {
    encode_utf8(s.take(k)).len() as int
}

/// The wrapped line for the character range `r`.
pub open spec fn wrapped_line_spec<F: FontMetrics + ?Sized>(font: &F, s: Seq<char>, r: (int, int), spacing: int) -> WrappedLine {
    WrappedLine {
        start: byte_offset_of(s, r.0) as usize,
        end: byte_offset_of(s, r.1) as usize,
        advance_fp16: range_width(font, s, r.0, r.1, spacing) as i32,
    }
}

/// Whether every range of `s` can be measured within `i32` arithmetic.
pub open spec fn ranges_measurable<F: FontMetrics + ?Sized>(font: &F, s: Seq<char>, spacing: int) -> bool {
    forall|a: int, b: int| 0 <= a <= b <= s.len() ==> #[trigger] measure_fits(font, s.subrange(a, b), spacing)
}

/// Scan results stay inside the scanned range.
proof fn lemma_scan_bounds<F: FontMetrics + ?Sized>(font: &F, s: Seq<char>, ls: int, k: int, max_fp16: int, spacing: int)
    requires
        ls <= k,
    ensures
        ({
            let st = scan_state(font, s, ls, k, max_fp16, spacing);
            &&& ls <= st.0 <= k
            &&& st.1 matches Some(b) ==> ls < b <= st.0
            &&& st.2 matches Some(o) ==> ls <= o < k && st.0 == o
        }),
    decreases k - ls,
{
    if k > ls {
        lemma_scan_bounds(font, s, ls, k - 1, max_fp16, spacing);
    }
}

/// Once a scan has overflowed, scanning further changes nothing.
proof fn lemma_scan_sticky<F: FontMetrics + ?Sized>(font: &F, s: Seq<char>, ls: int, k: int, k2: int, max_fp16: int, spacing: int)
    requires
        ls <= k <= k2,
        scan_state(font, s, ls, k, max_fp16, spacing).2 is Some,
    ensures
        scan_state(font, s, ls, k2, max_fp16, spacing) == scan_state(font, s, ls, k, max_fp16, spacing),
    decreases k2 - k,
{
    if k2 > k {
        lemma_scan_sticky(font, s, ls, k, k2 - 1, max_fp16, spacing);
    }
}

/// Skipping spaces stays within the range.
proof fn lemma_skip_bounds(s: Seq<char>, a: int, e: int)
    requires
        a <= e,
    ensures
        a <= skip_spaces(s, a, e) <= e,
    decreases e - a,
{
    if a < e && s[a] == ' ' {
        lemma_skip_bounds(s, a + 1, e);
    }
}

/// Trimming spaces stays within the range.
proof fn lemma_trim_bounds(s: Seq<char>, a: int, e: int)
    requires
        a <= e,
    ensures
        a <= trim_spaces(s, a, e) <= e,
    decreases e - a,
{
    if a < e && s[e - 1] == ' ' {
        lemma_trim_bounds(s, a, e - 1);
    }
}

/// A line step makes progress within the span.
proof fn lemma_line_step_bounds<F: FontMetrics + ?Sized>(font: &F, s: Seq<char>, ls: int, e: int, max_fp16: int, spacing: int)
    requires
        ls < e,
    ensures
        ({
            let step = line_step(font, s, ls, e, max_fp16, spacing);
            &&& ls <= step.0.0 && step.0.0 <= step.0.1 <= e
            &&& step.1 matches Some(next) ==> ls < next <= e && step.0.1 <= next
        }),
{
    lemma_scan_bounds(font, s, ls, e, max_fp16, spacing);
    let st = scan_state(font, s, ls, e, max_fp16, spacing);
    lemma_trim_bounds(s, ls, st.0);
    if let Some(o) = st.2 {
        let brk = match st.1 {
            Some(b) => b,
            None => ls,
        };
        if brk > ls {
            lemma_trim_bounds(s, ls, brk);
            lemma_skip_bounds(s, brk, e);
        } else {
            let hard = if o == ls { ls + 1 } else { o };
            lemma_skip_bounds(s, hard, e);
        }
    }
}

/// The characters of `text` and the byte offset of every character
/// position, including the end.
fn chars_and_offsets(text: &str) -> (r: (Vec<char>, Vec<usize>))
    ensures
        r.0@ == text@,
        r.1@.len() == text@.len() + 1,
        forall|k: int| 0 <= k <= text@.len() ==> #[trigger] r.1@[k] == byte_offset_of(text@, k),
{
    let ghost all = text@;
    let total = text.as_bytes().len();
    let _n = char_bound(text);
    let mut chars: Vec<char> = Vec::new();
    let mut offs: Vec<usize> = Vec::new();
    let mut acc: usize = 0;
    offs.push(0);
    proof {
        assert(all.take(0) =~= Seq::<char>::empty());
    }
    let mut it = text.chars();
    loop
        invariant
            all == text@,
            all.len() <= usize::MAX,
            total == encode_utf8(all).len(),
            chars@ == all.take(chars@.len() as int),
            chars@.len() <= all.len(),
            it.remaining() == all.skip(chars@.len() as int),
            offs@.len() == chars@.len() + 1,
            acc == byte_offset_of(all, chars@.len() as int),
            forall|k: int| 0 <= k <= chars@.len() ==> #[trigger] offs@[k] == byte_offset_of(all, k),
        ensures
            chars@ == all,
            offs@.len() == all.len() + 1,
            forall|k: int| 0 <= k <= all.len() ==> #[trigger] offs@[k] == byte_offset_of(all, k),
        decreases all.len() - chars@.len(),
    {
        match it.next() {
            Some(c) => {
                let ghost i = chars@.len() as int;
                proof {
                    lemma_encode_take_step(all, i);
                    assert(all.skip(i + 1) =~= all.skip(i).drop_first());
                    assert(all[i] == c);
                }
                acc = acc + utf8_width(c);
                chars.push(c);
                offs.push(acc);
                proof {
                    assert(chars@ =~= all.take(i + 1));
                }
            },
            None => {
                proof {
                    assert(chars@ =~= all);
                }
                break;
            },
        }
    }
    (chars, offs)
}

/// Measured width of `chars[a..b]`, see [`range_width`].
fn measure_chars<F: FontMetrics + ?Sized>(font: &F, chars: &Vec<char>, a: usize, b: usize, letter_spacing_px: i8) -> (r: i32)
    requires
        a <= b <= chars@.len(),
        measure_fits(font, chars@.subrange(a as int, b as int), letter_spacing_px * 16),
    ensures
        r == range_width(font, chars@, a as int, b as int, letter_spacing_px * 16),
        r >= 0,
{
    let ghost sub = chars@.subrange(a as int, b as int);
    let ghost sp = letter_spacing_px * 16;
    let spacing: i32 = letter_spacing_px as i32 * 16;
    let mut total: i32 = 0;
    let mut any = false;
    let mut k: usize = a;
    proof {
        assert(sub.take(0) =~= Seq::<char>::empty());
    }
    while k < b
        invariant
            a <= k <= b <= chars@.len(),
            sub == chars@.subrange(a as int, b as int),
            sp == spacing,
            measure_fits(font, sub, sp),
            total == measure_state(font, sub.take(k - a), sp).0,
            any == (measure_state(font, sub.take(k - a), sp).1 > 0),
            measure_state(font, sub.take(k - a), sp).1 >= 0,
        decreases b - k,
    {
        let ch = chars[k];
        proof {
            let j = k - a;
            assert(sub.take(j + 1).drop_last() =~= sub.take(j));
            assert(sub.take(j + 1).last() == ch);
            lemma_measure_fits_prefix(font, sub, sp, j + 1);
        }
        if !is_zero_width_break(ch) {
            if any {
                total = total + spacing;
            }
            total = total + glyph_advance_fp16(font, ch);
            any = true;
        }
        k = k + 1;
    }
    proof {
        assert(sub.take(b - a) =~= sub);
    }
    if total > 0 {
        total
    } else {
        0
    }
}

/// First position at or after `a` (at most `e`) that is not a space.
fn skip_leading_spaces(chars: &Vec<char>, a: usize, e: usize) -> (r: usize)
    requires
        a <= e <= chars@.len(),
    ensures
        r == skip_spaces(chars@, a as int, e as int),
        a <= r <= e,
{
    let mut i = a;
    while i < e && chars[i] == ' '
        invariant
            a <= i <= e <= chars@.len(),
            skip_spaces(chars@, i as int, e as int) == skip_spaces(chars@, a as int, e as int),
        decreases e - i,
    {
        i = i + 1;
    }
    i
}

/// End of `a..e` with trailing spaces removed.
fn trim_trailing_spaces(chars: &Vec<char>, a: usize, e: usize) -> (r: usize)
    requires
        a <= e <= chars@.len(),
    ensures
        r == trim_spaces(chars@, a as int, e as int),
        a <= r <= e,
{
    let mut j = e;
    while a < j && chars[j - 1] == ' '
        invariant
            a <= j <= e <= chars@.len(),
            trim_spaces(chars@, a as int, j as int) == trim_spaces(chars@, a as int, e as int),
        decreases j - a,
    {
        j = j - 1;
    }
    j
}

/// Append the wrapped line for characters `a..b`.
fn push_line<F: FontMetrics + ?Sized>(
    font: &F,
    chars: &Vec<char>,
    offs: &Vec<usize>,
    a: usize,
    b: usize,
    letter_spacing_px: i8,
    out: &mut Vec<WrappedLine>,
)
    requires
        a <= b <= chars@.len(),
        offs@.len() == chars@.len() + 1,
        forall|k: int| 0 <= k <= chars@.len() ==> #[trigger] offs@[k] == byte_offset_of(chars@, k),
        ranges_measurable(font, chars@, letter_spacing_px * 16),
    ensures
        final(out)@ == old(out)@.push(wrapped_line_spec(font, chars@, (a as int, b as int), letter_spacing_px * 16)),
{
    proof {
        assert(measure_fits(font, chars@.subrange(a as int, b as int), letter_spacing_px * 16));
    }
    let advance_fp16 = measure_chars(font, chars, a, b, letter_spacing_px);
    out.push(WrappedLine { start: offs[a], end: offs[b], advance_fp16 });
}

/// The wrapped lines of `ranges`.
pub open spec fn wrapped_lines<F: FontMetrics + ?Sized>(font: &F, s: Seq<char>, ranges: Seq<(int, int)>, spacing: int) -> Seq<WrappedLine> {
    ranges.map_values(|r: (int, int)| wrapped_line_spec(font, s, r, spacing))
}

/// Append the lines of the paragraph `start..end`.
fn wrap_span<F: FontMetrics + ?Sized>(
    font: &F,
    chars: &Vec<char>,
    offs: &Vec<usize>,
    start: usize,
    end: usize,
    max_fp16: i32,
    letter_spacing_px: i8,
    out: &mut Vec<WrappedLine>,
)
    requires
        start <= end <= chars@.len(),
        offs@.len() == chars@.len() + 1,
        forall|k: int| 0 <= k <= chars@.len() ==> #[trigger] offs@[k] == byte_offset_of(chars@, k),
        ranges_measurable(font, chars@, letter_spacing_px * 16),
    ensures
        final(out)@ == old(out)@ + wrapped_lines(
            font,
            chars@,
            paragraph_lines(font, chars@, start as int, end as int, max_fp16 as int, letter_spacing_px * 16),
            letter_spacing_px * 16,
        ),
{
    let ghost s = chars@;
    let ghost sp = letter_spacing_px * 16;
    let ghost before = out@;
    if start == end {
        push_line(font, chars, offs, start, end, letter_spacing_px, out);
        proof {
            assert(out@ =~= before + wrapped_lines(font, s, seq![(start as int, end as int)], sp));
        }
        return;
    }
    let mut line_start = skip_leading_spaces(chars, start, end);
    let ghost first = line_start as int;
    proof {
        assert(wrapped_lines(font, s, Seq::<(int, int)>::empty(), sp) =~= Seq::<WrappedLine>::empty());
        assert(out@ =~= before);
    }
    loop
        invariant_except_break
            out@ + wrapped_lines(font, s, span_lines(font, s, line_start as int, end as int, max_fp16 as int, sp), sp)
                == before + wrapped_lines(font, s, span_lines(font, s, first, end as int, max_fp16 as int, sp), sp),
        invariant
            start < end <= s.len(),
            s == chars@,
            sp == letter_spacing_px * 16,
            first == skip_spaces(s, start as int, end as int),
            offs@.len() == chars@.len() + 1,
            forall|k: int| 0 <= k <= chars@.len() ==> #[trigger] offs@[k] == byte_offset_of(chars@, k),
            ranges_measurable(font, chars@, sp),
            line_start <= end,
        ensures
            out@ == before + wrapped_lines(font, s, span_lines(font, s, first, end as int, max_fp16 as int, sp), sp),
        decreases end - line_start,
    {
        if line_start >= end {
            proof {
                assert(wrapped_lines(font, s, span_lines(font, s, line_start as int, end as int, max_fp16 as int, sp), sp)
                    =~= Seq::<WrappedLine>::empty());
                assert(out@ + Seq::<WrappedLine>::empty() =~= out@);
            }
            break;
        }
        let ghost ls = line_start as int;
        let mut line_end = line_start;
        let mut last_break: Option<usize> = None;
        let mut overflow_at: Option<usize> = None;
        let mut k = line_start;
        while k < end
            invariant_except_break
                overflow_at is None,
                (line_end as int, match last_break { Some(b) => Some(b as int), None => None::<int> }, None::<int>)
                    == scan_state(font, s, ls, k as int, max_fp16 as int, sp),
            invariant
                line_start < end <= s.len(),
                s == chars@,
                sp == letter_spacing_px * 16,
                ranges_measurable(font, chars@, sp),
                ls == line_start,
                line_start <= k <= end,
            ensures
                match overflow_at {
                    Some(o) => (line_end as int, match last_break { Some(b) => Some(b as int), None => None::<int> }, Some(o as int))
                        == scan_state(font, s, ls, end as int, max_fp16 as int, sp),
                    None => (line_end as int, match last_break { Some(b) => Some(b as int), None => None::<int> }, None::<int>)
                        == scan_state(font, s, ls, end as int, max_fp16 as int, sp),
                },
            decreases end - k,
        {
            proof {
                assert(measure_fits(font, s.subrange(ls, k + 1), sp));
            }
            let width = measure_chars(font, chars, line_start, k + 1, letter_spacing_px);
            if width > max_fp16 {
                overflow_at = Some(k);
                proof {
                    lemma_scan_sticky(font, s, ls, k + 1, end as int, max_fp16 as int, sp);
                }
                break;
            }
            line_end = k + 1;
            if is_soft_break(chars[k]) {
                last_break = Some(k + 1);
            }
            k = k + 1;
        }
        proof {
            lemma_line_step_bounds(font, s, ls, end as int, max_fp16 as int, sp);
            lemma_scan_bounds(font, s, ls, end as int, max_fp16 as int, sp);
        }
        let ghost step = line_step(font, s, ls, end as int, max_fp16 as int, sp);
        let ghost rest = span_lines(font, s, ls, end as int, max_fp16 as int, sp);
        let ghost out_before = out@;
        match overflow_at {
            None => {
                let stop = trim_trailing_spaces(chars, line_start, line_end);
                push_line(font, chars, offs, line_start, stop, letter_spacing_px, out);
                proof {
                    assert(rest == seq![step.0]);
                    assert(wrapped_lines(font, s, rest, sp) =~= seq![wrapped_line_spec(font, s, step.0, sp)]);
                    assert(out@ =~= out_before + wrapped_lines(font, s, rest, sp));
                }
                break;
            },
            Some(overflow) => {
                let brk = match last_break {
                    Some(b) => b,
                    None => line_start,
                };
                let next;
                if brk > line_start {
                    let soft_end = trim_trailing_spaces(chars, line_start, brk);
                    push_line(font, chars, offs, line_start, soft_end, letter_spacing_px, out);
                    next = skip_leading_spaces(chars, brk, end);
                } else {
                    let hard_end = if overflow == line_start { line_start + 1 } else { overflow };
                    push_line(font, chars, offs, line_start, hard_end, letter_spacing_px, out);
                    next = skip_leading_spaces(chars, hard_end, end);
                }
                proof {
                    assert(step.1 == Some(next as int));
                    assert(rest == seq![step.0] + span_lines(font, s, next as int, end as int, max_fp16 as int, sp));
                    assert(wrapped_lines(font, s, rest, sp) =~= seq![wrapped_line_spec(font, s, step.0, sp)]
                        + wrapped_lines(font, s, span_lines(font, s, next as int, end as int, max_fp16 as int, sp), sp));
                    assert(out@ + wrapped_lines(font, s, span_lines(font, s, next as int, end as int, max_fp16 as int, sp), sp)
                        =~= out_before + wrapped_lines(font, s, rest, sp));
                }
                line_start = next;
            },
        }
    }
}

/// Break opportunities: space, hyphen-minus and zero-width space.
fn is_soft_break(ch: char) -> (r: bool)
    ensures
        r == is_soft_break_spec(ch),
{
    ch == ' ' || ch == '-' || is_zero_width_break(ch)
}

/// Line-width limit in 1/16 pixel units for a limit in pixels (negative
/// limits count as zero).
pub open spec fn max_width_fp16(max_width_px: int) -> int {
    (if max_width_px > 0 { max_width_px } else { 0 }) * 16
}

/// Vertical space used by `count` lines of height `line_height` separated by
/// `line_spacing` pixels.
pub open spec fn used_height_spec(count: int, line_height: int, line_spacing: int) -> int {
    if count == 0 { 0 } else { count * line_height + (count - 1) * line_spacing }
}

/// The character ranges [`wrap_greedy_ltr`] produces.
pub open spec fn wrap_ranges<F: FontMetrics + ?Sized>(font: &F, s: Seq<char>, max_width_px: int, letter_spacing_px: int) -> Seq<(int, int)> {
    text_lines(font, s, 0, max_width_fp16(max_width_px), letter_spacing_px * 16)
}

/// Whether [`wrap_greedy_ltr`] stays within its integer widths.
pub open spec fn wrap_fits<F: FontMetrics + ?Sized>(
    font: &F,
    s: Seq<char>,
    max_width_px: int,
    letter_spacing_px: int,
    line_spacing_px: int,
) -> bool {
    let count = wrap_ranges(font, s, max_width_px, letter_spacing_px).len() as int;
    &&& max_width_fp16(max_width_px) <= i32::MAX
    &&& ranges_measurable(font, s, letter_spacing_px * 16)
    &&& count <= i32::MAX
    &&& count > 0 ==> {
        &&& i32::MIN <= count * font.line_spec().line_height <= i32::MAX
        &&& i32::MIN <= (count - 1) * line_spacing_px <= i32::MAX
        &&& i32::MIN <= used_height_spec(count, font.line_spec().line_height as int, line_spacing_px) <= i32::MAX
    }
}

/// Wrapping distributes over concatenation of ranges.
proof fn lemma_wrapped_concat<F: FontMetrics + ?Sized>(font: &F, s: Seq<char>, a: Seq<(int, int)>, b: Seq<(int, int)>, spacing: int)
    ensures
        wrapped_lines(font, s, a + b, spacing) == wrapped_lines(font, s, a, spacing) + wrapped_lines(font, s, b, spacing),
{
    assert(wrapped_lines(font, s, a + b, spacing) =~= wrapped_lines(font, s, a, spacing) + wrapped_lines(font, s, b, spacing));
}

/// Greedily wrap `text` for an LTR paragraph.
///
/// Break opportunities are space, hyphen-minus and zero-width space; hard
/// newlines always start a new line. Lines are byte ranges into `text`;
/// trailing spaces at soft breaks are left out of each range, and a word
/// wider than the limit is split at the first character that overflows
/// (a lone overflowing character still makes a line of its own).
pub fn wrap_greedy_ltr<F: FontMetrics + ?Sized>(
    font: &F,
    text: &str,
    max_width_px: i32,
    letter_spacing_px: i8,
    line_spacing_px: i8,
) -> (r: WrappedText)
    requires
        wrap_fits(font, text@, max_width_px as int, letter_spacing_px as int, line_spacing_px as int),
    ensures
        r.lines@ == wrapped_lines(
            font,
            text@,
            wrap_ranges(font, text@, max_width_px as int, letter_spacing_px as int),
            letter_spacing_px * 16,
        ),
        r.used_height == used_height_spec(
            r.lines@.len() as int,
            font.line_spec().line_height as int,
            line_spacing_px as int,
        ),
{
    let (chars, offs) = chars_and_offsets(text);
    let ghost s = chars@;
    let ghost sp = letter_spacing_px * 16;
    let max_fp16: i32 = (if max_width_px > 0 { max_width_px } else { 0 }) * 16;
    let ghost whole = wrapped_lines(font, s, text_lines(font, s, 0, max_fp16 as int, sp), sp);
    let mut lines: Vec<WrappedLine> = Vec::new();
    let mut pstart: usize = 0;
    let mut idx: usize = 0;
    proof {
        assert(lines@ + whole =~= whole);
    }
    while idx < chars.len()
        invariant
            s == chars@,
            s == text@,
            sp == letter_spacing_px * 16,
            max_fp16 == max_width_fp16(max_width_px as int),
            offs@.len() == chars@.len() + 1,
            forall|k: int| 0 <= k <= chars@.len() ==> #[trigger] offs@[k] == byte_offset_of(chars@, k),
            ranges_measurable(font, s, sp),
            pstart <= idx <= s.len(),
            whole == wrapped_lines(font, s, text_lines(font, s, 0, max_fp16 as int, sp), sp),
            next_newline(s, pstart as int) == next_newline(s, idx as int),
            lines@ + wrapped_lines(font, s, text_lines(font, s, pstart as int, max_fp16 as int, sp), sp) == whole,
        decreases s.len() - idx,
    {
        if chars[idx] == '\n' {
            let ghost before = lines@;
            let ghost para = paragraph_lines(font, s, pstart as int, idx as int, max_fp16 as int, sp);
            let ghost rest = text_lines(font, s, idx + 1, max_fp16 as int, sp);
            proof {
                assert(next_newline(s, idx as int) == idx);
                assert(text_lines(font, s, pstart as int, max_fp16 as int, sp) == para + rest);
                lemma_wrapped_concat(font, s, para, rest, sp);
            }
            wrap_span(font, &chars, &offs, pstart, idx, max_fp16, letter_spacing_px, &mut lines);
            proof {
                assert(lines@ + wrapped_lines(font, s, rest, sp) =~= before + wrapped_lines(font, s, para + rest, sp));
            }
            pstart = idx + 1;
        } else {
            proof {
                assert(next_newline(s, idx as int) == next_newline(s, idx + 1));
            }
        }
        idx = idx + 1;
    }
    let ghost before = lines@;
    proof {
        assert(next_newline(s, idx as int) == s.len());
        assert(text_lines(font, s, pstart as int, max_fp16 as int, sp) == paragraph_lines(font, s, pstart as int, s.len() as int, max_fp16 as int, sp));
    }
    wrap_span(font, &chars, &offs, pstart, chars.len(), max_fp16, letter_spacing_px, &mut lines);
    let lm = font.line_metrics();
    let line_count = lines.len() as i32;
    let used_height: i32 = if line_count == 0 {
        0
    } else {
        line_count * lm.line_height as i32 + (line_count - 1) * line_spacing_px as i32
    };
    WrappedText { lines, used_height }
}

/// Ranges lie inside `lo..hi`, each in order, and do not overlap: every
/// range ends at or before the start of every later one.
pub open spec fn ranges_ordered(rs: Seq<(int, int)>, lo: int, hi: int) -> bool {
    &&& forall|i: int| 0 <= i < rs.len() ==> lo <= (#[trigger] rs[i]).0 && rs[i].0 <= rs[i].1 && rs[i].1 <= hi
    &&& forall|i: int, j: int| 0 <= i < j < rs.len() ==> #[trigger] rs[i].1 <= #[trigger] rs[j].0
}

proof fn lemma_ranges_ordered_concat(a: Seq<(int, int)>, b: Seq<(int, int)>, lo: int, mid: int, hi: int)
    requires
        ranges_ordered(a, lo, mid),
        ranges_ordered(b, mid, hi),
        lo <= mid <= hi,
    ensures
        ranges_ordered(a + b, lo, hi),
{
    let c = a + b;
    assert forall|i: int| 0 <= i < c.len() implies lo <= (#[trigger] c[i]).0 && c[i].0 <= c[i].1 && c[i].1 <= hi by {
        if i < a.len() {
            assert(c[i] == a[i]);
        } else {
            assert(c[i] == b[i - a.len()]);
        }
    }
    assert forall|i: int, j: int| 0 <= i < j < c.len() implies #[trigger] c[i].1 <= #[trigger] c[j].0 by {
        if j < a.len() {
            assert(c[i] == a[i] && c[j] == a[j]);
        } else if i >= a.len() {
            assert(c[i] == b[i - a.len()] && c[j] == b[j - a.len()]);
        } else {
            assert(c[i] == a[i] && c[j] == b[j - a.len()]);
            assert(a[i].1 <= mid);
            assert(mid <= b[j - a.len()].0);
        }
    }
}

proof fn lemma_span_lines_ordered<F: FontMetrics + ?Sized>(font: &F, s: Seq<char>, ls: int, e: int, max_fp16: int, spacing: int)
    requires
        ls <= e,
    ensures
        ranges_ordered(span_lines(font, s, ls, e, max_fp16, spacing), ls, e),
    decreases e - ls,
{
    if ls < e {
        lemma_line_step_bounds(font, s, ls, e, max_fp16, spacing);
        let step = line_step(font, s, ls, e, max_fp16, spacing);
        let first = seq![step.0];
        assert(ranges_ordered(first, ls, step.0.1));
        match step.1 {
            Some(next) => {
                lemma_span_lines_ordered(font, s, next, e, max_fp16, spacing);
                lemma_ranges_ordered_concat(first, span_lines(font, s, next, e, max_fp16, spacing), ls, next, e);
                assert(ranges_ordered(first, ls, next));
            },
            None => {
                assert(ranges_ordered(first, ls, e));
            },
        }
    } else {
        assert(span_lines(font, s, ls, e, max_fp16, spacing) =~= Seq::<(int, int)>::empty());
    }
}

proof fn lemma_next_newline_bounds(s: Seq<char>, a: int)
    requires
        0 <= a <= s.len(),
    ensures
        a <= next_newline(s, a) <= s.len(),
        next_newline(s, a) < s.len() ==> s[next_newline(s, a)] == '\n',
    decreases s.len() - a,
{
    if a < s.len() && s[a] != '\n' {
        lemma_next_newline_bounds(s, a + 1);
    }
}

proof fn lemma_text_lines_ordered<F: FontMetrics + ?Sized>(font: &F, s: Seq<char>, a: int, max_fp16: int, spacing: int)
    requires
        0 <= a <= s.len(),
    ensures
        ranges_ordered(text_lines(font, s, a, max_fp16, spacing), a, s.len() as int),
    decreases s.len() - a,
{
    lemma_next_newline_bounds(s, a);
    let nl = next_newline(s, a);
    let para_end = if nl < s.len() { nl } else { s.len() as int };
    let para = paragraph_lines(font, s, a, para_end, max_fp16, spacing);
    assert(ranges_ordered(para, a, para_end)) by {
        if a == para_end {
            assert(ranges_ordered(seq![(a, a)], a, para_end));
        } else {
            lemma_skip_bounds(s, a, para_end);
            lemma_span_lines_ordered(font, s, skip_spaces(s, a, para_end), para_end, max_fp16, spacing);
            let sl = span_lines(font, s, skip_spaces(s, a, para_end), para_end, max_fp16, spacing);
            assert forall|i: int| 0 <= i < sl.len() implies a <= (#[trigger] sl[i]).0 && sl[i].0 <= sl[i].1 && sl[i].1 <= para_end by {}
        }
    }
    if nl < s.len() {
        lemma_text_lines_ordered(font, s, nl + 1, max_fp16, spacing);
        lemma_ranges_ordered_concat(para, text_lines(font, s, nl + 1, max_fp16, spacing), a, nl + 1, s.len() as int);
        assert forall|i: int| 0 <= i < para.len() implies a <= (#[trigger] para[i]).0 && para[i].0 <= para[i].1 && para[i].1 <= nl + 1 by {}
    }
}

/// Byte offsets grow with the character position.
proof fn lemma_byte_offset_monotone(s: Seq<char>, j: int, k: int)
    requires
        0 <= j <= k <= s.len(),
    ensures
        byte_offset_of(s, j) <= byte_offset_of(s, k) <= encode_utf8(s).len(),
{
    crate::edit::lemma_encode_utf8_concat(s.take(j), s.subrange(j, k));
    assert(s.take(j) + s.subrange(j, k) =~= s.take(k));
    crate::edit::lemma_encode_utf8_concat(s.take(k), s.skip(k));
    assert(s.take(k) + s.skip(k) =~= s);
}

/// Wrapped lines are byte ranges inside the text, in text order, that do
/// not overlap.
pub proof fn lemma_wrapped_lines_ordered<F: FontMetrics + ?Sized>(
    font: &F,
    s: Seq<char>,
    max_width_px: int,
    letter_spacing_px: int,
)
    requires
        encode_utf8(s).len() <= usize::MAX,
    ensures
        ({
            let lines = wrapped_lines(font, s, wrap_ranges(font, s, max_width_px, letter_spacing_px), letter_spacing_px * 16);
            &&& forall|i: int| 0 <= i < lines.len() ==> #[trigger] lines[i].start <= lines[i].end && lines[i].end <= encode_utf8(s).len()
            &&& forall|i: int, j: int| 0 <= i < j < lines.len() ==> #[trigger] lines[i].end <= #[trigger] lines[j].start
        }),
{
    let rs = wrap_ranges(font, s, max_width_px, letter_spacing_px);
    let sp = letter_spacing_px * 16;
    lemma_text_lines_ordered(font, s, 0, max_width_fp16(max_width_px), sp);
    let lines = wrapped_lines(font, s, rs, sp);
    assert forall|i: int| 0 <= i < lines.len() implies #[trigger] lines[i].start <= lines[i].end && lines[i].end <= encode_utf8(s).len() by {
        lemma_byte_offset_monotone(s, rs[i].0, rs[i].1);
        lemma_byte_offset_monotone(s, rs[i].1, s.len() as int);
        assert(encode_utf8(s.take(s.len() as int)) == encode_utf8(s)) by {
            assert(s.take(s.len() as int) =~= s);
        }
    }
    assert forall|i: int, j: int| 0 <= i < j < lines.len() implies #[trigger] lines[i].end <= #[trigger] lines[j].start by {
        assert(rs[i].1 <= rs[j].0);
        lemma_byte_offset_monotone(s, rs[i].1, rs[j].0);
        lemma_byte_offset_monotone(s, rs[j].0, s.len() as int);
        assert(s.take(s.len() as int) =~= s);
    }
}

/// Every prefix a scan accepted fits the width, and a scan without overflow
/// accepted everything it examined.
proof fn lemma_scan_accepts_fitting<F: FontMetrics + ?Sized>(font: &F, s: Seq<char>, ls: int, k: int, max_fp16: int, spacing: int)
    requires
        ls <= k,
    ensures
        ({
            let st = scan_state(font, s, ls, k, max_fp16, spacing);
            &&& st.2 is None ==> st.0 == k
            &&& forall|j: int| ls < j <= st.0 ==> #[trigger] range_width(font, s, ls, j, spacing) <= max_fp16
            &&& st.1 matches Some(b) ==> range_width(font, s, ls, b, spacing) <= max_fp16
        }),
    decreases k - ls,
{
    if k > ls {
        lemma_scan_accepts_fitting(font, s, ls, k - 1, max_fp16, spacing);
    }
}

/// Trimming keeps only a prefix.
proof fn lemma_trim_le(s: Seq<char>, a: int, e: int)
    requires
        a <= e,
    ensures
        a <= trim_spaces(s, a, e) <= e,
{
    lemma_trim_bounds(s, a, e);
}

/// A line range fits the width, or holds a single character.
pub open spec fn line_fits<F: FontMetrics + ?Sized>(font: &F, s: Seq<char>, r: (int, int), max_fp16: int, spacing: int) -> bool {
    r.1 == r.0 + 1 || range_width(font, s, r.0, r.1, spacing) <= max_fp16
}

proof fn lemma_span_lines_fit<F: FontMetrics + ?Sized>(font: &F, s: Seq<char>, ls: int, e: int, max_fp16: int, spacing: int)
    requires
        0 <= ls <= e <= s.len(),
        max_fp16 >= 0,
    ensures
        forall|i: int| 0 <= i < span_lines(font, s, ls, e, max_fp16, spacing).len() ==> line_fits(
            font,
            s,
            #[trigger] span_lines(font, s, ls, e, max_fp16, spacing)[i],
            max_fp16,
            spacing,
        ),
    decreases e - ls,
{
    if ls < e {
        lemma_line_step_bounds(font, s, ls, e, max_fp16, spacing);
        lemma_scan_bounds(font, s, ls, e, max_fp16, spacing);
        lemma_scan_accepts_fitting(font, s, ls, e, max_fp16, spacing);
        let st = scan_state(font, s, ls, e, max_fp16, spacing);
        let step = line_step(font, s, ls, e, max_fp16, spacing);
        assert(line_fits(font, s, step.0, max_fp16, spacing)) by {
            match st.2 {
                None => {
                    lemma_trim_le(s, ls, st.0);
                    if trim_spaces(s, ls, st.0) == ls {
                        assert(s.subrange(ls, ls) =~= Seq::<char>::empty());
                    }
                },
                Some(o) => {
                    let brk = match st.1 {
                        Some(b) => b,
                        None => ls,
                    };
                    if brk > ls {
                        lemma_trim_le(s, ls, brk);
                        if trim_spaces(s, ls, brk) == ls {
                            assert(s.subrange(ls, ls) =~= Seq::<char>::empty());
                        }
                    }
                },
            }
        }
        match step.1 {
            Some(next) => {
                lemma_span_lines_fit(font, s, next, e, max_fp16, spacing);
                let rest = span_lines(font, s, next, e, max_fp16, spacing);
                assert(span_lines(font, s, ls, e, max_fp16, spacing) == seq![step.0] + rest);
                assert forall|i: int| 0 <= i < (seq![step.0] + rest).len() implies line_fits(font, s, #[trigger] (seq![step.0] + rest)[i], max_fp16, spacing) by {
                    if i > 0 {
                        assert((seq![step.0] + rest)[i] == rest[i - 1]);
                    }
                }
            },
            None => {},
        }
    }
}

proof fn lemma_text_lines_fit<F: FontMetrics + ?Sized>(font: &F, s: Seq<char>, a: int, max_fp16: int, spacing: int)
    requires
        0 <= a <= s.len(),
        max_fp16 >= 0,
    ensures
        forall|i: int| 0 <= i < text_lines(font, s, a, max_fp16, spacing).len() ==> line_fits(
            font,
            s,
            #[trigger] text_lines(font, s, a, max_fp16, spacing)[i],
            max_fp16,
            spacing,
        ),
    decreases s.len() - a,
{
    lemma_next_newline_bounds(s, a);
    let nl = next_newline(s, a);
    let para_end = if nl < s.len() { nl } else { s.len() as int };
    let para = paragraph_lines(font, s, a, para_end, max_fp16, spacing);
    assert(forall|i: int| 0 <= i < para.len() ==> line_fits(font, s, #[trigger] para[i], max_fp16, spacing)) by {
        if a == para_end {
            assert(s.subrange(a, a) =~= Seq::<char>::empty());
            assert(line_fits(font, s, (a, a), max_fp16, spacing));
        } else {
            lemma_skip_bounds(s, a, para_end);
            lemma_span_lines_fit(font, s, skip_spaces(s, a, para_end), para_end, max_fp16, spacing);
        }
    }
    if nl < s.len() {
        lemma_text_lines_fit(font, s, nl + 1, max_fp16, spacing);
        let rest = text_lines(font, s, nl + 1, max_fp16, spacing);
        assert forall|i: int| 0 <= i < (para + rest).len() implies line_fits(font, s, #[trigger] (para + rest)[i], max_fp16, spacing) by {
            if i >= para.len() {
                assert((para + rest)[i] == rest[i - para.len()]);
            } else {
                assert((para + rest)[i] == para[i]);
            }
        }
    }
}

/// Every wrapped line fits the width limit, except a line holding a single
/// character wider than the limit.
pub proof fn lemma_wrapped_lines_fit<F: FontMetrics + ?Sized>(
    font: &F,
    s: Seq<char>,
    max_width_px: int,
    letter_spacing_px: int,
)
    ensures
        forall|i: int| 0 <= i < wrap_ranges(font, s, max_width_px, letter_spacing_px).len() ==> line_fits(
            font,
            s,
            #[trigger] wrap_ranges(font, s, max_width_px, letter_spacing_px)[i],
            max_width_fp16(max_width_px),
            letter_spacing_px * 16,
        ),
{
    lemma_text_lines_fit(font, s, 0, max_width_fp16(max_width_px), letter_spacing_px * 16);
}

} // verus!
