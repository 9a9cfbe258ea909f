//! Minimal fixed-width bitmap font for `no_std` text rendering.
//!
//! Each glyph occupies `glyph_width * glyph_height` bits, stored row-major
//! with the MSB of each byte mapping to the leftmost pixel. Glyphs cover the
//! printable ASCII codepoints `0x20..=0x7E` (95 characters).
use vstd::prelude::*;
use vstd::std_specs::iter::IteratorSpec;

use crate::draw::{DrawOp, replay};
use crate::font::{FontLineMetrics, FontMetrics, GlyphInfo, char_bound};
use crate::icon_bitmap::packed_bit;
use crate::renderer::Renderer;
use crate::widget::{Color, Rect};

verus! {

/// A fixed-width bitmap font with 1-bit packed glyph data.
pub struct BitmapFont {
    /// Width of each glyph in pixels.
    pub glyph_width: u8,
    /// Height of each glyph in pixels.
    pub glyph_height: u8,
    /// Pixel scale factor (1 = native, 2 = double, etc.).
    pub scale: u8,
    /// Row-major, 1-bit-per-pixel packed glyph data for ASCII `0x20..=0x7E`.
    pub data: &'static [u8],
}

/// Whether `ch` is printable ASCII, the range the font covers.
pub open spec fn covered(ch: char) -> bool {
    0x20 <= (ch as u32) <= 0x7e
}

/// `v` clamped into `lo..=hi`.
pub open spec fn clamp_to(v: int, lo: int, hi: int) -> int {
    if v < lo { lo } else if v > hi { hi } else { v }
}

/// Fill calls for the first `n` pixels (row-major) of the glyph whose bits
/// start at `base`, drawn at `(x, y)` with pixel size `s`.
pub open spec fn glyph_pixel_ops(
    data: Seq<u8>,
    base: int,
    width: int,
    n: int,
    x: int,
    y: int,
    s: int,
    color: Color,
) -> Seq<DrawOp>
    decreases n,
{
    if n <= 0 || width <= 0 {
        Seq::empty()
    } else {
        let k = n - 1;
        let prev = glyph_pixel_ops(data, base, width, k, x, y, s, color);
        if packed_bit(data, base + k) {
            prev.push(
                DrawOp::Fill(
                    Rect {
                        x: (x + (k % width) * s) as i32,
                        y: (y + (k / width) * s) as i32,
                        width: s as i32,
                        height: s as i32,
                    },
                    color,
                ),
            )
        } else {
            prev
        }
    }
}

impl BitmapFont {
    /// Scaled glyph width in display pixels.
    pub open spec fn width_px(&self) -> int {
        self.glyph_width * self.scale
    }

    /// Scaled glyph height in display pixels.
    pub open spec fn height_px(&self) -> int {
        self.glyph_height * self.scale
    }

    /// Horizontal advance between characters: the scaled width plus one
    /// scaled pixel of spacing.
    pub open spec fn advance_px(&self) -> int {
        self.width_px() + self.scale
    }

    /// The calls [`BitmapFont::draw_char`] makes.
    pub open spec fn char_ops(&self, x: int, y: int, ch: char, color: Color) -> Seq<DrawOp> {
        if covered(ch) {
            let bits = self.glyph_width * self.glyph_height;
            glyph_pixel_ops(
                self.data@,
                (ch as u32 - 0x20) * bits,
                self.glyph_width as int,
                bits,
                x,
                y,
                self.scale as int,
                color,
            )
        } else {
            Seq::empty()
        }
    }

    /// Whether drawing a glyph at `(x, y)` stays within `i32` arithmetic.
    pub open spec fn char_fits(&self, x: int, y: int) -> bool {
        x + self.width_px() <= i32::MAX && y + self.height_px() <= i32::MAX
    }

    /// The calls [`BitmapFont::draw_str`] makes for `chars` starting at pen
    /// position `x`, advancing along the given axis.
    pub open spec fn str_ops(&self, x: int, y: int, chars: Seq<char>, color: Color, along_y: bool) -> Seq<DrawOp>
        decreases chars.len(),
    {
        if chars.len() == 0 {
            Seq::empty()
        } else {
            let k = chars.len() - 1;
            let pen = if along_y { y + k * self.advance_px() } else { x + k * self.advance_px() };
            self.str_ops(x, y, chars.drop_last(), color, along_y) + if along_y {
                self.char_ops(x, pen, chars.last(), color)
            } else {
                self.char_ops(pen, y, chars.last(), color)
            }
        }
    }

    /// Scaled glyph width in display pixels.
    pub fn scaled_width(&self) -> (r: i32)
        ensures
            r == self.width_px(),
            0 <= r <= 65025,
    {
        proof {
            assert(self.glyph_width * self.scale <= 65025) by (nonlinear_arith)
                requires
                    self.glyph_width <= 255,
                    self.scale <= 255,
            ;
        }
        self.glyph_width as i32 * self.scale as i32
    }

    /// Scaled glyph height in display pixels.
    pub fn scaled_height(&self) -> (r: i32)
        ensures
            r == self.height_px(),
            0 <= r <= 65025,
    {
        proof {
            assert(self.glyph_height * self.scale <= 65025) by (nonlinear_arith)
                requires
                    self.glyph_height <= 255,
                    self.scale <= 255,
            ;
        }
        self.glyph_height as i32 * self.scale as i32
    }

    /// The calls [`BitmapFont::draw_char`] makes, in order.
    pub fn char_plan(&self, x: i32, y: i32, ch: char, color: Color) -> (ops: Vec<DrawOp>)
        requires
            self.char_fits(x as int, y as int),
        ensures
            ops@ == self.char_ops(x as int, y as int, ch, color),
    {
        let mut ops: Vec<DrawOp> = Vec::new();
        let code = ch as u32;
        if !(0x20 <= code && code <= 0x7e) {
            return ops;
        }
        let idx = (code - 0x20) as usize;
        let w = self.glyph_width as usize;
        let h = self.glyph_height as usize;
        let s = self.scale as i32;
        proof {
            assert(w * h <= 65025) by (nonlinear_arith)
                requires
                    w <= 255,
                    h <= 255,
            ;
            assert(idx * (w * h) <= 94 * 65025) by (nonlinear_arith)
                requires
                    idx <= 94,
                    w * h <= 65025,
            ;
        }
        let bits_per_glyph = w * h;
        let bit_offset = idx * bits_per_glyph;
        let mut row: usize = 0;
        while row < h
            invariant
                self.char_fits(x as int, y as int),
                w == self.glyph_width,
                h == self.glyph_height,
                s == self.scale,
                covered(ch),
                bits_per_glyph == w * h,
                bit_offset == (ch as u32 - 0x20) * bits_per_glyph,
                bit_offset <= 94 * 65025,
                row <= h,
                ops@ == glyph_pixel_ops(self.data@, bit_offset as int, w as int, (row * w) as int, x as int, y as int, s as int, color),
            decreases h - row,
        {
            let mut col: usize = 0;
            while col < w
                invariant
                    self.char_fits(x as int, y as int),
                    w == self.glyph_width,
                    h == self.glyph_height,
                    s == self.scale,
                    bit_offset <= 94 * 65025,
                    row < h,
                    col <= w,
                    ops@ == glyph_pixel_ops(self.data@, bit_offset as int, w as int, (row * w + col) as int, x as int, y as int, s as int, color),
                decreases w - col,
            {
                proof {
                    assert(row * w + col < 65025) by (nonlinear_arith)
                        requires
                            row < h,
                            col < w,
                            h <= 255,
                            w <= 255,
                    ;
                    let k = row * w + col;
                    assert(k as int % w as int == col as int && k as int / w as int == row as int) by (nonlinear_arith)
                        requires
                            k == row * w + col,
                            col < w,
                    ;
                    assert(col * s <= w * s && row * s <= h * s) by (nonlinear_arith)
                        requires
                            col < w,
                            row < h,
                            s >= 0,
                    ;
                    assert(w * s <= 65025 && h * s <= 65025) by (nonlinear_arith)
                        requires
                            w <= 255,
                            h <= 255,
                            0 <= s <= 255,
                    ;
                }
                let bit = bit_offset + row * w + col;
                let byte_idx = bit / 8;
                let bit_idx: u8 = (7 - bit % 8) as u8;
                if byte_idx < self.data.len() && (self.data[byte_idx] >> bit_idx) & 1 == 1 {
                    ops.push(
                        DrawOp::Fill(
                            Rect { x: x + col as i32 * s, y: y + row as i32 * s, width: s, height: s },
                            color,
                        ),
                    );
                }
                col = col + 1;
            }
            proof {
                assert(row * w + w == (row + 1) * w) by (nonlinear_arith);
            }
            row = row + 1;
        }
        proof {
            assert(h * w == w * h) by (nonlinear_arith);
        }
        ops
    }

    /// Render a single printable character at `(x, y)`; others draw nothing.
    pub fn draw_char(&self, renderer: &mut dyn Renderer, x: i32, y: i32, ch: char, color: Color)
        requires
            self.char_fits(x as int, y as int),
        ensures
            final(renderer).drawn()@ == old(renderer).drawn()@ + self.char_ops(x as int, y as int, ch, color),
    {
        let ops = self.char_plan(x, y, ch, color);
        replay(renderer, &ops);
    }

    /// Whether drawing `n` characters from pen position `(x, y)` along the
    /// given axis stays within `i32` arithmetic.
    pub open spec fn str_fits(&self, x: int, y: int, n: int, along_y: bool) -> bool {
        if along_y {
            &&& y + n * self.advance_px() <= i32::MAX
            &&& n > 0 ==> y + (n - 1) * self.advance_px() + self.height_px() <= i32::MAX
            &&& x + self.width_px() <= i32::MAX
        } else {
            x + n * self.advance_px() <= i32::MAX && y + self.height_px() <= i32::MAX
        }
    }

    /// The calls of a string drawn from `(x, y)`, advancing along the given
    /// axis.
    pub fn str_plan(&self, x: i32, y: i32, text: &str, color: Color, along_y: bool) -> (ops: Vec<DrawOp>)
        requires
            self.str_fits(x as int, y as int, text@.len() as int, along_y),
        ensures
            ops@ == self.str_ops(x as int, y as int, text@, color, along_y),
    {
        let ghost all = text@;
        let _n = char_bound(text);
        let advance = self.scaled_width() + self.scale as i32;
        let mut pen = if along_y { y } else { x };
        let mut ops: Vec<DrawOp> = Vec::new();
        let mut i: usize = 0;
        let mut it = text.chars();
        proof {
            assert(all.take(0) =~= Seq::<char>::empty());
        }
        loop
            invariant
                all == text@,
                all.len() <= usize::MAX,
                self.str_fits(x as int, y as int, all.len() as int, along_y),
                advance == self.advance_px(),
                advance >= 0,
                i <= all.len(),
                it.remaining() == all.skip(i as int),
                pen == if along_y { y + i * advance } else { x + i * advance },
                ops@ == self.str_ops(x as int, y as int, all.take(i as int), color, along_y),
            ensures
                ops@ == self.str_ops(x as int, y as int, all, color, along_y),
            decreases all.len() - i,
        {
            match it.next() {
                Some(ch) => {
                    proof {
                        assert(all.skip(i + 1) =~= all.skip(i as int).drop_first());
                        assert(all.take(i + 1).drop_last() =~= all.take(i as int));
                        assert(all.take(i + 1).last() == ch);
                        assert(i * advance + advance == (i + 1) * advance) by (nonlinear_arith);
                        assert((i + 1) * advance <= all.len() * advance) by (nonlinear_arith)
                            requires
                                i + 1 <= all.len(),
                                advance >= 0,
                        ;
                        assert(i * advance <= (all.len() - 1) * advance) by (nonlinear_arith)
                            requires
                                i + 1 <= all.len(),
                                advance >= 0,
                        ;
                    }
                    let mut more = if along_y {
                        self.char_plan(x, pen, ch, color)
                    } else {
                        self.char_plan(pen, y, ch, color)
                    };
                    ops.append(&mut more);
                    pen = pen + advance;
                    i = i + 1;
                },
                None => {
                    proof {
                        assert(all.take(i as int) =~= all);
                    }
                    break;
                },
            }
        }
        ops
    }

    /// Render a string at `(x, y)` advancing horizontally.
    pub fn draw_str(&self, renderer: &mut dyn Renderer, x: i32, y: i32, text: &str, color: Color)
        requires
            self.str_fits(x as int, y as int, text@.len() as int, false),
        ensures
            final(renderer).drawn()@ == old(renderer).drawn()@ + self.str_ops(x as int, y as int, text@, color, false),
    {
        let ops = self.str_plan(x, y, text, color, false);
        replay(renderer, &ops);
    }

    /// Render a string advancing along the Y axis (for rotated displays):
    /// glyphs stay upright, each placed at increasing Y.
    pub fn draw_str_y(&self, renderer: &mut dyn Renderer, x: i32, y: i32, text: &str, color: Color)
        requires
            self.str_fits(x as int, y as int, text@.len() as int, true),
        ensures
            final(renderer).drawn()@ == old(renderer).drawn()@ + self.str_ops(x as int, y as int, text@, color, true),
    {
        let ops = self.str_plan(x, y, text, color, true);
        replay(renderer, &ops);
    }

    /// Coverage of pixel `col` of display row `row` of glyph `ch` (0 or 255).
    pub open spec fn coverage_at(&self, ch: char, row: int, col: int) -> u8 {
        let scale = if self.scale > 0 { self.scale as int } else { 1 };
        let source_row = row / scale;
        let source_col = col / scale;
        let bits = self.glyph_width * self.glyph_height;
        if source_row < self.glyph_height && source_col < self.glyph_width && packed_bit(
            self.data@,
            (ch as u32 - 0x20) * bits + source_row * self.glyph_width + source_col,
        ) {
            255
        } else {
            0
        }
    }
}

impl FontMetrics for BitmapFont {
    open spec fn glyph_spec(&self, ch: char) -> Option<GlyphInfo> {
        if !covered(ch) {
            None
        } else {
            Some(
                GlyphInfo {
                    advance_fp16: clamp_to(self.advance_px() * 16, 0, u16::MAX as int) as u16,
                    bearing_x: 0,
                    bearing_y: clamp_to(self.height_px(), 0, i16::MAX as int) as i16,
                    width: self.width_px() as u16,
                    height: self.height_px() as u16,
                },
            )
        }
    }

    open spec fn line_spec(&self) -> FontLineMetrics {
        let height = clamp_to(self.height_px(), 0, u16::MAX as int);
        FontLineMetrics {
            line_height: height as u16,
            ascent: clamp_to(height, 0, i16::MAX as int) as i16,
            descent: 0,
        }
    }

    fn glyph_metrics(&self, ch: char) -> (r: Option<GlyphInfo>) {
        let code = ch as u32;
        if !(0x20 <= code && code <= 0x7e) {
            return None;
        }
        let width = self.scaled_width() as u16;
        let height = self.scaled_height() as u16;
        let advance_px = self.scaled_width() + self.scale as i32;
        let fp = advance_px * 16;
        let advance_fp16: u16 = if fp > 0xffff { 0xffff } else { fp as u16 };
        let bearing_y: i16 = if height > 0x7fff { 0x7fff } else { height as i16 };
        Some(GlyphInfo { advance_fp16, bearing_x: 0, bearing_y, width, height })
    }

    fn line_metrics(&self) -> (r: FontLineMetrics) {
        let height = self.scaled_height() as u16;
        let ascent: i16 = if height > 0x7fff { 0x7fff } else { height as i16 };
        FontLineMetrics { line_height: height, ascent, descent: 0 }
    }

    fn glyph_coverage_row(&self, ch: char, row: u16, x_offset: u16, coverage: &mut [u8]) -> (r: bool)
        ensures
            r == covered(ch),
            r ==> final(coverage)@.len() == old(coverage)@.len() && forall|i: int|
                0 <= i < old(coverage)@.len() ==> #[trigger] final(coverage)@[i] == self.coverage_at(
                    ch,
                    row as int,
                    x_offset + i,
                ),
            !r ==> final(coverage)@ == old(coverage)@,
    {
        let code = ch as u32;
        if !(0x20 <= code && code <= 0x7e) {
            return false;
        }
        let scale: usize = if self.scale > 0 { self.scale as usize } else { 1 };
        let source_row = row as usize / scale;
        let w = self.glyph_width as usize;
        let h = self.glyph_height as usize;
        proof {
            assert(w * h <= 65025) by (nonlinear_arith)
                requires
                    w <= 255,
                    h <= 255,
            ;
        }
        let idx: usize = (code - 0x20) as usize;
        proof {
            assert(idx * (w * h) <= 94 * 65025) by (nonlinear_arith)
                requires
                    idx <= 94,
                    w * h <= 65025,
            ;
        }
        let bit_offset = idx * (w * h);
        let n = coverage.len();
        let mut i: usize = 0;
        while i < n
            invariant
                n == old(coverage)@.len(),
                coverage@.len() == n,
                i <= n,
                covered(ch),
                scale == (if self.scale > 0 { self.scale as int } else { 1 }),
                source_row == row as int / scale as int,
                w == self.glyph_width,
                h == self.glyph_height,
                bit_offset == (ch as u32 - 0x20) * (w * h),
                bit_offset <= 94 * 65025,
                forall|j: int| 0 <= j < i ==> #[trigger] coverage@[j] == self.coverage_at(ch, row as int, x_offset + j),
            decreases n - i,
        {
            let wide_col: u128 = (x_offset as u128 + i as u128) / scale as u128;
            let alpha: u8 = if source_row < h && wide_col < w as u128 {
                let source_col = wide_col as usize;
                proof {
                    assert(source_row * w + source_col < 65025) by (nonlinear_arith)
                        requires
                            source_row < h,
                            source_col < w,
                            h <= 255,
                            w <= 255,
                    ;
                }
                let bit = bit_offset + source_row * w + source_col;
                let byte_idx = bit / 8;
                let bit_idx: u8 = (7 - bit % 8) as u8;
                if byte_idx < self.data.len() && (self.data[byte_idx] >> bit_idx) & 1 == 1 {
                    255
                } else {
                    0
                }
            } else {
                0
            };
            coverage[i] = alpha;
            i = i + 1;
        }
        true
    }
}

} // verus!
