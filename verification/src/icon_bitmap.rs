//! 1-bit bitmap icons for the file browser.
//!
//! Each icon is stored as 1-bit-per-pixel row-major data with the MSB
//! mapping to the leftmost pixel. Rendering scales to a `target_height` so
//! the icon matches the active font height.
use vstd::prelude::*;

use crate::draw::{DrawOp, replay};
use crate::renderer::Renderer;
use crate::widget::{Color, Rect};

verus! {

/// A 1-bit icon bitmap that can be drawn at any integer scale.
pub struct IconBitmap {
    /// Width of the icon in native pixels.
    pub width: u8,
    /// Height of the icon in native pixels.
    pub height: u8,
    /// 1-bit-per-pixel row-major packed data, MSB = leftmost pixel.
    pub data: &'static [u8],
}

/// Whether bit `k` of the MSB-first packed `data` is set; bits past the end
/// of the data are clear.
pub open spec fn packed_bit(data: Seq<u8>, k: int) -> bool {
    k / 8 < data.len() && (data[k / 8] >> ((7 - k % 8) as u8)) & 1 == 1
}

/// Integer scale that brings `height` native rows up to `target_height`
/// (at least 1).
pub open spec fn icon_scale(height: int, target_height: int) -> int {
    if height > 0 && target_height >= height { target_height / height } else { 1 }
}

/// Fill calls for the first `n` native pixels (row-major) of an icon.
pub open spec fn icon_pixel_ops(
    data: Seq<u8>,
    width: int,
    n: int,
    x: int,
    y: int,
    scale: int,
    color: Color,
) -> Seq<DrawOp>
    decreases n,
{
    if n <= 0 || width <= 0 {
        Seq::empty()
    } else {
        let k = n - 1;
        let prev = icon_pixel_ops(data, width, k, x, y, scale, color);
        if packed_bit(data, k) {
            let col = k % width;
            let row = k / width;
            prev.push(
                DrawOp::Fill(
                    Rect {
                        x: (x + col * scale) as i32,
                        y: (y + row * scale) as i32,
                        width: scale as i32,
                        height: scale as i32,
                    },
                    color,
                ),
            )
        } else {
            prev
        }
    }
}

impl IconBitmap {
    /// Scale used for `target_height`.
    pub open spec fn scale_for(&self, target_height: int) -> int {
        icon_scale(self.height as int, target_height)
    }

    /// The calls [`IconBitmap::draw`] makes: one `scale x scale` fill per
    /// set native pixel, in row-major order.
    pub open spec fn draw_ops(&self, x: int, y: int, target_height: int, color: Color) -> Seq<DrawOp> {
        icon_pixel_ops(
            self.data@,
            self.width as int,
            self.width * self.height,
            x,
            y,
            self.scale_for(target_height),
            color,
        )
    }

    /// Whether drawing at `(x, y)` stays within `i32` arithmetic.
    pub open spec fn draw_fits(&self, x: int, y: int, target_height: int) -> bool {
        let s = self.scale_for(target_height);
        &&& self.width * s <= i32::MAX
        &&& self.height * s <= i32::MAX
        &&& x + self.width * s <= i32::MAX
        &&& y + self.height * s <= i32::MAX
    }

    fn compute_scale(&self, target_height: i32) -> (r: i32)
        ensures
            r == self.scale_for(target_height as int),
            r >= 1,
    {
        let h = self.height as i32;
        if h > 0 && target_height >= h {
            assert(target_height / h >= 1) by (nonlinear_arith)
                requires
                    h > 0,
                    target_height >= h,
            ;
            target_height / h
        } else {
            1
        }
    }

    /// Scaled width in display pixels for a given target height.
    pub fn scaled_width(&self, target_height: i32) -> (r: i32)
        requires
            self.width * self.scale_for(target_height as int) <= i32::MAX,
        ensures
            r == self.width * self.scale_for(target_height as int),
    {
        self.width as i32 * self.compute_scale(target_height)
    }

    /// The calls [`IconBitmap::draw`] makes, in order.
    pub fn draw_plan(&self, x: i32, y: i32, target_height: i32, color: Color) -> (ops: Vec<DrawOp>)
        requires
            self.draw_fits(x as int, y as int, target_height as int),
        ensures
            ops@ == self.draw_ops(x as int, y as int, target_height as int, color),
    {
        let scale = self.compute_scale(target_height);
        let w = self.width as usize;
        let h = self.height as usize;
        let mut ops: Vec<DrawOp> = Vec::new();
        let mut row: usize = 0;
        while row < h
            invariant
                scale == self.scale_for(target_height as int),
                scale >= 1,
                self.draw_fits(x as int, y as int, target_height as int),
                w == self.width,
                h == self.height,
                row <= h,
                ops@ == icon_pixel_ops(self.data@, w as int, (row * w) as int, x as int, y as int, scale as int, color),
            decreases h - row,
        {
            let mut col: usize = 0;
            while col < w
                invariant
                    scale == self.scale_for(target_height as int),
                    scale >= 1,
                    self.draw_fits(x as int, y as int, target_height as int),
                    w == self.width,
                    h == self.height,
                    row < h,
                    col <= w,
                    ops@ == icon_pixel_ops(self.data@, w as int, (row * w + col) as int, x as int, y as int, scale as int, color),
                decreases w - col,
            {
                proof {
                    assert(row * w + col < 65536) by (nonlinear_arith)
                        requires
                            row < h,
                            col < w,
                            h <= 255,
                            w <= 255,
                    ;
                }
                let bit_index = row * w + col;
                let byte_index = bit_index / 8;
                let bit_offset: u8 = (7 - bit_index % 8) as u8;
                proof {
                    assert(bit_index as int % w as int == col as int && bit_index as int / w as int == row as int) by (nonlinear_arith)
                        requires
                            bit_index == row * w + col,
                            col < w,
                    ;
                    assert(col * scale <= w * scale && row * scale <= h * scale) by (nonlinear_arith)
                        requires
                            col < w,
                            row < h,
                            scale >= 1,
                    ;
                }
                if byte_index < self.data.len() && (self.data[byte_index] >> bit_offset) & 1 == 1 {
                    ops.push(
                        DrawOp::Fill(
                            Rect {
                                x: x + col as i32 * scale,
                                y: y + row as i32 * scale,
                                width: scale,
                                height: scale,
                            },
                            color,
                        ),
                    );
                }
                col = col + 1;
            }
            proof {
                assert(row * w + w == (row + 1) * w) by (nonlinear_arith);
            }
            row = row + 1;
        }
        proof {
            assert(h * w == w * h) by (nonlinear_arith);
        }
        ops
    }

    /// Draw the icon at `(x, y)` scaled to `target_height` display pixels:
    /// each set native pixel becomes a `scale x scale` filled rectangle.
    pub fn draw(&self, renderer: &mut dyn Renderer, x: i32, y: i32, target_height: i32, color: Color)
        requires
            self.draw_fits(x as int, y as int, target_height as int),
        ensures
            final(renderer).drawn()@ == old(renderer).drawn()@ + self.draw_ops(
                x as int,
                y as int,
                target_height as int,
                color,
            ),
    {
        let ops = self.draw_plan(x, y, target_height, color);
        replay(renderer, &ops);
    }
}

/// Folder icon (8x10 native pixels): a tab above a closed box.
#[allow(non_snake_case)]
pub fn ICON_FOLDER() -> (r: IconBitmap)
    ensures
        r.width == 8,
        r.height == 10,
        r.data@ == seq![0x70u8, 0xff, 0x81, 0x81, 0x81, 0x81, 0x81, 0x81, 0x81, 0xff],
{
    IconBitmap {
        width: 8,
        height: 10,
        data: &[
            0b0111_0000,
            0b1111_1111,
            0b1000_0001,
            0b1000_0001,
            0b1000_0001,
            0b1000_0001,
            0b1000_0001,
            0b1000_0001,
            0b1000_0001,
            0b1111_1111,
        ],
    }
}

/// File icon (8x10 native pixels): a page with a folded corner.
#[allow(non_snake_case)]
pub fn ICON_FILE() -> (r: IconBitmap)
    ensures
        r.width == 8,
        r.height == 10,
        r.data@ == seq![0xfcu8, 0x86, 0x82, 0x82, 0x82, 0x82, 0x82, 0x82, 0x82, 0xfe],
{
    IconBitmap {
        width: 8,
        height: 10,
        data: &[
            0b1111_1100,
            0b1000_0110,
            0b1000_0010,
            0b1000_0010,
            0b1000_0010,
            0b1000_0010,
            0b1000_0010,
            0b1000_0010,
            0b1000_0010,
            0b1111_1110,
        ],
    }
}

} // verus!
