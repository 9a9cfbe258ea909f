use rlvgl_core::bitmap_font::BitmapFont;
use rlvgl_core::draw::DrawOp;
use rlvgl_core::font::{FontLineMetrics, FontMetrics, GlyphInfo};
use rlvgl_core::widget::{Color, Rect};

/// 2x2 glyphs: ' ' = 1001, '!' = 0110.
static TINY: BitmapFont = BitmapFont { glyph_width: 2, glyph_height: 2, scale: 1, data: &[0b1001_0110] };

#[test]
fn metrics_follow_cell_size_and_scale() {
    let big = BitmapFont { glyph_width: 6, glyph_height: 10, scale: 2, data: &[] };
    assert_eq!(big.scaled_width(), 12);
    assert_eq!(big.scaled_height(), 20);
    assert_eq!(
        big.glyph_metrics('A'),
        Some(GlyphInfo { advance_fp16: 14 * 16, bearing_x: 0, bearing_y: 20, width: 12, height: 20 })
    );
    assert_eq!(big.glyph_metrics('\u{7f}'), None);
    assert_eq!(big.glyph_metrics('\u{1f}'), None);
    assert_eq!(big.line_metrics(), FontLineMetrics { line_height: 20, ascent: 20, descent: 0 });
}

#[test]
fn char_plan_fills_set_bits() {
    let c = Color(1, 2, 3, 4);
    assert_eq!(
        TINY.char_plan(5, 6, ' ', c),
        vec![
            DrawOp::Fill(Rect { x: 5, y: 6, width: 1, height: 1 }, c),
            DrawOp::Fill(Rect { x: 6, y: 7, width: 1, height: 1 }, c),
        ]
    );
    assert_eq!(
        TINY.char_plan(0, 0, '!', c),
        vec![
            DrawOp::Fill(Rect { x: 1, y: 0, width: 1, height: 1 }, c),
            DrawOp::Fill(Rect { x: 0, y: 1, width: 1, height: 1 }, c),
        ]
    );
    assert!(TINY.char_plan(0, 0, '\n', c).is_empty());
}

#[test]
fn str_plan_advances_by_cell_plus_one_pixel() {
    let c = Color(0, 0, 0, 255);
    let ops = TINY.str_plan(0, 0, "! ", c, false);
    assert_eq!(ops.len(), 4);
    assert_eq!(ops[2], DrawOp::Fill(Rect { x: 3, y: 0, width: 1, height: 1 }, c));
    let ops = TINY.str_plan(0, 0, "! ", c, true);
    assert_eq!(ops[2], DrawOp::Fill(Rect { x: 0, y: 3, width: 1, height: 1 }, c));
}

#[test]
fn coverage_rows() {
    let mut row = [7u8; 3];
    assert!(TINY.glyph_coverage_row(' ', 0, 0, &mut row));
    assert_eq!(row, [255, 0, 0]);
    assert!(TINY.glyph_coverage_row('!', 1, 0, &mut row));
    assert_eq!(row, [255, 0, 0]);
    assert!(TINY.glyph_coverage_row('!', 0, 1, &mut row));
    assert_eq!(row, [255, 0, 0]);
    assert!(TINY.glyph_coverage_row('!', 2, 0, &mut row));
    assert_eq!(row, [0, 0, 0]);
    let mut untouched = [9u8; 2];
    assert!(!TINY.glyph_coverage_row('é', 0, 0, &mut untouched));
    assert_eq!(untouched, [9, 9]);
}
