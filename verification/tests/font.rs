use rlvgl_core::font::{measure_text_fp16, FontLineMetrics, FontMetrics, GlyphInfo};

/// Monospace test font: 8 px advance for ASCII, no glyph otherwise.
struct Mono;

impl FontMetrics for Mono {
    fn glyph_spec(&self, ch: char) -> Option<GlyphInfo> {
        self.glyph_metrics(ch)
    }
    fn line_spec(&self) -> FontLineMetrics {
        self.line_metrics()
    }
    fn glyph_metrics(&self, ch: char) -> Option<GlyphInfo> {
        if ch.is_ascii() {
            Some(GlyphInfo { advance_fp16: 128, bearing_x: 0, bearing_y: 10, width: 8, height: 10 })
        } else {
            None
        }
    }
    fn line_metrics(&self) -> FontLineMetrics {
        FontLineMetrics { line_height: 12, ascent: 10, descent: 2 }
    }
}

#[test]
fn measure_counts_advances_spacing_and_fallback() {
    assert_eq!(measure_text_fp16(&Mono, "", 0), 0);
    assert_eq!(measure_text_fp16(&Mono, "ab", 0), 256);
    assert_eq!(measure_text_fp16(&Mono, "ab", 2), 256 + 32);
    // zero-width space takes no room and adds no spacing
    assert_eq!(measure_text_fp16(&Mono, "a\u{200B}b", 2), 256 + 32);
    // missing glyph: half the 12 px line height = 6 px
    assert_eq!(measure_text_fp16(&Mono, "é", 0), 96);
    // negative spacing never drives the width below zero
    assert_eq!(measure_text_fp16(&Mono, "abc", -127), 0);
}

use rlvgl_core::bitmap_font::BitmapFont;
use rlvgl_core::font::{shape_text_ltr, wrap_greedy_ltr, FontId, FontRegistry, GlyphPlacement, WidgetFont, WrappedLine};
use rlvgl_core::widget::Rect;

/// 6x10 glyph cells at scale 1: 7 px advance, 10 px lines, blank bitmaps.
static CELL: BitmapFont = BitmapFont { glyph_width: 6, glyph_height: 10, scale: 1, data: &[] };

fn line(start: usize, end: usize, advance_fp16: i32) -> WrappedLine {
    WrappedLine { start, end, advance_fp16 }
}

#[test]
fn wrap_breaks_at_the_first_overflow() {
    let w = wrap_greedy_ltr(&CELL, "hello world", 40, 0, 2);
    assert_eq!(w.lines, vec![line(0, 5, 560), line(6, 11, 560)]);
    assert_eq!(w.used_height, 2 * 10 + 2);
}

#[test]
fn wrap_prefers_the_last_break_opportunity() {
    let w = wrap_greedy_ltr(&CELL, "ab-cd", 28, 0, 0);
    assert_eq!(w.lines, vec![line(0, 3, 336), line(3, 5, 224)]);
    let w = wrap_greedy_ltr(&CELL, "ab   cd", 21, 0, 0);
    assert_eq!(w.lines, vec![line(0, 2, 224), line(5, 7, 224)]);
}

#[test]
fn wrap_splits_long_words_and_keeps_one_char_minimum() {
    let w = wrap_greedy_ltr(&CELL, "abcdef", 14, 0, 0);
    assert_eq!(w.lines, vec![line(0, 2, 224), line(2, 4, 224), line(4, 6, 224)]);
    let w = wrap_greedy_ltr(&CELL, "abc", 0, 0, 0);
    assert_eq!(w.lines, vec![line(0, 1, 112), line(1, 2, 112), line(2, 3, 112)]);
}

#[test]
fn wrap_honours_hard_newlines_and_byte_offsets() {
    let w = wrap_greedy_ltr(&CELL, "ab\n\ncd", 100, 0, 0);
    assert_eq!(w.lines, vec![line(0, 2, 224), line(3, 3, 0), line(4, 6, 224)]);
    assert_eq!(w.used_height, 30);
    // 'é' is two bytes: offsets are bytes, widths are glyphs
    let w = wrap_greedy_ltr(&CELL, "é\né", 100, 0, 0);
    assert_eq!(w.lines, vec![line(0, 2, 80), line(3, 5, 80)]);
}

#[test]
fn wrap_of_empty_and_all_space_text() {
    let w = wrap_greedy_ltr(&CELL, "", 50, 0, 3);
    assert_eq!(w.lines, vec![line(0, 0, 0)]);
    assert_eq!(w.used_height, 10);
    let w = wrap_greedy_ltr(&CELL, "   ", 50, 0, 3);
    assert!(w.lines.is_empty());
    assert_eq!(w.used_height, 0);
}

#[test]
fn shape_places_glyphs_on_the_baseline() {
    let shaped = shape_text_ltr(&CELL, "ab", (10, 20), 0);
    let info = CELL.glyph_metrics('a').unwrap();
    assert_eq!(
        shaped.glyphs,
        vec![
            GlyphPlacement { ch: 'a', info, x: 10, y: 20 },
            GlyphPlacement { ch: 'b', info, x: 17, y: 20 },
        ]
    );
    assert_eq!(shaped.total_advance_fp16, 224);
    assert_eq!(shaped.bounds, Rect { x: 10, y: 10, width: 13, height: 10 });
    assert_eq!(shaped.bidi_level, 0);
    assert!(shaped.font.is_some());
}

#[test]
fn shape_skips_missing_glyphs_but_advances() {
    // 'é' has no glyph: it advances by half the line height (5 px)
    let shaped = shape_text_ltr(&CELL, "éa", (0, 0), 1);
    assert_eq!(shaped.glyphs.len(), 1);
    assert_eq!(shaped.glyphs[0].x, (80 + 16 + 8) >> 4);
    let empty = shape_text_ltr(&CELL, "\u{200B}", (3, 4), 0);
    assert!(empty.glyphs.is_empty());
    assert_eq!(empty.bounds, Rect { x: 3, y: 4, width: 0, height: 0 });
}

#[test]
fn registry_resolves_registered_non_default_ids() {
    let entries: [(FontId, &'static dyn FontMetrics); 2] =
        [(FontId(0), &CELL), (FontId(7), &CELL)];
    let reg = FontRegistry::new(&entries);
    assert!(reg.resolve(FontId(7)).is_some());
    assert!(reg.resolve(FontId(0)).is_none());
    assert!(reg.resolve(FontId(8)).is_none());
    assert!(FontRegistry::EMPTY().resolve(FontId(7)).is_none());
    assert_eq!(FontId::DEFAULT(), FontId(0));
}

#[test]
fn widget_font_slot_assignment() {
    let mut wf = WidgetFont::new();
    assert!(!wf.is_set());
    wf.set(&CELL);
    assert!(wf.is_set());
    assert_eq!(wf.font().unwrap().line_metrics().line_height, 10);
    wf.clear();
    assert!(!wf.is_set());
    assert!(WidgetFont::with_font(&CELL).is_set());
}

#[test]
fn wrapped_lines_fit_even_with_negative_letter_spacing() {
    let text = "abcd ef  ghij k lmnopq";
    for spacing in [-3i8, -1, 0, 2] {
        for width in [0i32, 7, 20, 33] {
            let w = wrap_greedy_ltr(&CELL, text, width, spacing, 0);
            let mut previous_end = 0;
            for l in &w.lines {
                assert!(previous_end <= l.start && l.start <= l.end && l.end <= text.len());
                previous_end = l.end;
                let single_char = text[l.start..l.end].chars().count() == 1;
                assert!(single_char || l.advance_fp16 <= width.max(0) * 16, "{spacing} {width} {l:?}");
            }
        }
    }
}

/// The same cells at scale 2: 20 px lines.
static CELL_X2: BitmapFont = BitmapFont { glyph_width: 6, glyph_height: 10, scale: 2, data: &[] };

#[test]
fn set_replaces_the_previously_assigned_font() {
    let mut wf = WidgetFont::with_font(&CELL);
    assert_eq!(wf.font().unwrap().line_metrics().line_height, 10);
    wf.set(&CELL_X2);
    assert_eq!(wf.font().unwrap().line_metrics().line_height, 20);
    wf.set(&CELL);
    assert_eq!(wf.font().unwrap().line_metrics().line_height, 10);
    wf.clear();
    assert!(wf.font().is_none());
}

#[test]
fn shaped_total_advance_matches_measured_width() {
    for (text, spacing) in [("ab", 0i8), ("a\u{200B}b", 2), ("éa", 1), ("abc", -127), ("", 3)] {
        let shaped = shape_text_ltr(&CELL, text, (5, 7), spacing);
        assert_eq!(shaped.total_advance_fp16, measure_text_fp16(&CELL, text, spacing));
    }
}
