use rlvgl_core::draw::DrawOp;
use rlvgl_core::icon_bitmap::{IconBitmap, ICON_FILE, ICON_FOLDER};
use rlvgl_core::renderer::Renderer;
use rlvgl_core::widget::{Color, Rect};

struct CountRenderer {
    rects: usize,
    ops: Vec<DrawOp>,
}

impl Renderer for CountRenderer {
    fn drawn(&self) -> Vec<DrawOp> {
        self.ops.clone()
    }
    fn fill_rect(&mut self, rect: Rect, color: Color) {
        self.rects += 1;
        self.ops.push(DrawOp::Fill(rect, color));
    }
    fn blend_rect(&mut self, rect: Rect, color: Color) {
        self.ops.push(DrawOp::Blend(rect, color));
    }
    fn draw_text(&mut self, _pos: (i32, i32), _text: &str, _color: Color) {}
}

#[test]
fn folder_icon_draws_pixels() {
    let mut r = CountRenderer { rects: 0, ops: Vec::new() };
    ICON_FOLDER().draw(&mut r, 0, 0, 20, Color(255, 255, 255, 255));
    assert!(r.rects > 0);
}

#[test]
fn scaled_width_matches() {
    assert_eq!(ICON_FOLDER().scaled_width(20), 16);
    assert_eq!(ICON_FILE().scaled_width(20), 16);
}

#[test]
fn scale_floor_one() {
    assert_eq!(ICON_FOLDER().scaled_width(5), 8);
}

#[test]
fn folder_icon_fills_one_rect_per_set_bit() {
    let mut r = CountRenderer { rects: 0, ops: Vec::new() };
    ICON_FOLDER().draw(&mut r, 0, 0, 10, Color(1, 1, 1, 1));
    // 3 + 8 + 7 * 2 + 8 set bits
    assert_eq!(r.rects, 33);
}

#[test]
fn draw_plan_places_scaled_pixels() {
    static DATA: [u8; 1] = [0b1001_0000];
    let icon = IconBitmap { width: 2, height: 2, data: &DATA };
    let c = Color(7, 7, 7, 7);
    let ops = icon.draw_plan(10, 20, 6, c);
    // bits 0 and 3 set: (col 0, row 0) and (col 1, row 1), scale 6 / 2 = 3
    assert_eq!(
        ops,
        vec![
            DrawOp::Fill(Rect { x: 10, y: 20, width: 3, height: 3 }, c),
            DrawOp::Fill(Rect { x: 13, y: 23, width: 3, height: 3 }, c),
        ]
    );
    // negative and too-small targets clamp the scale to 1
    assert_eq!(icon.scaled_width(-40), 2);
    assert_eq!(icon.scaled_width(3), 2);
}

#[test]
fn pixels_past_the_data_are_blank() {
    static DATA: [u8; 1] = [0xff];
    let icon = IconBitmap { width: 8, height: 3, data: &DATA };
    assert_eq!(icon.draw_plan(0, 0, 3, Color(0, 0, 0, 0)).len(), 8);
}
