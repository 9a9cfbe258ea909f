use rlvgl_core::draw::{
    draw_border_straight, draw_rounded_border, draw_widget_bg, fill_rounded_rect,
    rounded_border_plan, rounded_fill_plan, straight_border_plan, widget_bg_plan, DrawOp,
    GradientDesc, GradientKind,
};
use rlvgl_core::renderer::Renderer;
use rlvgl_core::style::Style;
use rlvgl_core::widget::{Color, Rect};

struct RecordRenderer {
    fill_rects: Vec<(Rect, Color)>,
    blend_rects: Vec<(Rect, Color)>,
    ops: Vec<DrawOp>,
}

impl RecordRenderer {
    fn new() -> Self {
        Self {
            fill_rects: Vec::new(),
            blend_rects: Vec::new(),
            ops: Vec::new(),
        }
    }
}

impl Renderer for RecordRenderer {
    fn drawn(&self) -> Vec<DrawOp> {
        self.ops.clone()
    }
    fn fill_rect(&mut self, rect: Rect, color: Color) {
        self.fill_rects.push((rect, color));
        self.ops.push(DrawOp::Fill(rect, color));
    }
    fn blend_rect(&mut self, rect: Rect, color: Color) {
        self.blend_rects.push((rect, color));
        self.ops.push(DrawOp::Blend(rect, color));
    }
    fn draw_text(&mut self, _pos: (i32, i32), _text: &str, _color: Color) {}
}

struct CountRenderer {
    fills: u32,
    blends: u32,
    ops: Vec<DrawOp>,
}

impl CountRenderer {
    fn new() -> Self {
        Self { fills: 0, blends: 0, ops: Vec::new() }
    }
}

impl Renderer for CountRenderer {
    fn drawn(&self) -> Vec<DrawOp> {
        self.ops.clone()
    }
    fn fill_rect(&mut self, rect: Rect, color: Color) {
        self.fills += 1;
        self.ops.push(DrawOp::Fill(rect, color));
    }
    fn blend_rect(&mut self, rect: Rect, color: Color) {
        self.blends += 1;
        self.ops.push(DrawOp::Blend(rect, color));
    }
    fn draw_text(&mut self, _pos: (i32, i32), _text: &str, _color: Color) {}
}

#[test]
fn zero_radius_single_fill() {
    let mut r = CountRenderer::new();
    let rect = Rect { x: 0, y: 0, width: 100, height: 50 };
    fill_rounded_rect(&mut r, rect, Color(0, 0, 0, 255), 0);
    assert_eq!(r.fills, 1);
    assert_eq!(r.blends, 0);
}

#[test]
fn radius_clamped_for_pill_shape() {
    let mut r = CountRenderer::new();
    let rect = Rect { x: 0, y: 0, width: 40, height: 20 };
    fill_rounded_rect(&mut r, rect, Color(0, 0, 0, 255), 30);
    assert!(r.fills > 1, "expected corners, got {} fills", r.fills);
}

#[test]
fn aa_fringe_produces_blend_calls() {
    let mut r = CountRenderer::new();
    let rect = Rect { x: 0, y: 0, width: 100, height: 100 };
    fill_rounded_rect(&mut r, rect, Color(255, 0, 0, 255), 10);
    assert!(r.blends > 0, "expected AA blend calls, got 0");
}

#[test]
fn rounded_border_produces_ring() {
    let mut r = RecordRenderer::new();
    let rect = Rect { x: 0, y: 0, width: 60, height: 60 };
    draw_rounded_border(&mut r, rect, Color(0, 0, 0, 255), 2, 8);
    assert!(!r.fill_rects.is_empty(), "expected border fills");
}

#[test]
fn straight_border_four_strips() {
    let mut r = CountRenderer::new();
    let rect = Rect { x: 0, y: 0, width: 100, height: 50 };
    draw_border_straight(&mut r, rect, Color(0, 0, 0, 255), 2);
    assert_eq!(r.fills, 4);
}

#[test]
fn draw_widget_bg_uses_radius() {
    let mut r = CountRenderer::new();
    let rect = Rect { x: 0, y: 0, width: 80, height: 40 };
    let style = Style {
        bg_color: Color(100, 100, 100, 255),
        border_color: Color(0, 0, 0, 255),
        border_width: 1,
        alpha: 255,
        radius: 6,
    };
    draw_widget_bg(&mut r, rect, &style);
    assert!(r.fills > 1);
}

#[test]
fn linear_gradient_samples_cardinal_axis() {
    let stops = [(0, Color(0, 0, 0, 255)), (255, Color(255, 0, 0, 255))];
    let gradient = GradientDesc::new(GradientKind::Linear { angle_deg: 0 }, &stops);
    let rect = Rect { x: 10, y: 20, width: 3, height: 2 };
    assert_eq!(gradient.color_at(rect, 10, 20), Some(Color(0, 0, 0, 255)));
    assert_eq!(gradient.color_at(rect, 11, 20), Some(Color(127, 0, 0, 255)));
    assert_eq!(gradient.color_at(rect, 12, 20), Some(Color(255, 0, 0, 255)));
}

#[test]
fn gradient_stops_do_not_need_sorting() {
    let stops = [(255, Color(255, 0, 0, 255)), (0, Color(0, 0, 0, 255))];
    let gradient = GradientDesc::new(GradientKind::Linear { angle_deg: 90 }, &stops);
    let rect = Rect { x: 0, y: 0, width: 2, height: 3 };
    assert_eq!(gradient.color_at(rect, 0, 0), Some(Color(0, 0, 0, 255)));
    assert_eq!(gradient.color_at(rect, 0, 1), Some(Color(127, 0, 0, 255)));
    assert_eq!(gradient.color_at(rect, 0, 2), Some(Color(255, 0, 0, 255)));
}

#[test]
fn radial_gradient_reaches_outer_stop_at_corner() {
    let stops = [(0, Color(0, 0, 0, 255)), (255, Color(0, 0, 255, 255))];
    let gradient = GradientDesc::new(
        GradientKind::Radial { cx_frac: 128, cy_frac: 128 },
        &stops,
    );
    let rect = Rect { x: 0, y: 0, width: 5, height: 5 };
    assert_eq!(gradient.color_at(rect, 2, 2), Some(Color(0, 0, 0, 255)));
    assert_eq!(gradient.color_at(rect, 0, 0), Some(Color(0, 0, 255, 255)));
}

#[test]
fn zero_radius_plan_is_one_whole_fill() {
    let rect = Rect { x: -5, y: 7, width: 30, height: 12 };
    let c = Color(1, 2, 3, 4);
    assert_eq!(rounded_fill_plan(rect, c, 0), vec![DrawOp::Fill(rect, c)]);
}

#[test]
fn rounded_fill_plan_small_radius_exact() {
    // radius 1 on a 4x4 box: body strip, two caps, then one corner row.
    let rect = Rect { x: 0, y: 0, width: 4, height: 4 };
    let c = Color(9, 9, 9, 200);
    let ops = rounded_fill_plan(rect, c, 1);
    assert_eq!(ops[0], DrawOp::Fill(Rect { x: 0, y: 1, width: 4, height: 2 }, c));
    assert_eq!(ops[1], DrawOp::Fill(Rect { x: 1, y: 0, width: 2, height: 1 }, c));
    assert_eq!(ops[2], DrawOp::Fill(Rect { x: 1, y: 3, width: 2, height: 1 }, c));
    // arc_dx(1, 0): isqrt(16 - 4) = 3 -> dx 0, frac 192 -> four blends only.
    assert_eq!(ops.len(), 7);
    let aa = Color(9, 9, 9, ((192u16 * 200) / 255) as u8);
    assert_eq!(ops[3], DrawOp::Blend(Rect { x: 0, y: 0, width: 1, height: 1 }, aa));
    assert_eq!(ops[4], DrawOp::Blend(Rect { x: 3, y: 0, width: 1, height: 1 }, aa));
    assert_eq!(ops[5], DrawOp::Blend(Rect { x: 0, y: 3, width: 1, height: 1 }, aa));
    assert_eq!(ops[6], DrawOp::Blend(Rect { x: 3, y: 3, width: 1, height: 1 }, aa));
}

#[test]
fn zero_radius_border_equals_straight_border() {
    let rect = Rect { x: 3, y: 4, width: 50, height: 20 };
    let c = Color(0, 0, 0, 255);
    assert_eq!(rounded_border_plan(rect, c, 3, 0), straight_border_plan(rect, c, 3));
    assert_eq!(straight_border_plan(rect, c, 3).len(), 4);
    assert_eq!(straight_border_plan(rect, c, 0).len(), 0);
    assert_eq!(
        straight_border_plan(rect, c, 3)[3],
        DrawOp::Fill(Rect { x: 50, y: 7, width: 3, height: 14 }, c)
    );
}

#[test]
fn transparent_and_translucent_backgrounds() {
    let rect = Rect { x: 0, y: 0, width: 10, height: 10 };
    let mut style = Style {
        bg_color: Color(10, 20, 30, 255),
        border_color: Color(0, 0, 0, 255),
        border_width: 0,
        alpha: 0,
        radius: 0,
    };
    assert!(widget_bg_plan(rect, &style).is_empty());
    style.alpha = 128;
    assert_eq!(
        widget_bg_plan(rect, &style),
        vec![DrawOp::Blend(rect, Color(10, 20, 30, 128))]
    );
    style.alpha = 255;
    assert_eq!(
        widget_bg_plan(rect, &style),
        vec![DrawOp::Fill(rect, Color(10, 20, 30, 255))]
    );
}

#[test]
fn gradient_edge_cases() {
    let stops = [(0, Color(0, 0, 0, 255)), (255, Color(255, 0, 0, 255))];
    let gradient = GradientDesc::new(GradientKind::Linear { angle_deg: 180 }, &stops);
    let rect = Rect { x: 0, y: 0, width: 3, height: 1 };
    // 180 degrees runs right-to-left.
    assert_eq!(gradient.color_at(rect, 0, 0), Some(Color(255, 0, 0, 255)));
    assert_eq!(gradient.color_at(rect, 2, 0), Some(Color(0, 0, 0, 255)));
    // empty rect or no stops gives None
    assert_eq!(gradient.color_at(Rect { x: 0, y: 0, width: 0, height: 1 }, 0, 0), None);
    let none = GradientDesc::new(GradientKind::Linear { angle_deg: 0 }, &[]);
    assert_eq!(none.color_at(rect, 0, 0), None);
    // a single stop is a flat fill
    let single = [(40, Color(5, 6, 7, 8))];
    let flat = GradientDesc::new(GradientKind::Radial { cx_frac: 0, cy_frac: 0 }, &single);
    assert_eq!(flat.color_at(rect, 2, 0), Some(Color(5, 6, 7, 8)));
}

#[test]
fn drawing_issues_exactly_the_planned_calls() {
    let rect = Rect { x: 2, y: 3, width: 30, height: 20 };
    let c = Color(10, 20, 30, 255);
    let mut r = RecordRenderer::new();
    fill_rounded_rect(&mut r, rect, c, 6);
    draw_rounded_border(&mut r, rect, c, 2, 6);
    draw_border_straight(&mut r, rect, c, 3);
    let mut expected = rounded_fill_plan(rect, c, 6);
    expected.extend(rounded_border_plan(rect, c, 2, 6));
    expected.extend(straight_border_plan(rect, c, 3));
    assert_eq!(r.drawn(), expected);
}
