//! Drawing helpers that compose [`Renderer`] calls into rounded rectangles,
//! borders and gradient samples without extending the renderer trait.
//!
//! Each shape is first planned as a list of [`DrawOp`]s, whose exact
//! contents the planning functions state, and then replayed on the
//! renderer in order.
use vstd::prelude::*;

use crate::renderer::Renderer;
use crate::style::Style;
use crate::widget::{Color, Rect, color_lerp_spec};

verus! {

/// Maximum number of stops honored by [`GradientDesc`].
pub const GRADIENT_MAX_STOPS: usize = 4;

/// Shape of a gradient fill.
#[derive(Debug, Clone, Copy, PartialEq, Eq, Structural)]
pub enum GradientKind {
    /// Linear gradient; the angle is snapped to the nearest 45-degree
    /// direction for deterministic integer sampling.
    Linear {
        /// Clockwise angle in degrees; `0` is left-to-right and `90` is
        /// top-to-bottom.
        angle_deg: i16,
    },
    /// Radial gradient from a center point expressed as fractions of `rect`.
    Radial {
        /// Center x coordinate as `0..=255` fraction of the target rect.
        cx_frac: u8,
        /// Center y coordinate as `0..=255` fraction of the target rect.
        cy_frac: u8,
    },
}

/// Linear or radial gradient descriptor.
///
/// Stops are `(position, color)` pairs where `position` is `0..=255`. At
/// most [`GRADIENT_MAX_STOPS`] stops are considered; stops need not be sorted.
#[derive(Debug, Clone, Copy, PartialEq, Eq)]
pub struct GradientDesc<'a> {
    /// Gradient geometry.
    pub kind: GradientKind,
    /// Color stops in `0..=255` position space.
    pub stops: &'a [(u8, Color)],
}

/// Box-shadow descriptor.
#[derive(Debug, Clone, Copy, PartialEq, Eq, Structural)]
pub struct ShadowDesc {
    /// Horizontal shadow displacement.
    pub offset_x: i16,
    /// Vertical shadow displacement.
    pub offset_y: i16,
    /// Expansion beyond the source rect before blur.
    pub spread: u8,
    /// Approximate blur radius in pixels.
    pub blur: u8,
    /// Shadow color.
    pub color: Color,
}

// ---------------------------------------------------------------------------
// Integer square root
// ---------------------------------------------------------------------------

/// `s` is the floor of the square root of `n`.
pub open spec fn is_floor_sqrt(n: int, s: int) -> bool {
    0 <= s && s * s <= n && n < (s + 1) * (s + 1)
}

/// Floor of the square root of `n`.
pub open spec fn floor_sqrt(n: int) -> int {
    choose|s: int| is_floor_sqrt(n, s)
}

/// The floor square root is unique.
pub proof fn lemma_floor_sqrt_unique(n: int, a: int, b: int)
    requires
        is_floor_sqrt(n, a),
        is_floor_sqrt(n, b),
    ensures
        a == b,
{
    if a < b {
        assert((a + 1) * (a + 1) <= b * b) by (nonlinear_arith)
            requires
                0 <= a,
                a + 1 <= b,
        ;
    } else if b < a {
        assert((b + 1) * (b + 1) <= a * a) by (nonlinear_arith)
            requires
                0 <= b,
                b + 1 <= a,
        ;
    }
}

/// A witness of the floor square root is the floor square root.
proof fn lemma_floor_sqrt_is(n: int, s: int)
    requires
        is_floor_sqrt(n, s),
    ensures
        floor_sqrt(n) == s,
{
    let c = floor_sqrt(n);
    assert(is_floor_sqrt(n, c));
    lemma_floor_sqrt_unique(n, c, s);
}

/// One Newton step never drops below the floor square root.
proof fn lemma_newton_step(n: int, x: int)
    requires
        n >= 1,
        x >= 1,
    ensures
        ((x + n / x) / 2 + 1) * ((x + n / x) / 2 + 1) > n,
{
    let q = n / x;
    let rem = n % x;
    let t = (x + q) / 2 + 1;
    assert(n == x * q + rem && 0 <= rem < x) by (nonlinear_arith)
        requires
            x >= 1,
            q == n / x,
            rem == n % x,
    ;
    assert(x + q <= 2 * t - 1);
    assert(n < t * t) by (nonlinear_arith)
        requires
            n == x * q + rem,
            0 <= rem < x,
            x + q <= 2 * t - 1,
            x >= 1,
            q >= 0,
    ;
}

/// Integer square root (floor) by Newton iteration.
fn isqrt(n: u32) -> (r: u32)
    ensures
        r == floor_sqrt(n as int),
        is_floor_sqrt(n as int, r as int),
{
    if n == 0 {
        proof {
            lemma_floor_sqrt_is(0, 0);
        }
        return 0;
    }
    let mut x: u32 = n;
    let mut y: u32 = n / 2 + n % 2;
    proof {
        assert(n as int / n as int == 1) by (nonlinear_arith)
            requires
                n >= 1,
        ;
        assert((n + 1) * (n + 1) > n) by (nonlinear_arith)
            requires
                n >= 1,
        ;
    }
    while y < x
        invariant
            n >= 1,
            1 <= x <= n,
            y as int == (x as int + n as int / x as int) / 2,
            (x + 1) * (x + 1) > n,
        decreases x,
    {
        proof {
            lemma_newton_step(n as int, x as int);
            assert(y >= 1) by (nonlinear_arith)
                requires
                    (y + 1) * (y + 1) > n,
                    n >= 1,
            ;
        }
        x = y;
        assert(n as int / x as int <= n) by (nonlinear_arith)
            requires
                x >= 1,
                n >= 0,
        ;
        let q: u64 = (n / x) as u64;
        y = ((x as u64 + q) / 2) as u32;
    }
    proof {
        assert(x * x <= n) by (nonlinear_arith)
            requires
                x >= 1,
                (x as int + n as int / x as int) / 2 >= x,
        ;
        lemma_floor_sqrt_is(n as int, x as int);
    }
    x
}

// ---------------------------------------------------------------------------
// Gradient sampling
// ---------------------------------------------------------------------------

/// `v` clamped into `lo..=hi`.
pub open spec fn clamp_int(v: int, lo: int, hi: int) -> int {
    if v < lo { lo } else if v > hi { hi } else { v }
}

/// Position of `pos` along an axis of length `len`, scaled to `0..=255`.
pub open spec fn axis_fraction_spec(pos: int, len: int) -> int {
    if len <= 1 { 255 } else { clamp_int(pos, 0, len - 1) * 255 / (len - 1) }
}

/// Whether [`axis_fraction_spec`] can be computed in `i32`.
pub open spec fn axis_fraction_fits(pos: int, len: int) -> bool {
    len <= 1 || clamp_int(pos, 0, len - 1) * 255 <= i32::MAX
}

/// Offset of a `0..=255` fraction along an axis of length `len`.
pub open spec fn fraction_to_axis_spec(frac: int, len: int) -> int {
    if len <= 1 { 0 } else { frac * (len - 1) / 255 }
}

/// Truncating mean of two bytes.
pub open spec fn avg_spec(a: int, b: int) -> int {
    (a + b) / 2
}

/// Nearest 45-degree direction of `angle_deg`, as `0..8` clockwise from
/// left-to-right.
pub open spec fn octant_spec(angle_deg: int) -> int {
    ((angle_deg % 360 + 22) / 45) % 8
}

/// Gradient position of pixel `(x, y)` for a linear gradient.
pub open spec fn linear_position_spec(angle_deg: int, rect: Rect, x: int, y: int) -> int {
    let xf = axis_fraction_spec(x - rect.x, rect.width as int);
    let yf = axis_fraction_spec(y - rect.y, rect.height as int);
    let o = octant_spec(angle_deg);
    if o == 0 {
        xf
    } else if o == 1 {
        avg_spec(xf, yf)
    } else if o == 2 {
        yf
    } else if o == 3 {
        avg_spec(255 - xf, yf)
    } else if o == 4 {
        255 - xf
    } else if o == 5 {
        avg_spec(255 - xf, 255 - yf)
    } else if o == 6 {
        255 - yf
    } else {
        avg_spec(xf, 255 - yf)
    }
}

proof fn lemma_octant_opposite(angle_deg: int)
    ensures
        octant_spec(angle_deg + 180) == (octant_spec(angle_deg) + 4) % 8,
{
    let m = angle_deg % 360;
    let t = angle_deg / 360;
    assert(angle_deg == 360 * t + m && 0 <= m < 360);
    let m2 = (angle_deg + 180) % 360;
    if m < 180 {
        assert(angle_deg + 180 == 360 * t + (m + 180));
        assert(m2 == m + 180);
        assert((m2 + 22) / 45 == (m + 22) / 45 + 4);
    } else {
        assert(angle_deg + 180 == 360 * (t + 1) + (m - 180));
        assert(m2 == m - 180);
        assert((m2 + 22) / 45 == (m + 22) / 45 - 4);
    }
}

/// Turning a straight (horizontal or vertical) linear gradient around by
/// 180 degrees mirrors it: wherever the gradient at `angle_deg` samples
/// position `p`, the one at `angle_deg + 180` samples `255 - p`.
pub proof fn lemma_opposite_linear_angles(angle_deg: int, rect: Rect, x: int, y: int)
    requires
        octant_spec(angle_deg) % 2 == 0,
    ensures
        linear_position_spec(angle_deg + 180, rect, x, y) == 255 - linear_position_spec(angle_deg, rect, x, y),
{
    lemma_octant_opposite(angle_deg);
}

proof fn lemma_axis_fraction_ends(len: int)
    requires
        len > 1,
    ensures
        axis_fraction_spec(0, len) == 0,
        axis_fraction_spec(len - 1, len) == 255,
{
    assert((len - 1) * 255 / (len - 1) == 255) by (nonlinear_arith)
        requires
            len > 1,
    ;
}

/// Linear gradient angles turn clockwise from left-to-right: at 0 degrees
/// the first column is at position 0 and the last at 255, at 90 degrees the
/// top row is at 0 and the bottom row at 255, at 180 degrees the first
/// column is at 255 and at 270 degrees the top row is at 255.
pub proof fn lemma_cardinal_linear_directions(rect: Rect, x: int, y: int)
    ensures
        rect.width > 1 && x == rect.x ==> linear_position_spec(0, rect, x, y) == 0
            && linear_position_spec(180, rect, x, y) == 255,
        rect.width > 1 && x == rect.x + rect.width - 1 ==> linear_position_spec(0, rect, x, y) == 255
            && linear_position_spec(180, rect, x, y) == 0,
        rect.height > 1 && y == rect.y ==> linear_position_spec(90, rect, x, y) == 0
            && linear_position_spec(270, rect, x, y) == 255,
        rect.height > 1 && y == rect.y + rect.height - 1 ==> linear_position_spec(90, rect, x, y) == 255
            && linear_position_spec(270, rect, x, y) == 0,
{
    if rect.width > 1 {
        lemma_axis_fraction_ends(rect.width as int);
    }
    if rect.height > 1 {
        lemma_axis_fraction_ends(rect.height as int);
    }
    assert(octant_spec(0) == 0);
    assert(octant_spec(90) == 2);
    assert(octant_spec(180) == 4);
    assert(octant_spec(270) == 6);
}

/// A linear gradient's angle snaps to the nearest multiple of 45 degrees
/// (ties at 22.5 resolve down, as angles are whole degrees), and angles a
/// full turn apart draw alike.
pub proof fn lemma_octant_nearest(angle_deg: int, k: int)
    requires
        0 <= k < 8,
        45 * k - 22 <= angle_deg <= 45 * k + 22,
    ensures
        octant_spec(angle_deg) == k,
        octant_spec(angle_deg + 360) == k,
{
    if angle_deg < 0 {
        assert(angle_deg % 360 == angle_deg + 360);
        assert((angle_deg + 360) % 360 == angle_deg + 360);
    } else {
        assert(angle_deg % 360 == angle_deg);
        assert((angle_deg + 360) % 360 == angle_deg);
    }
}

/// Diagonal linear gradients run corner to corner: at 45 degrees from the
/// top-left corner (position 0) to the bottom-right (255), at 135 from the
/// top-right to the bottom-left, at 225 from the bottom-right to the
/// top-left, and at 315 from the bottom-left to the top-right.
pub proof fn lemma_diagonal_linear_directions(rect: Rect)
    requires
        rect.width > 1,
        rect.height > 1,
    ensures
        ({
            let (l, t) = (rect.x as int, rect.y as int);
            let (r, b) = (rect.x + rect.width - 1, rect.y + rect.height - 1);
            &&& linear_position_spec(45, rect, l, t) == 0
            &&& linear_position_spec(45, rect, r, b) == 255
            &&& linear_position_spec(135, rect, r, t) == 0
            &&& linear_position_spec(135, rect, l, b) == 255
            &&& linear_position_spec(225, rect, r, b) == 0
            &&& linear_position_spec(225, rect, l, t) == 255
            &&& linear_position_spec(315, rect, l, b) == 0
            &&& linear_position_spec(315, rect, r, t) == 255
        }),
{
    lemma_axis_fraction_ends(rect.width as int);
    lemma_axis_fraction_ends(rect.height as int);
    assert(octant_spec(45) == 1);
    assert(octant_spec(135) == 3);
    assert(octant_spec(225) == 5);
    assert(octant_spec(315) == 7);
}

/// `v` saturated at `u32::MAX`.
pub open spec fn sat_u32(v: int) -> int {
    if v > u32::MAX { u32::MAX as int } else { v }
}

/// Distance (floor square root, saturating) between two points.
pub open spec fn pixel_distance(ax: int, ay: int, bx: int, by: int) -> int {
    let dx = if ax >= bx { ax - bx } else { bx - ax };
    let dy = if ay >= by { ay - by } else { by - ay };
    floor_sqrt(sat_u32(dx * dx + dy * dy))
}

/// Larger of two integers.
pub open spec fn max_of(a: int, b: int) -> int {
    if a >= b { a } else { b }
}

/// Smaller of two integers.
pub open spec fn min_of(a: int, b: int) -> int {
    if a <= b { a } else { b }
}

/// Gradient center of a radial gradient.
pub open spec fn radial_center(cx_frac: int, cy_frac: int, rect: Rect) -> (int, int) {
    (
        rect.x + fraction_to_axis_spec(cx_frac, rect.width as int),
        rect.y + fraction_to_axis_spec(cy_frac, rect.height as int),
    )
}

/// Distance from the radial center to the farthest corner (at least 1).
pub open spec fn radial_reach(cx: int, cy: int, rect: Rect) -> int {
    let x0 = rect.x as int;
    let y0 = rect.y as int;
    let x1 = rect.x + rect.width - 1;
    let y1 = rect.y + rect.height - 1;
    max_of(
        max_of(max_of(max_of(1, pixel_distance(x0, y0, cx, cy)), pixel_distance(x1, y0, cx, cy)),
            pixel_distance(x0, y1, cx, cy)),
        pixel_distance(x1, y1, cx, cy),
    )
}

/// Gradient position of pixel `(x, y)` for a radial gradient.
pub open spec fn radial_position_spec(cx_frac: int, cy_frac: int, rect: Rect, x: int, y: int) -> int {
    let c = radial_center(cx_frac, cy_frac, rect);
    let reach = radial_reach(c.0, c.1, rect);
    min_of(pixel_distance(x, y, c.0, c.1), reach) * 255 / reach
}

/// Gradient position (`0..=255`) of pixel `(x, y)`.
pub open spec fn gradient_position_spec(kind: GradientKind, rect: Rect, x: int, y: int) -> int {
    match kind {
        GradientKind::Linear { angle_deg } => linear_position_spec(angle_deg as int, rect, x, y),
        GradientKind::Radial { cx_frac, cy_frac } => radial_position_spec(
            cx_frac as int,
            cy_frac as int,
            rect,
            x,
            y,
        ),
    }
}

/// Whether sampling pixel `(x, y)` of `rect` stays within `i32` arithmetic.
pub open spec fn sample_fits(kind: GradientKind, rect: Rect, x: int, y: int) -> bool {
    match kind {
        GradientKind::Linear { .. } => {
            &&& i32::MIN <= x - rect.x <= i32::MAX
            &&& i32::MIN <= y - rect.y <= i32::MAX
            &&& axis_fraction_fits(x - rect.x, rect.width as int)
            &&& axis_fraction_fits(y - rect.y, rect.height as int)
        },
        GradientKind::Radial { cx_frac, cy_frac } => {
            let c = radial_center(cx_frac as int, cy_frac as int, rect);
            &&& rect.edges_fit()
            &&& 255 * (rect.width - 1) <= i32::MAX
            &&& 255 * (rect.height - 1) <= i32::MAX
            &&& i32::MIN <= x - c.0 <= i32::MAX
            &&& i32::MIN <= y - c.1 <= i32::MAX
        },
    }
}

/// The stops that are considered: the first [`GRADIENT_MAX_STOPS`].
pub open spec fn considered_stops(stops: Seq<(u8, Color)>) -> Seq<(u8, Color)> {
    stops.take(min_of(stops.len() as int, GRADIENT_MAX_STOPS as int))
}

/// Among `stops`, the last one with the greatest position `<= t`.
pub open spec fn lower_stop(stops: Seq<(u8, Color)>, t: u8) -> Option<(u8, Color)>
    decreases stops.len(),
{
    if stops.len() == 0 {
        None
    } else {
        let best = lower_stop(stops.drop_last(), t);
        let s = stops.last();
        if s.0 <= t && (best is None || s.0 >= best.unwrap().0) {
            Some(s)
        } else {
            best
        }
    }
}

/// Among `stops`, the last one with the smallest position `>= t`.
pub open spec fn upper_stop(stops: Seq<(u8, Color)>, t: u8) -> Option<(u8, Color)>
    decreases stops.len(),
{
    if stops.len() == 0 {
        None
    } else {
        let best = upper_stop(stops.drop_last(), t);
        let s = stops.last();
        if s.0 >= t && (best is None || s.0 <= best.unwrap().0) {
            Some(s)
        } else {
            best
        }
    }
}

/// Colour at gradient position `t`: a single stop is a flat fill; otherwise
/// the colour interpolates between the nearest stops on either side of `t`.
pub open spec fn color_at_fraction_spec(stops: Seq<(u8, Color)>, t: u8) -> Color {
    let s = considered_stops(stops);
    if s.len() == 1 {
        s[0].1
    } else {
        let lo = lower_stop(s, t);
        let hi = upper_stop(s, t);
        if lo is Some && hi is Some && lo.unwrap().0 != hi.unwrap().0 {
            color_lerp_spec(
                lo.unwrap().1,
                hi.unwrap().1,
                (t - lo.unwrap().0) as i32,
                (hi.unwrap().0 - lo.unwrap().0) as i32,
            )
        } else if lo is Some {
            lo.unwrap().1
        } else if hi is Some {
            hi.unwrap().1
        } else {
            Color(0, 0, 0, 0)
        }
    }
}

fn axis_fraction(pos: i32, len: i32) -> (r: u8)
    requires
        axis_fraction_fits(pos as int, len as int),
    ensures
        r == axis_fraction_spec(pos as int, len as int),
{
    if len <= 1 {
        return 255;
    }
    let c = if pos < 0 { 0 } else if pos > len - 1 { len - 1 } else { pos };
    proof {
        assert(c * 255 / (len - 1) <= 255) by (nonlinear_arith)
            requires
                0 <= c <= len - 1,
                len > 1,
        ;
    }
    ((c * 255) / (len - 1)) as u8
}

fn fraction_to_axis(frac: u8, len: i32) -> (r: i32)
    requires
        len > 1 ==> 255 * (len - 1) <= i32::MAX,
    ensures
        r == fraction_to_axis_spec(frac as int, len as int),
        len > 1 ==> 0 <= r <= len - 1,
{
    if len <= 1 {
        return 0;
    }
    proof {
        assert(0 <= frac * (len - 1) <= 255 * (len - 1)) by (nonlinear_arith)
            requires
                frac <= 255,
                len > 1,
        ;
        assert(frac * (len - 1) / 255 <= len - 1) by (nonlinear_arith)
            requires
                0 <= frac * (len - 1) <= 255 * (len - 1),
                len > 1,
        ;
    }
    (frac as i32 * (len - 1)) / 255
}

fn avg_u8(a: u8, b: u8) -> (r: u8)
    ensures
        r == avg_spec(a as int, b as int),
{
    ((a as u16 + b as u16) / 2) as u8
}

fn snapped_octant(angle_deg: i16) -> (r: u8)
    ensures
        r == octant_spec(angle_deg as int),
        r < 8,
{
    let shifted: u32 = (angle_deg as i32 + 33120) as u32;
    let angle: u32 = shifted % 360;
    proof {
        assert(shifted as int % 360 == angle_deg as int % 360) by (nonlinear_arith)
            requires
                shifted as int == angle_deg as int + 92 * 360,
        ;
    }
    (((angle + 22) / 45) % 8) as u8
}

fn linear_gradient_position(angle_deg: i16, rect: Rect, x: i32, y: i32) -> (r: u8)
    requires
        sample_fits(GradientKind::Linear { angle_deg }, rect, x as int, y as int),
    ensures
        r == linear_position_spec(angle_deg as int, rect, x as int, y as int),
{
    let xf = axis_fraction(x - rect.x, rect.width);
    let yf = axis_fraction(y - rect.y, rect.height);
    let o = snapped_octant(angle_deg);
    if o == 0 {
        xf
    } else if o == 1 {
        avg_u8(xf, yf)
    } else if o == 2 {
        yf
    } else if o == 3 {
        avg_u8(255 - xf, yf)
    } else if o == 4 {
        255 - xf
    } else if o == 5 {
        avg_u8(255 - xf, 255 - yf)
    } else if o == 6 {
        255 - yf
    } else {
        avg_u8(xf, 255 - yf)
    }
}

/// Absolute difference of two `i32` values whose difference fits in `i32`.
fn abs_diff(a: i32, b: i32) -> (r: u32)
    requires
        i32::MIN <= a - b <= i32::MAX,
    ensures
        r == if a >= b { a - b } else { b - a },
{
    let d = a - b;
    if d >= 0 {
        d as u32
    } else {
        (-(d as i64)) as u32
    }
}

/// `a * a + b * b`, saturating at `u32::MAX`.
fn sat_square_sum(a: u32, b: u32) -> (r: u32)
    ensures
        r == sat_u32(a * a + b * b),
{
    proof {
        assert(a * a <= 0xffff_fffe_0000_0001) by (nonlinear_arith)
            requires
                a <= 0xffff_ffff,
        ;
        assert(b * b <= 0xffff_fffe_0000_0001) by (nonlinear_arith)
            requires
                b <= 0xffff_ffff,
        ;
    }
    let aa: u64 = a as u64 * a as u64;
    let bb: u64 = b as u64 * b as u64;
    let a2: u32 = if aa > 0xffff_ffff { 0xffff_ffff } else { aa as u32 };
    let b2: u32 = if bb > 0xffff_ffff { 0xffff_ffff } else { bb as u32 };
    let s: u64 = a2 as u64 + b2 as u64;
    proof {
        assert(0 <= a * a && 0 <= b * b) by (nonlinear_arith);
    }
    if s > 0xffff_ffff {
        0xffff_ffff
    } else {
        s as u32
    }
}

fn radial_gradient_position(cx_frac: u8, cy_frac: u8, rect: Rect, x: i32, y: i32) -> (r: u8)
    requires
        sample_fits(GradientKind::Radial { cx_frac, cy_frac }, rect, x as int, y as int),
        rect.width > 0,
        rect.height > 0,
    ensures
        r == radial_position_spec(cx_frac as int, cy_frac as int, rect, x as int, y as int),
{
    let cx = rect.x + fraction_to_axis(cx_frac, rect.width);
    let cy = rect.y + fraction_to_axis(cy_frac, rect.height);
    let dist = isqrt(sat_square_sum(abs_diff(x, cx), abs_diff(y, cy)));
    let x1 = rect.x + rect.width - 1;
    let y1 = rect.y + rect.height - 1;
    let mut max_dist: u32 = 1;
    let d0 = isqrt(sat_square_sum(abs_diff(rect.x, cx), abs_diff(rect.y, cy)));
    if d0 > max_dist {
        max_dist = d0;
    }
    let d1 = isqrt(sat_square_sum(abs_diff(x1, cx), abs_diff(rect.y, cy)));
    if d1 > max_dist {
        max_dist = d1;
    }
    let d2 = isqrt(sat_square_sum(abs_diff(rect.x, cx), abs_diff(y1, cy)));
    if d2 > max_dist {
        max_dist = d2;
    }
    let d3 = isqrt(sat_square_sum(abs_diff(x1, cx), abs_diff(y1, cy)));
    if d3 > max_dist {
        max_dist = d3;
    }
    let m = if dist <= max_dist { dist } else { max_dist };
    proof {
        assert(dist < 65536) by (nonlinear_arith)
            requires
                dist * dist <= u32::MAX,
        ;
        assert((m as int) * 255 / (max_dist as int) <= 255) by (nonlinear_arith)
            requires
                m <= max_dist,
                max_dist >= 1,
        ;
    }
    ((m * 255) / max_dist) as u8
}

fn gradient_position(kind: GradientKind, rect: Rect, x: i32, y: i32) -> (r: u8)
    requires
        sample_fits(kind, rect, x as int, y as int),
        rect.width > 0,
        rect.height > 0,
    ensures
        r == gradient_position_spec(kind, rect, x as int, y as int),
{
    match kind {
        GradientKind::Linear { angle_deg } => linear_gradient_position(angle_deg, rect, x, y),
        GradientKind::Radial { cx_frac, cy_frac } => radial_gradient_position(
            cx_frac,
            cy_frac,
            rect,
            x,
            y,
        ),
    }
}

impl<'a> GradientDesc<'a> {
    /// Create a gradient descriptor.
    pub fn new(kind: GradientKind, stops: &'a [(u8, Color)]) -> (r: Self)
        ensures
            r.kind == kind,
            r.stops@ == stops@,
    {
        GradientDesc { kind, stops }
    }

    /// The sampled colour at an absolute pixel coordinate; `None` for an
    /// empty rectangle or an empty stop list.
    pub fn color_at(&self, rect: Rect, x: i32, y: i32) -> (r: Option<Color>)
        requires
            rect.width > 0 && rect.height > 0 && self.stops@.len() > 0 ==> sample_fits(
                self.kind,
                rect,
                x as int,
                y as int,
            ),
        ensures
            r is None <==> (rect.width <= 0 || rect.height <= 0 || self.stops@.len() == 0),
            r matches Some(c) ==> c == color_at_fraction_spec(
                self.stops@,
                gradient_position_spec(self.kind, rect, x as int, y as int) as u8,
            ),
    {
        if rect.width <= 0 || rect.height <= 0 || self.stops.len() == 0 {
            return None;
        }
        Some(self.color_at_fraction(gradient_position(self.kind, rect, x, y)))
    }

    fn color_at_fraction(&self, t: u8) -> (r: Color)
        requires
            self.stops@.len() > 0,
        ensures
            r == color_at_fraction_spec(self.stops@, t),
    {
        let n = if self.stops.len() <= GRADIENT_MAX_STOPS {
            self.stops.len()
        } else {
            GRADIENT_MAX_STOPS
        };
        let ghost s = considered_stops(self.stops@);
        if n == 1 {
            return self.stops[0].1;
        }
        let mut lower: Option<(u8, Color)> = None;
        let mut upper: Option<(u8, Color)> = None;
        let mut i: usize = 0;
        while i < n
            invariant
                n == s.len(),
                n <= self.stops@.len(),
                s == self.stops@.take(n as int),
                i <= n,
                lower == lower_stop(s.take(i as int), t),
                upper == upper_stop(s.take(i as int), t),
            decreases n - i,
        {
            let (pos, color) = self.stops[i];
            proof {
                assert(s.take(i + 1).drop_last() =~= s.take(i as int));
                assert(s.take(i + 1).last() == (pos, color));
            }
            let lower_better = match lower {
                Some((best, _)) => pos >= best,
                None => true,
            };
            if pos <= t && lower_better {
                lower = Some((pos, color));
            }
            let upper_better = match upper {
                Some((best, _)) => pos <= best,
                None => true,
            };
            if pos >= t && upper_better {
                upper = Some((pos, color));
            }
            i = i + 1;
        }
        proof {
            assert(s.take(n as int) =~= s);
        }
        match (lower, upper) {
            (Some((lp, lc)), Some((up, uc))) => {
                if up != lp {
                    proof {
                        lemma_stop_bounds(s, t);
                    }
                    let num = (t - lp) as i32;
                    let den = (up - lp) as i32;
                    lc.lerp(uc, num, den)
                } else {
                    lc
                }
            },
            (Some((_, c)), None) => c,
            (None, Some((_, c))) => c,
            (None, None) => Color(0, 0, 0, 0),
        }
    }
}

/// The lower stop lies at or below `t`, the upper stop at or above it.
proof fn lemma_stop_bounds(stops: Seq<(u8, Color)>, t: u8)
    ensures
        lower_stop(stops, t) matches Some(s) ==> s.0 <= t,
        upper_stop(stops, t) matches Some(s) ==> s.0 >= t,
    decreases stops.len(),
{
    if stops.len() > 0 {
        lemma_stop_bounds(stops.drop_last(), t);
    }
}

// ---------------------------------------------------------------------------
// Planned renderer calls
// ---------------------------------------------------------------------------

/// One planned renderer call.
#[derive(Debug, Clone, Copy, PartialEq, Eq, Structural)]
pub enum DrawOp {
    /// [`Renderer::fill_rect`].
    Fill(Rect, Color),
    /// [`Renderer::blend_rect`].
    Blend(Rect, Color),
}

/// Issue `ops` on `renderer`, in order.
pub fn replay<R: Renderer + ?Sized>(renderer: &mut R, ops: &Vec<DrawOp>)
    ensures
        final(renderer).drawn()@ == old(renderer).drawn()@ + ops@,
{
    let ghost start = renderer.drawn()@;
    let mut i: usize = 0;
    proof {
        assert(ops@.take(0) =~= Seq::<DrawOp>::empty());
        assert(start + ops@.take(0) =~= start);
    }
    while i < ops.len()
        invariant
            i <= ops@.len(),
            renderer.drawn()@ == start + ops@.take(i as int),
        decreases ops@.len() - i,
    {
        proof {
            assert(ops@.take(i + 1) =~= ops@.take(i as int).push(ops@[i as int]));
            assert(start + ops@.take(i + 1) =~= (start + ops@.take(i as int)).push(ops@[i as int]));
        }
        match ops[i] {
            DrawOp::Fill(rect, color) => renderer.fill_rect(rect, color),
            DrawOp::Blend(rect, color) => renderer.blend_rect(rect, color),
        }
        i = i + 1;
    }
    proof {
        assert(ops@.take(i as int) =~= ops@);
    }
}

/// Rectangle with the given integer edges.
pub open spec fn rect_of(x: int, y: int, w: int, h: int) -> Rect {
    Rect { x: x as i32, y: y as i32, width: w as i32, height: h as i32 }
}

/// `v / 2` rounded toward zero, as `i32` division does.
pub open spec fn half_toward_zero(v: int) -> int {
    if v >= 0 { v / 2 } else { -((-v) / 2) }
}

/// Corner radius actually used: `radius` clamped to half the shorter side.
pub open spec fn clamped_radius(rect: Rect, radius: int) -> int {
    min_of(min_of(radius, half_toward_zero(rect.width as int)), half_toward_zero(rect.height as int))
}

/// Arc extent at `dy` rows from the centre axis of a circle of radius `r`,
/// with 4x oversampling: the whole pixels covered and a `0..=192` coverage
/// fraction for the boundary pixel.
pub open spec fn arc_dx_spec(r: int, dy: int) -> (int, int) {
    let r4 = 4 * r;
    let dy4 = 4 * dy + 2;
    if dy4 * dy4 >= r4 * r4 {
        (0, 0)
    } else {
        let d = floor_sqrt(r4 * r4 - dy4 * dy4);
        (d / 4, (d % 4) * 64)
    }
}

/// `color` with alpha scaled by the coverage `frac / 255`.
pub open spec fn fringe_color(color: Color, frac: int) -> Color {
    Color(color.0, color.1, color.2, (frac * color.3 / 255) as u8)
}

/// The four mirrored corner spans of one row of a rounded shape.
pub open spec fn four_corners(
    rect: Rect,
    left_x: int,
    right_x: int,
    dy: int,
    w: int,
    op_is_fill: bool,
    color: Color,
) -> Seq<DrawOp> {
    let top = rect.y + dy;
    let bottom = rect.y + rect.height - 1 - dy;
    let rects = seq![
        rect_of(left_x, top, w, 1),
        rect_of(right_x, top, w, 1),
        rect_of(left_x, bottom, w, 1),
        rect_of(right_x, bottom, w, 1),
    ];
    rects.map_values(|q: Rect| if op_is_fill { DrawOp::Fill(q, color) } else { DrawOp::Blend(q, color) })
}

/// Calls for row `dy` (from the top of the corner box) of the four corners
/// of a filled rounded rectangle with radius `r`.
pub open spec fn fill_corner_row(rect: Rect, color: Color, r: int, dy: int) -> Seq<DrawOp> {
    let a = arc_dx_spec(r, r - 1 - dy);
    let dx = a.0;
    let frac = a.1;
    let fills = if dx > 0 {
        four_corners(rect, rect.x + r - dx, rect.x + rect.width - r, dy, dx, true, color)
    } else {
        Seq::empty()
    };
    let blends = if frac > 0 {
        four_corners(
            rect,
            rect.x + r - dx - 1,
            rect.x + rect.width - r + dx,
            dy,
            1,
            false,
            fringe_color(color, frac),
        )
    } else {
        Seq::empty()
    };
    fills + blends
}

/// Calls for rows `0..n` of the corners of a filled rounded rectangle.
pub open spec fn fill_corner_rows(rect: Rect, color: Color, r: int, n: int) -> Seq<DrawOp>
    decreases n,
{
    if n <= 0 {
        Seq::empty()
    } else {
        fill_corner_rows(rect, color, r, n - 1) + fill_corner_row(rect, color, r, n - 1)
    }
}

/// The calls [`fill_rounded_rect`] makes: one fill when no rounding
/// applies, otherwise the body strip, the top and bottom strips between the
/// corners, and the corner rows with their anti-aliased fringe.
pub open spec fn rounded_fill_ops(rect: Rect, color: Color, radius: u8) -> Seq<DrawOp> {
    let r = clamped_radius(rect, radius as int);
    if radius == 0 || r <= 0 {
        seq![DrawOp::Fill(rect, color)]
    } else {
        let body = if rect.height - 2 * r > 0 {
            seq![DrawOp::Fill(rect_of(rect.x as int, rect.y + r, rect.width as int, rect.height - 2 * r), color)]
        } else {
            Seq::empty()
        };
        let strips = if rect.width - 2 * r > 0 {
            seq![
                DrawOp::Fill(rect_of(rect.x + r, rect.y as int, rect.width - 2 * r, r), color),
                DrawOp::Fill(rect_of(rect.x + r, rect.y + rect.height - r, rect.width - 2 * r, r), color),
            ]
        } else {
            Seq::empty()
        };
        body + strips + fill_corner_rows(rect, color, r, r)
    }
}

/// Whether [`fill_rounded_rect`] stays within `i32` arithmetic.
pub open spec fn rounded_fill_fits(rect: Rect, radius: u8) -> bool {
    radius > 0 && clamped_radius(rect, radius as int) > 0 ==> rect.edges_fit()
}

/// The arc extent is short of the radius.
proof fn lemma_arc_dx_bounds(r: int, dy: int)
    requires
        0 < r <= 255,
        0 <= dy,
    ensures
        0 <= arc_dx_spec(r, dy).0 < r,
        0 <= arc_dx_spec(r, dy).1 <= 192,
{
    let r4 = 4 * r;
    let dy4 = 4 * dy + 2;
    if dy4 * dy4 < r4 * r4 {
        let m = r4 * r4 - dy4 * dy4;
        assert(dy4 * dy4 > 0) by (nonlinear_arith)
            requires
                dy4 >= 2,
        ;
        let d = floor_sqrt(m);
        assert(is_floor_sqrt(m, d)) by {
            assert(exists|s: int| is_floor_sqrt(m, s)) by {
                lemma_floor_sqrt_exists(m);
            }
        }
        assert(d < r4) by (nonlinear_arith)
            requires
                d * d <= m,
                m < r4 * r4,
                d >= 0,
                r4 > 0,
        ;
    }
}

/// Every non-negative integer has a floor square root.
proof fn lemma_floor_sqrt_exists(n: int)
    requires
        n >= 0,
    ensures
        exists|s: int| is_floor_sqrt(n, s),
    decreases n,
{
    if n == 0 {
        assert(is_floor_sqrt(0, 0));
    } else {
        let m = n - 1;
        lemma_floor_sqrt_exists(m);
        let s = choose|s: int| is_floor_sqrt(m, s);
        if (s + 1) * (s + 1) <= n {
            assert(n < (s + 2) * (s + 2)) by (nonlinear_arith)
                requires
                    n - 1 < (s + 1) * (s + 1),
                    s >= 0,
            ;
            assert(is_floor_sqrt(n, s + 1));
        } else {
            assert(is_floor_sqrt(n, s));
        }
    }
}

/// Arc extent of a circle of radius `r` at `dy` rows from its centre axis.
fn arc_dx(r: i32, dy: i32) -> (res: (i32, u8))
    requires
        0 < r <= 255,
        0 <= dy <= 255,
    ensures
        res.0 as int == arc_dx_spec(r as int, dy as int).0,
        res.1 as int == arc_dx_spec(r as int, dy as int).1,
        0 <= res.0 < r,
{
    proof {
        lemma_arc_dx_bounds(r as int, dy as int);
    }
    let r4: u32 = r as u32 * 4;
    let dy4: u32 = dy as u32 * 4 + 2;
    proof {
        assert(r4 * r4 <= 1020 * 1020) by (nonlinear_arith)
            requires
                r4 <= 1020,
        ;
        assert(dy4 * dy4 <= 1022 * 1022) by (nonlinear_arith)
            requires
                dy4 <= 1022,
        ;
    }
    let sq = r4 * r4;
    let dysq = dy4 * dy4;
    if dysq >= sq {
        return (0, 0);
    }
    let dx4 = isqrt(sq - dysq);
    ((dx4 / 4) as i32, (dx4 % 4) as u8 * 64)
}

/// Append the four mirrored corner spans of one row.
fn push_four_corners(
    ops: &mut Vec<DrawOp>,
    rect: Rect,
    left_x: i32,
    right_x: i32,
    dy: i32,
    w: i32,
    op_is_fill: bool,
    color: Color,
)
    requires
        rect.edges_fit(),
        i32::MIN <= rect.y + dy <= i32::MAX,
        i32::MIN <= rect.y + rect.height - 1,
        i32::MIN <= rect.y + rect.height - 1 - dy <= i32::MAX,
    ensures
        final(ops)@ == old(ops)@ + four_corners(
            rect,
            left_x as int,
            right_x as int,
            dy as int,
            w as int,
            op_is_fill,
            color,
        ),
{
    let top = rect.y + dy;
    let bottom = rect.y + rect.height - 1 - dy;
    let a = Rect { x: left_x, y: top, width: w, height: 1 };
    let b = Rect { x: right_x, y: top, width: w, height: 1 };
    let c = Rect { x: left_x, y: bottom, width: w, height: 1 };
    let d = Rect { x: right_x, y: bottom, width: w, height: 1 };
    if op_is_fill {
        ops.push(DrawOp::Fill(a, color));
        ops.push(DrawOp::Fill(b, color));
        ops.push(DrawOp::Fill(c, color));
        ops.push(DrawOp::Fill(d, color));
    } else {
        ops.push(DrawOp::Blend(a, color));
        ops.push(DrawOp::Blend(b, color));
        ops.push(DrawOp::Blend(c, color));
        ops.push(DrawOp::Blend(d, color));
    }
    proof {
        let e = four_corners(rect, left_x as int, right_x as int, dy as int, w as int, op_is_fill, color);
        assert(e.len() == 4);
        assert(final(ops)@ =~= old(ops)@ + e);
    }
}

/// `color` with alpha scaled by the coverage `frac / 255`.
fn fringe(color: Color, frac: u8) -> (r: Color)
    ensures
        r == fringe_color(color, frac as int),
{
    proof {
        assert(frac * color.3 / 255 <= 255) by (nonlinear_arith)
            requires
                frac <= 255,
                color.3 <= 255,
        ;
    }
    let a = ((frac as u16 * color.3 as u16) / 255) as u8;
    Color(color.0, color.1, color.2, a)
}

/// The calls [`fill_rounded_rect`] makes, in order.
pub fn rounded_fill_plan(rect: Rect, color: Color, radius: u8) -> (ops: Vec<DrawOp>)
    requires
        rounded_fill_fits(rect, radius),
    ensures
        ops@ == rounded_fill_ops(rect, color, radius),
{
    let mut ops: Vec<DrawOp> = Vec::new();
    let r0 = radius as i32;
    if r0 == 0 {
        ops.push(DrawOp::Fill(rect, color));
        return ops;
    }
    let hw = rect.width / 2;
    let hh = rect.height / 2;
    let r1 = if r0 <= hw { r0 } else { hw };
    let r = if r1 <= hh { r1 } else { hh };
    if r <= 0 {
        ops.push(DrawOp::Fill(rect, color));
        return ops;
    }
    if rect.height - 2 * r > 0 {
        ops.push(
            DrawOp::Fill(
                Rect { x: rect.x, y: rect.y + r, width: rect.width, height: rect.height - 2 * r },
                color,
            ),
        );
    }
    if rect.width - 2 * r > 0 {
        ops.push(
            DrawOp::Fill(Rect { x: rect.x + r, y: rect.y, width: rect.width - 2 * r, height: r }, color),
        );
        ops.push(
            DrawOp::Fill(
                Rect {
                    x: rect.x + r,
                    y: rect.y + rect.height - r,
                    width: rect.width - 2 * r,
                    height: r,
                },
                color,
            ),
        );
    }
    let ghost prefix = ops@;
    proof {
        assert(prefix =~= rounded_fill_ops(rect, color, radius).take(prefix.len() as int));
    }
    let mut dy: i32 = 0;
    while dy < r
        invariant
            0 < r <= 255,
            r == clamped_radius(rect, radius as int),
            rect.edges_fit(),
            0 <= dy <= r,
            2 * r <= rect.width,
            2 * r <= rect.height,
            ops@ == prefix + fill_corner_rows(rect, color, r as int, dy as int),
        decreases r - dy,
    {
        let (dx_int, frac) = arc_dx(r, r - 1 - dy);
        let ghost before = ops@;
        if dx_int > 0 {
            push_four_corners(&mut ops, rect, rect.x + r - dx_int, rect.x + rect.width - r, dy, dx_int, true, color);
        }
        if frac > 0 {
            let aa = fringe(color, frac);
            push_four_corners(
                &mut ops,
                rect,
                rect.x + r - dx_int - 1,
                rect.x + rect.width - r + dx_int,
                dy,
                1,
                false,
                aa,
            );
        }
        proof {
            assert(ops@ =~= before + fill_corner_row(rect, color, r as int, dy as int));
            assert(fill_corner_rows(rect, color, r as int, dy + 1) == fill_corner_rows(rect, color, r as int, dy as int) + fill_corner_row(rect, color, r as int, dy as int));
            assert(ops@ =~= prefix + fill_corner_rows(rect, color, r as int, dy + 1));
        }
        dy = dy + 1;
    }
    proof {
        assert(ops@ =~= rounded_fill_ops(rect, color, radius));
    }
    ops
}

/// Fill a rounded rectangle with anti-aliased corners.
///
/// A zero radius is a single [`Renderer::fill_rect`]; nonzero radii are
/// clamped to half the shorter side so pill shapes work. The calls made are
/// exactly [`rounded_fill_plan`]'s.
pub fn fill_rounded_rect(renderer: &mut dyn Renderer, rect: Rect, color: Color, radius: u8)
    requires
        rounded_fill_fits(rect, radius),
    ensures
        final(renderer).drawn()@ == old(renderer).drawn()@ + rounded_fill_ops(rect, color, radius),
{
    let ops = rounded_fill_plan(rect, color, radius);
    replay(renderer, &ops);
}

/// The four strips of a straight border of width `w`.
pub open spec fn straight_border_ops(rect: Rect, color: Color, w: u8) -> Seq<DrawOp> {
    let w = w as int;
    if w == 0 {
        Seq::empty()
    } else {
        seq![
            DrawOp::Fill(rect_of(rect.x as int, rect.y as int, rect.width as int, w), color),
            DrawOp::Fill(rect_of(rect.x as int, rect.y + rect.height - w, rect.width as int, w), color),
            DrawOp::Fill(rect_of(rect.x as int, rect.y + w, w, rect.height - 2 * w), color),
            DrawOp::Fill(rect_of(rect.x + rect.width - w, rect.y + w, w, rect.height - 2 * w), color),
        ]
    }
}

/// Whether [`draw_border_straight`] stays within `i32` arithmetic.
pub open spec fn straight_border_fits(rect: Rect, w: u8) -> bool {
    w > 0 ==> {
        &&& rect.edges_fit()
        &&& i32::MIN <= rect.y + rect.height - w
        &&& rect.y + w <= i32::MAX
        &&& i32::MIN <= rect.height - 2 * w
        &&& i32::MIN <= rect.x + rect.width - w
    }
}

/// Calls for row `dy` of the four corner rings of a rounded border with
/// outer radius `rout` and inner radius `rin`.
pub open spec fn border_corner_row(rect: Rect, color: Color, rout: int, rin: int, dy: int) -> Seq<DrawOp> {
    let axis = rout - 1 - dy;
    let outer = arc_dx_spec(rout, axis);
    let inner = if rin > 0 { arc_dx_spec(rin, axis) } else { (0, 0) };
    let ring_w = outer.0 - inner.0;
    let fills = if ring_w > 0 {
        four_corners(rect, rect.x + rout - outer.0, rect.x + rect.width - rout + inner.0, dy, ring_w, true, color)
    } else {
        Seq::empty()
    };
    let outer_fringe = if outer.1 > 0 {
        four_corners(
            rect,
            rect.x + rout - outer.0 - 1,
            rect.x + rect.width - rout + outer.0,
            dy,
            1,
            false,
            fringe_color(color, outer.1),
        )
    } else {
        Seq::empty()
    };
    let inner_fringe = if inner.0 > 0 && inner.1 > 0 {
        four_corners(
            rect,
            rect.x + rout - inner.0,
            rect.x + rect.width - rout + inner.0 - 1,
            dy,
            1,
            false,
            fringe_color(color, 255 - inner.1),
        )
    } else {
        Seq::empty()
    };
    fills + outer_fringe + inner_fringe
}

/// Calls for rows `0..n` of the corner rings of a rounded border.
pub open spec fn border_corner_rows(rect: Rect, color: Color, rout: int, rin: int, n: int) -> Seq<DrawOp>
    decreases n,
{
    if n <= 0 {
        Seq::empty()
    } else {
        border_corner_rows(rect, color, rout, rin, n - 1) + border_corner_row(rect, color, rout, rin, n - 1)
    }
}

/// The calls [`draw_rounded_border`] makes: nothing for a zero width, four
/// straight strips when no rounding applies, otherwise the corner rings
/// followed by the straight segments between them.
pub open spec fn rounded_border_ops(rect: Rect, color: Color, border_width: u8, radius: u8) -> Seq<DrawOp> {
    let bw = border_width as int;
    let rout = clamped_radius(rect, radius as int);
    if bw == 0 {
        Seq::empty()
    } else if radius == 0 || rout <= 0 {
        straight_border_ops(rect, color, border_width)
    } else {
        let rin = max_of(rout - bw, 0);
        border_corner_rows(rect, color, rout, rin, rout) + border_sides(rect, color, rout, bw)
    }
}

/// The straight segments of a rounded border between its corner rings.
pub open spec fn border_sides(rect: Rect, color: Color, rout: int, bw: int) -> Seq<DrawOp> {
    let sh = rect.height - 2 * rout;
    let sw = rect.width - 2 * rout;
    let sides = if sh > 0 {
        seq![
            DrawOp::Fill(rect_of(rect.x as int, rect.y + rout, bw, sh), color),
            DrawOp::Fill(rect_of(rect.x + rect.width - bw, rect.y + rout, bw, sh), color),
        ]
    } else {
        Seq::empty()
    };
    let caps = if sw > 0 {
        seq![
            DrawOp::Fill(rect_of(rect.x + rout, rect.y as int, sw, bw), color),
            DrawOp::Fill(rect_of(rect.x + rout, rect.y + rect.height - bw, sw, bw), color),
        ]
    } else {
        Seq::empty()
    };
    sides + caps
}

/// Whether [`draw_rounded_border`] stays within `i32` arithmetic.
pub open spec fn rounded_border_fits(rect: Rect, border_width: u8, radius: u8) -> bool {
    let rout = clamped_radius(rect, radius as int);
    border_width > 0 ==> if radius == 0 || rout <= 0 {
        straight_border_fits(rect, border_width)
    } else {
        &&& rect.edges_fit()
        &&& rect.height - 2 * rout > 0 ==> i32::MIN <= rect.x + rect.width - border_width
        &&& rect.width - 2 * rout > 0 ==> i32::MIN <= rect.y + rect.height - border_width
    }
}

/// The calls [`draw_border_straight`] makes, in order.
pub fn straight_border_plan(rect: Rect, color: Color, width: u8) -> (ops: Vec<DrawOp>)
    requires
        straight_border_fits(rect, width),
    ensures
        ops@ == straight_border_ops(rect, color, width),
{
    let mut ops: Vec<DrawOp> = Vec::new();
    let w = width as i32;
    if w == 0 {
        proof {
            assert(ops@ =~= straight_border_ops(rect, color, width));
        }
        return ops;
    }
    ops.push(DrawOp::Fill(Rect { x: rect.x, y: rect.y, width: rect.width, height: w }, color));
    ops.push(
        DrawOp::Fill(Rect { x: rect.x, y: rect.y + rect.height - w, width: rect.width, height: w }, color),
    );
    ops.push(
        DrawOp::Fill(Rect { x: rect.x, y: rect.y + w, width: w, height: rect.height - 2 * w }, color),
    );
    ops.push(
        DrawOp::Fill(
            Rect { x: rect.x + rect.width - w, y: rect.y + w, width: w, height: rect.height - 2 * w },
            color,
        ),
    );
    proof {
        assert(ops@ =~= straight_border_ops(rect, color, width));
    }
    ops
}

/// Draw a rectangular border as four straight strips (no rounding).
pub fn draw_border_straight(renderer: &mut dyn Renderer, rect: Rect, color: Color, width: u8)
    requires
        straight_border_fits(rect, width),
    ensures
        final(renderer).drawn()@ == old(renderer).drawn()@ + straight_border_ops(rect, color, width),
{
    let ops = straight_border_plan(rect, color, width);
    replay(renderer, &ops);
}

/// Append row `dy` of the corner rings of a rounded border.
fn push_border_row(ops: &mut Vec<DrawOp>, rect: Rect, color: Color, rout: i32, rin: i32, dy: i32)
    requires
        0 < rout <= 255,
        0 <= rin < rout,
        rect.edges_fit(),
        0 <= dy < rout,
        2 * rout <= rect.width,
        2 * rout <= rect.height,
    ensures
        final(ops)@ == old(ops)@ + border_corner_row(rect, color, rout as int, rin as int, dy as int),
{
    let axis = rout - 1 - dy;
    let (out_dx, out_frac) = arc_dx(rout, axis);
    let (in_dx, in_frac) = if rin > 0 { arc_dx(rin, axis) } else { (0i32, 0u8) };
    let ghost before = ops@;
    let ring_w = out_dx - in_dx;
    if ring_w > 0 {
        push_four_corners(ops, rect, rect.x + rout - out_dx, rect.x + rect.width - rout + in_dx, dy, ring_w, true, color);
    }
    if out_frac > 0 {
        let aa = fringe(color, out_frac);
        push_four_corners(ops, rect, rect.x + rout - out_dx - 1, rect.x + rect.width - rout + out_dx, dy, 1, false, aa);
    }
    if in_dx > 0 && in_frac > 0 {
        let aa = fringe(color, 255 - in_frac);
        push_four_corners(ops, rect, rect.x + rout - in_dx, rect.x + rect.width - rout + in_dx - 1, dy, 1, false, aa);
    }
    proof {
        assert(ops@ =~= before + border_corner_row(rect, color, rout as int, rin as int, dy as int));
    }
}

/// The corner-ring calls of a rounded border, rows `0..rout`.
fn border_corner_plan(rect: Rect, color: Color, rout: i32, rin: i32) -> (ops: Vec<DrawOp>)
    requires
        0 < rout <= 255,
        0 <= rin < rout,
        rect.edges_fit(),
        2 * rout <= rect.width,
        2 * rout <= rect.height,
    ensures
        ops@ == border_corner_rows(rect, color, rout as int, rin as int, rout as int),
{
    let mut ops: Vec<DrawOp> = Vec::new();
    let mut dy: i32 = 0;
    while dy < rout
        invariant
            0 < rout <= 255,
            0 <= rin < rout,
            rect.edges_fit(),
            0 <= dy <= rout,
            2 * rout <= rect.width,
            2 * rout <= rect.height,
            ops@ == border_corner_rows(rect, color, rout as int, rin as int, dy as int),
        decreases rout - dy,
    {
        push_border_row(&mut ops, rect, color, rout, rin, dy);
        dy = dy + 1;
    }
    ops
}

/// Append the straight segments of a rounded border.
fn push_border_sides(ops: &mut Vec<DrawOp>, rect: Rect, color: Color, rout: i32, bw: i32)
    requires
        0 < rout <= 255,
        0 < bw <= 255,
        rect.edges_fit(),
        2 * rout <= rect.width,
        2 * rout <= rect.height,
        rect.height - 2 * rout > 0 ==> i32::MIN <= rect.x + rect.width - bw,
        rect.width - 2 * rout > 0 ==> i32::MIN <= rect.y + rect.height - bw,
    ensures
        final(ops)@ == old(ops)@ + border_sides(rect, color, rout as int, bw as int),
{
    let ghost before = ops@;
    let straight_h = rect.height - 2 * rout;
    if straight_h > 0 {
        ops.push(DrawOp::Fill(Rect { x: rect.x, y: rect.y + rout, width: bw, height: straight_h }, color));
        ops.push(
            DrawOp::Fill(
                Rect { x: rect.x + rect.width - bw, y: rect.y + rout, width: bw, height: straight_h },
                color,
            ),
        );
    }
    let straight_w = rect.width - 2 * rout;
    if straight_w > 0 {
        ops.push(DrawOp::Fill(Rect { x: rect.x + rout, y: rect.y, width: straight_w, height: bw }, color));
        ops.push(
            DrawOp::Fill(
                Rect { x: rect.x + rout, y: rect.y + rect.height - bw, width: straight_w, height: bw },
                color,
            ),
        );
    }
    proof {
        assert(ops@ =~= before + border_sides(rect, color, rout as int, bw as int));
    }
}

/// The calls [`draw_rounded_border`] makes, in order.
pub fn rounded_border_plan(rect: Rect, color: Color, border_width: u8, radius: u8) -> (ops: Vec<DrawOp>)
    requires
        rounded_border_fits(rect, border_width, radius),
    ensures
        ops@ == rounded_border_ops(rect, color, border_width, radius),
{
    let bw = border_width as i32;
    if bw == 0 {
        let ops: Vec<DrawOp> = Vec::new();
        proof {
            assert(ops@ =~= rounded_border_ops(rect, color, border_width, radius));
        }
        return ops;
    }
    let r0 = radius as i32;
    if r0 == 0 {
        return straight_border_plan(rect, color, border_width);
    }
    let hw = rect.width / 2;
    let hh = rect.height / 2;
    let r1 = if r0 <= hw { r0 } else { hw };
    let rout = if r1 <= hh { r1 } else { hh };
    if rout <= 0 {
        return straight_border_plan(rect, color, border_width);
    }
    let rin = if rout - bw >= 0 { rout - bw } else { 0 };
    let mut ops = border_corner_plan(rect, color, rout, rin);
    push_border_sides(&mut ops, rect, color, rout, bw);
    proof {
        assert(ops@ =~= rounded_border_ops(rect, color, border_width, radius));
    }
    ops
}

/// Draw a border that follows rounded corners.
///
/// A zero radius draws four straight strips (as [`draw_border_straight`]);
/// otherwise the corners are drawn as the ring between an outer and an
/// inner radius with anti-aliased fringe on both edges.
pub fn draw_rounded_border(
    renderer: &mut dyn Renderer,
    rect: Rect,
    color: Color,
    border_width: u8,
    radius: u8,
)
    requires
        rounded_border_fits(rect, border_width, radius),
    ensures
        final(renderer).drawn()@ == old(renderer).drawn()@ + rounded_border_ops(rect, color, border_width, radius),
{
    let ops = rounded_border_plan(rect, color, border_width, radius);
    replay(renderer, &ops);
}

/// The calls [`draw_widget_bg`] makes: the background (skipped when fully
/// transparent, blended when partially transparent, rounded when the style
/// has a radius) followed by the border.
pub open spec fn widget_bg_ops(rect: Rect, style: Style) -> Seq<DrawOp> {
    let bg = Color(style.bg_color.0, style.bg_color.1, style.bg_color.2, style.alpha);
    let border = Color(style.border_color.0, style.border_color.1, style.border_color.2, style.alpha);
    let bg_ops = if style.alpha == 0 {
        Seq::empty()
    } else if style.radius > 0 {
        rounded_fill_ops(rect, bg, style.radius)
    } else if style.alpha == 255 {
        seq![DrawOp::Fill(rect, bg)]
    } else {
        seq![DrawOp::Blend(rect, bg)]
    };
    let border_ops = if style.border_width > 0 && style.alpha != 0 {
        rounded_border_ops(rect, border, style.border_width, style.radius)
    } else {
        Seq::empty()
    };
    bg_ops + border_ops
}

/// Whether [`draw_widget_bg`] stays within `i32` arithmetic.
pub open spec fn widget_bg_fits(rect: Rect, style: Style) -> bool {
    &&& style.alpha != 0 && style.radius > 0 ==> rounded_fill_fits(rect, style.radius)
    &&& style.alpha != 0 ==> rounded_border_fits(rect, style.border_width, style.radius)
}

/// The calls [`draw_widget_bg`] makes, in order.
pub fn widget_bg_plan(rect: Rect, style: &Style) -> (ops: Vec<DrawOp>)
    requires
        widget_bg_fits(rect, *style),
    ensures
        ops@ == widget_bg_ops(rect, *style),
{
    let bg = style.bg_color.with_alpha(style.alpha);
    let mut ops: Vec<DrawOp> = if bg.3 != 0 {
        if style.radius > 0 {
            rounded_fill_plan(rect, bg, style.radius)
        } else if bg.3 == 255 {
            let mut v: Vec<DrawOp> = Vec::new();
            v.push(DrawOp::Fill(rect, bg));
            v
        } else {
            let mut v: Vec<DrawOp> = Vec::new();
            v.push(DrawOp::Blend(rect, bg));
            v
        }
    } else {
        Vec::new()
    };
    if style.border_width > 0 {
        let border = style.border_color.with_alpha(style.alpha);
        if border.3 != 0 {
            let mut more = rounded_border_plan(rect, border, style.border_width, style.radius);
            ops.append(&mut more);
        }
    }
    proof {
        assert(ops@ =~= widget_bg_ops(rect, *style));
    }
    ops
}

/// Draw a widget's background fill and border according to its [`Style`].
///
/// Fully transparent backgrounds are skipped so the pixels beneath show
/// through; partially transparent ones are blended and opaque ones filled.
pub fn draw_widget_bg(renderer: &mut dyn Renderer, rect: Rect, style: &Style)
    requires
        widget_bg_fits(rect, *style),
    ensures
        final(renderer).drawn()@ == old(renderer).drawn()@ + widget_bg_ops(rect, *style),
{
    let ops = widget_bg_plan(rect, style);
    replay(renderer, &ops);
}

/// A zero radius fills the rectangle with a single call.
pub proof fn lemma_zero_radius_single_fill(rect: Rect, color: Color)
    ensures
        rounded_fill_ops(rect, color, 0) == seq![DrawOp::Fill(rect, color)],
{
}

/// The radius in use never exceeds half of either side, so pill shapes
/// get semicircular ends instead of overlapping corners.
pub proof fn lemma_radius_clamped_to_half_side(rect: Rect, radius: u8)
    ensures
        clamped_radius(rect, radius as int) <= radius,
        clamped_radius(rect, radius as int) > 0 ==> 2 * clamped_radius(rect, radius as int)
            <= rect.width && 2 * clamped_radius(rect, radius as int) <= rect.height,
{
}

/// A rounded border with a zero radius is exactly the straight border.
pub proof fn lemma_zero_radius_border_is_straight(rect: Rect, color: Color, border_width: u8)
    ensures
        rounded_border_ops(rect, color, border_width, 0) == straight_border_ops(rect, color, border_width),
{
}

/// A straight border of positive width is four opaque strips; of zero
/// width, nothing.
pub proof fn lemma_straight_border_four_strips(rect: Rect, color: Color, width: u8)
    ensures
        width > 0 ==> straight_border_ops(rect, color, width).len() == 4,
        width > 0 ==> forall|i: int| 0 <= i < 4 ==> #[trigger] straight_border_ops(rect, color, width)[i] is Fill,
        width == 0 ==> straight_border_ops(rect, color, width).len() == 0,
{
}

/// A fully transparent style draws nothing.
pub proof fn lemma_transparent_style_draws_nothing(rect: Rect, style: Style)
    requires
        style.alpha == 0,
    ensures
        widget_bg_ops(rect, style).len() == 0,
{
    assert(widget_bg_ops(rect, style) =~= Seq::<DrawOp>::empty());
}

/// Stop positions are pairwise distinct.
pub open spec fn distinct_positions(stops: Seq<(u8, Color)>) -> bool {
    forall|i: int, j: int| 0 <= i < j < stops.len() ==> #[trigger] stops[i].0 != #[trigger] stops[j].0
}

/// The lower stop is the stop with the greatest position at or below `t`.
proof fn lemma_lower_stop_is_greatest(stops: Seq<(u8, Color)>, t: u8)
    ensures
        lower_stop(stops, t) is None <==> (forall|i: int| 0 <= i < stops.len() ==> #[trigger] stops[i].0 > t),
        lower_stop(stops, t) matches Some(x) ==> {
            &&& stops.contains(x)
            &&& x.0 <= t
            &&& forall|i: int| 0 <= i < stops.len() && #[trigger] stops[i].0 <= t ==> stops[i].0 <= x.0
        },
    decreases stops.len(),
{
    if stops.len() > 0 {
        let p = stops.drop_last();
        let l = stops.last();
        let n = stops.len() - 1;
        lemma_lower_stop_is_greatest(p, t);
        assert(stops[n] == l);
        assert forall|i: int| 0 <= i < n implies #[trigger] stops[i] == p[i] by {}
        let best = lower_stop(p, t);
        if let Some(x) = best {
            let k = choose|k: int| 0 <= k < p.len() && p[k] == x;
            assert(stops[k] == x);
        }
        assert((lower_stop(stops, t) is None) <==> (forall|i: int| 0 <= i < stops.len() ==> #[trigger] stops[i].0 > t)) by {
            if forall|i: int| 0 <= i < stops.len() ==> #[trigger] stops[i].0 > t {
                assert forall|i: int| 0 <= i < p.len() implies #[trigger] p[i].0 > t by {
                    assert(stops[i].0 > t);
                }
                assert(stops[n].0 > t);
            }
            if lower_stop(stops, t) is None {
                assert forall|i: int| 0 <= i < stops.len() implies #[trigger] stops[i].0 > t by {
                    if i < n {
                        assert(p[i].0 > t);
                    }
                }
            }
        }
        if let Some(x) = lower_stop(stops, t) {
            assert forall|i: int| 0 <= i < stops.len() && #[trigger] stops[i].0 <= t implies stops[i].0 <= x.0 by {
                if i < n {
                    assert(p[i].0 <= t);
                }
            }
        }
    }
}

/// The upper stop is the stop with the smallest position at or above `t`.
proof fn lemma_upper_stop_is_least(stops: Seq<(u8, Color)>, t: u8)
    ensures
        upper_stop(stops, t) is None <==> (forall|i: int| 0 <= i < stops.len() ==> #[trigger] stops[i].0 < t),
        upper_stop(stops, t) matches Some(x) ==> {
            &&& stops.contains(x)
            &&& x.0 >= t
            &&& forall|i: int| 0 <= i < stops.len() && #[trigger] stops[i].0 >= t ==> stops[i].0 >= x.0
        },
    decreases stops.len(),
{
    if stops.len() > 0 {
        let p = stops.drop_last();
        let l = stops.last();
        let n = stops.len() - 1;
        lemma_upper_stop_is_least(p, t);
        assert(stops[n] == l);
        assert forall|i: int| 0 <= i < n implies #[trigger] stops[i] == p[i] by {}
        let best = upper_stop(p, t);
        if let Some(x) = best {
            let k = choose|k: int| 0 <= k < p.len() && p[k] == x;
            assert(stops[k] == x);
        }
        assert((upper_stop(stops, t) is None) <==> (forall|i: int| 0 <= i < stops.len() ==> #[trigger] stops[i].0 < t)) by {
            if forall|i: int| 0 <= i < stops.len() ==> #[trigger] stops[i].0 < t {
                assert forall|i: int| 0 <= i < p.len() implies #[trigger] p[i].0 < t by {
                    assert(stops[i].0 < t);
                }
                assert(stops[n].0 < t);
            }
            if upper_stop(stops, t) is None {
                assert forall|i: int| 0 <= i < stops.len() implies #[trigger] stops[i].0 < t by {
                    if i < n {
                        assert(p[i].0 < t);
                    }
                }
            }
        }
        if let Some(x) = upper_stop(stops, t) {
            assert forall|i: int| 0 <= i < stops.len() && #[trigger] stops[i].0 >= t implies stops[i].0 >= x.0 by {
                if i < n {
                    assert(p[i].0 >= t);
                }
            }
        }
    }
}

/// Two stops of a list with distinct positions that share a position are
/// the same stop.
proof fn lemma_same_position_same_stop(stops: Seq<(u8, Color)>, x: (u8, Color), y: (u8, Color))
    requires
        distinct_positions(stops),
        stops.contains(x),
        stops.contains(y),
        x.0 == y.0,
    ensures
        x == y,
{
    let i = choose|i: int| 0 <= i < stops.len() && stops[i] == x;
    let j = choose|j: int| 0 <= j < stops.len() && stops[j] == y;
    if i < j {
        assert(stops[i].0 != stops[j].0);
    } else if j < i {
        assert(stops[j].0 != stops[i].0);
    }
}

/// Lists with the same multiset of stops hold the same stops.
proof fn lemma_same_members(s1: Seq<(u8, Color)>, s2: Seq<(u8, Color)>)
    requires
        s1.to_multiset() == s2.to_multiset(),
    ensures
        forall|x: (u8, Color)| s1.contains(x) <==> s2.contains(x),
{
    assert forall|x: (u8, Color)| s1.contains(x) <==> s2.contains(x) by {
        vstd::seq_lib::to_multiset_contains(s1, x);
        vstd::seq_lib::to_multiset_contains(s2, x);
        assert(s1.to_multiset().count(x) == s2.to_multiset().count(x));
    }
}

/// Lists holding the same stops with distinct positions agree on the lower
/// stop.
proof fn lemma_lower_stops_agree(s1: Seq<(u8, Color)>, s2: Seq<(u8, Color)>, t: u8)
    requires
        forall|x: (u8, Color)| s1.contains(x) <==> s2.contains(x),
        distinct_positions(s2),
    ensures
        lower_stop(s1, t) == lower_stop(s2, t),
{
    lemma_lower_stop_is_greatest(s1, t);
    lemma_lower_stop_is_greatest(s2, t);
    if lower_stop(s1, t) is None {
        if let Some(x2) = lower_stop(s2, t) {
            let i = choose|i: int| 0 <= i < s1.len() && s1[i] == x2;
            assert(s1[i].0 > t);
        }
    } else {
        let x1 = lower_stop(s1, t).unwrap();
        let i1 = choose|i: int| 0 <= i < s2.len() && s2[i] == x1;
        assert(s2[i1].0 <= t);
        let x2 = lower_stop(s2, t).unwrap();
        let i2 = choose|i: int| 0 <= i < s1.len() && s1[i] == x2;
        assert(s2[i1].0 <= x2.0);
        assert(s1[i2].0 <= x1.0);
        lemma_same_position_same_stop(s2, x1, x2);
    }
}

/// Lists holding the same stops with distinct positions agree on the upper
/// stop.
proof fn lemma_upper_stops_agree(s1: Seq<(u8, Color)>, s2: Seq<(u8, Color)>, t: u8)
    requires
        forall|x: (u8, Color)| s1.contains(x) <==> s2.contains(x),
        distinct_positions(s2),
    ensures
        upper_stop(s1, t) == upper_stop(s2, t),
{
    lemma_upper_stop_is_least(s1, t);
    lemma_upper_stop_is_least(s2, t);
    if upper_stop(s1, t) is None {
        if let Some(x2) = upper_stop(s2, t) {
            let i = choose|i: int| 0 <= i < s1.len() && s1[i] == x2;
            assert(s1[i].0 < t);
        }
    } else {
        let x1 = upper_stop(s1, t).unwrap();
        let i1 = choose|i: int| 0 <= i < s2.len() && s2[i] == x1;
        assert(s2[i1].0 >= t);
        let x2 = upper_stop(s2, t).unwrap();
        let i2 = choose|i: int| 0 <= i < s1.len() && s1[i] == x2;
        assert(s2[i1].0 >= x2.0);
        assert(s1[i2].0 >= x1.0);
        lemma_same_position_same_stop(s2, x1, x2);
    }
}

/// Stops need not be sorted: reordering up to [`GRADIENT_MAX_STOPS`] stops
/// with distinct positions does not change the colour at any position.
pub proof fn lemma_stop_order_irrelevant(s1: Seq<(u8, Color)>, s2: Seq<(u8, Color)>, t: u8)
    requires
        s1.len() <= GRADIENT_MAX_STOPS,
        s1.to_multiset() == s2.to_multiset(),
        distinct_positions(s2),
    ensures
        color_at_fraction_spec(s1, t) == color_at_fraction_spec(s2, t),
{
    lemma_same_members(s1, s2);
    s1.to_multiset_ensures();
    s2.to_multiset_ensures();
    assert(s1.len() == s2.len());
    assert(considered_stops(s1) =~= s1);
    assert(considered_stops(s2) =~= s2);
    lemma_lower_stops_agree(s1, s2, t);
    lemma_upper_stops_agree(s1, s2, t);
    if s1.len() == 1 {
        assert(s1.contains(s1[0]));
        assert(s2.contains(s1[0]));
        assert(s1[0] == s2[0]);
    }
}

} // verus!
