//! Geometry and colour primitives shared by every module.
use vstd::prelude::*;

verus! {

/// Axis-aligned rectangle in logical pixels.
#[derive(Clone, Copy, Debug, PartialEq, Eq, Structural, Hash, Default)]
pub struct Rect {
    /// Left edge.
    pub x: i32,
    /// Top edge.
    pub y: i32,
    /// Width in pixels.
    pub width: i32,
    /// Height in pixels.
    pub height: i32,
}

/// RGBA colour with 8-bit channels.
#[derive(Clone, Copy, Debug, PartialEq, Eq, Structural, Hash, Default)]
pub struct Color(pub u8, pub u8, pub u8, pub u8);

/// Smaller of two integers.
pub open spec fn min_int(a: int, b: int) -> int {
    if a <= b { a } else { b }
}

/// Larger of two integers.
pub open spec fn max_int(a: int, b: int) -> int {
    if a >= b { a } else { b }
}

impl Rect {
    /// Right edge (exclusive) as a mathematical integer.
    pub open spec fn right(self) -> int {
        self.x + self.width
    }

    /// Bottom edge (exclusive) as a mathematical integer.
    pub open spec fn bottom(self) -> int {
        self.y + self.height
    }

    /// Whether every edge of the rectangle fits in `i32`.
    pub open spec fn edges_fit(self) -> bool {
        i32::MIN <= self.right() <= i32::MAX && i32::MIN <= self.bottom() <= i32::MAX
    }

    /// Bounding box of two rectangles, as mathematical edges.
    pub open spec fn union_spec(self, other: Rect) -> (int, int, int, int) {
        let x = min_int(self.x as int, other.x as int);
        let y = min_int(self.y as int, other.y as int);
        let r = max_int(self.right(), other.right());
        let b = max_int(self.bottom(), other.bottom());
        (x, y, r - x, b - y)
    }

    /// Whether the bounding box of two rectangles is representable.
    pub open spec fn union_fits(self, other: Rect) -> bool {
        let u = self.union_spec(other);
        &&& self.edges_fit()
        &&& other.edges_fit()
        &&& u.2 <= i32::MAX
        &&& u.3 <= i32::MAX
    }

    /// Smallest axis-aligned rectangle covering both `self` and `other`.
    pub fn union(self, other: Rect) -> (r: Rect)
        requires
            self.union_fits(other),
        ensures
            (r.x as int, r.y as int, r.width as int, r.height as int) == self.union_spec(other),
    {
        let x = if self.x <= other.x { self.x } else { other.x };
        let y = if self.y <= other.y { self.y } else { other.y };
        let sr = self.x as i64 + self.width as i64;
        let or = other.x as i64 + other.width as i64;
        let sb = self.y as i64 + self.height as i64;
        let ob = other.y as i64 + other.height as i64;
        let r = if sr >= or { sr } else { or };
        let b = if sb >= ob { sb } else { ob };
        Rect { x, y, width: (r - x as i64) as i32, height: (b - y as i64) as i32 }
    }

    /// Interpolate every field from `self` toward `to` by `t / scale`.
    ///
    /// `t` is clamped to `0..=scale`; a non-positive `scale` yields `to`.
    pub fn lerp(self, to: Rect, t: i32, scale: i32) -> (r: Rect)
        ensures
            r.x == lerp_i32_spec(self.x, to.x, t, scale),
            r.y == lerp_i32_spec(self.y, to.y, t, scale),
            r.width == lerp_i32_spec(self.width, to.width, t, scale),
            r.height == lerp_i32_spec(self.height, to.height, t, scale),
    {
        Rect {
            x: lerp_i32(self.x, to.x, t, scale),
            y: lerp_i32(self.y, to.y, t, scale),
            width: lerp_i32(self.width, to.width, t, scale),
            height: lerp_i32(self.height, to.height, t, scale),
        }
    }
}

/// `t` clamped into `0..=scale`.
pub open spec fn clamp_fraction(t: int, scale: int) -> int {
    if t < 0 { 0 } else if t > scale { scale } else { t }
}

/// Interpolated `i32` value, see [`Rect::lerp`].
pub open spec fn lerp_i32_spec(a: i32, b: i32, t: i32, scale: i32) -> i32 {
    if scale <= 0 {
        b
    } else {
        let d = (b as int - a as int) * clamp_fraction(t as int, scale as int);
        let q = if d >= 0 { d / scale as int } else { -((-d) / scale as int) };
        (a as int + q) as i32
    }
}

/// Interpolated channel value, see [`Color::lerp`].
pub open spec fn lerp_u8_spec(a: u8, b: u8, t: i32, scale: i32) -> u8 {
    lerp_i32_spec(a as i32, b as i32, t, scale) as u8
}

proof fn lemma_lerp_between(a: int, b: int, c: int, s: int)
    requires
        0 <= c <= s,
        0 < s,
    ensures
        ({
            let d = (b - a) * c;
            let q = if d >= 0 { d / s } else { -((-d) / s) };
            &&& min_int(a, b) <= a + q <= max_int(a, b)
        }),
{
    let d = (b - a) * c;
    if b >= a {
        assert(0 <= d <= (b - a) * s) by (nonlinear_arith)
            requires b >= a, 0 <= c <= s, d == (b - a) * c;
        assert(d / s <= (b - a)) by (nonlinear_arith)
            requires 0 <= d <= (b - a) * s, 0 < s;
        assert(d / s >= 0) by (nonlinear_arith)
            requires 0 <= d, 0 < s;
    } else {
        assert(0 <= -d <= (a - b) * s) by (nonlinear_arith)
            requires b < a, 0 <= c <= s, d == (b - a) * c;
        assert((-d) / s <= (a - b)) by (nonlinear_arith)
            requires 0 <= -d <= (a - b) * s, 0 < s;
        assert((-d) / s >= 0) by (nonlinear_arith)
            requires 0 <= -d, 0 < s;
    }
}

fn lerp_i32(a: i32, b: i32, t: i32, scale: i32) -> (r: i32)
    ensures
        r == lerp_i32_spec(a, b, t, scale),
        scale > 0 ==> min_int(a as int, b as int) <= r <= max_int(a as int, b as int),
{
    if scale <= 0 {
        return b;
    }
    let c: i64 = if t < 0 { 0 } else if t > scale { scale as i64 } else { t as i64 };
    proof {
        lemma_lerp_between(a as int, b as int, c as int, scale as int);
        assert(-4294967295 <= b as int - a as int <= 4294967295);
        assert(-9223372036854775807 <= (b as int - a as int) * c as int <= 9223372036854775807)
            by (nonlinear_arith)
            requires
                -4294967295 <= b as int - a as int <= 4294967295,
                0 <= c <= 2147483647,
        ;
    }
    let d: i64 = (b as i64 - a as i64) * c;
    let q: i64 = if d >= 0 { d / scale as i64 } else { -((-d) / scale as i64) };
    (a as i64 + q) as i32
}

/// Channel-wise interpolation, see [`Color::lerp`].
pub open spec fn color_lerp_spec(a: Color, b: Color, t: i32, scale: i32) -> Color {
    Color(
        lerp_u8_spec(a.0, b.0, t, scale),
        lerp_u8_spec(a.1, b.1, t, scale),
        lerp_u8_spec(a.2, b.2, t, scale),
        lerp_u8_spec(a.3, b.3, t, scale),
    )
}

impl Color {
    /// The same colour with its alpha channel replaced by `alpha`.
    pub fn with_alpha(self, alpha: u8) -> (r: Color)
        ensures
            r == Color(self.0, self.1, self.2, alpha),
    {
        Color(self.0, self.1, self.2, alpha)
    }

    /// Interpolate every channel from `self` toward `to` by `t / scale`.
    ///
    /// `t` is clamped to `0..=scale`; a non-positive `scale` yields `to`.
    pub fn lerp(self, to: Color, t: i32, scale: i32) -> (r: Color)
        ensures
            r.0 == lerp_u8_spec(self.0, to.0, t, scale),
            r.1 == lerp_u8_spec(self.1, to.1, t, scale),
            r.2 == lerp_u8_spec(self.2, to.2, t, scale),
            r.3 == lerp_u8_spec(self.3, to.3, t, scale),
            r == color_lerp_spec(self, to, t, scale),
            t >= scale ==> r == to,
            t <= 0 && scale > 0 ==> r == self,
    {
        let r = Color(
            lerp_i32(self.0 as i32, to.0 as i32, t, scale) as u8,
            lerp_i32(self.1 as i32, to.1 as i32, t, scale) as u8,
            lerp_i32(self.2 as i32, to.2 as i32, t, scale) as u8,
            lerp_i32(self.3 as i32, to.3 as i32, t, scale) as u8,
        );
        proof {
            assert(r.0 == lerp_u8_spec(self.0, to.0, t, scale));
            assert(r.1 == lerp_u8_spec(self.1, to.1, t, scale));
            assert(r.2 == lerp_u8_spec(self.2, to.2, t, scale));
            assert(r.3 == lerp_u8_spec(self.3, to.3, t, scale));
            if scale <= 0 {
                assert forall|a: u8, b: u8| lerp_u8_spec(a, b, t, scale) == b by {}
            }
            if t >= scale && scale > 0 {
                assert forall|a: u8, b: u8| lerp_u8_spec(a, b, t, scale) == b by {
                    let d = (b as int - a as int) * scale as int;
                    assert(clamp_fraction(t as int, scale as int) == scale as int);
                    if d >= 0 {
                        assert(d / scale as int == b as int - a as int) by (nonlinear_arith)
                            requires d == (b as int - a as int) * scale as int, scale > 0;
                    } else {
                        assert((-d) / scale as int == a as int - b as int) by (nonlinear_arith)
                            requires d == (b as int - a as int) * scale as int, scale > 0;
                    }
                }
            }
            if t <= 0 && scale > 0 {
                assert forall|a: u8, b: u8| lerp_u8_spec(a, b, t, scale) == a by {
                    assert(clamp_fraction(t as int, scale as int) == 0);
                }
            }
        }
        r
    }
}

} // verus!
