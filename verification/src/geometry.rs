//! Integer pixel geometry: rectangles, linear interpolation in per-mille
//! steps, and aspect-preserving fit scales.
//!
//! All continuous quantities of the workspace (gesture progress, opacity,
//! scale factors) are carried as per-mille integers in `0 ..= 1000`; the
//! renderer divides by 1000 at the very edge.

use vstd::prelude::*;

verus! {

/// An axis-aligned rectangle in integer pixel coordinates.
#[derive(Clone, Copy, Debug, PartialEq, Eq, Structural)]
pub struct LayoutRect {
    pub x: i32,
    pub y: i32,
    pub width: i32,
    pub height: i32,
}

impl LayoutRect {
    pub open spec fn well_sized(self) -> bool {
        self.width >= 0 && self.height >= 0
    }

    /// The point lies inside the rectangle; right and bottom edges excluded.
    pub open spec fn spec_contains(self, px: int, py: int) -> bool {
        &&& self.x <= px < self.x + self.width
        &&& self.y <= py < self.y + self.height
    }

    pub open spec fn area(self) -> int {
        self.width * self.height
    }

    /// The interiors of the two rectangles do not intersect.
    pub open spec fn disjoint_from(self, other: LayoutRect) -> bool {
        ||| self.x + self.width <= other.x
        ||| other.x + other.width <= self.x
        ||| self.y + self.height <= other.y
        ||| other.y + other.height <= self.y
    }

    /// The rectangle lies entirely within `outer`.
    pub open spec fn inside(self, outer: LayoutRect) -> bool {
        &&& outer.x <= self.x
        &&& self.x + self.width <= outer.x + outer.width
        &&& outer.y <= self.y
        &&& self.y + self.height <= outer.y + outer.height
    }

    pub fn new(x: i32, y: i32, width: i32, height: i32) -> (r: LayoutRect)
        ensures
            r == (LayoutRect { x, y, width, height }),
    {
        LayoutRect { x, y, width, height }
    }

    /// Point-in-rectangle test, used for cursor hit testing.
    pub fn contains(&self, px: i32, py: i32) -> (b: bool)
        ensures
            b == self.spec_contains(px as int, py as int),
    {
        self.x <= px && (px as i64) < self.x as i64 + self.width as i64 && self.y <= py && (
        py as i64) < self.y as i64 + self.height as i64
    }
}

/// A reported dimension, read as a size: negative values count as zero.
pub open spec fn dim(v: int) -> int {
    if v >= 0 {
        v
    } else {
        0
    }
}

/// Linear interpolation from `a` to `b` at per-mille progress `t`,
/// rounded toward `a`.
pub open spec fn interp_permille(a: int, b: int, t: int) -> int {
    if b >= a {
        a + (b - a) * t / 1000
    } else {
        a - (a - b) * t / 1000
    }
}

/// The interpolant stays between its endpoints for `t` in `0 ..= 1000`.
pub proof fn lemma_interp_permille_bounds(a: int, b: int, t: int)
    requires
        0 <= t <= 1000,
    ensures
        a <= b ==> a <= interp_permille(a, b, t) <= b,
        b < a ==> b <= interp_permille(a, b, t) <= a,
{
    if b >= a {
        assert(0 <= (b - a) * t) by (nonlinear_arith)
            requires b - a >= 0 && t >= 0;
        assert((b - a) * t <= (b - a) * 1000) by (nonlinear_arith)
            requires b - a >= 0 && t <= 1000;
        assert(0 <= (b - a) * t / 1000 <= b - a);
    } else {
        assert(0 <= (a - b) * t) by (nonlinear_arith)
            requires a - b >= 0 && t >= 0;
        assert((a - b) * t <= (a - b) * 1000) by (nonlinear_arith)
            requires a - b >= 0 && t <= 1000;
        assert(0 <= (a - b) * t / 1000 <= a - b);
    }
}

/// Interpolate between two pixel coordinates at per-mille progress `t`.
pub fn interpolate_permille(a: i32, b: i32, t: i32) -> (r: i32)
    requires
        0 <= t <= 1000,
    ensures
        r == interp_permille(a as int, b as int, t as int),
{
    proof {
        lemma_interp_permille_bounds(a as int, b as int, t as int);
    }
    if b >= a {
        let step: i64 = (b as i64 - a as i64) * (t as i64) / 1000;
        (a as i64 + step) as i32
    } else {
        let step: i64 = (a as i64 - b as i64) * (t as i64) / 1000;
        (a as i64 - step) as i32
    }
}

/// The largest per-mille scale, capped at 1000 (never scale up), at which a
/// `w` by `h` box fits inside a `max_w` by `max_h` box. Degenerate source
/// dimensions impose no constraint of their own.
pub open spec fn fit_scale_permille(w: int, h: int, max_w: int, max_h: int) -> int {
    let sw = if w > 0 { max_w * 1000 / w } else { 1000 };
    let sh = if h > 0 { max_h * 1000 / h } else { 1000 };
    let s = if sw <= sh { sw } else { sh };
    if s <= 1000 { s } else { 1000 }
}

/// The fit scale shrinks each positive dimension to within its bound.
pub proof fn lemma_fit_scale_fits(w: int, h: int, max_w: int, max_h: int)
    requires
        w >= 0,
        h >= 0,
        max_w >= 0,
        max_h >= 0,
    ensures
        0 <= fit_scale_permille(w, h, max_w, max_h) <= 1000,
        w > 0 ==> w * fit_scale_permille(w, h, max_w, max_h) / 1000 <= max_w,
        h > 0 ==> h * fit_scale_permille(w, h, max_w, max_h) / 1000 <= max_h,
{
    let s = fit_scale_permille(w, h, max_w, max_h);
    if w > 0 {
        assert(max_w * 1000 / w >= 0);
        assert(s <= max_w * 1000 / w);
        assert(w * s <= w * (max_w * 1000 / w)) by (nonlinear_arith)
            requires w > 0 && s <= max_w * 1000 / w;
        assert(w * (max_w * 1000 / w) <= max_w * 1000) by (nonlinear_arith)
            requires w > 0 && max_w >= 0;
        assert(w * s / 1000 <= max_w * 1000 / 1000) by {
            vstd::arithmetic::div_mod::lemma_div_is_ordered(w * s, max_w * 1000, 1000);
        }
    }
    if h > 0 {
        assert(max_h * 1000 / h >= 0);
        assert(s <= max_h * 1000 / h);
        assert(h * s <= h * (max_h * 1000 / h)) by (nonlinear_arith)
            requires h > 0 && s <= max_h * 1000 / h;
        assert(h * (max_h * 1000 / h) <= max_h * 1000) by (nonlinear_arith)
            requires h > 0 && max_h >= 0;
        assert(h * s / 1000 <= max_h * 1000 / 1000) by {
            vstd::arithmetic::div_mod::lemma_div_is_ordered(h * s, max_h * 1000, 1000);
        }
    }
}

/// Largest per-mille scale at which a `w` by `h` window fits in a
/// `max_w` by `max_h` slot, never scaling up past 1000.
pub fn fit_scale(w: i32, h: i32, max_w: i32, max_h: i32) -> (s: i32)
    requires
        w >= 0,
        h >= 0,
        max_w >= 0,
        max_h >= 0,
    ensures
        s == fit_scale_permille(w as int, h as int, max_w as int, max_h as int),
        0 <= s <= 1000,
{
    let sw: i64 = if w > 0 {
        (max_w as i64) * 1000 / (w as i64)
    } else {
        1000
    };
    let sh: i64 = if h > 0 {
        (max_h as i64) * 1000 / (h as i64)
    } else {
        1000
    };
    let s: i64 = if sw <= sh {
        sw
    } else {
        sh
    };
    let s: i64 = if s <= 1000 {
        s
    } else {
        1000
    };
    s as i32
}

} // verus!
