//! Natural (exposé) layout: place every window in its own cell of a grid
//! over the bounding box, shrunk to preserve its aspect ratio and centred
//! in the cell.
//!
//! The assignment is a pure function of the input order: ties are broken
//! by position in the input. The produced rectangles are pairwise
//! non-overlapping, lie inside the bounding box, and together cover no
//! more area than the box offers.

use vstd::prelude::*;

use crate::geometry::LayoutRect;
use crate::geometry::fit_scale;
use crate::geometry::lemma_fit_scale_fits;
use crate::model::Window;

verus! {

/// Total area of an assignment.
pub open spec fn sum_areas(s: Seq<(u64, LayoutRect)>) -> int
    decreases s.len(),
{
    if s.len() == 0 {
        0
    } else {
        sum_areas(s.drop_last()) + s.last().1.area()
    }
}

/// The rectangle lies in grid cell `k` of a `cols`-wide grid with cells
/// `cw` by `ch` anchored at `(x0, y0)`.
pub open spec fn in_cell(r: LayoutRect, x0: int, y0: int, cols: int, cw: int, ch: int, k: int) -> bool {
    &&& r.width >= 0
    &&& r.height >= 0
    &&& x0 + (k % cols) * cw <= r.x
    &&& r.x + r.width <= x0 + (k % cols) * cw + cw
    &&& y0 + (k / cols) * ch <= r.y
    &&& r.y + r.height <= y0 + (k / cols) * ch + ch
}

/// Rectangles in distinct cells of the same grid do not overlap.
proof fn lemma_distinct_cells_disjoint(
    r1: LayoutRect,
    r2: LayoutRect,
    x0: int,
    y0: int,
    cols: int,
    cw: int,
    ch: int,
    p: int,
    q: int,
)
    requires
        cols > 0,
        cw >= 0,
        ch >= 0,
        p >= 0,
        q >= 0,
        p != q,
        in_cell(r1, x0, y0, cols, cw, ch, p),
        in_cell(r2, x0, y0, cols, cw, ch, q),
    ensures
        r1.disjoint_from(r2),
{
    let cp = p % cols;
    let cq = q % cols;
    let rp = p / cols;
    let rq = q / cols;
    vstd::arithmetic::div_mod::lemma_fundamental_div_mod(p, cols);
    vstd::arithmetic::div_mod::lemma_fundamental_div_mod(q, cols);
    assert(cp != cq || rp != rq) by {
        if cp == cq && rp == rq {
            assert(p == cols * rp + cp);
            assert(q == cols * rq + cq);
        }
    }
    if cp < cq {
        assert((cp + 1) * cw <= cq * cw) by (nonlinear_arith)
            requires cp + 1 <= cq && cw >= 0;
        assert(cp * cw + cw == (cp + 1) * cw) by (nonlinear_arith);
        assert(r1.x + r1.width <= r2.x);
    } else if cq < cp {
        assert((cq + 1) * cw <= cp * cw) by (nonlinear_arith)
            requires cq + 1 <= cp && cw >= 0;
        assert(cq * cw + cw == (cq + 1) * cw) by (nonlinear_arith);
        assert(r2.x + r2.width <= r1.x);
    } else if rp < rq {
        assert((rp + 1) * ch <= rq * ch) by (nonlinear_arith)
            requires rp + 1 <= rq && ch >= 0;
        assert(rp * ch + ch == (rp + 1) * ch) by (nonlinear_arith);
        assert(r1.y + r1.height <= r2.y);
    } else {
        assert(rq < rp) by {
            vstd::arithmetic::div_mod::lemma_mod_bound(p, cols);
            vstd::arithmetic::div_mod::lemma_mod_bound(q, cols);
        }
        assert((rq + 1) * ch <= rp * ch) by (nonlinear_arith)
            requires rq + 1 <= rp && ch >= 0;
        assert(rq * ch + ch == (rq + 1) * ch) by (nonlinear_arith);
        assert(r2.y + r2.height <= r1.y);
    }
}

/// Smallest positive integer whose square covers `n`.
fn ceil_sqrt(n: usize) -> (c: usize)
    requires
        1 <= n <= 0x40000000,
    ensures
        1 <= c <= n,
        c * c >= n,
{
    let mut c: usize = 1;
    let mut sq: u64 = 1;
    while sq < n as u64
        invariant
            1 <= c <= n,
            n <= 0x40000000,
            (sq as int) == (c as int) * (c as int),
        decreases n - c,
    {
        proof {
            assert(c < n) by (nonlinear_arith)
                requires
                    (sq as int) == (c as int) * (c as int),
                    (sq as int) < (n as int),
                    (c as int) >= 1,
            ;
            assert((c as int) * (c as int) <= 0x40000000 * 0x40000000) by (nonlinear_arith)
                requires (c as int) <= 0x40000000;
            assert(((c as int) + 1) * ((c as int) + 1) == (c as int) * (c as int) + 2 * (c as int)
                + 1) by (nonlinear_arith);
        }
        sq = sq + 2 * (c as u64) + 1;
        c += 1;
    }
    c
}

/// Assign every window a rectangle: the `k`-th window scales to fit cell
/// `k` of a near-square grid over the bounding box, centred in its cell.
/// The result pairs each window's surface id, in input order, with its
/// rectangle; the rectangles are pairwise non-overlapping, lie inside the
/// bounding box, and their total area is at most the box's.
pub fn natural_layout(windows: &Vec<Window>, layout_rect: &LayoutRect) -> (r: Vec<(u64, LayoutRect)>)
    requires
        layout_rect.well_sized(),
        -0x40000000 <= layout_rect.x,
        layout_rect.x + layout_rect.width <= 0x40000000,
        -0x40000000 <= layout_rect.y,
        layout_rect.y + layout_rect.height <= 0x40000000,
        windows@.len() <= 0x40000000,
    ensures
        r@.len() == windows@.len(),
        forall|k: int| 0 <= k < r@.len() ==> (#[trigger] r@[k]).0 == windows@[k].id,
        forall|k: int|
            0 <= k < r@.len() ==> (#[trigger] r@[k]).1.well_sized() && r@[k].1.inside(
                *layout_rect,
            ),
        forall|p: int, q: int|
            0 <= p < r@.len() && 0 <= q < r@.len() && p != q ==> (#[trigger] r@[p]).1.disjoint_from(
                (#[trigger] r@[q]).1,
            ),
        sum_areas(r@) <= layout_rect.area(),
{
    let n = windows.len();
    let mut out: Vec<(u64, LayoutRect)> = Vec::new();
    if n == 0 {
        proof {
            assert(layout_rect.area() >= 0) by (nonlinear_arith)
                requires layout_rect.width >= 0 && layout_rect.height >= 0;
        }
        return out;
    }
    let cols = ceil_sqrt(n);
    let rows = (n + cols - 1) / cols;
    proof {
        assert(rows >= 1) by (nonlinear_arith)
            requires
                (rows as int) == ((n as int) + (cols as int) - 1) / (cols as int),
                (n as int) >= 1,
                (cols as int) >= 1,
        ;
    }
    let cw = (layout_rect.width as usize) / cols;
    let ch = (layout_rect.height as usize) / rows;
    proof {
        // the grid covers all indices and fits in the box
        vstd::arithmetic::div_mod::lemma_fundamental_div_mod((n + cols - 1) as int, cols as int);
        vstd::arithmetic::div_mod::lemma_mod_bound((n + cols - 1) as int, cols as int);
        assert((n as int) <= (cols as int) * (rows as int));
        vstd::arithmetic::div_mod::lemma_fundamental_div_mod(
            layout_rect.width as int,
            cols as int,
        );
        vstd::arithmetic::div_mod::lemma_mod_bound(layout_rect.width as int, cols as int);
        assert((cols as int) * (cw as int) <= layout_rect.width);
        vstd::arithmetic::div_mod::lemma_fundamental_div_mod(
            layout_rect.height as int,
            rows as int,
        );
        vstd::arithmetic::div_mod::lemma_mod_bound(layout_rect.height as int, rows as int);
        assert((rows as int) * (ch as int) <= layout_rect.height);
        assert((cw as int) * (ch as int) >= 0) by (nonlinear_arith)
            requires cw >= 0 && ch >= 0;
    }
    let mut i: usize = 0;
    while i < n
        invariant
            0 <= i <= n,
            n == windows@.len(),
            n >= 1,
            cols >= 1,
            rows >= 1,
            n <= 0x40000000,
            cols <= n,
            (n as int) <= (cols as int) * (rows as int),
            cw >= 0,
            ch >= 0,
            (cols as int) * (cw as int) <= layout_rect.width,
            (rows as int) * (ch as int) <= layout_rect.height,
            layout_rect.well_sized(),
            -0x40000000 <= layout_rect.x,
            layout_rect.x + layout_rect.width <= 0x40000000,
            -0x40000000 <= layout_rect.y,
            layout_rect.y + layout_rect.height <= 0x40000000,
            out@.len() == i,
            forall|k: int| 0 <= k < i ==> (#[trigger] out@[k]).0 == windows@[k].id,
            forall|k: int|
                0 <= k < i ==> (#[trigger] out@[k]).1.well_sized() && out@[k].1.inside(
                    *layout_rect,
                ),
            forall|k: int|
                0 <= k < i ==> in_cell(
                    (#[trigger] out@[k]).1,
                    layout_rect.x as int,
                    layout_rect.y as int,
                    cols as int,
                    cw as int,
                    ch as int,
                    k,
                ),
            sum_areas(out@) <= (i as int) * ((cw as int) * (ch as int)),
        decreases n - i,
    {
        let col = i % cols;
        let row = i / cols;
        proof {
            vstd::arithmetic::div_mod::lemma_mod_bound(i as int, cols as int);
            vstd::arithmetic::div_mod::lemma_fundamental_div_mod(i as int, cols as int);
            // the row index stays under the row count
            assert((row as int) < rows as int) by (nonlinear_arith)
                requires
                    (i as int) == (cols as int) * (row as int) + (col as int),
                    0 <= col as int,
                    (col as int) < (cols as int),
                    (i as int) < (n as int),
                    (n as int) <= (cols as int) * (rows as int),
                    (cols as int) >= 1;
            assert(0 <= (col as int) * (cw as int)) by (nonlinear_arith)
                requires col >= 0 && cw >= 0;
            assert((col as int) * (cw as int) + (cw as int) <= (cols as int) * (cw as int))
                by (nonlinear_arith)
                requires (col as int) + 1 <= cols as int && cw >= 0;
            assert(0 <= (row as int) * (ch as int)) by (nonlinear_arith)
                requires row >= 0 && ch >= 0;
            assert((row as int) * (ch as int) + (ch as int) <= (rows as int) * (ch as int))
                by (nonlinear_arith)
                requires (row as int) + 1 <= rows as int && ch >= 0;
        }
        let cell_x: i64 = layout_rect.x as i64 + (col as i64) * (cw as i64);
        let cell_y: i64 = layout_rect.y as i64 + (row as i64) * (ch as i64);
        let win = &windows[i];
        let win_w: i32 = if win.w > 0 {
            win.w
        } else {
            0
        };
        let win_h: i32 = if win.h > 0 {
            win.h
        } else {
            0
        };
        let scale = fit_scale(win_w, win_h, cw as i32, ch as i32);
        proof {
            lemma_fit_scale_fits(win_w as int, win_h as int, cw as int, ch as int);
        }
        let fw: i64 = if win_w > 0 {
            (win_w as i64) * (scale as i64) / 1000
        } else {
            0
        };
        let fh: i64 = if win_h > 0 {
            (win_h as i64) * (scale as i64) / 1000
        } else {
            0
        };
        proof {
            assert(0 <= (win_w as int) * (scale as int)) by (nonlinear_arith)
                requires win_w >= 0 && scale >= 0;
            assert(0 <= (win_h as int) * (scale as int)) by (nonlinear_arith)
                requires win_h >= 0 && scale >= 0;
            assert(0 <= fw as int <= cw as int);
            assert(0 <= fh as int <= ch as int);
        }
        let rx: i64 = cell_x + ((cw as i64) - fw) / 2;
        let ry: i64 = cell_y + ((ch as i64) - fh) / 2;
        let assigned = LayoutRect {
            x: rx as i32,
            y: ry as i32,
            width: fw as i32,
            height: fh as i32,
        };
        let ghost out_before = out@;
        out.push((win.id, assigned));
        proof {
            assert(in_cell(
                assigned,
                layout_rect.x as int,
                layout_rect.y as int,
                cols as int,
                cw as int,
                ch as int,
                i as int,
            ));
            assert(assigned.inside(*layout_rect));
            // the running area total grows by at most one cell
            assert(out@.drop_last() =~= out_before);
            assert(sum_areas(out@) == sum_areas(out_before) + assigned.area());
            assert(assigned.area() <= (cw as int) * (ch as int)) by (nonlinear_arith)
                requires
                    assigned.width == fw as int && assigned.height == fh as int && 0 <= fw as int
                        <= cw as int && 0 <= fh as int <= ch as int;
            assert((i as int) * ((cw as int) * (ch as int)) + (cw as int) * (ch as int) == ((
            i as int) + 1) * ((cw as int) * (ch as int))) by (nonlinear_arith);
        }
        i += 1;
    }
    proof {
        // pairwise disjointness from the cell discipline
        assert forall|p: int, q: int|
            0 <= p < out@.len() && 0 <= q < out@.len() && p != q implies (
        #[trigger] out@[p]).1.disjoint_from((#[trigger] out@[q]).1) by {
            lemma_distinct_cells_disjoint(
                out@[p].1,
                out@[q].1,
                layout_rect.x as int,
                layout_rect.y as int,
                cols as int,
                cw as int,
                ch as int,
                p,
                q,
            );
        }
        // total area stays within the box
        assert((n as int) * ((cw as int) * (ch as int)) <= ((cols as int) * (rows as int)) * ((
        cw as int) * (ch as int))) by (nonlinear_arith)
            requires
                (n as int) <= (cols as int) * (rows as int) && cw >= 0 && ch >= 0;
        assert(((cols as int) * (rows as int)) * ((cw as int) * (ch as int)) == ((cols as int) * (
        cw as int)) * ((rows as int) * (ch as int))) by (nonlinear_arith);
        assert(((cols as int) * (cw as int)) * ((rows as int) * (ch as int)) <= (
        layout_rect.width as int) * (layout_rect.height as int)) by (nonlinear_arith)
            requires
                0 <= (cols as int) * (cw as int) <= layout_rect.width as int && 0 <= (rows as int)
                    * (ch as int) <= layout_rect.height as int;
    }
    out
}

} // verus!
