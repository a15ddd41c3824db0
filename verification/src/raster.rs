//! The rasterizer: depth-buffered scanline triangle fill and Bresenham
//! line drawing.
//!
//! Screen-space vertices arrive in fixed-point form; their `x` and `y` are
//! floored to integer pixel coordinates (the rule spelled out by
//! [`px_of`]), the depth `z` is kept as it is. The fill sorts the three
//! vertices by ascending `y`, splits the triangle at the middle vertex and
//! fills every scanline between two linearly interpolated edge boundaries,
//! writing each pixel through the depth-tested path.

use vstd::prelude::*;
use vstd::math::{min, max, abs};
use vstd::arithmetic::div_mod::{lemma_div_is_ordered, lemma_div_multiples_vanish};
use crate::color::Color;
use crate::fixed::{FP_ONE, div_floor, min_i64, max_i64, lemma_lerp_bounds};
use crate::framebuffer::{Framebuffer, pix_idx};
use crate::geometry::Vec3;

verus! {

/// Largest pixel-coordinate magnitude the rasterizer accepts, far beyond
/// any real screen; it keeps every interpolation product inside `i64`.
pub const PX_LIMIT: i64 = 1048576;

/// Largest depth magnitude the rasterizer accepts; it keeps every depth
/// interpolation product inside `i64` and stays far below the cleared
/// depth plane's sentinel.
pub const DEPTH_LIMIT: i64 = 274877906944;

/// The integer pixel coordinate of a fixed-point screen coordinate: its
/// floor (divisions by the positive `FP_ONE` are Euclidean, hence floors).
pub open spec fn px_of(v: i64) -> int {
    v as int / (FP_ONE as int)
}

/// A screen vertex reduced to integer pixel coordinates plus its depth.
pub open spec fn pix_vert(v: Vec3) -> (int, int, int) {
    (px_of(v.x), px_of(v.y), v.z as int)
}

/// A triangle as three `(x, y, z)` pixel vertices.
pub type Tri = ((int, int, int), (int, int, int), (int, int, int));

/// The stable three-element sort by ascending `y` the fill begins with.
pub open spec fn sort3_by_y(v0: (int, int, int), v1: (int, int, int), v2: (int, int, int)) -> Tri {
    let (a0, b0) = if v0.1 > v1.1 {
        (v1, v0)
    } else {
        (v0, v1)
    };
    let (a1, c1) = if a0.1 > v2.1 {
        (v2, a0)
    } else {
        (a0, v2)
    };
    let (b1, c2) = if b0.1 > c1.1 {
        (c1, b0)
    } else {
        (b0, c1)
    };
    (a1, b1, c2)
}

/// Whether a triangle's vertices are ordered by ascending `y`.
pub open spec fn y_sorted(s: Tri) -> bool {
    s.0.1 <= s.1.1 <= s.2.1
}

/// Sorting by `y` yields an ascending triangle whose vertices are the
/// three given ones.
pub proof fn lemma_sort3_by_y(v0: (int, int, int), v1: (int, int, int), v2: (int, int, int))
    ensures
        y_sorted(sort3_by_y(v0, v1, v2)),
        sort3_by_y(v0, v1, v2).0 == v0 || sort3_by_y(v0, v1, v2).0 == v1 || sort3_by_y(v0, v1, v2).0 == v2,
        sort3_by_y(v0, v1, v2).1 == v0 || sort3_by_y(v0, v1, v2).1 == v1 || sort3_by_y(v0, v1, v2).1 == v2,
        sort3_by_y(v0, v1, v2).2 == v0 || sort3_by_y(v0, v1, v2).2 == v1 || sort3_by_y(v0, v1, v2).2 == v2,
{
}

/// Position along an edge: `base + delta * t / h`, the flooring linear
/// interpolation every boundary of the fill uses.
pub open spec fn lerp(base: int, delta: int, t: int, h: int) -> int {
    base + delta * t / h
}

/// X position of the long edge (top vertex to bottom vertex) on row `y`.
pub open spec fn edge_x_long(s: Tri, y: int) -> int {
    lerp(s.0.0, s.2.0 - s.0.0, y - s.0.1, s.2.1 - s.0.1)
}

/// Depth of the long edge on row `y`.
pub open spec fn edge_z_long(s: Tri, y: int) -> int {
    lerp(s.0.2, s.2.2 - s.0.2, y - s.0.1, s.2.1 - s.0.1)
}

/// X position of the upper short edge (top to middle vertex) on row `y`.
pub open spec fn edge_x_up(s: Tri, y: int) -> int {
    lerp(s.0.0, s.1.0 - s.0.0, y - s.0.1, s.1.1 - s.0.1)
}

/// Depth of the upper short edge on row `y`.
pub open spec fn edge_z_up(s: Tri, y: int) -> int {
    lerp(s.0.2, s.1.2 - s.0.2, y - s.0.1, s.1.1 - s.0.1)
}

/// X position of the lower short edge (middle to bottom vertex) on row `y`.
pub open spec fn edge_x_lo(s: Tri, y: int) -> int {
    lerp(s.1.0, s.2.0 - s.1.0, y - s.1.1, s.2.1 - s.1.1)
}

/// Depth of the lower short edge on row `y`.
pub open spec fn edge_z_lo(s: Tri, y: int) -> int {
    lerp(s.1.2, s.2.2 - s.1.2, y - s.1.1, s.2.1 - s.1.1)
}

/// Depth across one scanline span: the first boundary's depth at `xs`,
/// linearly interpolated towards the second boundary's depth at `xe`
/// (a single-pixel span keeps the first depth).
pub open spec fn row_z(z_a: int, z_b: int, xs: int, xe: int, x: int) -> int {
    if xe == xs {
        z_a
    } else {
        z_a + (z_b - z_a) * (x - xs) / (xe - xs)
    }
}

/// Whether the upper segment of the fill covers pixel `(x, y)`: the
/// segment must have nonzero height, the row must lie between the top and
/// middle vertices, and `x` must lie between the two boundaries.
pub open spec fn cov_up(s: Tri, x: int, y: int) -> bool {
    &&& s.1.1 > s.0.1
    &&& s.0.1 <= y <= s.1.1
    &&& min(edge_x_long(s, y), edge_x_up(s, y)) <= x <= max(edge_x_long(s, y), edge_x_up(s, y))
}

/// The depth the upper segment offers at a pixel it covers.
pub open spec fn z_cand_up(s: Tri, x: int, y: int) -> int {
    row_z(
        edge_z_long(s, y),
        edge_z_up(s, y),
        min(edge_x_long(s, y), edge_x_up(s, y)),
        max(edge_x_long(s, y), edge_x_up(s, y)),
        x,
    )
}

/// Whether the lower segment of the fill covers pixel `(x, y)`.
pub open spec fn cov_lo(s: Tri, x: int, y: int) -> bool {
    &&& s.2.1 > s.1.1
    &&& s.1.1 <= y <= s.2.1
    &&& min(edge_x_long(s, y), edge_x_lo(s, y)) <= x <= max(edge_x_long(s, y), edge_x_lo(s, y))
}

/// The depth the lower segment offers at a pixel it covers.
pub open spec fn z_cand_lo(s: Tri, x: int, y: int) -> int {
    row_z(
        edge_z_long(s, y),
        edge_z_lo(s, y),
        min(edge_x_long(s, y), edge_x_lo(s, y)),
        max(edge_x_long(s, y), edge_x_lo(s, y)),
        x,
    )
}

/// The depth a cell holds after the upper segment alone, starting from
/// stored depth `d`: the write lands only when strictly closer.
pub open spec fn up_depth(s: Tri, d: int, x: int, y: int) -> int {
    if cov_up(s, x, y) {
        min(d, z_cand_up(s, x, y))
    } else {
        d
    }
}

/// The depth a cell holds after the whole fill, starting from stored
/// depth `d`.
pub open spec fn tri_depth(s: Tri, d: int, x: int, y: int) -> int {
    let du = up_depth(s, d, x, y);
    if cov_lo(s, x, y) {
        min(du, z_cand_lo(s, x, y))
    } else {
        du
    }
}

/// The fill never moves a depth cell away from the viewer.
pub proof fn lemma_tri_depth_le(s: Tri, d: int, x: int, y: int)
    ensures
        tri_depth(s, d, x, y) <= d,
{
}

/// A triangle whose three vertices share one row covers nothing.
pub proof fn lemma_tri_degenerate(s: Tri, d: int, x: int, y: int)
    requires
        y_sorted(s),
        s.0.1 == s.2.1,
    ensures
        tri_depth(s, d, x, y) == d,
{
}

/// The depth a cell holds after one scanline span from `x_a` to `x_b` on
/// row `y`, starting from stored depth `d`.
spec fn span_depth(d: int, x_a: int, x_b: int, z_a: int, z_b: int, i: int) -> int {
    let xs = min(x_a, x_b);
    let xe = max(x_a, x_b);
    if xs <= i <= xe {
        min(d, row_z(z_a, z_b, xs, xe, i))
    } else {
        d
    }
}

/// Fills one scanline: every pixel from `min(x_a, x_b)` to
/// `max(x_a, x_b)` on row `y` is written through the depth-tested path
/// with the depth interpolated from `z_a` at the span start to `z_b` at
/// the span end.
fn fill_span(fb: &mut Framebuffer, y: i64, x_a: i64, x_b: i64, z_a: i64, z_b: i64, c: Color)
    requires
        old(fb).wf(),
        -2 * PX_LIMIT <= y <= 2 * PX_LIMIT,
        -2 * PX_LIMIT <= x_a <= 2 * PX_LIMIT,
        -2 * PX_LIMIT <= x_b <= 2 * PX_LIMIT,
        -DEPTH_LIMIT <= z_a <= DEPTH_LIMIT,
        -DEPTH_LIMIT <= z_b <= DEPTH_LIMIT,
    ensures
        final(fb).wf(),
        final(fb).spec_width() == old(fb).spec_width(),
        final(fb).spec_height() == old(fb).spec_height(),
        forall|i: int, j: int|
            #![trigger pix_idx(old(fb).spec_width(), i, j)]
            old(fb).spec_in_bounds(i, j) ==> {
                let k = pix_idx(old(fb).spec_width(), i, j);
                let d = old(fb).depths()[k] as int;
                let nd = if j == y { span_depth(d, x_a as int, x_b as int, z_a as int, z_b as int, i) } else { d };
                &&& final(fb).depths()[k] as int == nd
                &&& final(fb).colors()[k] == (if nd < d { c } else { old(fb).colors()[k] })
            },
{
    let ghost fb0 = *fb;
    let xs = min_i64(x_a, x_b);
    let xe = max_i64(x_a, x_b);
    let mut x = xs;
    while x <= xe
        invariant
            fb.wf(),
            fb.spec_width() == fb0.spec_width(),
            fb.spec_height() == fb0.spec_height(),
            fb0.wf(),
            xs == min(x_a as int, x_b as int),
            xe == max(x_a as int, x_b as int),
            xs <= x <= xe + 1,
            -2 * PX_LIMIT <= y <= 2 * PX_LIMIT,
            -2 * PX_LIMIT <= x_a <= 2 * PX_LIMIT,
            -2 * PX_LIMIT <= x_b <= 2 * PX_LIMIT,
            -DEPTH_LIMIT <= z_a <= DEPTH_LIMIT,
            -DEPTH_LIMIT <= z_b <= DEPTH_LIMIT,
            forall|i: int, j: int|
                #![trigger pix_idx(fb0.spec_width(), i, j)]
                fb0.spec_in_bounds(i, j) ==> {
                    let k = pix_idx(fb0.spec_width(), i, j);
                    let d = fb0.depths()[k] as int;
                    let nd = if j == y && xs <= i < x {
                        min(d, row_z(z_a as int, z_b as int, xs as int, xe as int, i))
                    } else {
                        d
                    };
                    &&& fb.depths()[k] as int == nd
                    &&& fb.colors()[k] == (if nd < d { c } else { fb0.colors()[k] })
                },
        decreases xe + 1 - x,
    {
        let z: i64;
        if xe == xs {
            z = z_a;
        } else {
            let h = xe - xs;
            let t = x - xs;
            proof {
                assert((z_b - z_a) * (x - xs) <= 8 * PX_LIMIT * DEPTH_LIMIT && (z_b - z_a) * (x - xs) >= -(8
                    * PX_LIMIT * DEPTH_LIMIT)) by (nonlinear_arith)
                    requires
                        -2 * DEPTH_LIMIT <= z_b - z_a <= 2 * DEPTH_LIMIT,
                        0 <= x - xs <= 4 * PX_LIMIT,
                ;
                lemma_lerp_bounds(z_b as int - z_a as int, x - xs, xe - xs);
            }
            let num = (z_b - z_a) * t;
            z = z_a + div_floor(num, h);
        }
        proof {
            assert(z == row_z(z_a as int, z_b as int, xs as int, xe as int, x as int));
            assert(-DEPTH_LIMIT <= z <= DEPTH_LIMIT) by {
                if xe != xs {
                    lemma_lerp_bounds(z_b as int - z_a as int, x as int - xs as int, xe as int - xs as int);
                }
            }
        }
        fb.set_pixel_depth_tested(x as i32, y as i32, c, z);
        x = x + 1;
        proof {
            assert forall|i: int, j: int|
                fb0.spec_in_bounds(i, j) implies {
                let k = #[trigger] pix_idx(fb0.spec_width(), i, j);
                let d = fb0.depths()[k] as int;
                let nd = if j == y && xs <= i < x {
                    min(d, row_z(z_a as int, z_b as int, xs as int, xe as int, i))
                } else {
                    d
                };
                fb.depths()[k] as int == nd && fb.colors()[k] == (if nd < d {
                    c
                } else {
                    fb0.colors()[k]
                })
            } by {
                fb0.lemma_idx_in_range(i, j);
            }
        }
    }
}

/// A fixed-point screen coordinate within `PX_LIMIT` whole pixels floors
/// to a pixel coordinate within `PX_LIMIT`.
pub proof fn lemma_px_floor_bounds(a: int)
    requires
        -PX_LIMIT * FP_ONE <= a <= PX_LIMIT * FP_ONE,
    ensures
        -PX_LIMIT <= a / (FP_ONE as int) <= PX_LIMIT,
{
    lemma_div_is_ordered(a, PX_LIMIT * FP_ONE, FP_ONE as int);
    lemma_div_is_ordered(-PX_LIMIT * FP_ONE, a, FP_ONE as int);
    lemma_div_multiples_vanish(PX_LIMIT as int, FP_ONE as int);
    lemma_div_multiples_vanish(-PX_LIMIT as int, FP_ONE as int);
    assert(PX_LIMIT * FP_ONE == FP_ONE * PX_LIMIT);
    assert(-PX_LIMIT * FP_ONE == FP_ONE * (-PX_LIMIT as int));
}

/// Fills the triangle with screen-space vertices `v0`, `v1`, `v2` with the
/// flat color `c`, writing every pixel through the depth-tested path.
///
/// The contract is exact: each cell's new depth is the least of its old
/// depth and the depths the two fill segments offer it ([`tri_depth`]),
/// and its color changes to `c` exactly when its depth moved.
pub fn draw_triangle(fb: &mut Framebuffer, v0: &Vec3, v1: &Vec3, v2: &Vec3, c: Color)
    requires
        old(fb).wf(),
        -PX_LIMIT * FP_ONE <= v0.x <= PX_LIMIT * FP_ONE,
        -PX_LIMIT * FP_ONE <= v0.y <= PX_LIMIT * FP_ONE,
        -PX_LIMIT * FP_ONE <= v1.x <= PX_LIMIT * FP_ONE,
        -PX_LIMIT * FP_ONE <= v1.y <= PX_LIMIT * FP_ONE,
        -PX_LIMIT * FP_ONE <= v2.x <= PX_LIMIT * FP_ONE,
        -PX_LIMIT * FP_ONE <= v2.y <= PX_LIMIT * FP_ONE,
        -DEPTH_LIMIT <= v0.z <= DEPTH_LIMIT,
        -DEPTH_LIMIT <= v1.z <= DEPTH_LIMIT,
        -DEPTH_LIMIT <= v2.z <= DEPTH_LIMIT,
    ensures
        final(fb).wf(),
        final(fb).spec_width() == old(fb).spec_width(),
        final(fb).spec_height() == old(fb).spec_height(),
        forall|x: int, y: int|
            #![trigger pix_idx(old(fb).spec_width(), x, y)]
            old(fb).spec_in_bounds(x, y) ==> {
                let s = sort3_by_y(pix_vert(*v0), pix_vert(*v1), pix_vert(*v2));
                let k = pix_idx(old(fb).spec_width(), x, y);
                let d = old(fb).depths()[k] as int;
                let nd = tri_depth(s, d, x, y);
                &&& final(fb).depths()[k] as int == nd
                &&& final(fb).colors()[k] == (if nd < d { c } else { old(fb).colors()[k] })
            },
{
    let ghost fb0 = *fb;
    let ghost s = sort3_by_y(pix_vert(*v0), pix_vert(*v1), pix_vert(*v2));
    proof {
        lemma_px_floor_bounds(v0.x as int);
        lemma_px_floor_bounds(v0.y as int);
        lemma_px_floor_bounds(v1.x as int);
        lemma_px_floor_bounds(v1.y as int);
        lemma_px_floor_bounds(v2.x as int);
        lemma_px_floor_bounds(v2.y as int);
    }
    let mut x0 = div_floor(v0.x, FP_ONE);
    let mut y0 = div_floor(v0.y, FP_ONE);
    let mut z0 = v0.z;
    let mut x1 = div_floor(v1.x, FP_ONE);
    let mut y1 = div_floor(v1.y, FP_ONE);
    let mut z1 = v1.z;
    let mut x2 = div_floor(v2.x, FP_ONE);
    let mut y2 = div_floor(v2.y, FP_ONE);
    let mut z2 = v2.z;
    if y0 > y1 {
        let tx = x0;
        let ty = y0;
        let tz = z0;
        x0 = x1;
        y0 = y1;
        z0 = z1;
        x1 = tx;
        y1 = ty;
        z1 = tz;
    }
    if y0 > y2 {
        let tx = x0;
        let ty = y0;
        let tz = z0;
        x0 = x2;
        y0 = y2;
        z0 = z2;
        x2 = tx;
        y2 = ty;
        z2 = tz;
    }
    if y1 > y2 {
        let tx = x1;
        let ty = y1;
        let tz = z1;
        x1 = x2;
        y1 = y2;
        z1 = z2;
        x2 = tx;
        y2 = ty;
        z2 = tz;
    }
    proof {
        assert(s.0 == (x0 as int, y0 as int, z0 as int));
        assert(s.1 == (x1 as int, y1 as int, z1 as int));
        assert(s.2 == (x2 as int, y2 as int, z2 as int));
    }
    let th = y2 - y0;
    if th == 0 {
        return ;
    }
    let sh = y1 - y0;
    if sh != 0 {
        let mut yy = y0;
        while yy <= y1
            invariant
                fb.wf(),
                fb.spec_width() == fb0.spec_width(),
                fb.spec_height() == fb0.spec_height(),
                fb0.wf(),
                s.0 == (x0 as int, y0 as int, z0 as int),
                s.1 == (x1 as int, y1 as int, z1 as int),
                s.2 == (x2 as int, y2 as int, z2 as int),
                -PX_LIMIT <= x0 <= PX_LIMIT,
                -PX_LIMIT <= x1 <= PX_LIMIT,
                -PX_LIMIT <= x2 <= PX_LIMIT,
                -PX_LIMIT <= y0 <= PX_LIMIT,
                -PX_LIMIT <= y1 <= PX_LIMIT,
                -PX_LIMIT <= y2 <= PX_LIMIT,
                -DEPTH_LIMIT <= z0 <= DEPTH_LIMIT,
                -DEPTH_LIMIT <= z1 <= DEPTH_LIMIT,
                -DEPTH_LIMIT <= z2 <= DEPTH_LIMIT,
                y0 <= y1 <= y2,
                sh == y1 - y0,
                sh > 0,
                th == y2 - y0,
                th > 0,
                y0 <= yy <= y1 + 1,
                forall|i: int, j: int|
                    #![trigger pix_idx(fb0.spec_width(), i, j)]
                    fb0.spec_in_bounds(i, j) ==> {
                        let k = pix_idx(fb0.spec_width(), i, j);
                        let d = fb0.depths()[k] as int;
                        let nd = if cov_up(s, i, j) && j < yy {
                            min(d, z_cand_up(s, i, j))
                        } else {
                            d
                        };
                        &&& fb.depths()[k] as int == nd
                        &&& fb.colors()[k] == (if nd < d { c } else { fb0.colors()[k] })
                    },
            decreases y1 + 1 - yy,
        {
            let tnum = yy - y0;
            proof {
                assert((x2 - x0) * tnum <= 8 * PX_LIMIT * PX_LIMIT && (x2 - x0) * tnum >= -(8 * PX_LIMIT
                    * PX_LIMIT) && (x1 - x0) * tnum <= 8 * PX_LIMIT * PX_LIMIT && (x1 - x0) * tnum >= -(8 * PX_LIMIT
                    * PX_LIMIT) && (z2 - z0) * tnum <= 8 * PX_LIMIT * DEPTH_LIMIT && (z2 - z0) * tnum >= -(8
                    * PX_LIMIT * DEPTH_LIMIT) && (z1 - z0) * tnum <= 8 * PX_LIMIT * DEPTH_LIMIT && (z1 - z0) * tnum
                    >= -(8 * PX_LIMIT * DEPTH_LIMIT)) by (nonlinear_arith)
                    requires
                        -2 * PX_LIMIT <= x2 - x0 <= 2 * PX_LIMIT,
                        -2 * PX_LIMIT <= x1 - x0 <= 2 * PX_LIMIT,
                        -2 * DEPTH_LIMIT <= z2 - z0 <= 2 * DEPTH_LIMIT,
                        -2 * DEPTH_LIMIT <= z1 - z0 <= 2 * DEPTH_LIMIT,
                        0 <= tnum <= 2 * PX_LIMIT,
                ;
                lemma_lerp_bounds(x2 as int - x0 as int, tnum as int, th as int);
                lemma_lerp_bounds(x1 as int - x0 as int, tnum as int, sh as int);
                lemma_lerp_bounds(z2 as int - z0 as int, tnum as int, th as int);
                lemma_lerp_bounds(z1 as int - z0 as int, tnum as int, sh as int);
            }
            let x_a = x0 + div_floor((x2 - x0) * tnum, th);
            let x_b = x0 + div_floor((x1 - x0) * tnum, sh);
            let z_a = z0 + div_floor((z2 - z0) * tnum, th);
            let z_b = z0 + div_floor((z1 - z0) * tnum, sh);
            proof {
                assert(x_a == edge_x_long(s, yy as int));
                assert(x_b == edge_x_up(s, yy as int));
                assert(z_a == edge_z_long(s, yy as int));
                assert(z_b == edge_z_up(s, yy as int));
            }
            fill_span(fb, yy, x_a, x_b, z_a, z_b, c);
            proof {
                assert forall|i: int, j: int|
                    fb0.spec_in_bounds(i, j) implies {
                    let k = #[trigger] pix_idx(fb0.spec_width(), i, j);
                    let d = fb0.depths()[k] as int;
                    let nd = if cov_up(s, i, j) && j < yy + 1 {
                        min(d, z_cand_up(s, i, j))
                    } else {
                        d
                    };
                    fb.depths()[k] as int == nd && fb.colors()[k] == (if nd < d {
                        c
                    } else {
                        fb0.colors()[k]
                    })
                } by {
                    fb0.lemma_idx_in_range(i, j);
                }
            }
            yy = yy + 1;
        }
    }
    proof {
        assert forall|i: int, j: int|
            fb0.spec_in_bounds(i, j) implies {
            let k = #[trigger] pix_idx(fb0.spec_width(), i, j);
            let d = fb0.depths()[k] as int;
            let nd = up_depth(s, d, i, j);
            fb.depths()[k] as int == nd && fb.colors()[k] == (if nd < d {
                c
            } else {
                fb0.colors()[k]
            })
        } by {
            fb0.lemma_idx_in_range(i, j);
        }
    }
    let sh2 = y2 - y1;
    if sh2 != 0 {
        let mut yy = y1;
        while yy <= y2
            invariant
                fb.wf(),
                fb.spec_width() == fb0.spec_width(),
                fb.spec_height() == fb0.spec_height(),
                fb0.wf(),
                s.0 == (x0 as int, y0 as int, z0 as int),
                s.1 == (x1 as int, y1 as int, z1 as int),
                s.2 == (x2 as int, y2 as int, z2 as int),
                -PX_LIMIT <= x0 <= PX_LIMIT,
                -PX_LIMIT <= x1 <= PX_LIMIT,
                -PX_LIMIT <= x2 <= PX_LIMIT,
                -PX_LIMIT <= y0 <= PX_LIMIT,
                -PX_LIMIT <= y1 <= PX_LIMIT,
                -PX_LIMIT <= y2 <= PX_LIMIT,
                -DEPTH_LIMIT <= z0 <= DEPTH_LIMIT,
                -DEPTH_LIMIT <= z1 <= DEPTH_LIMIT,
                -DEPTH_LIMIT <= z2 <= DEPTH_LIMIT,
                y0 <= y1 <= y2,
                sh2 == y2 - y1,
                sh2 > 0,
                th == y2 - y0,
                th > 0,
                y1 <= yy <= y2 + 1,
                forall|i: int, j: int|
                    #![trigger pix_idx(fb0.spec_width(), i, j)]
                    fb0.spec_in_bounds(i, j) ==> {
                        let k = pix_idx(fb0.spec_width(), i, j);
                        let d = fb0.depths()[k] as int;
                        let nd = if cov_lo(s, i, j) && j < yy {
                            tri_depth(s, d, i, j)
                        } else {
                            up_depth(s, d, i, j)
                        };
                        &&& fb.depths()[k] as int == nd
                        &&& fb.colors()[k] == (if nd < d { c } else { fb0.colors()[k] })
                    },
            decreases y2 + 1 - yy,
        {
            let tnum = yy - y0;
            let tnum2 = yy - y1;
            proof {
                assert((x2 - x0) * tnum <= 8 * PX_LIMIT * PX_LIMIT && (x2 - x0) * tnum >= -(8 * PX_LIMIT
                    * PX_LIMIT) && (x2 - x1) * tnum2 <= 8 * PX_LIMIT * PX_LIMIT && (x2 - x1) * tnum2 >= -(8
                    * PX_LIMIT * PX_LIMIT) && (z2 - z0) * tnum <= 8 * PX_LIMIT * DEPTH_LIMIT && (z2 - z0) * tnum
                    >= -(8 * PX_LIMIT * DEPTH_LIMIT) && (z2 - z1) * tnum2 <= 8 * PX_LIMIT * DEPTH_LIMIT && (z2
                    - z1) * tnum2 >= -(8 * PX_LIMIT * DEPTH_LIMIT)) by (nonlinear_arith)
                    requires
                        -2 * PX_LIMIT <= x2 - x0 <= 2 * PX_LIMIT,
                        -2 * PX_LIMIT <= x2 - x1 <= 2 * PX_LIMIT,
                        -2 * DEPTH_LIMIT <= z2 - z0 <= 2 * DEPTH_LIMIT,
                        -2 * DEPTH_LIMIT <= z2 - z1 <= 2 * DEPTH_LIMIT,
                        0 <= tnum <= 2 * PX_LIMIT,
                        0 <= tnum2 <= 2 * PX_LIMIT,
                ;
                lemma_lerp_bounds(x2 as int - x0 as int, tnum as int, th as int);
                lemma_lerp_bounds(x2 as int - x1 as int, tnum2 as int, sh2 as int);
                lemma_lerp_bounds(z2 as int - z0 as int, tnum as int, th as int);
                lemma_lerp_bounds(z2 as int - z1 as int, tnum2 as int, sh2 as int);
            }
            let x_a = x0 + div_floor((x2 - x0) * tnum, th);
            let x_b = x1 + div_floor((x2 - x1) * tnum2, sh2);
            let z_a = z0 + div_floor((z2 - z0) * tnum, th);
            let z_b = z1 + div_floor((z2 - z1) * tnum2, sh2);
            proof {
                assert(x_a == edge_x_long(s, yy as int));
                assert(x_b == edge_x_lo(s, yy as int));
                assert(z_a == edge_z_long(s, yy as int));
                assert(z_b == edge_z_lo(s, yy as int));
            }
            fill_span(fb, yy, x_a, x_b, z_a, z_b, c);
            proof {
                assert forall|i: int, j: int|
                    fb0.spec_in_bounds(i, j) implies {
                    let k = #[trigger] pix_idx(fb0.spec_width(), i, j);
                    let d = fb0.depths()[k] as int;
                    let nd = if cov_lo(s, i, j) && j < yy + 1 {
                        tri_depth(s, d, i, j)
                    } else {
                        up_depth(s, d, i, j)
                    };
                    fb.depths()[k] as int == nd && fb.colors()[k] == (if nd < d {
                        c
                    } else {
                        fb0.colors()[k]
                    })
                } by {
                    fb0.lemma_idx_in_range(i, j);
                }
            }
            yy = yy + 1;
        }
    }
}

/// The pixels a Bresenham walk visits from `(x, y)` with accumulated
/// error `err` until it reaches `(x1, y1)`. `dx` and `dy` are the walk's
/// fixed `|x1 - x0|` and `-|y1 - y0|`; each step moves one pixel towards
/// the endpoint along whichever axes the doubled error selects.
pub open spec fn line_points(x: int, y: int, err: int, x1: int, y1: int, dx: int, dy: int) -> Seq<(int, int)>
    decreases abs(x1 - x) + abs(y1 - y),
{
    if x == x1 && y == y1 {
        seq![(x, y)]
    } else {
        let e2 = 2 * err;
        if e2 >= dy {
            if x == x1 {
                seq![(x, y)]
            } else {
                let nx = if x < x1 {
                    x + 1
                } else {
                    x - 1
                };
                if e2 <= dx {
                    if y == y1 {
                        seq![(x, y)]
                    } else {
                        let ny = if y < y1 {
                            y + 1
                        } else {
                            y - 1
                        };
                        seq![(x, y)] + line_points(nx, ny, err + dy + dx, x1, y1, dx, dy)
                    }
                } else {
                    seq![(x, y)] + line_points(nx, y, err + dy, x1, y1, dx, dy)
                }
            }
        } else {
            if y == y1 {
                seq![(x, y)]
            } else {
                let ny = if y < y1 {
                    y + 1
                } else {
                    y - 1
                };
                seq![(x, y)] + line_points(x, ny, err + dx, x1, y1, dx, dy)
            }
        }
    }
}

/// One unconditional pixel write into a color plane: an update inside the
/// bounds, a no-op outside them.
pub open spec fn write_px(colors: Seq<Color>, w: int, h: int, p: (int, int), c: Color) -> Seq<Color> {
    if 0 <= p.0 < w && 0 <= p.1 < h {
        colors.update(pix_idx(w, p.0, p.1), c)
    } else {
        colors
    }
}

/// A sequence of unconditional pixel writes of one color, first to last.
pub open spec fn paint(colors: Seq<Color>, w: int, h: int, pts: Seq<(int, int)>, c: Color) -> Seq<Color>
    decreases pts.len(),
{
    if pts.len() == 0 {
        colors
    } else {
        paint(write_px(colors, w, h, pts[0], c), w, h, pts.subrange(1, pts.len() as int), c)
    }
}

/// Painting a nonempty point sequence is one write followed by painting
/// the rest.
pub proof fn lemma_paint_unfold(colors: Seq<Color>, w: int, h: int, p: (int, int), rest: Seq<(int, int)>, c: Color)
    ensures
        paint(colors, w, h, seq![p] + rest, c) == paint(write_px(colors, w, h, p, c), w, h, rest, c),
{
    let pts = seq![p] + rest;
    assert(pts[0] == p);
    assert(pts.subrange(1, pts.len() as int) =~= rest);
}

/// Painting never grows the plane and only ever writes the one color.
pub proof fn lemma_paint_pointwise(colors: Seq<Color>, w: int, h: int, pts: Seq<(int, int)>, c: Color)
    requires
        colors.len() == w * h,
    ensures
        paint(colors, w, h, pts, c).len() == colors.len(),
        forall|k: int|
            0 <= k < colors.len() ==> #[trigger] paint(colors, w, h, pts, c)[k] == colors[k] || paint(
                colors,
                w,
                h,
                pts,
                c,
            )[k] == c,
    decreases pts.len(),
{
    if pts.len() != 0 {
        if 0 <= pts[0].0 < w && 0 <= pts[0].1 < h {
            assert(0 <= pix_idx(w, pts[0].0, pts[0].1) < w * h) by (nonlinear_arith)
                requires
                    0 <= pts[0].0 < w,
                    0 <= pts[0].1 < h,
            ;
        }
        lemma_paint_pointwise(write_px(colors, w, h, pts[0], c), w, h, pts.subrange(1, pts.len() as int), c);
    }
}

/// A cell no painted point maps to keeps its color.
pub proof fn lemma_paint_unwritten(colors: Seq<Color>, w: int, h: int, pts: Seq<(int, int)>, c: Color, k: int)
    requires
        forall|i: int|
            0 <= i < pts.len() ==> !(0 <= #[trigger] pts[i].0 < w && 0 <= pts[i].1 < h && pix_idx(w, pts[i].0, pts[i].1)
                == k),
        0 <= k < colors.len(),
        colors.len() == w * h,
    ensures
        paint(colors, w, h, pts, c)[k] == colors[k],
    decreases pts.len(),
{
    if pts.len() != 0 {
        if 0 <= pts[0].0 < w && 0 <= pts[0].1 < h {
            assert(0 <= pix_idx(w, pts[0].0, pts[0].1) < w * h) by (nonlinear_arith)
                requires
                    0 <= pts[0].0 < w,
                    0 <= pts[0].1 < h,
            ;
        }
        let rest = pts.subrange(1, pts.len() as int);
        assert(forall|i: int| 0 <= i < rest.len() ==> rest[i] == #[trigger] pts[i + 1]);
        lemma_paint_unwritten(write_px(colors, w, h, pts[0], c), w, h, rest, c, k);
    }
}

/// Every pixel of a Bresenham walk lies in the bounding box of its start
/// and end points.
pub proof fn lemma_line_points_bbox(x: int, y: int, err: int, x1: int, y1: int, dx: int, dy: int)
    ensures
        forall|i: int|
            0 <= i < line_points(x, y, err, x1, y1, dx, dy).len() ==> {
                let p = #[trigger] line_points(x, y, err, x1, y1, dx, dy)[i];
                &&& min(x, x1) <= p.0 <= max(x, x1)
                &&& min(y, y1) <= p.1 <= max(y, y1)
            },
    decreases abs(x1 - x) + abs(y1 - y),
{
    let pts = line_points(x, y, err, x1, y1, dx, dy);
    if !(x == x1 && y == y1) {
        let e2 = 2 * err;
        if e2 >= dy {
            if x != x1 {
                let nx = if x < x1 {
                    x + 1
                } else {
                    x - 1
                };
                if e2 <= dx {
                    if y != y1 {
                        let ny = if y < y1 {
                            y + 1
                        } else {
                            y - 1
                        };
                        lemma_line_points_bbox(nx, ny, err + dy + dx, x1, y1, dx, dy);
                        let rest = line_points(nx, ny, err + dy + dx, x1, y1, dx, dy);
                        assert(forall|i: int| 1 <= i < pts.len() ==> #[trigger] pts[i] == rest[i - 1]);
                    }
                } else {
                    lemma_line_points_bbox(nx, y, err + dy, x1, y1, dx, dy);
                    let rest = line_points(nx, y, err + dy, x1, y1, dx, dy);
                    assert(forall|i: int| 1 <= i < pts.len() ==> #[trigger] pts[i] == rest[i - 1]);
                }
            }
        } else {
            if y != y1 {
                let ny = if y < y1 {
                    y + 1
                } else {
                    y - 1
                };
                lemma_line_points_bbox(x, ny, err + dx, x1, y1, dx, dy);
                let rest = line_points(x, ny, err + dx, x1, y1, dx, dy);
                assert(forall|i: int| 1 <= i < pts.len() ==> #[trigger] pts[i] == rest[i - 1]);
            }
        }
    }
}

/// A cell some painted point maps to ends at the painted color.
pub proof fn lemma_paint_covered(colors: Seq<Color>, w: int, h: int, pts: Seq<(int, int)>, c: Color, k: int, m: int)
    requires
        colors.len() == w * h,
        0 <= m < pts.len(),
        0 <= pts[m].0 < w,
        0 <= pts[m].1 < h,
        pix_idx(w, pts[m].0, pts[m].1) == k,
    ensures
        paint(colors, w, h, pts, c)[k] == c,
    decreases pts.len(),
{
    let rest = pts.subrange(1, pts.len() as int);
    if 0 <= pts[0].0 < w && 0 <= pts[0].1 < h {
        assert(0 <= pix_idx(w, pts[0].0, pts[0].1) < w * h) by (nonlinear_arith)
            requires
                0 <= pts[0].0 < w,
                0 <= pts[0].1 < h,
        ;
    }
    if m == 0 {
        let colors2 = write_px(colors, w, h, pts[0], c);
        assert(colors2[k] == c);
        lemma_paint_pointwise(colors2, w, h, rest, c);
    } else {
        assert(rest[m - 1] == pts[m]);
        lemma_paint_covered(write_px(colors, w, h, pts[0], c), w, h, rest, c, k, m - 1);
    }
}

/// The full statement of horizontal line drawing: painting the Bresenham
/// walk from `(x, y)` to `(x1, y)` turns exactly the cells of row `y`
/// between the two endpoints into the line color and leaves every other
/// cell alone.
pub proof fn lemma_horizontal_line_exact(
    colors: Seq<Color>,
    w: int,
    h: int,
    x: int,
    y: int,
    x1: int,
    c: Color,
    i: int,
    j: int,
)
    requires
        colors.len() == w * h,
        0 <= i < w,
        0 <= j < h,
    ensures
        paint(
            colors,
            w,
            h,
            line_points(x, y, abs(x1 - x) as int, x1, y, abs(x1 - x) as int, 0),
            c,
        )[pix_idx(w, i, j)] == if j == y && min(x, x1) <= i <= max(x, x1) {
            c
        } else {
            colors[pix_idx(w, i, j)]
        },
{
    let dx = abs(x1 - x) as int;
    let pts = line_points(x, y, dx, x1, y, dx, 0);
    lemma_line_points_horizontal(x, y, x1, dx);
    let k = pix_idx(w, i, j);
    assert(k == j * w + i);
    assert(0 <= k < w * h) by (nonlinear_arith)
        requires
            0 <= i < w,
            0 <= j < h,
            k == j * w + i,
    ;
    if j == y && min(x, x1) <= i <= max(x, x1) {
        let m = if x <= x1 {
            i - x
        } else {
            x - i
        };
        assert(pts[m] == (i, y));
        lemma_paint_covered(colors, w, h, pts, c, k, m);
    } else {
        assert forall|m: int|
            0 <= m < pts.len() implies !(0 <= #[trigger] pts[m].0 < w && 0 <= pts[m].1 < h && pix_idx(
            w,
            pts[m].0,
            pts[m].1,
        ) == k) by {
            if 0 <= pts[m].0 < w && 0 <= pts[m].1 < h {
                let a = pts[m].0;
                let b = pts[m].1;
                assert(pix_idx(w, a, b) == b * w + a);
                assert(b * w + a == j * w + i ==> a == i && b == j) by (nonlinear_arith)
                    requires
                        0 <= a < w,
                        0 <= i < w,
                ;
            }
        }
        lemma_paint_unwritten(colors, w, h, pts, c, k);
    }
}

/// A horizontal walk (both endpoints on row `y`, error primed with the
/// x-distance) visits exactly the `|x1 - x| + 1` pixels of that row from
/// `x` to `x1`, one step at a time.
pub proof fn lemma_line_points_horizontal(x: int, y: int, x1: int, dx: int)
    requires
        dx >= 0,
        x != x1 ==> dx > 0,
    ensures
        line_points(x, y, dx, x1, y, dx, 0).len() == abs(x1 - x) + 1,
        forall|i: int|
            0 <= i < line_points(x, y, dx, x1, y, dx, 0).len() ==> #[trigger] line_points(x, y, dx, x1, y, dx, 0)[i]
                == (x + if x <= x1 { i } else { -i }, y),
    decreases abs(x1 - x),
{
    let pts = line_points(x, y, dx, x1, y, dx, 0);
    if x == x1 {
    } else {
        let nx = if x < x1 {
            x + 1
        } else {
            x - 1
        };
        lemma_line_points_horizontal(nx, y, x1, dx);
        let rest = line_points(nx, y, dx, x1, y, dx, 0);
        assert(pts == seq![(x, y)] + rest);
        assert(forall|i: int| 1 <= i < pts.len() ==> #[trigger] pts[i] == rest[i - 1]);
    }
}

/// Draws the single-pixel-wide Bresenham line from `(x0, y0)` to
/// `(x1, y1)`: every visited pixel is written unconditionally with `c`
/// (no depth test), out-of-bounds pixels fall away silently, and the
/// depth plane is untouched.
pub fn draw_line(fb: &mut Framebuffer, x0: i32, y0: i32, x1: i32, y1: i32, c: Color)
    requires
        old(fb).wf(),
        -PX_LIMIT <= x0 <= PX_LIMIT,
        -PX_LIMIT <= y0 <= PX_LIMIT,
        -PX_LIMIT <= x1 <= PX_LIMIT,
        -PX_LIMIT <= y1 <= PX_LIMIT,
    ensures
        final(fb).wf(),
        final(fb).spec_width() == old(fb).spec_width(),
        final(fb).spec_height() == old(fb).spec_height(),
        final(fb).depths() == old(fb).depths(),
        final(fb).colors() == paint(
            old(fb).colors(),
            old(fb).spec_width(),
            old(fb).spec_height(),
            line_points(
                x0 as int,
                y0 as int,
                abs(x1 - x0) as int - abs(y1 - y0) as int,
                x1 as int,
                y1 as int,
                abs(x1 - x0) as int,
                -(abs(y1 - y0) as int),
            ),
            c,
        ),
{
    let ghost fb0 = *fb;
    let xx1 = x1 as i64;
    let yy1 = y1 as i64;
    let mut x = x0 as i64;
    let mut y = y0 as i64;
    let dx = if xx1 >= x {
        xx1 - x
    } else {
        x - xx1
    };
    let dy = if yy1 >= y {
        y - yy1
    } else {
        yy1 - y
    };
    let sx: i64 = if x < xx1 {
        1
    } else {
        -1
    };
    let sy: i64 = if y < yy1 {
        1
    } else {
        -1
    };
    let mut err = dx + dy;
    let ghost target = paint(
        fb0.colors(),
        fb0.spec_width(),
        fb0.spec_height(),
        line_points(x0 as int, y0 as int, dx + dy, x1 as int, y1 as int, dx as int, dy as int),
        c,
    );
    loop
        invariant_except_break
            fb.wf(),
            fb.spec_width() == fb0.spec_width(),
            fb.spec_height() == fb0.spec_height(),
            fb0.wf(),
            dx == abs(x1 - x0),
            dy == -abs(y1 - y0),
            sx == (if x0 < x1 { 1int } else { -1int }),
            sy == (if y0 < y1 { 1int } else { -1int }),
            sx == 1 ==> x0 <= x <= x1,
            sx == -1 ==> x1 <= x <= x0,
            sy == 1 ==> y0 <= y <= y1,
            sy == -1 ==> y1 <= y <= y0,
            xx1 == x1,
            yy1 == y1,
            2 * dy <= err <= 2 * dx,
            fb.depths() == fb0.depths(),
            paint(
                fb.colors(),
                fb0.spec_width(),
                fb0.spec_height(),
                line_points(x as int, y as int, err as int, x1 as int, y1 as int, dx as int, dy as int),
                c,
            ) == target,
        ensures
            fb.wf(),
            fb.spec_width() == fb0.spec_width(),
            fb.spec_height() == fb0.spec_height(),
            fb.depths() == fb0.depths(),
            fb.colors() == target,
        decreases abs(x1 - x) + abs(y1 - y),
    {
        let ghost pre_colors = fb.colors();
        let ghost cur_pts = line_points(x as int, y as int, err as int, x1 as int, y1 as int, dx as int, dy as int);
        fb.set_pixel(x as i32, y as i32, c);
        proof {
            assert(fb.colors() == write_px(pre_colors, fb0.spec_width(), fb0.spec_height(), (x as int, y as int), c));
        }
        if x == xx1 && y == yy1 {
            proof {
                assert(cur_pts == seq![(x as int, y as int)]);
                assert(cur_pts.subrange(1, 1) =~= Seq::<(int, int)>::empty());
                assert(paint(fb.colors(), fb0.spec_width(), fb0.spec_height(), cur_pts.subrange(1, 1), c)
                    == fb.colors());
            }
            break ;
        }
        let e2 = 2 * err;
        let ghost bx = x as int;
        let ghost by = y as int;
        let ghost berr = err as int;
        if e2 >= dy {
            if x == xx1 {
                proof {
                    assert(cur_pts == seq![(bx, by)]);
                    assert(cur_pts.subrange(1, 1) =~= Seq::<(int, int)>::empty());
                    assert(paint(fb.colors(), fb0.spec_width(), fb0.spec_height(), cur_pts.subrange(1, 1), c)
                        == fb.colors());
                    assert(paint(pre_colors, fb0.spec_width(), fb0.spec_height(), cur_pts, c) == fb.colors());
                }
                break ;
            }
            err = err + dy;
            x = x + sx;
        }
        if e2 <= dx {
            if y == yy1 {
                proof {
                    assert(cur_pts == seq![(bx, by)]);
                    assert(cur_pts.subrange(1, 1) =~= Seq::<(int, int)>::empty());
                    assert(paint(fb.colors(), fb0.spec_width(), fb0.spec_height(), cur_pts.subrange(1, 1), c)
                        == fb.colors());
                    assert(paint(pre_colors, fb0.spec_width(), fb0.spec_height(), cur_pts, c) == fb.colors());
                }
                break ;
            }
            err = err + dx;
            y = y + sy;
        }
        proof {
            let rest = line_points(x as int, y as int, err as int, x1 as int, y1 as int, dx as int, dy as int);
            assert(cur_pts == seq![(bx, by)] + rest);
            lemma_paint_unfold(pre_colors, fb0.spec_width(), fb0.spec_height(), (bx, by), rest, c);
        }
    }
}

/// No pixel outside the triangle's bounding box is touched by the fill.
pub proof fn lemma_tri_outside_bbox(
    v0: (int, int, int),
    v1: (int, int, int),
    v2: (int, int, int),
    d: int,
    x: int,
    y: int,
)
    requires
        x < min(v0.0, min(v1.0, v2.0)) || x > max(v0.0, max(v1.0, v2.0)) || y < min(v0.1, min(v1.1, v2.1)) || y
            > max(v0.1, max(v1.1, v2.1)),
    ensures
        tri_depth(sort3_by_y(v0, v1, v2), d, x, y) == d,
{
    let s = sort3_by_y(v0, v1, v2);
    lemma_sort3_by_y(v0, v1, v2);
    if cov_up(s, x, y) {
        lemma_lerp_bounds(s.2.0 - s.0.0, y - s.0.1, s.2.1 - s.0.1);
        lemma_lerp_bounds(s.1.0 - s.0.0, y - s.0.1, s.1.1 - s.0.1);
        assert(false);
    }
    if cov_lo(s, x, y) {
        lemma_lerp_bounds(s.2.0 - s.0.0, y - s.0.1, s.2.1 - s.0.1);
        lemma_lerp_bounds(s.2.0 - s.1.0, y - s.1.1, s.2.1 - s.1.1);
        assert(false);
    }
}

} // verus!
