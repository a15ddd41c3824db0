//! The transform stage: rotation about the X and Y axes (in that order),
//! recentering on the model's bounding-box center, uniform scaling and a
//! screen offset.
//!
//! Angles enter as fixed-point sine/cosine pairs, so every function here
//! is a pure function of its arguments. Screen coordinates are clamped to
//! the rasterizer's coordinate range (`PX_LIMIT` whole pixels, far beyond
//! any real screen), which keeps the stage total without narrowing its
//! inputs.

use vstd::prelude::*;
use vstd::arithmetic::div_mod::{lemma_div_is_ordered, lemma_div_multiples_vanish, lemma_div_pos_is_pos};
use crate::fixed::{FP_ONE, div_floor, min_i64, lemma_div_floor_range};
use crate::geometry::Vec3;
use crate::raster::PX_LIMIT;

verus! {

/// Largest model-space coordinate magnitude the pipeline accepts
/// (fixed-point, about a thousand whole units).
pub const VTX_LIMIT: i64 = 67108864;

/// Largest scale factor the pipeline accepts (fixed-point).
pub const SCALE_LIMIT: i64 = 17179869184;

/// Largest screen-offset magnitude the pipeline accepts (fixed-point,
/// about sixteen thousand pixels).
pub const OFF_LIMIT: i64 = 1073741824;

/// Largest framebuffer dimension the pipeline accepts, in pixels.
pub const DIM_LIMIT: usize = 16384;

/// A vertex as a triple of fixed-point components, for specifications.
pub open spec fn view3(v: Vec3) -> (int, int, int) {
    (v.x as int, v.y as int, v.z as int)
}

/// Rotation about the X axis: the standard 2D rotation in the `(y, z)`
/// plane by the angle whose sine and cosine are `s` and `c`.
pub open spec fn rot_x_spec(v: (int, int, int), s: int, c: int) -> (int, int, int) {
    (v.0, (v.1 * c - v.2 * s) / (FP_ONE as int), (v.1 * s + v.2 * c) / (FP_ONE as int))
}

/// Rotation about the Y axis: the standard 2D rotation in the `(x, z)`
/// plane by the angle whose sine and cosine are `s` and `c`.
pub open spec fn rot_y_spec(v: (int, int, int), s: int, c: int) -> (int, int, int) {
    ((v.0 * c + v.2 * s) / (FP_ONE as int), v.1, (v.2 * c - v.0 * s) / (FP_ONE as int))
}

/// Clamps a fixed-point screen coordinate into the rasterizer's range.
pub open spec fn clamp_px(a: int) -> int {
    if a < -PX_LIMIT * FP_ONE {
        -PX_LIMIT * FP_ONE
    } else if a > PX_LIMIT * FP_ONE {
        PX_LIMIT * FP_ONE
    } else {
        a
    }
}

/// The screen mapping: recenter on `(cx, cy)`, scale uniformly, move to
/// the middle of a `w` by `h` screen, add the 2D offset; the depth is the
/// rotated `z`, kept as it is.
pub open spec fn to_screen_spec(
    v: (int, int, int),
    cx: int,
    cy: int,
    scale: int,
    w: int,
    h: int,
    ox: int,
    oy: int,
) -> (int, int, int) {
    (
        clamp_px((v.0 - cx) * scale / (FP_ONE as int) + (w * FP_ONE) / 2 + ox),
        clamp_px((v.1 - cy) * scale / (FP_ONE as int) + (h * FP_ONE) / 2 + oy),
        v.2,
    )
}

/// The per-frame transform parameters: two axis rotations given by their
/// sine/cosine pairs, the model's center, the uniform scale and the 2D
/// screen offset.
#[derive(Clone, Copy, PartialEq, Eq, Structural, Debug)]
pub struct RenderParams {
    pub sin_x: i64,
    pub cos_x: i64,
    pub sin_y: i64,
    pub cos_y: i64,
    pub center: Vec3,
    pub scale: i64,
    pub offset_x: i64,
    pub offset_y: i64,
}

impl RenderParams {
    /// Well-formedness: sines and cosines are genuine (at most one in
    /// magnitude), and center, scale and offsets are within the
    /// pipeline's limits.
    pub open spec fn wf(self) -> bool {
        &&& -FP_ONE <= self.sin_x <= FP_ONE
        &&& -FP_ONE <= self.cos_x <= FP_ONE
        &&& -FP_ONE <= self.sin_y <= FP_ONE
        &&& -FP_ONE <= self.cos_y <= FP_ONE
        &&& -VTX_LIMIT <= self.center.x <= VTX_LIMIT
        &&& -VTX_LIMIT <= self.center.y <= VTX_LIMIT
        &&& -VTX_LIMIT <= self.center.z <= VTX_LIMIT
        &&& 0 <= self.scale <= SCALE_LIMIT
        &&& -OFF_LIMIT <= self.offset_x <= OFF_LIMIT
        &&& -OFF_LIMIT <= self.offset_y <= OFF_LIMIT
    }

    /// Decides well-formedness at run time, so an unverified caller can
    /// test it before entering the pipeline.
    pub fn is_wf(&self) -> (b: bool)
        ensures
            b == self.wf(),
    {
        -FP_ONE <= self.sin_x && self.sin_x <= FP_ONE && -FP_ONE <= self.cos_x && self.cos_x <= FP_ONE && -FP_ONE
            <= self.sin_y && self.sin_y <= FP_ONE && -FP_ONE <= self.cos_y && self.cos_y <= FP_ONE && -VTX_LIMIT
            <= self.center.x && self.center.x <= VTX_LIMIT && -VTX_LIMIT <= self.center.y && self.center.y
            <= VTX_LIMIT && -VTX_LIMIT <= self.center.z && self.center.z <= VTX_LIMIT && 0 <= self.scale
            && self.scale <= SCALE_LIMIT && -OFF_LIMIT <= self.offset_x && self.offset_x <= OFF_LIMIT && -OFF_LIMIT
            <= self.offset_y && self.offset_y <= OFF_LIMIT
    }
}

/// The whole vertex transform: rotate about X, then about Y (the order is
/// part of the contract), then map to screen space.
pub open spec fn transform_spec(v: (int, int, int), p: RenderParams, w: int, h: int) -> (int, int, int) {
    to_screen_spec(
        rot_y_spec(rot_x_spec(v, p.sin_x as int, p.cos_x as int), p.sin_y as int, p.cos_y as int),
        p.center.x as int,
        p.center.y as int,
        p.scale as int,
        w,
        h,
        p.offset_x as int,
        p.offset_y as int,
    )
}

/// A fixed-point product of a coordinate and a sine or cosine, floored
/// back to the coordinate scale, stays within the coordinate magnitudes'
/// sum.
proof fn lemma_rot_term_bounds(a: int, b: int, s: int, c: int, bound: int)
    requires
        -bound <= a <= bound,
        -bound <= b <= bound,
        -FP_ONE <= s <= FP_ONE,
        -FP_ONE <= c <= FP_ONE,
        bound >= 0,
    ensures
        -2 * bound <= (a * c + b * s) / (FP_ONE as int) <= 2 * bound,
        -2 * bound <= (a * c - b * s) / (FP_ONE as int) <= 2 * bound,
        -bound * FP_ONE <= a * c <= bound * FP_ONE,
        -bound * FP_ONE <= b * s <= bound * FP_ONE,
{
    assert(-bound * FP_ONE <= a * c <= bound * FP_ONE && -bound * FP_ONE <= b * s <= bound * FP_ONE)
        by (nonlinear_arith)
        requires
            -bound <= a <= bound,
            -bound <= b <= bound,
            -FP_ONE <= s <= FP_ONE,
            -FP_ONE <= c <= FP_ONE,
            bound >= 0,
    ;
    assert(-2 * bound * FP_ONE <= a * c + b * s <= 2 * bound * FP_ONE && -2 * bound * FP_ONE <= a * c - b * s <= 2
        * bound * FP_ONE) by (nonlinear_arith)
        requires
            -bound <= a <= bound,
            -bound <= b <= bound,
            -FP_ONE <= s <= FP_ONE,
            -FP_ONE <= c <= FP_ONE,
            bound >= 0,
    ;
    lemma_div_is_ordered(a * c + b * s, 2 * bound * FP_ONE, FP_ONE as int);
    lemma_div_is_ordered(-2 * bound * FP_ONE, a * c + b * s, FP_ONE as int);
    lemma_div_is_ordered(a * c - b * s, 2 * bound * FP_ONE, FP_ONE as int);
    lemma_div_is_ordered(-2 * bound * FP_ONE, a * c - b * s, FP_ONE as int);
    lemma_div_multiples_vanish(2 * bound, FP_ONE as int);
    lemma_div_multiples_vanish(-2 * bound, FP_ONE as int);
    assert(2 * bound * FP_ONE == FP_ONE * (2 * bound)) by (nonlinear_arith);
    assert(-2 * bound * FP_ONE == FP_ONE * (-2 * bound)) by (nonlinear_arith);
}

/// Rotates a vertex about the X axis by the angle whose sine and cosine
/// are `sin_a` and `cos_a` (fixed-point).
pub fn rotate_x(v: &Vec3, sin_a: i64, cos_a: i64) -> (r: Vec3)
    requires
        -FP_ONE <= sin_a <= FP_ONE,
        -FP_ONE <= cos_a <= FP_ONE,
        -VTX_LIMIT <= v.x <= VTX_LIMIT,
        -VTX_LIMIT <= v.y <= VTX_LIMIT,
        -VTX_LIMIT <= v.z <= VTX_LIMIT,
    ensures
        view3(r) == rot_x_spec(view3(*v), sin_a as int, cos_a as int),
        -2 * VTX_LIMIT <= r.x <= 2 * VTX_LIMIT,
        -2 * VTX_LIMIT <= r.y <= 2 * VTX_LIMIT,
        -2 * VTX_LIMIT <= r.z <= 2 * VTX_LIMIT,
{
    proof {
        lemma_rot_term_bounds(v.y as int, v.z as int, sin_a as int, cos_a as int, VTX_LIMIT as int);
        lemma_rot_term_bounds(v.z as int, v.y as int, sin_a as int, cos_a as int, VTX_LIMIT as int);
    }
    let ny = div_floor(v.y * cos_a - v.z * sin_a, FP_ONE);
    let nz = div_floor(v.y * sin_a + v.z * cos_a, FP_ONE);
    proof {
        assert(v.y * sin_a + v.z * cos_a == v.z * cos_a + v.y * sin_a);
    }
    Vec3 { x: v.x, y: ny, z: nz }
}

/// Rotates a vertex about the Y axis by the angle whose sine and cosine
/// are `sin_a` and `cos_a` (fixed-point).
pub fn rotate_y(v: &Vec3, sin_a: i64, cos_a: i64) -> (r: Vec3)
    requires
        -FP_ONE <= sin_a <= FP_ONE,
        -FP_ONE <= cos_a <= FP_ONE,
        -2 * VTX_LIMIT <= v.x <= 2 * VTX_LIMIT,
        -2 * VTX_LIMIT <= v.y <= 2 * VTX_LIMIT,
        -2 * VTX_LIMIT <= v.z <= 2 * VTX_LIMIT,
    ensures
        view3(r) == rot_y_spec(view3(*v), sin_a as int, cos_a as int),
        -4 * VTX_LIMIT <= r.x <= 4 * VTX_LIMIT,
        -4 * VTX_LIMIT <= r.y <= 4 * VTX_LIMIT,
        -4 * VTX_LIMIT <= r.z <= 4 * VTX_LIMIT,
{
    proof {
        lemma_rot_term_bounds(v.x as int, v.z as int, sin_a as int, cos_a as int, 2 * VTX_LIMIT as int);
        lemma_rot_term_bounds(v.z as int, v.x as int, sin_a as int, cos_a as int, 2 * VTX_LIMIT as int);
    }
    let nx = div_floor(v.x * cos_a + v.z * sin_a, FP_ONE);
    let nz = div_floor(v.z * cos_a - v.x * sin_a, FP_ONE);
    Vec3 { x: nx, y: v.y, z: nz }
}

/// Clamps a fixed-point screen coordinate into the rasterizer's range.
pub fn clamp_px_exec(a: i64) -> (r: i64)
    ensures
        r == clamp_px(a as int),
{
    if a < -PX_LIMIT * FP_ONE {
        -PX_LIMIT * FP_ONE
    } else if a > PX_LIMIT * FP_ONE {
        PX_LIMIT * FP_ONE
    } else {
        a
    }
}

/// Maps one rotated vertex to screen space under the given parameters,
/// for a `width` by `height` screen.
pub fn to_screen(v: &Vec3, p: &RenderParams, width: usize, height: usize) -> (r: Vec3)
    requires
        p.wf(),
        width <= DIM_LIMIT,
        height <= DIM_LIMIT,
        -4 * VTX_LIMIT <= v.x <= 4 * VTX_LIMIT,
        -4 * VTX_LIMIT <= v.y <= 4 * VTX_LIMIT,
        -4 * VTX_LIMIT <= v.z <= 4 * VTX_LIMIT,
    ensures
        view3(r) == to_screen_spec(
            view3(*v),
            p.center.x as int,
            p.center.y as int,
            p.scale as int,
            width as int,
            height as int,
            p.offset_x as int,
            p.offset_y as int,
        ),
        -PX_LIMIT * FP_ONE <= r.x <= PX_LIMIT * FP_ONE,
        -PX_LIMIT * FP_ONE <= r.y <= PX_LIMIT * FP_ONE,
        r.z == v.z,
{
    proof {
        assert(-5 * VTX_LIMIT * SCALE_LIMIT <= (v.x - p.center.x) * p.scale <= 5 * VTX_LIMIT * SCALE_LIMIT && -5
            * VTX_LIMIT * SCALE_LIMIT <= (v.y - p.center.y) * p.scale <= 5 * VTX_LIMIT * SCALE_LIMIT)
            by (nonlinear_arith)
            requires
                -5 * VTX_LIMIT <= v.x - p.center.x <= 5 * VTX_LIMIT,
                -5 * VTX_LIMIT <= v.y - p.center.y <= 5 * VTX_LIMIT,
                0 <= p.scale <= SCALE_LIMIT,
        ;
        lemma_div_floor_range((v.x as int - p.center.x as int) * p.scale as int, FP_ONE as int);
        lemma_div_floor_range((v.y as int - p.center.y as int) * p.scale as int, FP_ONE as int);
        lemma_div_is_ordered(
            (v.x as int - p.center.x as int) * p.scale as int,
            5 * VTX_LIMIT * SCALE_LIMIT,
            FP_ONE as int,
        );
        lemma_div_is_ordered(
            -5 * VTX_LIMIT * SCALE_LIMIT,
            (v.x as int - p.center.x as int) * p.scale as int,
            FP_ONE as int,
        );
        lemma_div_is_ordered(
            (v.y as int - p.center.y as int) * p.scale as int,
            5 * VTX_LIMIT * SCALE_LIMIT,
            FP_ONE as int,
        );
        lemma_div_is_ordered(
            -5 * VTX_LIMIT * SCALE_LIMIT,
            (v.y as int - p.center.y as int) * p.scale as int,
            FP_ONE as int,
        );
        lemma_div_pos_is_pos((width * FP_ONE) as int, 2);
        lemma_div_is_ordered((width * FP_ONE) as int, (DIM_LIMIT * FP_ONE) as int, 2);
        lemma_div_pos_is_pos((height * FP_ONE) as int, 2);
        lemma_div_is_ordered((height * FP_ONE) as int, (DIM_LIMIT * FP_ONE) as int, 2);
    }
    let sx = div_floor((v.x - p.center.x) * p.scale, FP_ONE);
    let sy = div_floor((v.y - p.center.y) * p.scale, FP_ONE);
    let half_w = div_floor((width as i64) * FP_ONE, 2);
    let half_h = div_floor((height as i64) * FP_ONE, 2);
    let rx = clamp_px_exec(sx + half_w + p.offset_x);
    let ry = clamp_px_exec(sy + half_h + p.offset_y);
    Vec3 { x: rx, y: ry, z: v.z }
}

/// The whole vertex transform: rotation about X, then about Y, then the
/// screen mapping. The three fill variants all use exactly this function,
/// which keeps them pixel-aligned.
pub fn transform_vertex(v: &Vec3, p: &RenderParams, width: usize, height: usize) -> (r: Vec3)
    requires
        p.wf(),
        width <= DIM_LIMIT,
        height <= DIM_LIMIT,
        -VTX_LIMIT <= v.x <= VTX_LIMIT,
        -VTX_LIMIT <= v.y <= VTX_LIMIT,
        -VTX_LIMIT <= v.z <= VTX_LIMIT,
    ensures
        view3(r) == transform_spec(view3(*v), *p, width as int, height as int),
        -PX_LIMIT * FP_ONE <= r.x <= PX_LIMIT * FP_ONE,
        -PX_LIMIT * FP_ONE <= r.y <= PX_LIMIT * FP_ONE,
        -4 * VTX_LIMIT <= r.z <= 4 * VTX_LIMIT,
{
    let rx = rotate_x(v, p.sin_x, p.cos_x);
    let ry = rotate_y(&rx, p.sin_y, p.cos_y);
    to_screen(&ry, p, width, height)
}

/// Rotates a vertex about X then Y, without the screen mapping: the
/// vertex the visibility stage measures normals on.
pub fn rotate_vertex(v: &Vec3, p: &RenderParams) -> (r: Vec3)
    requires
        p.wf(),
        -VTX_LIMIT <= v.x <= VTX_LIMIT,
        -VTX_LIMIT <= v.y <= VTX_LIMIT,
        -VTX_LIMIT <= v.z <= VTX_LIMIT,
    ensures
        view3(r) == rot_y_spec(
            rot_x_spec(view3(*v), p.sin_x as int, p.cos_x as int),
            p.sin_y as int,
            p.cos_y as int,
        ),
        -4 * VTX_LIMIT <= r.x <= 4 * VTX_LIMIT,
        -4 * VTX_LIMIT <= r.y <= 4 * VTX_LIMIT,
        -4 * VTX_LIMIT <= r.z <= 4 * VTX_LIMIT,
{
    let rx = rotate_x(v, p.sin_x, p.cos_x);
    rotate_y(&rx, p.sin_y, p.cos_y)
}

/// With zero rotation angles, unit scale, zero center and zero offset,
/// the transform is exactly a move to the middle of the screen: the
/// screen coordinates are the vertex's `x` and `y` plus half the screen
/// size, and the depth is the vertex's `z`.
pub proof fn lemma_identity_transform(v: (int, int, int), p: RenderParams, w: int, h: int)
    requires
        p.sin_x == 0,
        p.cos_x == FP_ONE,
        p.sin_y == 0,
        p.cos_y == FP_ONE,
        p.center == (Vec3 { x: 0, y: 0, z: 0 }),
        p.scale == FP_ONE,
        p.offset_x == 0,
        p.offset_y == 0,
        -VTX_LIMIT <= v.0 <= VTX_LIMIT,
        -VTX_LIMIT <= v.1 <= VTX_LIMIT,
        -VTX_LIMIT <= v.2 <= VTX_LIMIT,
        0 <= w <= DIM_LIMIT,
        0 <= h <= DIM_LIMIT,
    ensures
        transform_spec(v, p, w, h) == (v.0 + (w * FP_ONE) / 2, v.1 + (h * FP_ONE) / 2, v.2),
{
    let f = FP_ONE as int;
    assert(v.0 * f == f * v.0) by (nonlinear_arith);
    assert(v.1 * f == f * v.1) by (nonlinear_arith);
    assert(v.2 * f == f * v.2) by (nonlinear_arith);
    lemma_div_multiples_vanish(v.0, f);
    lemma_div_multiples_vanish(v.1, f);
    lemma_div_multiples_vanish(v.2, f);
    assert(rot_x_spec(v, 0, f) == v);
    assert(rot_y_spec(v, 0, f) == v);
    lemma_div_pos_is_pos(w * f, 2);
    lemma_div_is_ordered(w * f, DIM_LIMIT * FP_ONE, 2);
    lemma_div_pos_is_pos(h * f, 2);
    lemma_div_is_ordered(h * f, DIM_LIMIT * FP_ONE, 2);
    assert(clamp_px(v.0 + (w * f) / 2) == v.0 + (w * f) / 2);
    assert(clamp_px(v.1 + (h * f) / 2) == v.1 + (h * f) / 2);
}

/// The scale factor that fits a mesh to the screen: eight tenths of the
/// smaller screen dimension, divided by the largest bounding-box extent,
/// clamped into the pipeline's scale range.
pub open spec fn fit_scale_spec(w: int, h: int, ex: int, ey: int, ez: int) -> int {
    let m = if ex >= ey && ex >= ez {
        ex
    } else if ey >= ez {
        ey
    } else {
        ez
    };
    let num = (if w <= h {
        w
    } else {
        h
    }) * FP_ONE * 4 / 5;
    let q = num * FP_ONE / m;
    if q > SCALE_LIMIT {
        SCALE_LIMIT as int
    } else {
        q
    }
}

/// Computes the uniform scale that fits a mesh of the given bounding-box
/// extents into eight tenths of the smaller screen dimension.
pub fn compute_scale(width: usize, height: usize, extent: &Vec3) -> (r: i64)
    requires
        width <= DIM_LIMIT,
        height <= DIM_LIMIT,
        0 <= extent.x <= 2 * VTX_LIMIT,
        0 <= extent.y <= 2 * VTX_LIMIT,
        0 <= extent.z <= 2 * VTX_LIMIT,
        extent.x >= 1 || extent.y >= 1 || extent.z >= 1,
    ensures
        r == fit_scale_spec(width as int, height as int, extent.x as int, extent.y as int, extent.z as int),
        0 <= r <= SCALE_LIMIT,
{
    let m = if extent.x >= extent.y && extent.x >= extent.z {
        extent.x
    } else if extent.y >= extent.z {
        extent.y
    } else {
        extent.z
    };
    let mindim = if width <= height {
        width as i64
    } else {
        height as i64
    };
    let num = div_floor(mindim * FP_ONE * 4, 5);
    proof {
        lemma_div_pos_is_pos(mindim * FP_ONE * 4, 5);
        lemma_div_is_ordered(mindim * FP_ONE * 4, DIM_LIMIT * FP_ONE * 4, 5);
        lemma_div_pos_is_pos(num * FP_ONE, m as int);
        lemma_div_is_ordered(num * FP_ONE, (DIM_LIMIT * FP_ONE * 4 / 5) * FP_ONE, m as int);
        lemma_div_floor_range(num * FP_ONE / (m as int), 1);
    }
    let q = div_floor(num * FP_ONE, m);
    min_i64(q, SCALE_LIMIT)
}

} // verus!
