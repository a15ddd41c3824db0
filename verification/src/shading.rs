//! The visibility and shading stage: face normals, backface culling,
//! lighting intensity from a fixed light along `+Z`, and the two color
//! policies (region classification of the untransformed centroid, and a
//! small cycling palette).

use vstd::prelude::*;
use vstd::arithmetic::div_mod::{lemma_div_is_ordered, lemma_div_pos_is_pos};
use crate::color::Color;
use crate::fixed::{FP_ONE, div_floor, abs_i64};
use crate::geometry::Vec3;
use crate::transform::{view3, VTX_LIMIT};

verus! {

/// The clamped ambient floor of the lighting intensity: one fifth of a
/// unit, in fixed point.
pub const AMBIENT: i64 = 13107;

/// The cross product of the two edge vectors `v1 - v0` and `v2 - v0`:
/// the face normal, unnormalized.
pub open spec fn face_normal(v0: (int, int, int), v1: (int, int, int), v2: (int, int, int)) -> (int, int, int) {
    let e1 = (v1.0 - v0.0, v1.1 - v0.1, v1.2 - v0.2);
    let e2 = (v2.0 - v0.0, v2.1 - v0.1, v2.2 - v0.2);
    (
        e1.1 * e2.2 - e1.2 * e2.1,
        e1.2 * e2.0 - e1.0 * e2.2,
        e1.0 * e2.1 - e1.1 * e2.0,
    )
}

/// Whether a face looks at the camera: its normal's Z component is
/// strictly positive. Faces failing this are culled entirely, whichever
/// fill variant runs.
pub open spec fn front_facing(v0: (int, int, int), v1: (int, int, int), v2: (int, int, int)) -> bool {
    face_normal(v0, v1, v2).2 > 0
}

/// Computes the normal's Z component of the face over the three rotated
/// vertices, for the backface cull.
pub fn normal_z(rv0: &Vec3, rv1: &Vec3, rv2: &Vec3) -> (r: i64)
    requires
        -4 * VTX_LIMIT <= rv0.x <= 4 * VTX_LIMIT,
        -4 * VTX_LIMIT <= rv0.y <= 4 * VTX_LIMIT,
        -4 * VTX_LIMIT <= rv0.z <= 4 * VTX_LIMIT,
        -4 * VTX_LIMIT <= rv1.x <= 4 * VTX_LIMIT,
        -4 * VTX_LIMIT <= rv1.y <= 4 * VTX_LIMIT,
        -4 * VTX_LIMIT <= rv1.z <= 4 * VTX_LIMIT,
        -4 * VTX_LIMIT <= rv2.x <= 4 * VTX_LIMIT,
        -4 * VTX_LIMIT <= rv2.y <= 4 * VTX_LIMIT,
        -4 * VTX_LIMIT <= rv2.z <= 4 * VTX_LIMIT,
    ensures
        r == face_normal(view3(*rv0), view3(*rv1), view3(*rv2)).2,
{
    let e1x = rv1.x - rv0.x;
    let e1y = rv1.y - rv0.y;
    let e2x = rv2.x - rv0.x;
    let e2y = rv2.y - rv0.y;
    proof {
        lemma_cross_term_bounds(e1x as int, e2y as int);
        lemma_cross_term_bounds(e1y as int, e2x as int);
    }
    e1x * e2y - e1y * e2x
}

/// A product of two edge components stays within `i64`.
proof fn lemma_cross_term_bounds(a: int, b: int)
    requires
        -8 * VTX_LIMIT <= a <= 8 * VTX_LIMIT,
        -8 * VTX_LIMIT <= b <= 8 * VTX_LIMIT,
    ensures
        -64 * VTX_LIMIT * VTX_LIMIT <= a * b <= 64 * VTX_LIMIT * VTX_LIMIT,
{
    assert(-64 * VTX_LIMIT * VTX_LIMIT <= a * b <= 64 * VTX_LIMIT * VTX_LIMIT) by (nonlinear_arith)
        requires
            -8 * VTX_LIMIT <= a <= 8 * VTX_LIMIT,
            -8 * VTX_LIMIT <= b <= 8 * VTX_LIMIT,
    ;
}

/// The integer square root: the largest `r` with `r * r <= n`.
pub open spec fn sqrt_floor(n: nat) -> nat
    decreases n,
{
    if n == 0 {
        0
    } else {
        let r = sqrt_floor((n - 1) as nat);
        if (r + 1) * (r + 1) <= n {
            r + 1
        } else {
            r
        }
    }
}

/// `sqrt_floor(n)` squares to at most `n`, and one more squares above it.
pub proof fn lemma_sqrt_floor_char(n: nat)
    ensures
        sqrt_floor(n) * sqrt_floor(n) <= n,
        n < (sqrt_floor(n) + 1) * (sqrt_floor(n) + 1),
    decreases n,
{
    if n == 0 {
        assert(sqrt_floor(n) == 0);
        assert(sqrt_floor(n) * sqrt_floor(n) <= n);
        assert(n < (sqrt_floor(n) + 1) * (sqrt_floor(n) + 1)) by (nonlinear_arith)
            requires
                sqrt_floor(n) == 0,
                n == 0,
        ;
    } else {
        lemma_sqrt_floor_char((n - 1) as nat);
        let r = sqrt_floor((n - 1) as nat);
        assert(r * r <= n - 1);
        assert(n - 1 < (r + 1) * (r + 1));
        if (r + 1) * (r + 1) <= n {
            assert(sqrt_floor(n) == r + 1);
            assert((r + 1 + 1) * (r + 1 + 1) > (r + 1) * (r + 1)) by (nonlinear_arith);
            assert(n < (sqrt_floor(n) + 1) * (sqrt_floor(n) + 1));
        } else {
            assert(sqrt_floor(n) == r);
        }
    }
}

/// Two nonnegative integers whose squares bracket `n` the same way are
/// equal, so the square root is pinned by its characterization.
pub proof fn lemma_sqrt_floor_unique(n: nat, r: nat)
    requires
        r * r <= n,
        n < (r + 1) * (r + 1),
    ensures
        r == sqrt_floor(n),
{
    lemma_sqrt_floor_char(n);
    let q = sqrt_floor(n);
    if r < q {
        assert((r + 1) * (r + 1) <= q * q) by (nonlinear_arith)
            requires
                r + 1 <= q,
        ;
    }
    if q < r {
        assert((q + 1) * (q + 1) <= r * r) by (nonlinear_arith)
            requires
                q + 1 <= r,
        ;
    }
}

/// Computes the integer square root of `n` by bisection.
pub fn isqrt(n: u128) -> (r: u64)
    requires
        n < 1329227995784915872903807060280344576,
    ensures
        r == sqrt_floor(n as nat),
{
    let mut lo: u128 = 0;
    let mut hi: u128 = 1152921504606846976;
    proof {
        assert(hi * hi == 1329227995784915872903807060280344576) by (nonlinear_arith)
            requires
                hi == 1152921504606846976,
        ;
    }
    while lo + 1 < hi
        invariant
            0 <= lo < hi <= 1152921504606846976,
            lo * lo <= n,
            n < hi * hi,
        decreases hi - lo,
    {
        let mid = lo + (hi - lo) / 2;
        proof {
            assert(lo < mid < hi);
            assert(mid * mid < 1329227995784915872903807060280344576) by (nonlinear_arith)
                requires
                    0 <= mid < 1152921504606846976,
            ;
        }
        if mid * mid <= n {
            lo = mid;
        } else {
            hi = mid;
        }
    }
    proof {
        assert(hi == lo + 1);
        lemma_sqrt_floor_unique(n as nat, lo as nat);
    }
    lo as u64
}

/// Clamps a fixed-point intensity into `[AMBIENT, FP_ONE]`.
pub open spec fn clamp_intensity(q: int) -> int {
    if q < AMBIENT {
        AMBIENT as int
    } else if q > FP_ONE {
        FP_ONE as int
    } else {
        q
    }
}

/// The lighting intensity of a face: the dot product of its unit normal
/// with the fixed light direction along `+Z`, clamped to the ambient
/// floor. A degenerate face (normal shorter than one fixed-point quantum)
/// falls back to the up-vector normal, whose intensity is the ambient
/// floor.
pub open spec fn intensity_spec(v0: (int, int, int), v1: (int, int, int), v2: (int, int, int)) -> int {
    let n = face_normal(v0, v1, v2);
    let s = n.0 * n.0 + n.1 * n.1 + n.2 * n.2;
    if s == 0 {
        AMBIENT as int
    } else {
        clamp_intensity(n.2 * FP_ONE / (sqrt_floor(s as nat) as int))
    }
}

/// Computes the lighting intensity of the face over the three rotated
/// vertices.
pub fn face_intensity(rv0: &Vec3, rv1: &Vec3, rv2: &Vec3) -> (r: i64)
    requires
        -4 * VTX_LIMIT <= rv0.x <= 4 * VTX_LIMIT,
        -4 * VTX_LIMIT <= rv0.y <= 4 * VTX_LIMIT,
        -4 * VTX_LIMIT <= rv0.z <= 4 * VTX_LIMIT,
        -4 * VTX_LIMIT <= rv1.x <= 4 * VTX_LIMIT,
        -4 * VTX_LIMIT <= rv1.y <= 4 * VTX_LIMIT,
        -4 * VTX_LIMIT <= rv1.z <= 4 * VTX_LIMIT,
        -4 * VTX_LIMIT <= rv2.x <= 4 * VTX_LIMIT,
        -4 * VTX_LIMIT <= rv2.y <= 4 * VTX_LIMIT,
        -4 * VTX_LIMIT <= rv2.z <= 4 * VTX_LIMIT,
    ensures
        r == intensity_spec(view3(*rv0), view3(*rv1), view3(*rv2)),
        AMBIENT <= r <= FP_ONE,
{
    let e1x = rv1.x - rv0.x;
    let e1y = rv1.y - rv0.y;
    let e1z = rv1.z - rv0.z;
    let e2x = rv2.x - rv0.x;
    let e2y = rv2.y - rv0.y;
    let e2z = rv2.z - rv0.z;
    proof {
        lemma_cross_term_bounds(e1y as int, e2z as int);
        lemma_cross_term_bounds(e1z as int, e2y as int);
        lemma_cross_term_bounds(e1z as int, e2x as int);
        lemma_cross_term_bounds(e1x as int, e2z as int);
        lemma_cross_term_bounds(e1x as int, e2y as int);
        lemma_cross_term_bounds(e1y as int, e2x as int);
    }
    let nx = e1y * e2z - e1z * e2y;
    let ny = e1z * e2x - e1x * e2z;
    let nz = e1x * e2y - e1y * e2x;
    let ghost n = face_normal(view3(*rv0), view3(*rv1), view3(*rv2));
    proof {
        assert(n == (nx as int, ny as int, nz as int));
    }
    let axs = abs_u128_of(nx);
    let ays = abs_u128_of(ny);
    let azs = abs_u128_of(nz);
    proof {
        assert(axs * axs <= 332306998946228968225951765070086144 && ays * ays
            <= 332306998946228968225951765070086144 && azs * azs <= 332306998946228968225951765070086144)
            by (nonlinear_arith)
            requires
                0 <= axs <= 576460752303423488,
                0 <= ays <= 576460752303423488,
                0 <= azs <= 576460752303423488,
        ;
    }
    let s: u128 = axs * axs + ays * ays + azs * azs;
    proof {
        lemma_square_abs(nx as int, axs as int);
        lemma_square_abs(ny as int, ays as int);
        lemma_square_abs(nz as int, azs as int);
        assert(s == n.0 * n.0 + n.1 * n.1 + n.2 * n.2);
    }
    if s == 0 {
        return AMBIENT;
    }
    if nz <= 0 {
        proof {
            lemma_nonpos_intensity(n.2, s as int);
        }
        return AMBIENT;
    }
    let len = isqrt(s);
    proof {
        lemma_sqrt_floor_char(s as nat);
        lemma_len_dominates(nz as int, s as int, len as int);
    }
    let num: u128 = (nz as u128) * (FP_ONE as u128);
    let q: u128 = num / (len as u128);
    proof {
        lemma_div_is_ordered(num as int, (len as u128) as int * (FP_ONE as int), (len as u128) as int);
        vstd::arithmetic::div_mod::lemma_div_multiples_vanish(FP_ONE as int, len as int);
        lemma_div_pos_is_pos(num as int, len as int);
    }
    let qi = q as i64;
    if qi < AMBIENT {
        AMBIENT
    } else {
        qi
    }
}

/// The absolute value of a normal component, as an unsigned square factor.
fn abs_u128_of(a: i64) -> (r: u128)
    requires
        a != i64::MIN,
    ensures
        r == if a >= 0 { a as int } else { -a as int },
{
    abs_i64(a) as u128
}

/// Squaring an absolute value gives the square of the signed value.
proof fn lemma_square_abs(a: int, b: int)
    requires
        b == if a >= 0 { a } else { -a },
    ensures
        b * b == a * a,
{
    assert(b * b == a * a) by (nonlinear_arith)
        requires
            b == a || b == -a,
    ;
}

/// A nonpositive normal Z clamps to the ambient floor.
proof fn lemma_nonpos_intensity(nz: int, s: int)
    requires
        nz <= 0,
        s > 0,
    ensures
        clamp_intensity(nz * FP_ONE / (sqrt_floor(s as nat) as int)) == AMBIENT as int,
{
    lemma_sqrt_floor_char(s as nat);
    let l = sqrt_floor(s as nat) as int;
    assert(l > 0) by (nonlinear_arith)
        requires
            l * l <= s,
            s < (l + 1) * (l + 1),
            l >= 0,
            s > 0,
    ;
    assert(nz * FP_ONE <= 0) by (nonlinear_arith)
        requires
            nz <= 0,
    ;
    lemma_div_is_ordered(nz * FP_ONE, 0, l);
    vstd::arithmetic::div_mod::lemma_div_of0(l);
}

/// The normal's Z component never exceeds the normal's length.
proof fn lemma_len_dominates(nz: int, s: int, len: int)
    requires
        nz > 0,
        s >= nz * nz,
        len * len <= s,
        s < (len + 1) * (len + 1),
        len >= 0,
    ensures
        nz <= len,
        len > 0,
{
    assert(nz <= len && len > 0) by (nonlinear_arith)
        requires
            nz > 0,
            s >= nz * nz,
            len * len <= s,
            s < (len + 1) * (len + 1),
            len >= 0,
    ;
}

/// The regions a face's untransformed centroid can classify into, in the
/// fixed priority order of the tests.
#[derive(Clone, Copy, PartialEq, Eq, Structural, Debug)]
pub enum Region {
    TopForward,
    Rear,
    Lateral,
    Body,
}

/// The classification thresholds: configuration constants of the region
/// policy, fixed-point.
#[derive(Clone, Copy, PartialEq, Eq, Structural, Debug)]
pub struct RegionThresholds {
    pub top_min_y: i64,
    pub top_max_abs_x: i64,
    pub top_min_z: i64,
    pub rear_max_z: i64,
    pub lateral_min_abs_x: i64,
}

/// The fixed palette of the region policy.
#[derive(Clone, Copy, PartialEq, Eq, Structural, Debug)]
pub struct RegionPalette {
    pub top_forward: Color,
    pub rear: Color,
    pub lateral: Color,
    pub body: Color,
}

/// The absolute value, for classification thresholds on `|x|`.
pub open spec fn iabs(a: int) -> int {
    if a >= 0 {
        a
    } else {
        -a
    }
}

/// Classifies a centroid in the fixed priority order: the top/forward
/// test first, then the rear test, then the lateral test, else the body.
pub open spec fn classify_spec(c: (int, int, int), t: RegionThresholds) -> Region {
    if c.1 > t.top_min_y && iabs(c.0) < t.top_max_abs_x && c.2 > t.top_min_z {
        Region::TopForward
    } else if c.2 < t.rear_max_z {
        Region::Rear
    } else if iabs(c.0) > t.lateral_min_abs_x {
        Region::Lateral
    } else {
        Region::Body
    }
}

/// Classifies a face's untransformed centroid into its region.
pub fn classify(cx: i64, cy: i64, cz: i64, t: &RegionThresholds) -> (r: Region)
    requires
        cx != i64::MIN,
    ensures
        r == classify_spec((cx as int, cy as int, cz as int), *t),
{
    let ax = abs_i64(cx);
    if cy > t.top_min_y && ax < t.top_max_abs_x && cz > t.top_min_z {
        Region::TopForward
    } else if cz < t.rear_max_z {
        Region::Rear
    } else if ax > t.lateral_min_abs_x {
        Region::Lateral
    } else {
        Region::Body
    }
}

/// The palette color of a region.
pub open spec fn region_color_spec(r: Region, p: RegionPalette) -> Color {
    match r {
        Region::TopForward => p.top_forward,
        Region::Rear => p.rear,
        Region::Lateral => p.lateral,
        Region::Body => p.body,
    }
}

/// Looks a region's color up in the palette.
pub fn region_color(r: Region, p: &RegionPalette) -> (c: Color)
    ensures
        c == region_color_spec(r, *p),
{
    match r {
        Region::TopForward => p.top_forward,
        Region::Rear => p.rear,
        Region::Lateral => p.lateral,
        Region::Body => p.body,
    }
}

/// One channel scaled by a fixed-point intensity in `[0, 1]`.
pub open spec fn scale_channel_spec(ch: int, q: int) -> int {
    ch * q / (FP_ONE as int)
}

/// Scales one color channel by a fixed-point intensity.
pub fn scale_channel(ch: u8, q: i64) -> (r: u8)
    requires
        0 <= q <= FP_ONE,
    ensures
        r == scale_channel_spec(ch as int, q as int),
        r <= ch,
{
    proof {
        assert(0 <= ch * q <= ch * FP_ONE) by (nonlinear_arith)
            requires
                0 <= q <= FP_ONE,
                0 <= ch < 256,
        ;
        lemma_div_pos_is_pos(ch as int * q as int, FP_ONE as int);
        lemma_div_is_ordered(ch as int * q as int, ch as int * FP_ONE as int, FP_ONE as int);
        vstd::arithmetic::div_mod::lemma_div_multiples_vanish(ch as int, FP_ONE as int);
        assert(ch as int * FP_ONE as int == FP_ONE as int * ch as int) by (nonlinear_arith);
    }
    let v = div_floor((ch as i64) * q, FP_ONE);
    v as u8
}

/// A color with every channel scaled by a fixed-point intensity in
/// `[0, 1]`.
pub open spec fn shade_spec(c: Color, q: int) -> Color {
    Color {
        r: scale_channel_spec(c.r as int, q) as u8,
        g: scale_channel_spec(c.g as int, q) as u8,
        b: scale_channel_spec(c.b as int, q) as u8,
    }
}

/// Scales every channel of a color by a fixed-point intensity.
pub fn shade(c: Color, q: i64) -> (r: Color)
    requires
        0 <= q <= FP_ONE,
    ensures
        r == shade_spec(c, q as int),
{
    Color { r: scale_channel(c.r, q), g: scale_channel(c.g, q), b: scale_channel(c.b, q) }
}

/// The componentwise absolute value of a face's unit normal, fixed-point:
/// what the normal-modulated color policy blends with. A degenerate face
/// (zero-length normal) falls back to the default up-vector normal.
pub open spec fn unit_normal_abs_spec(v0: (int, int, int), v1: (int, int, int), v2: (int, int, int)) -> (
    int,
    int,
    int,
) {
    let n = face_normal(v0, v1, v2);
    let s = n.0 * n.0 + n.1 * n.1 + n.2 * n.2;
    if s == 0 {
        (0, FP_ONE as int, 0)
    } else {
        let l = sqrt_floor(s as nat) as int;
        (iabs(n.0) * FP_ONE / l, iabs(n.1) * FP_ONE / l, iabs(n.2) * FP_ONE / l)
    }
}

/// A component whose square is part of `s` is at most `s`'s square root.
proof fn lemma_abs_le_len(a: int, s: int, len: int)
    requires
        a * a <= s,
        len * len <= s,
        s < (len + 1) * (len + 1),
        len >= 0,
    ensures
        iabs(a) <= len,
{
    assert(iabs(a) <= len) by (nonlinear_arith)
        requires
            a * a <= s,
            s < (len + 1) * (len + 1),
            len >= 0,
            iabs(a) == if a >= 0 { a } else { -a },
    ;
}

/// Computes the componentwise absolute value of the face's unit normal
/// over the three rotated vertices.
pub fn unit_normal_abs(rv0: &Vec3, rv1: &Vec3, rv2: &Vec3) -> (r: Vec3)
    requires
        -4 * VTX_LIMIT <= rv0.x <= 4 * VTX_LIMIT,
        -4 * VTX_LIMIT <= rv0.y <= 4 * VTX_LIMIT,
        -4 * VTX_LIMIT <= rv0.z <= 4 * VTX_LIMIT,
        -4 * VTX_LIMIT <= rv1.x <= 4 * VTX_LIMIT,
        -4 * VTX_LIMIT <= rv1.y <= 4 * VTX_LIMIT,
        -4 * VTX_LIMIT <= rv1.z <= 4 * VTX_LIMIT,
        -4 * VTX_LIMIT <= rv2.x <= 4 * VTX_LIMIT,
        -4 * VTX_LIMIT <= rv2.y <= 4 * VTX_LIMIT,
        -4 * VTX_LIMIT <= rv2.z <= 4 * VTX_LIMIT,
    ensures
        view3(r) == unit_normal_abs_spec(view3(*rv0), view3(*rv1), view3(*rv2)),
        0 <= r.x <= FP_ONE,
        0 <= r.y <= FP_ONE,
        0 <= r.z <= FP_ONE,
{
    let e1x = rv1.x - rv0.x;
    let e1y = rv1.y - rv0.y;
    let e1z = rv1.z - rv0.z;
    let e2x = rv2.x - rv0.x;
    let e2y = rv2.y - rv0.y;
    let e2z = rv2.z - rv0.z;
    proof {
        lemma_cross_term_bounds(e1y as int, e2z as int);
        lemma_cross_term_bounds(e1z as int, e2y as int);
        lemma_cross_term_bounds(e1z as int, e2x as int);
        lemma_cross_term_bounds(e1x as int, e2z as int);
        lemma_cross_term_bounds(e1x as int, e2y as int);
        lemma_cross_term_bounds(e1y as int, e2x as int);
    }
    let nx = e1y * e2z - e1z * e2y;
    let ny = e1z * e2x - e1x * e2z;
    let nz = e1x * e2y - e1y * e2x;
    let ghost n = face_normal(view3(*rv0), view3(*rv1), view3(*rv2));
    proof {
        assert(n == (nx as int, ny as int, nz as int));
    }
    let axs = abs_u128_of(nx);
    let ays = abs_u128_of(ny);
    let azs = abs_u128_of(nz);
    proof {
        assert(axs * axs <= 332306998946228968225951765070086144 && ays * ays
            <= 332306998946228968225951765070086144 && azs * azs <= 332306998946228968225951765070086144)
            by (nonlinear_arith)
            requires
                0 <= axs <= 576460752303423488,
                0 <= ays <= 576460752303423488,
                0 <= azs <= 576460752303423488,
        ;
    }
    let s: u128 = axs * axs + ays * ays + azs * azs;
    proof {
        lemma_square_abs(nx as int, axs as int);
        lemma_square_abs(ny as int, ays as int);
        lemma_square_abs(nz as int, azs as int);
        assert(s == n.0 * n.0 + n.1 * n.1 + n.2 * n.2);
    }
    if s == 0 {
        return Vec3 { x: 0, y: FP_ONE, z: 0 };
    }
    let len = isqrt(s);
    proof {
        lemma_sqrt_floor_char(s as nat);
        assert(axs * axs <= s && ays * ays <= s && azs * azs <= s) by (nonlinear_arith)
            requires
                s == axs * axs + ays * ays + azs * azs,
        ;
        lemma_abs_le_len(nx as int, s as int, len as int);
        lemma_abs_le_len(ny as int, s as int, len as int);
        lemma_abs_le_len(nz as int, s as int, len as int);
        assert(len > 0) by (nonlinear_arith)
            requires
                len * len <= s,
                s < (len + 1) * (len + 1),
                len >= 0,
                s > 0,
        ;
    }
    let ux = unit_component(axs, len);
    let uy = unit_component(ays, len);
    let uz = unit_component(azs, len);
    Vec3 { x: ux, y: uy, z: uz }
}

/// One component of the unit normal: `|a| / len`, fixed-point.
fn unit_component(a: u128, len: u64) -> (r: i64)
    requires
        len > 0,
        a <= len,
    ensures
        r == a as int * FP_ONE / (len as int),
        0 <= r <= FP_ONE,
{
    let num: u128 = a * (FP_ONE as u128);
    let q: u128 = num / (len as u128);
    proof {
        lemma_div_is_ordered(num as int, (len as int) * (FP_ONE as int), len as int);
        vstd::arithmetic::div_mod::lemma_div_multiples_vanish(FP_ONE as int, len as int);
        lemma_div_pos_is_pos(num as int, len as int);
    }
    q as i64
}

/// The normal-modulated color policy applied to one channel: the channel
/// scaled by the blend `|normal component| * k + (1 - k)` for the blend
/// constant `k`, all fixed-point.
pub open spec fn modulate_channel_spec(ch: int, na: int, k: int) -> int {
    scale_channel_spec(ch, na * k / (FP_ONE as int) + (FP_ONE - k))
}

/// A color with each channel independently scaled by the blend of the
/// matching unit-normal component: the normal-modulated policy. The lit
/// variant further scales the result by the intensity through [`shade`].
pub open spec fn modulate_spec(c: Color, na: (int, int, int), k: int) -> Color {
    Color {
        r: modulate_channel_spec(c.r as int, na.0, k) as u8,
        g: modulate_channel_spec(c.g as int, na.1, k) as u8,
        b: modulate_channel_spec(c.b as int, na.2, k) as u8,
    }
}

/// Applies the normal-modulated color policy: each channel of the base
/// color is scaled by `|normal component| * k + (1 - k)`, independently
/// per channel, with the unit normal's components paired to the channels
/// in order.
pub fn modulate_color(base: Color, na: &Vec3, k: i64) -> (r: Color)
    requires
        0 <= na.x <= FP_ONE,
        0 <= na.y <= FP_ONE,
        0 <= na.z <= FP_ONE,
        0 <= k <= FP_ONE,
    ensures
        r == modulate_spec(base, view3(*na), k as int),
{
    Color {
        r: modulate_channel(base.r, na.x, k),
        g: modulate_channel(base.g, na.y, k),
        b: modulate_channel(base.b, na.z, k),
    }
}

/// One channel under the normal-modulated policy.
fn modulate_channel(ch: u8, na: i64, k: i64) -> (r: u8)
    requires
        0 <= na <= FP_ONE,
        0 <= k <= FP_ONE,
    ensures
        r == modulate_channel_spec(ch as int, na as int, k as int),
{
    proof {
        assert(0 <= na * k <= k * FP_ONE) by (nonlinear_arith)
            requires
                0 <= na <= FP_ONE,
                0 <= k <= FP_ONE,
        ;
        lemma_div_pos_is_pos(na as int * k as int, FP_ONE as int);
        lemma_div_is_ordered(na as int * k as int, k as int * FP_ONE as int, FP_ONE as int);
        vstd::arithmetic::div_mod::lemma_div_multiples_vanish(k as int, FP_ONE as int);
        assert(k as int * FP_ONE as int == FP_ONE as int * k as int) by (nonlinear_arith);
    }
    let m = div_floor(na * k, FP_ONE);
    scale_channel(ch, m + (FP_ONE - k))
}

/// The simpler alternate policy: cycle through a small fixed palette by
/// face index.
pub fn cycle_color(palette: &Vec<Color>, face_index: usize) -> (c: Color)
    requires
        palette@.len() > 0,
    ensures
        c == palette@[face_index as int % palette@.len() as int],
{
    palette[face_index % palette.len()]
}

} // verus!
