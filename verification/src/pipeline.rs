//! The per-frame pipeline over a mesh: rotate every face, cull the ones
//! looking away, classify and light the rest, map them to screen space,
//! fill them through the depth-tested rasterizer, and optionally overlay
//! the wireframe.
//!
//! The depth policy is the per-pixel z-buffer: every visible face is
//! rasterized independently through the depth-tested write, so
//! correctness does not depend on draw order. (The alternative,
//! painter's-algorithm sorting by average depth, is a documented
//! approximation this pipeline deliberately does not take.)

use vstd::prelude::*;
use vstd::math::{min, max};
use crate::color::Color;
use crate::fixed::{FP_ONE, div_floor};
use crate::framebuffer::{Framebuffer, pix_idx};
use crate::geometry::Vec3;
use crate::raster::{draw_triangle, draw_line, tri_depth, sort3_by_y, pix_vert, lemma_tri_depth_le, paint, line_points, lemma_paint_pointwise, lemma_px_floor_bounds};
use crate::shading::{normal_z, front_facing, face_intensity, intensity_spec, classify, classify_spec, region_color, region_color_spec, shade, shade_spec, RegionThresholds, RegionPalette};
use crate::transform::{rotate_vertex, to_screen, transform_spec, rot_x_spec, rot_y_spec, view3, RenderParams, VTX_LIMIT, DIM_LIMIT};

verus! {

/// A triangular face: an ordered triple of vertex indices.
#[derive(Clone, Copy, PartialEq, Eq, Structural, Debug)]
pub struct Face {
    pub i0: usize,
    pub i1: usize,
    pub i2: usize,
}

/// Whether a vertex lies within the pipeline's model-space range.
pub open spec fn vtx_in_range(v: Vec3) -> bool {
    &&& -VTX_LIMIT <= v.x <= VTX_LIMIT
    &&& -VTX_LIMIT <= v.y <= VTX_LIMIT
    &&& -VTX_LIMIT <= v.z <= VTX_LIMIT
}

/// The mesh model: an ordered sequence of vertices and an ordered
/// sequence of faces, read-only to the pipeline.
pub struct Mesh {
    pub vertices: Vec<Vec3>,
    pub faces: Vec<Face>,
}

impl Mesh {
    /// Well-formedness: every face index points into the vertex array and
    /// every vertex lies within the pipeline's model-space range.
    pub open spec fn wf(self) -> bool {
        &&& forall|i: int|
            0 <= i < self.faces@.len() ==> {
                &&& (#[trigger] self.faces@[i]).i0 < self.vertices@.len()
                &&& self.faces@[i].i1 < self.vertices@.len()
                &&& self.faces@[i].i2 < self.vertices@.len()
            }
        &&& forall|i: int| 0 <= i < self.vertices@.len() ==> vtx_in_range(#[trigger] self.vertices@[i])
    }

    /// Decides well-formedness at run time, so an unverified caller can
    /// test it before entering the pipeline.
    pub fn is_wf(&self) -> (b: bool)
        ensures
            b == self.wf(),
    {
        let nv = self.vertices.len();
        let mut i: usize = 0;
        while i < self.faces.len()
            invariant
                i <= self.faces@.len(),
                nv == self.vertices@.len(),
                forall|j: int|
                    0 <= j < i ==> {
                        &&& (#[trigger] self.faces@[j]).i0 < nv
                        &&& self.faces@[j].i1 < nv
                        &&& self.faces@[j].i2 < nv
                    },
            decreases self.faces@.len() - i,
        {
            let f = self.faces[i];
            if f.i0 >= nv || f.i1 >= nv || f.i2 >= nv {
                return false;
            }
            i = i + 1;
        }
        let mut i: usize = 0;
        while i < self.vertices.len()
            invariant
                i <= self.vertices@.len(),
                nv == self.vertices@.len(),
                forall|j: int|
                    0 <= j < self.faces@.len() ==> {
                        &&& (#[trigger] self.faces@[j]).i0 < nv
                        &&& self.faces@[j].i1 < nv
                        &&& self.faces@[j].i2 < nv
                    },
                forall|j: int| 0 <= j < i ==> vtx_in_range(#[trigger] self.vertices@[j]),
            decreases self.vertices@.len() - i,
        {
            let v = self.vertices[i];
            if v.x < -VTX_LIMIT || v.x > VTX_LIMIT || v.y < -VTX_LIMIT || v.y > VTX_LIMIT || v.z < -VTX_LIMIT
                || v.z > VTX_LIMIT {
                return false;
            }
            i = i + 1;
        }
        true
    }

    /// The bounding box of a vertex sequence: the componentwise minimum
    /// and maximum over all vertices.
    pub open spec fn bbox_spec(s: Seq<Vec3>) -> ((int, int, int), (int, int, int))
        decreases s.len(),
    {
        if s.len() == 0 {
            ((0, 0, 0), (0, 0, 0))
        } else if s.len() == 1 {
            (view3(s[0]), view3(s[0]))
        } else {
            let (lo, hi) = Self::bbox_spec(s.drop_last());
            let v = view3(s.last());
            (
                (min(lo.0, v.0), min(lo.1, v.1), min(lo.2, v.2)),
                (max(hi.0, v.0), max(hi.1, v.1), max(hi.2, v.2)),
            )
        }
    }

    /// Computes the mesh's bounding box: the componentwise minimum and
    /// maximum corner over all vertices.
    pub fn calculate_bounds(&self) -> (r: (Vec3, Vec3))
        requires
            self.wf(),
            self.vertices@.len() > 0,
        ensures
            view3(r.0) == Self::bbox_spec(self.vertices@).0,
            view3(r.1) == Self::bbox_spec(self.vertices@).1,
            vtx_in_range(r.0),
            vtx_in_range(r.1),
    {
        let v0 = self.vertices[0];
        let mut lo = v0;
        let mut hi = v0;
        let mut i: usize = 1;
        proof {
            assert(self.vertices@.subrange(0, 1) =~= seq![self.vertices@[0]]);
        }
        while i < self.vertices.len()
            invariant
                self.wf(),
                1 <= i <= self.vertices@.len(),
                view3(lo) == Self::bbox_spec(self.vertices@.subrange(0, i as int)).0,
                view3(hi) == Self::bbox_spec(self.vertices@.subrange(0, i as int)).1,
                vtx_in_range(lo),
                vtx_in_range(hi),
            decreases self.vertices@.len() - i,
        {
            let v = self.vertices[i];
            let ghost pre = self.vertices@.subrange(0, i as int);
            let ghost cur = self.vertices@.subrange(0, i as int + 1);
            proof {
                assert(cur.drop_last() =~= pre);
                assert(cur.last() == self.vertices@[i as int]);
            }
            if v.x < lo.x {
                lo.x = v.x;
            }
            if v.y < lo.y {
                lo.y = v.y;
            }
            if v.z < lo.z {
                lo.z = v.z;
            }
            if v.x > hi.x {
                hi.x = v.x;
            }
            if v.y > hi.y {
                hi.y = v.y;
            }
            if v.z > hi.z {
                hi.z = v.z;
            }
            i = i + 1;
        }
        proof {
            assert(self.vertices@.subrange(0, self.vertices@.len() as int) =~= self.vertices@);
        }
        (lo, hi)
    }

    /// The bounding-box centroid of a vertex sequence.
    pub open spec fn center_spec(s: Seq<Vec3>) -> (int, int, int) {
        let (lo, hi) = Self::bbox_spec(s);
        ((lo.0 + hi.0) / 2, (lo.1 + hi.1) / 2, (lo.2 + hi.2) / 2)
    }

    /// The bounding-box extent (size) of a vertex sequence.
    pub open spec fn size_spec(s: Seq<Vec3>) -> (int, int, int) {
        let (lo, hi) = Self::bbox_spec(s);
        (hi.0 - lo.0, hi.1 - lo.1, hi.2 - lo.2)
    }

    /// Computes the mesh's bounding-box centroid, the `center` the screen
    /// mapping recenters on.
    pub fn calculate_center(&self) -> (c: Vec3)
        requires
            self.wf(),
            self.vertices@.len() > 0,
        ensures
            view3(c) == Self::center_spec(self.vertices@),
            vtx_in_range(c),
    {
        let (lo, hi) = self.calculate_bounds();
        let cx = div_floor(lo.x + hi.x, 2);
        let cy = div_floor(lo.y + hi.y, 2);
        let cz = div_floor(lo.z + hi.z, 2);
        proof {
            crate::fixed::lemma_div_floor_range(lo.x + hi.x, 2);
            crate::fixed::lemma_div_floor_range(lo.y + hi.y, 2);
            crate::fixed::lemma_div_floor_range(lo.z + hi.z, 2);
            lemma_half_within(lo.x as int, hi.x as int);
            lemma_half_within(lo.y as int, hi.y as int);
            lemma_half_within(lo.z as int, hi.z as int);
        }
        Vec3 { x: cx, y: cy, z: cz }
    }

    /// Computes the mesh's bounding-box extent, the `size` the screen fit
    /// divides by.
    pub fn calculate_size(&self) -> (s: Vec3)
        requires
            self.wf(),
            self.vertices@.len() > 0,
        ensures
            view3(s) == Self::size_spec(self.vertices@),
            0 <= s.x <= 2 * VTX_LIMIT,
            0 <= s.y <= 2 * VTX_LIMIT,
            0 <= s.z <= 2 * VTX_LIMIT,
    {
        let (lo, hi) = self.calculate_bounds();
        proof {
            lemma_bbox_ordered(self.vertices@);
        }
        Vec3 { x: hi.x - lo.x, y: hi.y - lo.y, z: hi.z - lo.z }
    }
}

/// The floor of the midpoint of two values lies between them.
proof fn lemma_half_within(a: int, b: int)
    requires
        -VTX_LIMIT <= a <= VTX_LIMIT,
        -VTX_LIMIT <= b <= VTX_LIMIT,
    ensures
        -VTX_LIMIT <= (a + b) / 2 <= VTX_LIMIT,
{
    assert(-VTX_LIMIT <= (a + b) / 2 <= VTX_LIMIT) by (nonlinear_arith)
        requires
            -VTX_LIMIT <= a <= VTX_LIMIT,
            -VTX_LIMIT <= b <= VTX_LIMIT,
    ;
}

/// A bounding box's low corner never exceeds its high corner.
proof fn lemma_bbox_ordered(s: Seq<Vec3>)
    ensures
        Mesh::bbox_spec(s).0.0 <= Mesh::bbox_spec(s).1.0,
        Mesh::bbox_spec(s).0.1 <= Mesh::bbox_spec(s).1.1,
        Mesh::bbox_spec(s).0.2 <= Mesh::bbox_spec(s).1.2,
    decreases s.len(),
{
    if s.len() > 1 {
        lemma_bbox_ordered(s.drop_last());
    }
}

/// The untransformed centroid of a face, the value the region policy
/// classifies.
pub open spec fn centroid_spec(a: (int, int, int), b: (int, int, int), c: (int, int, int)) -> (int, int, int) {
    ((a.0 + b.0 + c.0) / 3, (a.1 + b.1 + c.1) / 3, (a.2 + b.2 + c.2) / 3)
}

/// The color a face is filled with: the palette color of its centroid's
/// region, scaled by the lighting intensity of its rotated normal.
pub open spec fn face_color_spec(
    v0: (int, int, int),
    v1: (int, int, int),
    v2: (int, int, int),
    rv0: (int, int, int),
    rv1: (int, int, int),
    rv2: (int, int, int),
    t: RegionThresholds,
    pal: RegionPalette,
) -> Color {
    shade_spec(
        region_color_spec(classify_spec(centroid_spec(v0, v1, v2), t), pal),
        intensity_spec(rv0, rv1, rv2),
    )
}

/// The rotated form of a vertex under the given parameters.
pub open spec fn rotated_spec(v: (int, int, int), p: RenderParams) -> (int, int, int) {
    rot_y_spec(rot_x_spec(v, p.sin_x as int, p.cos_x as int), p.sin_y as int, p.cos_y as int)
}

/// A transformed screen vertex reduced to pixel coordinates plus depth.
pub open spec fn screen_px(t: (int, int, int)) -> (int, int, int) {
    (t.0 / (FP_ONE as int), t.1 / (FP_ONE as int), t.2)
}

/// Renders one face: rotates its vertices, culls it when its normal does
/// not face the camera, resolves its color from region and lighting, maps
/// it to screen space and fills it through the depth-tested rasterizer.
///
/// The contract is exact on both sides of the cull: a culled face leaves
/// the framebuffer untouched (no pixel writes, no depth updates), and a
/// front-facing one fills exactly what the rasterizer's contract says.
pub fn render_face(
    fb: &mut Framebuffer,
    v0: &Vec3,
    v1: &Vec3,
    v2: &Vec3,
    p: &RenderParams,
    t: &RegionThresholds,
    pal: &RegionPalette,
)
    requires
        old(fb).wf(),
        old(fb).spec_width() <= DIM_LIMIT,
        old(fb).spec_height() <= DIM_LIMIT,
        p.wf(),
        vtx_in_range(*v0),
        vtx_in_range(*v1),
        vtx_in_range(*v2),
    ensures
        final(fb).wf(),
        final(fb).spec_width() == old(fb).spec_width(),
        final(fb).spec_height() == old(fb).spec_height(),
        !front_facing(
            rotated_spec(view3(*v0), *p),
            rotated_spec(view3(*v1), *p),
            rotated_spec(view3(*v2), *p),
        ) ==> {
            &&& final(fb).colors() == old(fb).colors()
            &&& final(fb).depths() == old(fb).depths()
        },
        front_facing(
            rotated_spec(view3(*v0), *p),
            rotated_spec(view3(*v1), *p),
            rotated_spec(view3(*v2), *p),
        ) ==> {
            let w = old(fb).spec_width();
            let h = old(fb).spec_height();
            let s = sort3_by_y(
                screen_px(transform_spec(view3(*v0), *p, w, h)),
                screen_px(transform_spec(view3(*v1), *p, w, h)),
                screen_px(transform_spec(view3(*v2), *p, w, h)),
            );
            let c = face_color_spec(
                view3(*v0),
                view3(*v1),
                view3(*v2),
                rotated_spec(view3(*v0), *p),
                rotated_spec(view3(*v1), *p),
                rotated_spec(view3(*v2), *p),
                *t,
                *pal,
            );
            forall|x: int, y: int|
                #![trigger pix_idx(old(fb).spec_width(), x, y)]
                old(fb).spec_in_bounds(x, y) ==> {
                    let k = pix_idx(old(fb).spec_width(), x, y);
                    let d = old(fb).depths()[k] as int;
                    let nd = tri_depth(s, d, x, y);
                    &&& final(fb).depths()[k] as int == nd
                    &&& final(fb).colors()[k] == (if nd < d { c } else { old(fb).colors()[k] })
                }
        },
{
    let rv0 = rotate_vertex(v0, p);
    let rv1 = rotate_vertex(v1, p);
    let rv2 = rotate_vertex(v2, p);
    let nz = normal_z(&rv0, &rv1, &rv2);
    if nz <= 0 {
        return ;
    }
    let cx = div_floor(v0.x + v1.x + v2.x, 3);
    let cy = div_floor(v0.y + v1.y + v2.y, 3);
    let cz = div_floor(v0.z + v1.z + v2.z, 3);
    let reg = classify(cx, cy, cz, t);
    let base = region_color(reg, pal);
    let q = face_intensity(&rv0, &rv1, &rv2);
    let col = shade(base, q);
    let width = fb.width();
    let height = fb.height();
    let sv0 = to_screen(&rv0, p, width, height);
    let sv1 = to_screen(&rv1, p, width, height);
    let sv2 = to_screen(&rv2, p, width, height);
    proof {
        assert(pix_vert(sv0) == screen_px(
            transform_spec(view3(*v0), *p, old(fb).spec_width(), old(fb).spec_height()),
        ));
        assert(pix_vert(sv1) == screen_px(
            transform_spec(view3(*v1), *p, old(fb).spec_width(), old(fb).spec_height()),
        ));
        assert(pix_vert(sv2) == screen_px(
            transform_spec(view3(*v2), *p, old(fb).spec_width(), old(fb).spec_height()),
        ));
    }
    draw_triangle(fb, &sv0, &sv1, &sv2, col);
}

/// Whether a face of the mesh survives the backface cull under the given
/// parameters.
pub open spec fn face_front(m: Mesh, f: Face, p: RenderParams) -> bool {
    front_facing(
        rotated_spec(view3(m.vertices@[f.i0 as int]), p),
        rotated_spec(view3(m.vertices@[f.i1 as int]), p),
        rotated_spec(view3(m.vertices@[f.i2 as int]), p),
    )
}

/// The sorted pixel-space triangle a face of the mesh maps to on a `w`
/// by `h` screen.
pub open spec fn face_tri(m: Mesh, f: Face, p: RenderParams, w: int, h: int) -> crate::raster::Tri {
    sort3_by_y(
        screen_px(transform_spec(view3(m.vertices@[f.i0 as int]), p, w, h)),
        screen_px(transform_spec(view3(m.vertices@[f.i1 as int]), p, w, h)),
        screen_px(transform_spec(view3(m.vertices@[f.i2 as int]), p, w, h)),
    )
}

/// The resolved color of a face of the mesh.
pub open spec fn face_col(m: Mesh, f: Face, p: RenderParams, t: RegionThresholds, pal: RegionPalette) -> Color {
    face_color_spec(
        view3(m.vertices@[f.i0 as int]),
        view3(m.vertices@[f.i1 as int]),
        view3(m.vertices@[f.i2 as int]),
        rotated_spec(view3(m.vertices@[f.i0 as int]), p),
        rotated_spec(view3(m.vertices@[f.i1 as int]), p),
        rotated_spec(view3(m.vertices@[f.i2 as int]), p),
        t,
        pal,
    )
}

/// The depth and color one pixel holds after the first `i` faces of the
/// mesh have been rendered onto a cell that started at depth `d` and
/// color `c`: each surviving face in turn offers the pixel its
/// depth-tested fill.
pub open spec fn mesh_cell(
    m: Mesh,
    p: RenderParams,
    t: RegionThresholds,
    pal: RegionPalette,
    w: int,
    h: int,
    i: int,
    d: int,
    c: Color,
    x: int,
    y: int,
) -> (int, Color)
    decreases i,
{
    if i <= 0 {
        (d, c)
    } else {
        let prev = mesh_cell(m, p, t, pal, w, h, i - 1, d, c, x, y);
        let f = m.faces@[i - 1];
        if face_front(m, f, p) {
            let nd = tri_depth(face_tri(m, f, p, w, h), prev.0, x, y);
            (
                nd,
                if nd < prev.0 {
                    face_col(m, f, p, t, pal)
                } else {
                    prev.1
                },
            )
        } else {
            prev
        }
    }
}

/// Renders every face of the mesh through [`render_face`], in face
/// order (the z-buffer makes the order immaterial to the outcome).
///
/// The contract is exact: each pixel ends at what the fold of all the
/// faces' depth-tested fills leaves it ([`mesh_cell`]). In particular
/// every pixel's depth is monotonically non-increasing within the pass,
/// and a pixel whose depth did not move keeps its color.
pub fn render_mesh(fb: &mut Framebuffer, mesh: &Mesh, p: &RenderParams, t: &RegionThresholds, pal: &RegionPalette)
    requires
        old(fb).wf(),
        old(fb).spec_width() <= DIM_LIMIT,
        old(fb).spec_height() <= DIM_LIMIT,
        p.wf(),
        mesh.wf(),
    ensures
        final(fb).wf(),
        final(fb).spec_width() == old(fb).spec_width(),
        final(fb).spec_height() == old(fb).spec_height(),
        forall|x: int, y: int|
            #![trigger pix_idx(old(fb).spec_width(), x, y)]
            old(fb).spec_in_bounds(x, y) ==> {
                let k = pix_idx(old(fb).spec_width(), x, y);
                &&& final(fb).depths()[k] <= old(fb).depths()[k]
                &&& (final(fb).depths()[k] == old(fb).depths()[k] ==> final(fb).colors()[k] == old(
                    fb,
                ).colors()[k])
            },
        forall|x: int, y: int|
            #![trigger pix_idx(old(fb).spec_width(), x, y)]
            old(fb).spec_in_bounds(x, y) ==> {
                let k = pix_idx(old(fb).spec_width(), x, y);
                let cell = mesh_cell(
                    *mesh,
                    *p,
                    *t,
                    *pal,
                    old(fb).spec_width(),
                    old(fb).spec_height(),
                    mesh.faces@.len() as int,
                    old(fb).depths()[k] as int,
                    old(fb).colors()[k],
                    x,
                    y,
                );
                &&& final(fb).depths()[k] as int == cell.0
                &&& final(fb).colors()[k] == cell.1
            },
{
    let ghost fb0 = *fb;
    let mut i: usize = 0;
    while i < mesh.faces.len()
        invariant
            fb.wf(),
            fb.spec_width() == fb0.spec_width(),
            fb.spec_height() == fb0.spec_height(),
            fb0.wf(),
            fb0.spec_width() <= DIM_LIMIT,
            fb0.spec_height() <= DIM_LIMIT,
            p.wf(),
            mesh.wf(),
            i <= mesh.faces@.len(),
            forall|x: int, y: int|
                #![trigger pix_idx(fb0.spec_width(), x, y)]
                fb0.spec_in_bounds(x, y) ==> {
                    let k = pix_idx(fb0.spec_width(), x, y);
                    &&& fb.depths()[k] <= fb0.depths()[k]
                    &&& (fb.depths()[k] == fb0.depths()[k] ==> fb.colors()[k] == fb0.colors()[k])
                    &&& {
                        let cell = mesh_cell(
                            *mesh,
                            *p,
                            *t,
                            *pal,
                            fb0.spec_width(),
                            fb0.spec_height(),
                            i as int,
                            fb0.depths()[k] as int,
                            fb0.colors()[k],
                            x,
                            y,
                        );
                        fb.depths()[k] as int == cell.0 && fb.colors()[k] == cell.1
                    }
                },
        decreases mesh.faces@.len() - i,
    {
        let f = mesh.faces[i];
        let ghost fb_pre = *fb;
        render_face(fb, &mesh.vertices[f.i0], &mesh.vertices[f.i1], &mesh.vertices[f.i2], p, t, pal);
        proof {
            assert forall|x: int, y: int|
                fb0.spec_in_bounds(x, y) implies {
                let k = #[trigger] pix_idx(fb0.spec_width(), x, y);
                fb.depths()[k] <= fb0.depths()[k] && (fb.depths()[k] == fb0.depths()[k] ==> fb.colors()[k]
                    == fb0.colors()[k]) && {
                    let cell = mesh_cell(
                        *mesh,
                        *p,
                        *t,
                        *pal,
                        fb0.spec_width(),
                        fb0.spec_height(),
                        i as int + 1,
                        fb0.depths()[k] as int,
                        fb0.colors()[k],
                        x,
                        y,
                    );
                    fb.depths()[k] as int == cell.0 && fb.colors()[k] == cell.1
                }
            } by {
                fb0.lemma_idx_in_range(x, y);
                let va = mesh.vertices@[f.i0 as int];
                let vb = mesh.vertices@[f.i1 as int];
                let vc = mesh.vertices@[f.i2 as int];
                assert(mesh.faces@[i as int] == f);
                if front_facing(
                    rotated_spec(view3(va), *p),
                    rotated_spec(view3(vb), *p),
                    rotated_spec(view3(vc), *p),
                ) {
                    let w = fb_pre.spec_width();
                    let h = fb_pre.spec_height();
                    let s = sort3_by_y(
                        screen_px(transform_spec(view3(va), *p, w, h)),
                        screen_px(transform_spec(view3(vb), *p, w, h)),
                        screen_px(transform_spec(view3(vc), *p, w, h)),
                    );
                    assert(s == face_tri(*mesh, f, *p, w, h));
                    lemma_tri_depth_le(s, fb_pre.depths()[pix_idx(fb0.spec_width(), x, y)] as int, x, y);
                }
            }
        }
        i = i + 1;
    }
}

/// The pixels the Bresenham walk of one triangle edge visits, from one
/// pixel vertex to another.
pub open spec fn line_pts_of(a: (int, int, int), b: (int, int, int)) -> Seq<(int, int)> {
    line_points(
        a.0,
        a.1,
        vstd::math::abs(b.0 - a.0) as int - vstd::math::abs(b.1 - a.1) as int,
        b.0,
        b.1,
        vstd::math::abs(b.0 - a.0) as int,
        -(vstd::math::abs(b.1 - a.1) as int),
    )
}

/// One face's three edges painted over a color plane, first to last.
pub open spec fn face_edges_painted(
    m: Mesh,
    f: Face,
    p: RenderParams,
    w: int,
    h: int,
    colors: Seq<Color>,
    lc: Color,
) -> Seq<Color> {
    let a = screen_px(transform_spec(view3(m.vertices@[f.i0 as int]), p, w, h));
    let b = screen_px(transform_spec(view3(m.vertices@[f.i1 as int]), p, w, h));
    let c = screen_px(transform_spec(view3(m.vertices@[f.i2 as int]), p, w, h));
    paint(
        paint(paint(colors, w, h, line_pts_of(a, b), lc), w, h, line_pts_of(b, c), lc),
        w,
        h,
        line_pts_of(c, a),
        lc,
    )
}

/// The color plane after the wireframe of the first `i` faces: each face
/// surviving the cull has its three edges painted in turn.
pub open spec fn wire_colors(
    m: Mesh,
    p: RenderParams,
    w: int,
    h: int,
    lc: Color,
    i: int,
    colors: Seq<Color>,
) -> Seq<Color>
    decreases i,
{
    if i <= 0 {
        colors
    } else {
        let prev = wire_colors(m, p, w, h, lc, i - 1, colors);
        let f = m.faces@[i - 1];
        if face_front(m, f, p) {
            face_edges_painted(m, f, p, w, h, prev, lc)
        } else {
            prev
        }
    }
}

/// Overlays the wireframe: for every face whose rotated normal faces the
/// camera, draws the three triangle edges as unconditional Bresenham
/// lines in `line_color`, on top of whatever the fills left (the depth
/// plane is untouched).
///
/// The contract is exact: the color plane ends at the fold of all the
/// surviving faces' painted edges ([`wire_colors`]); in particular a
/// pixel either keeps its color or turns into `line_color`.
pub fn wireframe_mesh(fb: &mut Framebuffer, mesh: &Mesh, p: &RenderParams, line_color: Color)
    requires
        old(fb).wf(),
        old(fb).spec_width() <= DIM_LIMIT,
        old(fb).spec_height() <= DIM_LIMIT,
        p.wf(),
        mesh.wf(),
    ensures
        final(fb).wf(),
        final(fb).spec_width() == old(fb).spec_width(),
        final(fb).spec_height() == old(fb).spec_height(),
        final(fb).depths() == old(fb).depths(),
        final(fb).colors() == wire_colors(
            *mesh,
            *p,
            old(fb).spec_width(),
            old(fb).spec_height(),
            line_color,
            mesh.faces@.len() as int,
            old(fb).colors(),
        ),
        forall|k: int|
            0 <= k < final(fb).colors().len() ==> (#[trigger] final(fb).colors()[k]) == old(fb).colors()[k]
                || final(fb).colors()[k] == line_color,
{
    let ghost fb0 = *fb;
    let width = fb.width();
    let height = fb.height();
    let mut i: usize = 0;
    while i < mesh.faces.len()
        invariant
            fb.wf(),
            fb.spec_width() == fb0.spec_width(),
            fb.spec_height() == fb0.spec_height(),
            fb0.wf(),
            fb0.spec_width() <= DIM_LIMIT,
            fb0.spec_height() <= DIM_LIMIT,
            width == fb0.spec_width(),
            height == fb0.spec_height(),
            p.wf(),
            mesh.wf(),
            i <= mesh.faces@.len(),
            fb.depths() == fb0.depths(),
            fb.colors() == wire_colors(
                *mesh,
                *p,
                fb0.spec_width(),
                fb0.spec_height(),
                line_color,
                i as int,
                fb0.colors(),
            ),
            forall|k: int|
                0 <= k < fb.colors().len() ==> (#[trigger] fb.colors()[k]) == fb0.colors()[k] || fb.colors()[k]
                    == line_color,
        decreases mesh.faces@.len() - i,
    {
        let f = mesh.faces[i];
        let rv0 = rotate_vertex(&mesh.vertices[f.i0], p);
        let rv1 = rotate_vertex(&mesh.vertices[f.i1], p);
        let rv2 = rotate_vertex(&mesh.vertices[f.i2], p);
        let nz = normal_z(&rv0, &rv1, &rv2);
        proof {
            assert(mesh.faces@[i as int] == f);
            assert(face_front(*mesh, f, *p) == (nz > 0));
        }
        if nz > 0 {
            let sv0 = to_screen(&rv0, p, width, height);
            let sv1 = to_screen(&rv1, p, width, height);
            let sv2 = to_screen(&rv2, p, width, height);
            proof {
                lemma_px_floor_bounds(sv0.x as int);
                lemma_px_floor_bounds(sv0.y as int);
                lemma_px_floor_bounds(sv1.x as int);
                lemma_px_floor_bounds(sv1.y as int);
                lemma_px_floor_bounds(sv2.x as int);
                lemma_px_floor_bounds(sv2.y as int);
            }
            let x0 = div_floor(sv0.x, FP_ONE) as i32;
            let y0 = div_floor(sv0.y, FP_ONE) as i32;
            let x1 = div_floor(sv1.x, FP_ONE) as i32;
            let y1 = div_floor(sv1.y, FP_ONE) as i32;
            let x2 = div_floor(sv2.x, FP_ONE) as i32;
            let y2 = div_floor(sv2.y, FP_ONE) as i32;
            let ghost w = fb0.spec_width();
            let ghost h = fb0.spec_height();
            let ghost pa = screen_px(transform_spec(view3(mesh.vertices@[f.i0 as int]), *p, w, h));
            let ghost pb = screen_px(transform_spec(view3(mesh.vertices@[f.i1 as int]), *p, w, h));
            let ghost pc = screen_px(transform_spec(view3(mesh.vertices@[f.i2 as int]), *p, w, h));
            proof {
                assert(x0 as int == pa.0 && y0 as int == pa.1);
                assert(x1 as int == pb.0 && y1 as int == pb.1);
                assert(x2 as int == pc.0 && y2 as int == pc.1);
            }
            let ghost fb_a = *fb;
            draw_line(fb, x0, y0, x1, y1, line_color);
            proof {
                assert(fb.colors() == paint(fb_a.colors(), w, h, line_pts_of(pa, pb), line_color));
                fb_a.lemma_wf_len();
                lemma_paint_pointwise(fb_a.colors(), w, h, line_pts_of(pa, pb), line_color);
            }
            let ghost fb_b = *fb;
            draw_line(fb, x1, y1, x2, y2, line_color);
            proof {
                assert(fb.colors() == paint(fb_b.colors(), w, h, line_pts_of(pb, pc), line_color));
                fb_b.lemma_wf_len();
                lemma_paint_pointwise(fb_b.colors(), w, h, line_pts_of(pb, pc), line_color);
            }
            let ghost fb_c = *fb;
            draw_line(fb, x2, y2, x0, y0, line_color);
            proof {
                assert(fb.colors() == paint(fb_c.colors(), w, h, line_pts_of(pc, pa), line_color));
                fb_c.lemma_wf_len();
                lemma_paint_pointwise(fb_c.colors(), w, h, line_pts_of(pc, pa), line_color);
                assert(fb.colors() == face_edges_painted(*mesh, f, *p, w, h, fb_a.colors(), line_color));
            }
        }
        i = i + 1;
    }
    proof {
        assert(i as int == mesh.faces@.len() as int);
    }
}

} // verus!
