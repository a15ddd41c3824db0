//! The framebuffer: a color plane and a depth plane of identical dimensions,
//! with clearing, bounds-checked pixel writes and depth-tested pixel writes.
//!
//! The depth plane stores fixed-point depths; a cleared cell holds the
//! finite sentinel [`DEPTH_FAR`], larger than any depth the rasterizer can
//! produce, so the first depth-tested write to a cleared pixel always lands.

use vstd::prelude::*;
use crate::color::Color;

verus! {

/// The finite "maximum distance" depth sentinel a cleared depth plane holds.
pub const DEPTH_FAR: i64 = 9223372036854775807;

/// Flat index of the pixel `(x, y)` in a row-major plane of width `w`.
pub open spec fn pix_idx(w: int, x: int, y: int) -> int {
    y * w + x
}

/// What one depth-tested write at flat index `k` with depth `z` leaves in
/// the depth plane: the write lands only when strictly closer than what the
/// cell already holds.
pub open spec fn depth_after_write(depth: Seq<i64>, k: int, z: i64) -> Seq<i64> {
    if z < depth[k] {
        depth.update(k, z)
    } else {
        depth
    }
}

/// What the same write leaves in the color plane.
pub open spec fn color_after_write(color: Seq<Color>, depth: Seq<i64>, k: int, c: Color, z: i64) -> Seq<Color> {
    if z < depth[k] {
        color.update(k, c)
    } else {
        color
    }
}

/// Owns the color plane and the depth plane of one render target.
pub struct Framebuffer {
    color: Vec<Color>,
    depth: Vec<i64>,
    width: usize,
    height: usize,
}

impl Framebuffer {
    /// Number of pixel columns.
    pub closed spec fn spec_width(self) -> int {
        self.width as int
    }

    /// Number of pixel rows.
    pub closed spec fn spec_height(self) -> int {
        self.height as int
    }

    /// The color plane, row-major.
    pub closed spec fn colors(self) -> Seq<Color> {
        self.color@
    }

    /// The depth plane, row-major, indexed exactly as the color plane.
    pub closed spec fn depths(self) -> Seq<i64> {
        self.depth@
    }

    /// Well-formedness: the two planes have the same length, matching the
    /// stored dimensions.
    pub closed spec fn wf(self) -> bool {
        &&& self.color@.len() == self.width * self.height
        &&& self.depth@.len() == self.width * self.height
        &&& self.width * self.height <= usize::MAX
    }

    /// The planes of a well-formed framebuffer hold `width * height` cells.
    pub proof fn lemma_wf_len(self)
        requires
            self.wf(),
        ensures
            self.colors().len() == self.spec_width() * self.spec_height(),
            self.depths().len() == self.spec_width() * self.spec_height(),
    {
    }

    /// Whether `(x, y)` lies within `[0, width) x [0, height)`.
    pub open spec fn spec_in_bounds(self, x: int, y: int) -> bool {
        0 <= x < self.spec_width() && 0 <= y < self.spec_height()
    }

    /// A pixel inside the bounds has its flat index inside the planes.
    pub proof fn lemma_idx_in_range(self, x: int, y: int)
        requires
            self.wf(),
            self.spec_in_bounds(x, y),
        ensures
            0 <= pix_idx(self.spec_width(), x, y) < self.colors().len(),
            0 <= pix_idx(self.spec_width(), x, y) < self.depths().len(),
    {
        let w = self.spec_width();
        let h = self.spec_height();
        assert(0 <= y * w + x < w * h) by (nonlinear_arith)
            requires
                0 <= x < w,
                0 <= y < h,
        ;
    }

    /// Distinct in-bounds pixels have distinct flat indices.
    pub proof fn lemma_idx_injective(self, i1: int, j1: int, i2: int, j2: int)
        requires
            self.spec_in_bounds(i1, j1),
            self.spec_in_bounds(i2, j2),
            pix_idx(self.spec_width(), i1, j1) == pix_idx(self.spec_width(), i2, j2),
        ensures
            i1 == i2 && j1 == j2,
    {
        let w = self.spec_width();
        assert(i1 == i2 && j1 == j2) by (nonlinear_arith)
            requires
                0 <= i1 < w,
                0 <= i2 < w,
                j1 * w + i1 == j2 * w + i2,
        ;
    }

    /// Creates a framebuffer of the given resolution with every pixel black
    /// and every depth cell at the far sentinel.
    pub fn new(width: usize, height: usize) -> (fb: Framebuffer)
        requires
            width * height <= usize::MAX,
        ensures
            fb.wf(),
            fb.spec_width() == width,
            fb.spec_height() == height,
            forall|k: int| 0 <= k < fb.colors().len() ==> fb.colors()[k] == (Color { r: 0, g: 0, b: 0 }),
            forall|k: int| 0 <= k < fb.depths().len() ==> fb.depths()[k] == DEPTH_FAR,
    {
        let n: usize = width * height;
        let mut color: Vec<Color> = Vec::new();
        let mut depth: Vec<i64> = Vec::new();
        let mut i: usize = 0;
        while i < n
            invariant
                i <= n,
                color@.len() == i,
                depth@.len() == i,
                forall|k: int| 0 <= k < i ==> color@[k] == (Color { r: 0, g: 0, b: 0 }),
                forall|k: int| 0 <= k < i ==> depth@[k] == DEPTH_FAR,
            decreases n - i,
        {
            color.push(Color { r: 0, g: 0, b: 0 });
            depth.push(DEPTH_FAR);
            i = i + 1;
        }
        Framebuffer { color, depth, width, height }
    }

    /// Number of pixel columns.
    pub fn width(&self) -> (w: usize)
        ensures
            w == self.spec_width(),
    {
        self.width
    }

    /// Number of pixel rows.
    pub fn height(&self) -> (h: usize)
        ensures
            h == self.spec_height(),
    {
        self.height
    }

    /// Sets every color pixel to `background` and every depth cell to the
    /// far sentinel, so the next frame's occlusion test starts afresh.
    pub fn clear(&mut self, background: Color)
        requires
            old(self).wf(),
        ensures
            final(self).wf(),
            final(self).spec_width() == old(self).spec_width(),
            final(self).spec_height() == old(self).spec_height(),
            final(self).colors().len() == old(self).colors().len(),
            final(self).depths().len() == old(self).depths().len(),
            forall|k: int| 0 <= k < final(self).colors().len() ==> final(self).colors()[k] == background,
            forall|k: int| 0 <= k < final(self).depths().len() ==> final(self).depths()[k] == DEPTH_FAR,
    {
        let n: usize = self.color.len();
        let mut i: usize = 0;
        while i < n
            invariant
                i <= n,
                self.color@.len() == n,
                self.depth@.len() == n,
                self.width == old(self).width,
                self.height == old(self).height,
                old(self).wf(),
                n == old(self).color@.len(),
                forall|k: int| 0 <= k < i ==> self.color@[k] == background,
                forall|k: int| 0 <= k < i ==> self.depth@[k] == DEPTH_FAR,
            decreases n - i,
        {
            self.color.set(i, background);
            self.depth.set(i, DEPTH_FAR);
            i = i + 1;
        }
    }

    /// Reads the color at `(x, y)`.
    pub fn get_pixel(&self, x: i32, y: i32) -> (c: Color)
        requires
            self.wf(),
            self.spec_in_bounds(x as int, y as int),
        ensures
            c == self.colors()[pix_idx(self.spec_width(), x as int, y as int)],
    {
        proof {
            self.lemma_idx_in_range(x as int, y as int);
        }
        let index: usize = (y as usize) * self.width + (x as usize);
        self.color[index]
    }

    /// Reads the depth at `(x, y)`.
    pub fn get_depth(&self, x: i32, y: i32) -> (z: i64)
        requires
            self.wf(),
            self.spec_in_bounds(x as int, y as int),
        ensures
            z == self.depths()[pix_idx(self.spec_width(), x as int, y as int)],
    {
        proof {
            self.lemma_idx_in_range(x as int, y as int);
        }
        let index: usize = (y as usize) * self.width + (x as usize);
        self.depth[index]
    }

    /// Writes `c` at `(x, y)` when the pixel lies within the bounds and
    /// silently leaves both planes unchanged otherwise. The depth plane is
    /// never touched.
    pub fn set_pixel(&mut self, x: i32, y: i32, c: Color)
        requires
            old(self).wf(),
        ensures
            final(self).wf(),
            final(self).spec_width() == old(self).spec_width(),
            final(self).spec_height() == old(self).spec_height(),
            final(self).depths() == old(self).depths(),
            old(self).spec_in_bounds(x as int, y as int) ==> final(self).colors()
                == old(self).colors().update(pix_idx(old(self).spec_width(), x as int, y as int), c),
            !old(self).spec_in_bounds(x as int, y as int) ==> final(self).colors() == old(self).colors(),
            old(self).spec_in_bounds(x as int, y as int) ==> final(self).colors()[pix_idx(
                old(self).spec_width(),
                x as int,
                y as int,
            )] == c,
            forall|i: int, j: int|
                #![trigger pix_idx(old(self).spec_width(), i, j)]
                old(self).spec_in_bounds(i, j) && !(i == x as int && j == y as int) ==> final(self).colors()[pix_idx(
                    old(self).spec_width(),
                    i,
                    j,
                )] == old(self).colors()[pix_idx(old(self).spec_width(), i, j)],
    {
        if x >= 0 && (x as usize) < self.width && y >= 0 && (y as usize) < self.height {
            proof {
                self.lemma_idx_in_range(x as int, y as int);
            }
            let index: usize = (y as usize) * self.width + (x as usize);
            self.color.set(index, c);
            proof {
                assert forall|i: int, j: int|
                    old(self).spec_in_bounds(i, j) && !(i == x as int && j == y as int) implies #[trigger] self.colors()[pix_idx(
                    old(self).spec_width(),
                    i,
                    j,
                )] == old(self).colors()[pix_idx(old(self).spec_width(), i, j)] by {
                    old(self).lemma_idx_in_range(i, j);
                    if pix_idx(old(self).spec_width(), i, j) == pix_idx(old(self).spec_width(), x as int, y as int) {
                        old(self).lemma_idx_injective(i, j, x as int, y as int);
                    }
                }
            }
        }
    }

    /// Writes color and depth at `(x, y)` only when `z` is strictly closer
    /// than the depth the cell already holds; out-of-bounds coordinates are
    /// silently ignored. This is the sole mechanism enforcing occlusion.
    pub fn set_pixel_depth_tested(&mut self, x: i32, y: i32, c: Color, z: i64)
        requires
            old(self).wf(),
        ensures
            final(self).wf(),
            final(self).spec_width() == old(self).spec_width(),
            final(self).spec_height() == old(self).spec_height(),
            old(self).spec_in_bounds(x as int, y as int) ==> {
                let k = pix_idx(old(self).spec_width(), x as int, y as int);
                &&& final(self).depths() == depth_after_write(old(self).depths(), k, z)
                &&& final(self).colors() == color_after_write(old(self).colors(), old(self).depths(), k, c, z)
            },
            !old(self).spec_in_bounds(x as int, y as int) ==> {
                &&& final(self).depths() == old(self).depths()
                &&& final(self).colors() == old(self).colors()
            },
            old(self).spec_in_bounds(x as int, y as int) ==> {
                let k = pix_idx(old(self).spec_width(), x as int, y as int);
                let d = old(self).depths()[k];
                &&& final(self).depths()[k] == (if z < d { z } else { d })
                &&& final(self).colors()[k] == (if z < d { c } else { old(self).colors()[k] })
            },
            forall|i: int, j: int|
                #![trigger pix_idx(old(self).spec_width(), i, j)]
                old(self).spec_in_bounds(i, j) && !(i == x as int && j == y as int) ==> {
                    let k = pix_idx(old(self).spec_width(), i, j);
                    &&& final(self).depths()[k] == old(self).depths()[k]
                    &&& final(self).colors()[k] == old(self).colors()[k]
                },
    {
        if x >= 0 && (x as usize) < self.width && y >= 0 && (y as usize) < self.height {
            proof {
                self.lemma_idx_in_range(x as int, y as int);
            }
            let index: usize = (y as usize) * self.width + (x as usize);
            if z < self.depth[index] {
                self.color.set(index, c);
                self.depth.set(index, z);
            }
            proof {
                assert forall|i: int, j: int|
                    old(self).spec_in_bounds(i, j) && !(i == x as int && j == y as int) implies {
                    let k = #[trigger] pix_idx(old(self).spec_width(), i, j);
                    self.depths()[k] == old(self).depths()[k] && self.colors()[k] == old(self).colors()[k]
                } by {
                    old(self).lemma_idx_in_range(i, j);
                    if pix_idx(old(self).spec_width(), i, j) == pix_idx(old(self).spec_width(), x as int, y as int) {
                        old(self).lemma_idx_injective(i, j, x as int, y as int);
                    }
                }
            }
        }
    }

    /// Packs the color plane into row-major bytes, three channels per pixel,
    /// for a display collaborator to blit.
    pub fn to_rgb_bytes(&self) -> (bytes: Vec<u8>)
        requires
            self.wf(),
            3 * self.colors().len() <= usize::MAX,
        ensures
            bytes@.len() == 3 * self.colors().len(),
            forall|k: int| 0 <= k < self.colors().len() ==> {
                &&& bytes@[3 * k] == self.colors()[k].r
                &&& bytes@[3 * k + 1] == self.colors()[k].g
                &&& bytes@[3 * k + 2] == self.colors()[k].b
            },
    {
        let n: usize = self.color.len();
        let mut bytes: Vec<u8> = Vec::new();
        let mut i: usize = 0;
        while i < n
            invariant
                i <= n,
                n == self.colors().len(),
                3 * n <= usize::MAX,
                bytes@.len() == 3 * i,
                forall|k: int| 0 <= k < i ==> {
                    &&& bytes@[3 * k] == self.colors()[k].r
                    &&& bytes@[3 * k + 1] == self.colors()[k].g
                    &&& bytes@[3 * k + 2] == self.colors()[k].b
                },
            decreases n - i,
        {
            let c = self.color[i];
            bytes.push(c.r);
            bytes.push(c.g);
            bytes.push(c.b);
            i = i + 1;
        }
        bytes
    }
}

/// Repeating one depth-tested write with identical arguments changes
/// nothing the second time.
pub proof fn lemma_depth_write_idempotent(color: Seq<Color>, depth: Seq<i64>, k: int, c: Color, z: i64)
    requires
        0 <= k < depth.len(),
        depth.len() == color.len(),
    ensures
        depth_after_write(depth_after_write(depth, k, z), k, z) == depth_after_write(depth, k, z),
        color_after_write(color_after_write(color, depth, k, c, z), depth_after_write(depth, k, z), k, c, z)
            == color_after_write(color, depth, k, c, z),
{
    if z < depth[k] {
        assert(depth_after_write(depth, k, z)[k] == z);
        assert(depth_after_write(depth_after_write(depth, k, z), k, z) =~= depth.update(k, z));
    }
}

/// Two depth-tested writes at the same pixel with distinct depths leave the
/// color and depth of whichever write was closer, in either order.
pub proof fn lemma_depth_write_order_independent(
    color: Seq<Color>,
    depth: Seq<i64>,
    k: int,
    c1: Color,
    z1: i64,
    c2: Color,
    z2: i64,
)
    requires
        0 <= k < depth.len(),
        depth.len() == color.len(),
        z1 != z2,
    ensures
        depth_after_write(depth_after_write(depth, k, z1), k, z2)
            == depth_after_write(depth_after_write(depth, k, z2), k, z1),
        color_after_write(
            color_after_write(color, depth, k, c1, z1),
            depth_after_write(depth, k, z1),
            k,
            c2,
            z2,
        ) == color_after_write(
            color_after_write(color, depth, k, c2, z2),
            depth_after_write(depth, k, z2),
            k,
            c1,
            z1,
        ),
        if z1 < z2 {
            depth_after_write(depth_after_write(depth, k, z1), k, z2) == depth_after_write(depth, k, z1)
                && color_after_write(
                color_after_write(color, depth, k, c1, z1),
                depth_after_write(depth, k, z1),
                k,
                c2,
                z2,
            ) == color_after_write(color, depth, k, c1, z1)
        } else {
            depth_after_write(depth_after_write(depth, k, z1), k, z2) == depth_after_write(depth, k, z2)
                && color_after_write(
                color_after_write(color, depth, k, c1, z1),
                depth_after_write(depth, k, z1),
                k,
                c2,
                z2,
            ) == color_after_write(color, depth, k, c2, z2)
        },
{
    let d1 = depth_after_write(depth, k, z1);
    let d2 = depth_after_write(depth, k, z2);
    if z1 < depth[k] {
        assert(d1[k] == z1);
    }
    if z2 < depth[k] {
        assert(d2[k] == z2);
    }
    if z1 < z2 {
        if z2 < depth[k] {
            assert(depth_after_write(d2, k, z1) =~= depth.update(k, z1));
        }
        if z1 < depth[k] {
            assert(depth_after_write(d1, k, z2) =~= depth.update(k, z1));
            assert(depth_after_write(d2, k, z1) =~= depth.update(k, z1));
        }
    } else {
        if z1 < depth[k] {
            assert(depth_after_write(d1, k, z2) =~= depth.update(k, z2));
        }
        if z2 < depth[k] {
            assert(depth_after_write(d1, k, z2) =~= depth.update(k, z2));
            assert(depth_after_write(d2, k, z1) =~= depth.update(k, z2));
        }
    }
}

} // verus!
