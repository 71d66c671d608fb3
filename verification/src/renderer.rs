//! The rendering pipeline: per-triangle precomputation, barycentric
//! rasterization with depth interpolation, tile binning, and the grid of
//! per-tile renderers.

use vstd::prelude::*;
use vstd::arithmetic::div_mod::lemma_div_is_ordered;
use crate::fixed::{fadd, fdiv, fmul, fsub, sadd, sdiv, smul, ssub, SCALE};
use crate::framebuffer::{grid_count, pix_index, tile_extent, Framebuffer, RegionBuffer};
use crate::framebuffer::{lemma_pix_index_bounds, lemma_sample_coord_bounds, sample_coord};
use crate::vector::{spec_dot3, spec_minus3, Attribute, Vector3};

verus! {

/// A triangle as cached at enqueue time: the anchor vertex `a`, the two
/// edge vectors, their dot products, the reciprocal of the barycentric
/// denominator, the screen-space depth slopes, and where the three
/// vertex attributes sit in the tile's attribute array.
#[derive(Clone, Copy, Debug)]
pub struct Triangle {
    pub indices: (usize, usize, usize),
    pub d00: i64,
    pub d01: i64,
    pub d11: i64,
    pub inv: i64,
    pub zx: i64,
    pub zy: i64,
    pub v0: Vector3,
    pub v1: Vector3,
    pub a: Vector3,
}

/// Dot product of `p - a` with the first edge vector.
pub open spec fn spec_d20(t: Triangle, p: Vector3) -> i64 {
    spec_dot3(spec_minus3(p, t.a), t.v0)
}

/// Dot product of `p - a` with the second edge vector.
pub open spec fn spec_d21(t: Triangle, p: Vector3) -> i64 {
    spec_dot3(spec_minus3(p, t.a), t.v1)
}

/// The barycentric weight of the second vertex at point `p`.
pub open spec fn bary_v(t: Triangle, p: Vector3) -> i64 {
    smul(ssub(smul(t.d11, spec_d20(t, p)), smul(t.d01, spec_d21(t, p))), t.inv)
}

/// The barycentric weight of the third vertex at point `p`.
pub open spec fn bary_w(t: Triangle, p: Vector3) -> i64 {
    smul(ssub(smul(t.d00, spec_d21(t, p)), smul(t.d01, spec_d20(t, p))), t.inv)
}

/// The barycentric weight of the first vertex: one minus the other two.
pub open spec fn bary_u(t: Triangle, p: Vector3) -> i64 {
    ssub(ssub(SCALE, bary_v(t, p)), bary_w(t, p))
}

/// The barycentric inside test: a point is inside when no weight is
/// negative.
pub open spec fn inside(t: Triangle, p: Vector3) -> bool {
    bary_v(t, p) >= 0 && bary_w(t, p) >= 0 && bary_u(t, p) >= 0
}

/// Barycentric correctness: wherever the inside test passes, the three
/// weights handed to attribute interpolation sum exactly to one (the
/// fixed-point unit), since `u` is defined as the exact remainder and
/// saturation would have made it negative.
pub proof fn lemma_barycentric_weights_sum(t: Triangle, p: Vector3)
    requires
        inside(t, p),
    ensures
        bary_u(t, p) + bary_v(t, p) + bary_w(t, p) == SCALE,
{
}

impl Triangle {
    /// Whether `point` is inside the triangle; if it is, the attributes
    /// interpolated with the barycentric weights, else nothing.
    pub fn interpolate<A: Attribute>(&self, point: Vector3, a0: &A, a1: &A, a2: &A) -> (r: Option<
        A,
    >)
        ensures
            r == if inside(*self, point) {
                Some(
                    A::combined_spec(
                        *a0,
                        *a1,
                        *a2,
                        bary_v(*self, point),
                        bary_w(*self, point),
                        bary_u(*self, point),
                    ),
                )
            } else {
                Option::<A>::None
            },
    {
        let vp = point.minus(&self.a);
        let d20 = vp.dot(&self.v0);
        let d21 = vp.dot(&self.v1);

        let v = fmul(fsub(fmul(self.d11, d20), fmul(self.d01, d21)), self.inv);
        let w = fmul(fsub(fmul(self.d00, d21), fmul(self.d01, d20)), self.inv);
        let u = fsub(fsub(SCALE, v), w);

        if v < 0 || w < 0 || u < 0 {
            None
        } else {
            Some(A::combined(*a0, *a1, *a2, v, w, u))
        }
    }
}

/// A pixel coordinate normalized into `[0, 1)` fixed-point: `v * SCALE / n`.
pub open spec fn norm_coord(v: int, n: int) -> i64 {
    (v * (SCALE as int) / n) as i64
}

/// The sample point the rasterizer evaluates at pixel `(x, y)` of a
/// `w x h` image for triangle `t`: the normalized coordinates, and the
/// depth of the triangle's plane there.
pub open spec fn pixel_point(t: Triangle, x: int, y: int, w: int, h: int) -> Vector3 {
    let nx = norm_coord(x, w);
    let ny = norm_coord(y, h);
    (Vector3 {
        x: nx,
        y: ny,
        z: sadd(sadd(t.a.z, smul(t.zx, ssub(nx, t.a.x))), smul(t.zy, ssub(ny, t.a.y))),
    })
}

/// Whether the rasterizer writes pixel `(x, y)` of a `w x h` image for
/// triangle `t`.
pub open spec fn covers(t: Triangle, x: int, y: int, w: int, h: int) -> bool {
    inside(t, pixel_point(t, x, y, w, h))
}

pub proof fn lemma_norm_coord_bounds(v: int, n: int)
    requires
        0 <= v < n,
        1 <= n <= 0xFFFF,
    ensures
        0 <= norm_coord(v, n) < SCALE,
{
    assert(v * (SCALE as int) >= 0) by (nonlinear_arith)
        requires
            v >= 0,
    ;
    assert(v * (SCALE as int) <= (n - 1) * (SCALE as int)) by (nonlinear_arith)
        requires
            v <= n - 1,
    ;
    lemma_div_is_ordered(v * (SCALE as int), (n - 1) * (SCALE as int), n);
    assert((n - 1) * (SCALE as int) == n * (SCALE as int) - SCALE) by (nonlinear_arith);
    assert((n * (SCALE as int) - SCALE) / n < SCALE) by {
        assert(n * (SCALE as int) - SCALE == ((SCALE as int) - 1) * n + (n - SCALE)) by (nonlinear_arith);
        if n - SCALE >= 0 {
            // n == SCALE exactly at the boundary is impossible: n <= 0xFFFF < SCALE
            assert(false);
        }
        assert(n * (SCALE as int) - SCALE <= ((SCALE as int) - 1) * n + (n - 1));
        lemma_div_is_ordered(n * (SCALE as int) - SCALE, ((SCALE as int) - 1) * n + (n - 1), n);
        vstd::arithmetic::div_mod::lemma_fundamental_div_mod_converse(
            ((SCALE as int) - 1) * n + (n - 1),
            n,
            (SCALE as int) - 1,
            n - 1,
        );
    }
}

/// The normalized coordinate, computed: `v * SCALE / n`.
pub fn norm_coord_exec(v: usize, n: usize) -> (r: i64)
    requires
        v < n,
        1 <= n <= 0xFFFF,
    ensures
        r == norm_coord(v as int, n as int),
        0 <= r < SCALE,
{
    proof {
        lemma_norm_coord_bounds(v as int, n as int);
    }
    ((v as u64) * (SCALE as u64) / (n as u64)) as i64
}


/// The two programmable stages and their value types.  The vertex stage
/// maps an input and the uniform to a position in normalized device
/// coordinates plus an attribute; the fragment stage maps an interpolated
/// sample point, attribute and uniform snapshot to a color.  Both are
/// meant to be pure; nothing else is assumed of them.
pub trait Pipeline: Sized {
    type Input;

    type Uniform: Copy;

    type Attr: Attribute;

    /// What the vertex stage returns: a pure function of the input and
    /// the uniform.
    spec fn vertex_spec(&self, input: Self::Input, uniform: Self::Uniform) -> (Vector3, Self::Attr);

    /// What the fragment stage returns: a pure function of the sample
    /// point, the interpolated attribute and the uniform snapshot.
    spec fn fragment_spec(&self, p: Vector3, attr: Self::Attr, uniform: Self::Uniform) -> Vector3;

    fn vertex(&self, input: Self::Input, uniform: &Self::Uniform) -> (r: (Vector3, Self::Attr))
        ensures
            r == self.vertex_spec(input, *uniform),
    ;

    fn fragment(&self, p: Vector3, attr: Self::Attr, uniform: &Self::Uniform) -> (r: Vector3)
        ensures
            r == self.fragment_spec(p, attr, *uniform),
    ;
}

/// One tile's renderer: the queue of triangles binned into the tile,
/// their vertex attributes (three per triangle) and per-triangle uniform
/// snapshots, and the tile's rectangle within the image.
pub struct RegionRenderer<P: Pipeline> {
    pub shader: P,
    pub uniforms: Vec<P::Uniform>,
    pub triangles_attrs: Vec<P::Attr>,
    pub triangles: Vec<Triangle>,
    pub from: (usize, usize),
    pub width: usize,
    pub height: usize,
    pub region_width: usize,
    pub region_height: usize,
}

impl<P: Pipeline> RegionRenderer<P> {
    pub open spec fn wf(&self) -> bool {
        &&& self.triangles_attrs@.len() == 3 * self.triangles@.len()
        &&& self.uniforms@.len() == self.triangles@.len()
        &&& forall|k: int|
            0 <= k < self.triangles@.len() ==> {
                let tr = #[trigger] self.triangles@[k];
                tr.indices.0 == 3 * k && tr.indices.1 == 3 * k + 1 && tr.indices.2 == 3 * k + 2
            }
        &&& 0 < self.width <= 0xFFFF
        &&& 0 < self.height <= 0xFFFF
        &&& self.from.0 + self.region_width <= self.width
        &&& self.from.1 + self.region_height <= self.height
    }

    /// No triangle among the first `k` queued ones writes pixel `(x, y)`.
    pub open spec fn uncovered_prefix(&self, k: int, x: int, y: int) -> bool {
        forall|j: int|
            0 <= j < k ==> !covers(
                #[trigger] self.triangles@[j],
                x,
                y,
                self.width as int,
                self.height as int,
            )
    }

    /// No queued triangle writes pixel `(x, y)`.
    pub open spec fn uncovered(&self, x: int, y: int) -> bool {
        self.uncovered_prefix(self.triangles@.len() as int, x, y)
    }

    /// Whether an image pixel lies inside this renderer's tile rectangle.
    pub open spec fn in_tile(&self, x: int, y: int) -> bool {
        &&& self.from.0 <= x < self.from.0 + self.region_width
        &&& self.from.1 <= y < self.from.1 + self.region_height
    }

    /// The fragment stage's output for queued triangle `k` at pixel
    /// `(x, y)`: the sample point on the triangle's plane, the three
    /// vertex attributes interpolated with the barycentric weights
    /// there, and the uniform snapshot taken when the triangle was
    /// enqueued.
    pub open spec fn shaded(&self, k: int, x: int, y: int) -> Vector3
        recommends
            self.wf(),
            0 <= k < self.triangles@.len(),
    {
        let t = self.triangles@[k];
        let pt = pixel_point(t, x, y, self.width as int, self.height as int);
        self.shader.fragment_spec(
            pt,
            <P::Attr as Attribute>::combined_spec(
                self.triangles_attrs@[3 * k],
                self.triangles_attrs@[3 * k + 1],
                self.triangles_attrs@[3 * k + 2],
                bary_v(t, pt),
                bary_w(t, pt),
                bary_u(t, pt),
            ),
            self.uniforms@[k],
        )
    }

    /// The depth pixel `(x, y)` holds after the first `k` queued
    /// triangles have been rasterized over a pixel that started at depth
    /// `d0`: each covering triangle whose plane is strictly nearer than
    /// what the pixel holds lowers it to that plane.
    pub open spec fn depth_after(&self, k: int, x: int, y: int, d0: i64) -> i64
        decreases k,
    {
        if k <= 0 {
            d0
        } else {
            let d = self.depth_after(k - 1, x, y, d0);
            let t = self.triangles@[k - 1];
            let z = pixel_point(t, x, y, self.width as int, self.height as int).z;
            if covers(t, x, y, self.width as int, self.height as int) && z < d {
                z
            } else {
                d
            }
        }
    }

    /// The color pixel `(x, y)` holds after the first `k` queued
    /// triangles have been rasterized over a pixel that started at color
    /// `c0` and depth `d0`: each triangle that wins the depth test
    /// stores its fragment output, so the earliest nearest covering
    /// triangle's fragment survives.
    pub open spec fn color_after(&self, k: int, x: int, y: int, c0: Vector3, d0: i64) -> Vector3
        decreases k,
    {
        if k <= 0 {
            c0
        } else {
            let d = self.depth_after(k - 1, x, y, d0);
            let c = self.color_after(k - 1, x, y, c0, d0);
            let t = self.triangles@[k - 1];
            let z = pixel_point(t, x, y, self.width as int, self.height as int).z;
            if covers(t, x, y, self.width as int, self.height as int) && z < d {
                self.shaded(k - 1, x, y)
            } else {
                c
            }
        }
    }

    /// A pixel no triangle among the first `k` covers keeps its starting
    /// color and depth through the fold.
    pub proof fn lemma_uncovered_fold(&self, k: int, x: int, y: int, c0: Vector3, d0: i64)
        requires
            0 <= k <= self.triangles@.len(),
            self.uncovered_prefix(k, x, y),
        ensures
            self.depth_after(k, x, y, d0) == d0,
            self.color_after(k, x, y, c0, d0) == c0,
        decreases k,
    {
        if k > 0 {
            self.lemma_uncovered_fold(k - 1, x, y, c0, d0);
        }
    }

    /// An empty renderer for a tile of the given extent anchored at the
    /// origin.
    pub fn without_dimensions(
        shader: P,
        width: usize,
        height: usize,
        region_width: usize,
        region_height: usize,
    ) -> (r: Self)
        requires
            0 < width <= 0xFFFF,
            0 < height <= 0xFFFF,
            region_width <= width,
            region_height <= height,
        ensures
            r.wf(),
            r.triangles@.len() == 0,
            r.triangles_attrs@.len() == 0,
            r.uniforms@.len() == 0,
            r.from == (0usize, 0usize),
            r.width == width,
            r.height == height,
            r.region_width == region_width,
            r.region_height == region_height,
            r.shader == shader,
    {
        RegionRenderer {
            shader,
            uniforms: Vec::new(),
            triangles_attrs: Vec::new(),
            triangles: Vec::new(),
            from: (0, 0),
            width,
            height,
            region_width,
            region_height,
        }
    }

    /// Append one triangle to the tile queue: the cached record, the
    /// three vertex attributes behind it, and the uniform snapshot.
    /// A degenerate triangle gets `inv == 0` by the division convention
    /// and would then pass the inside test everywhere with the first
    /// vertex's weight; the binning stage therefore drops degenerate
    /// triangles instead of pushing them.
    pub fn push_triangle(
        &mut self,
        p0: Vector3,
        a0: P::Attr,
        p1: Vector3,
        a1: P::Attr,
        p2: Vector3,
        a2: P::Attr,
        u: P::Uniform,
    )
        requires
            old(self).wf(),
            old(self).triangles@.len() < 0x100_0000,
        ensures
            final(self).wf(),
            enqueued(*old(self), *final(self), p0, a0, p1, a1, p2, a2, u),
    {
        let v0 = p1.minus(&p0);
        let v1 = p2.minus(&p0);
        let d00 = v0.dot(&v0);
        let d01 = v0.dot(&v1);
        let d11 = v1.dot(&v1);
        let denom = fsub(fmul(d00, d11), fmul(d01, d01));
        let inv = fdiv(SCALE, denom);
        let cross = fsub(fmul(v1.x, v0.y), fmul(v1.y, v0.x));
        let invz = fdiv(SCALE, cross);
        let zx = fmul(fsub(fmul(v0.y, v1.z), fmul(v1.y, v0.z)), invz);
        let zy = fmul(fsub(fmul(v1.x, v0.z), fmul(v0.x, v1.z)), invz);
        let base = self.triangles_attrs.len();
        self.triangles.push(
            Triangle {
                indices: (base, base + 1, base + 2),
                d00,
                d01,
                d11,
                inv,
                zx,
                zy,
                v0,
                v1,
                a: p0,
            },
        );
        self.triangles_attrs.push(a0);
        self.triangles_attrs.push(a1);
        self.triangles_attrs.push(a2);
        self.uniforms.push(u);
    }

    /// Rasterize one pixel for one triangle: evaluate the sample point,
    /// run the inside test, and on a hit run the fragment stage and
    /// submit the depth-tested write.  Every pixel but `(x, y)` keeps its
    /// value; `(x, y)` keeps its value unless the triangle covers it, and
    /// its depth can only become the plane depth there, never larger.
    fn raster_pixel(
        &self,
        tri: &Triangle,
        ui: usize,
        x: usize,
        y: usize,
        a0: &P::Attr,
        a1: &P::Attr,
        a2: &P::Attr,
        buffer: &mut RegionBuffer,
    )
        requires
            self.wf(),
            old(buffer).wf(),
            x < self.width,
            y < self.height,
            ui < self.uniforms@.len(),
        ensures
            final(buffer).wf(),
            final(buffer).from_x == old(buffer).from_x,
            final(buffer).from_y == old(buffer).from_y,
            final(buffer).width == old(buffer).width,
            final(buffer).height == old(buffer).height,
            final(buffer).colors_seq().len() == old(buffer).colors_seq().len(),
            final(buffer).depth_seq().len() == old(buffer).depth_seq().len(),
            forall|i: int|
                0 <= i < old(buffer).colors_seq().len() && (!old(buffer).contains(x as int, y as int)
                    || i != old(buffer).local_index(x as int, y as int)) ==> final(buffer).colors_seq()[i] == old(buffer).colors_seq()[i] && final(buffer).depth_seq()[i]
                    == old(buffer).depth_seq()[i],
            !covers(*tri, x as int, y as int, self.width as int, self.height as int) ==> final(buffer).colors_seq() == old(buffer).colors_seq() && final(buffer).depth_seq() == old(buffer).depth_seq(),
            covers(*tri, x as int, y as int, self.width as int, self.height as int) && old(buffer).contains(x as int, y as int) ==> ({
                let li = old(buffer).local_index(x as int, y as int);
                let pt = pixel_point(
                    *tri,
                    x as int,
                    y as int,
                    self.width as int,
                    self.height as int,
                );
                let z = pt.z;
                &&& final(buffer).depth_seq() == if z < old(buffer).depth_seq()[li] {
                    old(buffer).depth_seq().update(li, z)
                } else {
                    old(buffer).depth_seq()
                }
                &&& final(buffer).colors_seq() == if z < old(buffer).depth_seq()[li] {
                    old(buffer).colors_seq().update(
                        li,
                        self.shader.fragment_spec(
                            pt,
                            <P::Attr as Attribute>::combined_spec(
                                *a0,
                                *a1,
                                *a2,
                                bary_v(*tri, pt),
                                bary_w(*tri, pt),
                                bary_u(*tri, pt),
                            ),
                            self.uniforms@[ui as int],
                        ),
                    )
                } else {
                    old(buffer).colors_seq()
                }
            }),
    {
        let nx = norm_coord_exec(x, self.width);
        let ny = norm_coord_exec(y, self.height);
        let z = fadd(fadd(tri.a.z, fmul(tri.zx, fsub(nx, tri.a.x))), fmul(tri.zy, fsub(ny, tri.a.y)));
        let point = Vector3::new(nx, ny, z);
        proof {
            if buffer.contains(x as int, y as int) {
                lemma_pix_index_bounds(
                    buffer.width as int,
                    buffer.height as int,
                    x - buffer.from_x,
                    y - buffer.from_y,
                );
            }
        }
        let interpolated = tri.interpolate(point, a0, a1, a2);
        match interpolated {
            Some(attr) => {
                let u = self.uniforms[ui];
                let color = self.shader.fragment(point, attr, &u);
                buffer.set_color(x, y, color, z);
            },
            None => {},
        }
    }

    /// Rasterize every queued triangle over the tile's rectangle, in
    /// enqueue order, submitting a depth-tested write for every covered
    /// pixel.  Each pixel of the rectangle ends exactly at the fold of
    /// the queue (`depth_after` / `color_after`): its depth is the least
    /// of its starting depth and the covering planes, and its color is
    /// the fragment output of the earliest nearest covering triangle,
    /// shaded with that triangle's uniform snapshot.  Pixels outside the
    /// rectangle, and pixels no queued triangle covers, are untouched;
    /// depths never increase.
    pub fn render_region(&self, buffer: &mut RegionBuffer)
        requires
            self.wf(),
            old(buffer).wf(),
        ensures
            final(buffer).wf(),
            final(buffer).from_x == old(buffer).from_x,
            final(buffer).from_y == old(buffer).from_y,
            final(buffer).width == old(buffer).width,
            final(buffer).height == old(buffer).height,
            final(buffer).colors_seq().len() == old(buffer).colors_seq().len(),
            final(buffer).depth_seq().len() == old(buffer).depth_seq().len(),
            forall|i: int|
                0 <= i < old(buffer).depth_seq().len() ==> final(buffer).depth_seq()[i] <= old(buffer).depth_seq()[i] && (final(buffer).depth_seq()[i] == old(buffer).depth_seq()[i]
                    ==> final(buffer).colors_seq()[i] == old(buffer).colors_seq()[i]),
            forall|x: int, y: int|
                #![trigger old(buffer).local_index(x, y)]
                old(buffer).contains(x, y) && self.uncovered(x, y) ==> final(buffer).colors_seq()[old(buffer).local_index(x, y)] == old(buffer).colors_seq()[old(buffer).local_index(x, y)] && final(buffer).depth_seq()[old(buffer).local_index(x, y)]
                    == old(buffer).depth_seq()[old(buffer).local_index(x, y)],
            forall|x: int, y: int, j: int|
                #![trigger old(buffer).local_index(x, y), self.triangles@[j]]
                old(buffer).contains(x, y) && self.in_tile(x, y) && 0 <= j
                    < self.triangles@.len() && covers(
                    self.triangles@[j],
                    x,
                    y,
                    self.width as int,
                    self.height as int,
                ) ==> final(buffer).depth_seq()[old(buffer).local_index(x, y)] <= pixel_point(
                    self.triangles@[j],
                    x,
                    y,
                    self.width as int,
                    self.height as int,
                ).z,
            forall|x: int, y: int|
                #![trigger old(buffer).local_index(x, y)]
                old(buffer).contains(x, y) && !self.in_tile(x, y) ==> final(buffer).colors_seq()[old(buffer).local_index(x, y)] == old(buffer).colors_seq()[old(buffer).local_index(x, y)] && final(buffer).depth_seq()[old(buffer).local_index(x, y)]
                    == old(buffer).depth_seq()[old(buffer).local_index(x, y)],
            forall|x: int, y: int|
                #![trigger old(buffer).local_index(x, y)]
                old(buffer).contains(x, y) && self.in_tile(x, y) ==> ({
                    let li = old(buffer).local_index(x, y);
                    let n = self.triangles@.len() as int;
                    &&& final(buffer).depth_seq()[li] == self.depth_after(
                        n,
                        x,
                        y,
                        old(buffer).depth_seq()[li],
                    )
                    &&& final(buffer).colors_seq()[li] == self.color_after(
                        n,
                        x,
                        y,
                        old(buffer).colors_seq()[li],
                        old(buffer).depth_seq()[li],
                    )
                }),
    {
        let tri_count = self.triangles.len();
        let mut t: usize = 0;
        while t < tri_count
            invariant
                self.wf(),
                old(buffer).wf(),
                buffer.wf(),
                tri_count == self.triangles@.len(),
                t <= tri_count,
                buffer.from_x == old(buffer).from_x,
                buffer.from_y == old(buffer).from_y,
                buffer.width == old(buffer).width,
                buffer.height == old(buffer).height,
                buffer.colors_seq().len() == old(buffer).colors_seq().len(),
                buffer.depth_seq().len() == old(buffer).depth_seq().len(),
                forall|i: int|
                    0 <= i < old(buffer).depth_seq().len() ==> buffer.depth_seq()[i] <= old(buffer).depth_seq()[i] && (buffer.depth_seq()[i] == old(buffer).depth_seq()[i]
                        ==> buffer.colors_seq()[i] == old(buffer).colors_seq()[i]),
                forall|x: int, y: int|
                    #![trigger old(buffer).local_index(x, y)]
                    old(buffer).contains(x, y) && self.uncovered_prefix(t as int, x, y)
                        ==> buffer.colors_seq()[old(buffer).local_index(x, y)] == old(buffer).colors_seq()[old(buffer).local_index(x, y)] && buffer.depth_seq()[old(buffer).local_index(x, y)] == old(buffer).depth_seq()[old(buffer).local_index(x, y)],
                forall|x: int, y: int, j: int|
                    #![trigger old(buffer).local_index(x, y), self.triangles@[j]]
                    old(buffer).contains(x, y) && self.in_tile(x, y) && 0 <= j < t && covers(
                        self.triangles@[j],
                        x,
                        y,
                        self.width as int,
                        self.height as int,
                    ) ==> buffer.depth_seq()[old(buffer).local_index(x, y)] <= pixel_point(
                        self.triangles@[j],
                        x,
                        y,
                        self.width as int,
                        self.height as int,
                    ).z,
                forall|x: int, y: int|
                    #![trigger old(buffer).local_index(x, y)]
                    old(buffer).contains(x, y) && !self.in_tile(x, y) ==> buffer.colors_seq()[old(buffer).local_index(x, y)] == old(buffer).colors_seq()[old(buffer).local_index(x, y)] && buffer.depth_seq()[old(buffer).local_index(x, y)] == old(buffer).depth_seq()[old(buffer).local_index(x, y)],
                forall|x: int, y: int|
                    #![trigger old(buffer).local_index(x, y)]
                    old(buffer).contains(x, y) && self.in_tile(x, y) ==> ({
                        let li = old(buffer).local_index(x, y);
                        &&& buffer.depth_seq()[li] == self.depth_after(t as int, x, y, old(buffer).depth_seq()[li])
                        &&& buffer.colors_seq()[li] == self.color_after(t as int, x, y, old(buffer).colors_seq()[li], old(buffer).depth_seq()[li])
                    }),
            decreases tri_count - t,
        {
            let tri = self.triangles[t];
            let a0 = self.triangles_attrs[tri.indices.0];
            let a1 = self.triangles_attrs[tri.indices.1];
            let a2 = self.triangles_attrs[tri.indices.2];
            let y_end = self.from.1 + self.region_height;
            let x_end = self.from.0 + self.region_width;
            let mut yy = self.from.1;
            while yy < y_end
                invariant
                    self.wf(),
                    old(buffer).wf(),
                    buffer.wf(),
                    tri_count == self.triangles@.len(),
                    t < tri_count,
                    tri == self.triangles@[t as int],
                    a0 == self.triangles_attrs@[3 * (t as int)],
                    a1 == self.triangles_attrs@[3 * (t as int) + 1],
                    a2 == self.triangles_attrs@[3 * (t as int) + 2],
                    y_end == self.from.1 + self.region_height,
                    x_end == self.from.0 + self.region_width,
                    self.from.1 <= yy <= y_end,
                    buffer.from_x == old(buffer).from_x,
                    buffer.from_y == old(buffer).from_y,
                    buffer.width == old(buffer).width,
                    buffer.height == old(buffer).height,
                    buffer.colors_seq().len() == old(buffer).colors_seq().len(),
                    buffer.depth_seq().len() == old(buffer).depth_seq().len(),
                    forall|i: int|
                        0 <= i < old(buffer).depth_seq().len() ==> buffer.depth_seq()[i] <= old(buffer).depth_seq()[i] && (buffer.depth_seq()[i] == old(buffer).depth_seq()[i]
                            ==> buffer.colors_seq()[i] == old(buffer).colors_seq()[i]),
                    forall|x: int, y: int|
                        #![trigger old(buffer).local_index(x, y)]
                        old(buffer).contains(x, y) && self.uncovered_prefix(t as int, x, y) && (
                        !covers(tri, x, y, self.width as int, self.height as int) || y >= yy)
                            ==> buffer.colors_seq()[old(buffer).local_index(x, y)] == old(buffer).colors_seq()[old(buffer).local_index(x, y)] && buffer.depth_seq()[old(buffer).local_index(x, y)] == old(buffer).depth_seq()[old(buffer).local_index(
                            x,
                            y,
                        )],
                    forall|x: int, y: int, j: int|
                        #![trigger old(buffer).local_index(x, y), self.triangles@[j]]
                        old(buffer).contains(x, y) && self.in_tile(x, y) && 0 <= j <= t && (j < t
                            || y < yy) && covers(
                            self.triangles@[j],
                            x,
                            y,
                            self.width as int,
                            self.height as int,
                        ) ==> buffer.depth_seq()[old(buffer).local_index(x, y)] <= pixel_point(
                            self.triangles@[j],
                            x,
                            y,
                            self.width as int,
                            self.height as int,
                        ).z,
                    forall|x: int, y: int|
                        #![trigger old(buffer).local_index(x, y)]
                        old(buffer).contains(x, y) && !self.in_tile(x, y) ==> buffer.colors_seq()[old(buffer).local_index(x, y)] == old(buffer).colors_seq()[old(buffer).local_index(x, y)] && buffer.depth_seq()[old(buffer).local_index(x, y)] == old(buffer).depth_seq()[old(buffer).local_index(x, y)],
                    forall|x: int, y: int|
                        #![trigger old(buffer).local_index(x, y)]
                        old(buffer).contains(x, y) && self.in_tile(x, y) ==> ({
                            let li = old(buffer).local_index(x, y);
                            let k: int = if y < yy { t as int + 1 } else { t as int };
                            &&& buffer.depth_seq()[li] == self.depth_after(k, x, y, old(buffer).depth_seq()[li])
                            &&& buffer.colors_seq()[li] == self.color_after(k, x, y, old(buffer).colors_seq()[li], old(buffer).depth_seq()[li])
                        }),
                decreases y_end - yy,
            {
                let mut xx = self.from.0;
                while xx < x_end
                    invariant
                        self.wf(),
                        old(buffer).wf(),
                        buffer.wf(),
                        tri_count == self.triangles@.len(),
                        t < tri_count,
                        tri == self.triangles@[t as int],
                        a0 == self.triangles_attrs@[3 * (t as int)],
                        a1 == self.triangles_attrs@[3 * (t as int) + 1],
                        a2 == self.triangles_attrs@[3 * (t as int) + 2],
                        y_end == self.from.1 + self.region_height,
                        x_end == self.from.0 + self.region_width,
                        self.from.1 <= yy < y_end,
                        self.from.0 <= xx <= x_end,
                        buffer.from_x == old(buffer).from_x,
                        buffer.from_y == old(buffer).from_y,
                        buffer.width == old(buffer).width,
                        buffer.height == old(buffer).height,
                        buffer.colors_seq().len() == old(buffer).colors_seq().len(),
                        buffer.depth_seq().len() == old(buffer).depth_seq().len(),
                        forall|i: int|
                            0 <= i < old(buffer).depth_seq().len() ==> buffer.depth_seq()[i] <= old(buffer).depth_seq()[i] && (buffer.depth_seq()[i] == old(buffer).depth_seq()[i]
                                ==> buffer.colors_seq()[i] == old(buffer).colors_seq()[i]),
                        forall|x: int, y: int|
                            #![trigger old(buffer).local_index(x, y)]
                            old(buffer).contains(x, y) && self.uncovered_prefix(t as int, x, y) && (
                            !covers(tri, x, y, self.width as int, self.height as int) || y > yy || (
                            y == yy && x >= xx)) ==> buffer.colors_seq()[old(buffer).local_index(
                                x,
                                y,
                            )] == old(buffer).colors_seq()[old(buffer).local_index(x, y)]
                                && buffer.depth_seq()[old(buffer).local_index(x, y)] == old(buffer).depth_seq()[old(buffer).local_index(x, y)],
                        forall|x: int, y: int, j: int|
                            #![trigger old(buffer).local_index(x, y), self.triangles@[j]]
                            old(buffer).contains(x, y) && self.in_tile(x, y) && 0 <= j <= t && (j
                                < t || y < yy || (y == yy && x < xx)) && covers(
                                self.triangles@[j],
                                x,
                                y,
                                self.width as int,
                                self.height as int,
                            ) ==> buffer.depth_seq()[old(buffer).local_index(x, y)] <= pixel_point(
                                self.triangles@[j],
                                x,
                                y,
                                self.width as int,
                                self.height as int,
                            ).z,
                        forall|x: int, y: int|
                            #![trigger old(buffer).local_index(x, y)]
                            old(buffer).contains(x, y) && !self.in_tile(x, y) ==> buffer.colors_seq()[old(buffer).local_index(x, y)] == old(buffer).colors_seq()[old(buffer).local_index(x, y)] && buffer.depth_seq()[old(buffer).local_index(x, y)] == old(buffer).depth_seq()[old(buffer).local_index(x, y)],
                        forall|x: int, y: int|
                            #![trigger old(buffer).local_index(x, y)]
                            old(buffer).contains(x, y) && self.in_tile(x, y) ==> ({
                                let li = old(buffer).local_index(x, y);
                                let k: int = if y < yy || (y == yy && x < xx) { t as int + 1 } else { t as int };
                                &&& buffer.depth_seq()[li] == self.depth_after(k, x, y, old(buffer).depth_seq()[li])
                                &&& buffer.colors_seq()[li] == self.color_after(k, x, y, old(buffer).colors_seq()[li], old(buffer).depth_seq()[li])
                            }),
                    decreases x_end - xx,
                {
                    let ghost pre = *buffer;
                    self.raster_pixel(&tri, t, xx, yy, &a0, &a1, &a2, buffer);
                    proof {
                        assert forall|x: int, y: int|
                            old(buffer).contains(x, y) implies 0 <= #[trigger] old(buffer).local_index(x, y) < old(buffer).colors_seq().len() by {
                            lemma_pix_index_bounds(
                                old(buffer).width as int,
                                old(buffer).height as int,
                                x - old(buffer).from_x,
                                y - old(buffer).from_y,
                            );
                            crate::framebuffer::lemma_area_bound(
                                old(buffer).width as int,
                                old(buffer).height as int,
                            );
                        }
                        if pre.contains(xx as int, yy as int) {
                            assert forall|x: int, y: int|
                                old(buffer).contains(x, y) && (x != xx || y != yy) implies #[trigger] old(buffer).local_index(x, y) != pre.local_index(xx as int, yy as int) by {
                                crate::framebuffer::lemma_pix_index_decompose(
                                    old(buffer).width as int,
                                    x - old(buffer).from_x,
                                    y - old(buffer).from_y,
                                );
                                crate::framebuffer::lemma_pix_index_decompose(
                                    old(buffer).width as int,
                                    xx - old(buffer).from_x,
                                    yy - old(buffer).from_y,
                                );
                            }
                        }
                        assert forall|x: int, y: int|
                            old(buffer).contains(x, y) && self.in_tile(x, y) implies ({
                            let li = #[trigger] old(buffer).local_index(x, y);
                            let k: int = if y < yy || (y == yy && x < xx + 1) {
                                t as int + 1
                            } else {
                                t as int
                            };
                            &&& buffer.depth_seq()[li] == self.depth_after(
                                k,
                                x,
                                y,
                                old(buffer).depth_seq()[li],
                            )
                            &&& buffer.colors_seq()[li] == self.color_after(
                                k,
                                x,
                                y,
                                old(buffer).colors_seq()[li],
                                old(buffer).depth_seq()[li],
                            )
                        }) by {
                            let li = old(buffer).local_index(x, y);
                            let d0 = old(buffer).depth_seq()[li];
                            let c0 = old(buffer).colors_seq()[li];
                            if x == xx && y == yy {
                                // the pixel just rasterized: one step of
                                // the fold, driven by raster_pixel's
                                // exact contract
                                assert(self.triangles@[t as int].indices.0 == 3 * (t as int));
                                assert(pre.depth_seq()[li] == self.depth_after(t as int, x, y, d0));
                                assert(pre.colors_seq()[li] == self.color_after(t as int, x, y, c0, d0));
                                assert(self.depth_after(t as int + 1, x, y, d0) == ({
                                    let d = self.depth_after(t as int, x, y, d0);
                                    let z = pixel_point(tri, x, y, self.width as int, self.height as int).z;
                                    if covers(tri, x, y, self.width as int, self.height as int) && z < d {
                                        z
                                    } else {
                                        d
                                    }
                                }));
                                assert(self.color_after(t as int + 1, x, y, c0, d0) == ({
                                    let d = self.depth_after(t as int, x, y, d0);
                                    let c = self.color_after(t as int, x, y, c0, d0);
                                    let z = pixel_point(tri, x, y, self.width as int, self.height as int).z;
                                    if covers(tri, x, y, self.width as int, self.height as int) && z < d {
                                        self.shaded(t as int, x, y)
                                    } else {
                                        c
                                    }
                                }));
                            }
                        }
                    }
                    xx += 1;
                }
                yy += 1;
            }
            t += 1;
        }
    }
}


/// The least of three scalars.
pub open spec fn min3(a: i64, b: i64, c: i64) -> i64 {
    if a <= b && a <= c {
        a
    } else if b <= c {
        b
    } else {
        c
    }
}

/// The greatest of three scalars.
pub open spec fn max3(a: i64, b: i64, c: i64) -> i64 {
    if a >= b && a >= c {
        a
    } else if b >= c {
        b
    } else {
        c
    }
}

fn min3_exec(a: i64, b: i64, c: i64) -> (r: i64)
    ensures
        r == min3(a, b, c),
{
    if a <= b && a <= c {
        a
    } else if b <= c {
        b
    } else {
        c
    }
}

fn max3_exec(a: i64, b: i64, c: i64) -> (r: i64)
    ensures
        r == max3(a, b, c),
{
    if a >= b && a >= c {
        a
    } else if b >= c {
        b
    } else {
        c
    }
}

/// A negative coordinate clamped to the left viewport edge.
pub open spec fn clamp_lo(v: i64) -> i64 {
    if v < 0 {
        0
    } else {
        v
    }
}

/// A coordinate past one clamped to the right viewport edge.
pub open spec fn clamp_hi(v: i64) -> i64 {
    if v > SCALE {
        SCALE
    } else {
        v
    }
}

/// The view-frustum cull of the binning stage: the triangle is dropped
/// when its bounding box lies entirely outside the unit viewport.
pub open spec fn spec_culled(p0: Vector3, p1: Vector3, p2: Vector3) -> bool {
    ||| max3(p0.x, p1.x, p2.x) < 0
    ||| min3(p0.x, p1.x, p2.x) > SCALE
    ||| max3(p0.y, p1.y, p2.y) < 0
    ||| min3(p0.y, p1.y, p2.y) > SCALE
}

/// The barycentric denominator `d00*d11 - d01^2` of a triangle; zero
/// means the triangle is degenerate and is dropped at enqueue.
pub open spec fn spec_denom(p0: Vector3, p1: Vector3, p2: Vector3) -> i64 {
    let v0 = spec_minus3(p1, p0);
    let v1 = spec_minus3(p2, p0);
    ssub(
        smul(spec_dot3(v0, v0), spec_dot3(v1, v1)),
        smul(spec_dot3(v0, v1), spec_dot3(v0, v1)),
    )
}

/// The record cached for a triangle whose three attributes will sit at
/// `base`, `base + 1` and `base + 2` of the tile's attribute array.
pub open spec fn triangle_of(p0: Vector3, p1: Vector3, p2: Vector3, base: int) -> Triangle {
    let v0 = spec_minus3(p1, p0);
    let v1 = spec_minus3(p2, p0);
    let d00 = spec_dot3(v0, v0);
    let d01 = spec_dot3(v0, v1);
    let d11 = spec_dot3(v1, v1);
    let inv = sdiv(SCALE, spec_denom(p0, p1, p2));
    let invz = sdiv(SCALE, ssub(smul(v1.x, v0.y), smul(v1.y, v0.x)));
    (Triangle {
        indices: (base as usize, (base + 1) as usize, (base + 2) as usize),
        d00,
        d01,
        d11,
        inv,
        zx: smul(ssub(smul(v0.y, v1.z), smul(v1.y, v0.z)), invz),
        zy: smul(ssub(smul(v1.x, v0.z), smul(v0.x, v1.z)), invz),
        v0,
        v1,
        a: p0,
    })
}

/// The first tile column (or row) a clamped minimum coordinate falls in.
pub open spec fn bin_lo(mn: i64, n: int, step: int) -> int {
    sample_coord(clamp_lo(mn) as int, n) / step
}

/// One past the last tile column (or row) a clamped maximum coordinate
/// falls in.
pub open spec fn bin_hi(mx: i64, n: int, step: int) -> int {
    sample_coord(clamp_hi(mx) as int, n) / step + 1
}

/// A tile renderer extended by exactly one triangle: the cached record,
/// its three vertex attributes, and the uniform snapshot; everything
/// else as before.
pub open spec fn enqueued<P: Pipeline>(
    r0: RegionRenderer<P>,
    r1: RegionRenderer<P>,
    p0: Vector3,
    a0: P::Attr,
    p1: Vector3,
    a1: P::Attr,
    p2: Vector3,
    a2: P::Attr,
    u: P::Uniform,
) -> bool {
    &&& r1.triangles@ == r0.triangles@.push(
        triangle_of(p0, p1, p2, r0.triangles_attrs@.len() as int),
    )
    &&& r1.triangles_attrs@ == r0.triangles_attrs@.push(a0).push(a1).push(a2)
    &&& r1.uniforms@ == r0.uniforms@.push(u)
    &&& r1.shader == r0.shader
    &&& r1.from == r0.from
    &&& r1.width == r0.width
    &&& r1.height == r0.height
    &&& r1.region_width == r0.region_width
    &&& r1.region_height == r0.region_height
}

/// The orchestrator: the two shader stages, the live uniform, the image
/// and tile extents, and the grid of per-tile renderers.
pub struct Program<P: Pipeline> {
    pub shader: P,
    pub uniform: P::Uniform,
    pub width: usize,
    pub height: usize,
    pub region_width: usize,
    pub region_height: usize,
    pub regions: Vec<Vec<RegionRenderer<P>>>,
}

impl<P: Pipeline + Copy> Program<P> {
    pub open spec fn wf(&self) -> bool {
        &&& 0 < self.width <= 0xFFFF
        &&& 0 < self.height <= 0xFFFF
        &&& 1 <= self.region_width
        &&& 1 <= self.region_height
        &&& self.regions@.len() == grid_count(self.height as int, self.region_height as int)
        &&& forall|ty: int|
            0 <= ty < self.regions@.len() ==> (#[trigger] self.regions@[ty])@.len() == grid_count(
                self.width as int,
                self.region_width as int,
            )
        &&& forall|tx: int, ty: int|
            0 <= ty < self.regions@.len() && 0 <= tx < self.regions@[ty]@.len() ==> {
                let t = #[trigger] self.regions@[ty]@[tx];
                &&& t.wf()
                &&& t.shader == self.shader
                &&& t.width == self.width
                &&& t.height == self.height
                &&& t.from.0 == tx * self.region_width
                &&& t.from.1 == ty * self.region_height
                &&& t.region_width == tile_extent(tx, self.width as int, self.region_width as int)
                &&& t.region_height == tile_extent(
                    ty,
                    self.height as int,
                    self.region_height as int,
                )
            }
    }

    /// Room for one more triangle in every tile queue.
    pub open spec fn not_full(&self) -> bool {
        forall|tx: int, ty: int|
            0 <= ty < self.regions@.len() && 0 <= tx < self.regions@[ty]@.len() ==> (
            #[trigger] self.regions@[ty]@[tx]).triangles@.len() < 0x100_0000
    }

    /// An empty grid of tile renderers laid out per the tile grid of the
    /// framebuffer: cell `(tx, ty)` starts at
    /// `(tx * region_width, ty * region_height)` and is cut down to the
    /// image remainder in the last column and row.
    fn build_grid(
        shader: P,
        width: usize,
        height: usize,
        region_width: usize,
        region_height: usize,
    ) -> (r: Vec<Vec<RegionRenderer<P>>>)
        requires
            0 < width <= 0xFFFF,
            0 < height <= 0xFFFF,
            1 <= region_width,
            1 <= region_height,
        ensures
            r@.len() == grid_count(height as int, region_height as int),
            forall|ty: int|
                0 <= ty < r@.len() ==> (#[trigger] r@[ty])@.len() == grid_count(
                    width as int,
                    region_width as int,
                ),
            forall|tx: int, ty: int|
                0 <= ty < r@.len() && 0 <= tx < r@[ty]@.len() ==> {
                    let t = #[trigger] r@[ty]@[tx];
                    &&& t.wf()
                    &&& t.shader == shader
                    &&& t.width == width
                    &&& t.height == height
                    &&& t.from.0 == tx * region_width
                    &&& t.from.1 == ty * region_height
                    &&& t.region_width == tile_extent(tx, width as int, region_width as int)
                    &&& t.region_height == tile_extent(ty, height as int, region_height as int)
                    &&& t.triangles@.len() == 0
                    &&& t.triangles_attrs@.len() == 0
                    &&& t.uniforms@.len() == 0
                },
    {
        let count_x: usize = if width % region_width != 0 {
            width / region_width + 1
        } else {
            width / region_width
        };
        let count_y: usize = if height % region_height != 0 {
            height / region_height + 1
        } else {
            height / region_height
        };
        let mut rows: Vec<Vec<RegionRenderer<P>>> = Vec::new();
        let mut ty: usize = 0;
        while ty < count_y
            invariant
                0 < width <= 0xFFFF,
                0 < height <= 0xFFFF,
                1 <= region_width,
                1 <= region_height,
                count_x == grid_count(width as int, region_width as int),
                count_y == grid_count(height as int, region_height as int),
                ty <= count_y,
                rows@.len() == ty,
                forall|j: int|
                    0 <= j < ty ==> (#[trigger] rows@[j])@.len() == grid_count(
                        width as int,
                        region_width as int,
                    ),
                forall|tx: int, j: int|
                    0 <= j < ty && 0 <= tx < rows@[j]@.len() ==> {
                        let t = #[trigger] rows@[j]@[tx];
                        &&& t.wf()
                        &&& t.shader == shader
                        &&& t.width == width
                        &&& t.height == height
                        &&& t.from.0 == tx * region_width
                        &&& t.from.1 == j * region_height
                        &&& t.region_width == tile_extent(tx, width as int, region_width as int)
                        &&& t.region_height == tile_extent(j, height as int, region_height as int)
                        &&& t.triangles@.len() == 0
                        &&& t.triangles_attrs@.len() == 0
                        &&& t.uniforms@.len() == 0
                    },
            decreases count_y - ty,
        {
            proof {
                crate::framebuffer::lemma_tile_in_image(
                    height as int,
                    region_height as int,
                    ty as int,
                );
            }
            let ext_y: usize = if ty == count_y - 1 && height % region_height != 0 {
                height % region_height
            } else {
                region_height
            };
            let oy = ty * region_height;
            let mut row: Vec<RegionRenderer<P>> = Vec::new();
            let mut tx: usize = 0;
            while tx < count_x
                invariant
                    0 < width <= 0xFFFF,
                    0 < height <= 0xFFFF,
                    1 <= region_width,
                    1 <= region_height,
                    count_x == grid_count(width as int, region_width as int),
                    ty < count_y,
                    count_y == grid_count(height as int, region_height as int),
                    oy == ty * region_height,
                    ext_y == tile_extent(ty as int, height as int, region_height as int),
                    oy + ext_y <= height,
                    1 <= ext_y,
                    tx <= count_x,
                    row@.len() == tx,
                    forall|i: int|
                        0 <= i < tx ==> {
                            let t = #[trigger] row@[i];
                            &&& t.wf()
                            &&& t.shader == shader
                            &&& t.width == width
                            &&& t.height == height
                            &&& t.from.0 == i * region_width
                            &&& t.from.1 == ty * region_height
                            &&& t.region_width == tile_extent(i, width as int, region_width as int)
                            &&& t.region_height == tile_extent(
                                ty as int,
                                height as int,
                                region_height as int,
                            )
                            &&& t.triangles@.len() == 0
                            &&& t.triangles_attrs@.len() == 0
                            &&& t.uniforms@.len() == 0
                        },
                decreases count_x - tx,
            {
                proof {
                    crate::framebuffer::lemma_tile_in_image(
                        width as int,
                        region_width as int,
                        tx as int,
                    );
                }
                let ext_x: usize = if tx == count_x - 1 && width % region_width != 0 {
                    width % region_width
                } else {
                    region_width
                };
                let ox = tx * region_width;
                let t = RegionRenderer {
                    shader,
                    uniforms: Vec::new(),
                    triangles_attrs: Vec::new(),
                    triangles: Vec::new(),
                    from: (ox, oy),
                    width,
                    height,
                    region_width: ext_x,
                    region_height: ext_y,
                };
                row.push(t);
                tx += 1;
            }
            rows.push(row);
            ty += 1;
        }
        rows
    }

    /// A program over an empty tile grid, holding the two stages and the
    /// initial uniform.
    pub fn new(
        shader: P,
        uniform: P::Uniform,
        width: usize,
        height: usize,
        region_width: usize,
        region_height: usize,
    ) -> (r: Self)
        requires
            0 < width <= 0xFFFF,
            0 < height <= 0xFFFF,
            1 <= region_width,
            1 <= region_height,
        ensures
            r.wf(),
            r.not_full(),
            r.shader == shader,
            r.uniform == uniform,
            r.width == width,
            r.height == height,
            r.region_width == region_width,
            r.region_height == region_height,
            forall|tx: int, ty: int|
                0 <= ty < r.regions@.len() && 0 <= tx < r.regions@[ty]@.len() ==> (
                #[trigger] r.regions@[ty]@[tx]).triangles@.len() == 0,
    {
        let regions = Self::build_grid(shader, width, height, region_width, region_height);
        Program { shader, uniform, width, height, region_width, region_height, regions }
    }

    /// Empty every tile queue, keeping the grid layout, the stages and
    /// the uniform.
    pub fn reset(&mut self)
        requires
            old(self).wf(),
        ensures
            final(self).wf(),
            final(self).not_full(),
            final(self).shader == old(self).shader,
            final(self).uniform == old(self).uniform,
            final(self).width == old(self).width,
            final(self).height == old(self).height,
            final(self).region_width == old(self).region_width,
            final(self).region_height == old(self).region_height,
            forall|tx: int, ty: int|
                0 <= ty < final(self).regions@.len() && 0 <= tx < final(self).regions@[ty]@.len()
                    ==> (#[trigger] final(self).regions@[ty]@[tx]).triangles@.len() == 0,
    {
        self.regions = Self::build_grid(
            self.shader,
            self.width,
            self.height,
            self.region_width,
            self.region_height,
        );
    }

    /// The binning stage, fed with already transformed vertices: cull
    /// the triangle when its bounding box misses the
    /// unit viewport or it is degenerate; otherwise append it, with its
    /// attributes and a snapshot of the current uniform, to every tile
    /// whose span its clamped pixel bounding box touches, and to no
    /// other.
    pub fn enqueue_transformed(
        &mut self,
        p0: Vector3,
        a0: P::Attr,
        p1: Vector3,
        a1: P::Attr,
        p2: Vector3,
        a2: P::Attr,
    )
        requires
            old(self).wf(),
            old(self).not_full(),
        ensures
            final(self).wf(),
            final(self).shader == old(self).shader,
            final(self).uniform == old(self).uniform,
            final(self).width == old(self).width,
            final(self).height == old(self).height,
            final(self).region_width == old(self).region_width,
            final(self).region_height == old(self).region_height,
            final(self).regions@.len() == old(self).regions@.len(),
            forall|ty: int|
                0 <= ty < old(self).regions@.len() ==> (#[trigger] final(self).regions@[ty])@.len()
                    == old(self).regions@[ty]@.len(),
            spec_culled(p0, p1, p2) || spec_denom(p0, p1, p2) == 0 ==> final(self).regions@ == old(
                self,
            ).regions@,
            !(spec_culled(p0, p1, p2) || spec_denom(p0, p1, p2) == 0) ==> forall|tx: int, ty: int|
                0 <= ty < old(self).regions@.len() && 0 <= tx < old(self).regions@[ty]@.len()
                    ==> {
                    let r0 = old(self).regions@[ty]@[tx];
                    let r1 = #[trigger] final(self).regions@[ty]@[tx];
                    if bin_lo(min3(p0.x, p1.x, p2.x), old(self).width as int, old(self).region_width as int)
                        <= tx < bin_hi(max3(p0.x, p1.x, p2.x), old(self).width as int, old(self).region_width as int)
                        && bin_lo(min3(p0.y, p1.y, p2.y), old(self).height as int, old(self).region_height as int)
                        <= ty < bin_hi(max3(p0.y, p1.y, p2.y), old(self).height as int, old(self).region_height as int) {
                        enqueued(r0, r1, p0, a0, p1, a1, p2, a2, old(self).uniform)
                    } else {
                        r1 == r0
                    }
                },
    {
        let x_min = min3_exec(p0.x, p1.x, p2.x);
        let x_max = max3_exec(p0.x, p1.x, p2.x);
        let y_min = min3_exec(p0.y, p1.y, p2.y);
        let y_max = max3_exec(p0.y, p1.y, p2.y);
        if x_max < 0 || x_min > SCALE || y_max < 0 || y_min > SCALE {
            return ;
        }
        let v0 = p1.minus(&p0);
        let v1 = p2.minus(&p0);
        let denom = fsub(fmul(v0.dot(&v0), v1.dot(&v1)), fmul(v0.dot(&v1), v0.dot(&v1)));
        if denom == 0 {
            return ;
        }
        let cx_min = if x_min < 0 { 0 } else { x_min };
        let cx_max = if x_max > SCALE { SCALE } else { x_max };
        let cy_min = if y_min < 0 { 0 } else { y_min };
        let cy_max = if y_max > SCALE { SCALE } else { y_max };
        proof {
            lemma_sample_coord_bounds(cx_min as int, self.width as int);
            lemma_sample_coord_bounds(cx_max as int, self.width as int);
            lemma_sample_coord_bounds(cy_min as int, self.height as int);
            lemma_sample_coord_bounds(cy_max as int, self.height as int);
        }
        let x_min_px = ((cx_min as u64) * ((self.width - 1) as u64) / (SCALE as u64)) as usize;
        let x_max_px = ((cx_max as u64) * ((self.width - 1) as u64) / (SCALE as u64)) as usize;
        let y_min_px = ((cy_min as u64) * ((self.height - 1) as u64) / (SCALE as u64)) as usize;
        let y_max_px = ((cy_max as u64) * ((self.height - 1) as u64) / (SCALE as u64)) as usize;
        proof {
            vstd::arithmetic::mul::lemma_mul_inequality(
                cx_min as int,
                cx_max as int,
                (self.width - 1) as int,
            );
            vstd::arithmetic::mul::lemma_mul_inequality(
                cy_min as int,
                cy_max as int,
                (self.height - 1) as int,
            );
            lemma_div_is_ordered(
                (cx_min as int) * ((self.width - 1) as int),
                (cx_max as int) * ((self.width - 1) as int),
                SCALE as int,
            );
            lemma_div_is_ordered(
                (cy_min as int) * ((self.height - 1) as int),
                (cy_max as int) * ((self.height - 1) as int),
                SCALE as int,
            );
            crate::framebuffer::lemma_tile_partition_1d(
                self.width as int,
                self.region_width as int,
                x_max_px as int,
            );
            crate::framebuffer::lemma_tile_partition_1d(
                self.height as int,
                self.region_height as int,
                y_max_px as int,
            );
            lemma_div_is_ordered(x_min_px as int, x_max_px as int, self.region_width as int);
            lemma_div_is_ordered(y_min_px as int, y_max_px as int, self.region_height as int);
            vstd::arithmetic::div_mod::lemma_div_pos_is_pos(x_min_px as int, self.region_width as int);
            vstd::arithmetic::div_mod::lemma_div_pos_is_pos(y_min_px as int, self.region_height as int);
        }
        let from_tx = x_min_px / self.region_width;
        let to_tx = x_max_px / self.region_width + 1;
        let from_ty = y_min_px / self.region_height;
        let to_ty = y_max_px / self.region_height + 1;
        let mut ty = from_ty;
        while ty < to_ty
            invariant
                self.wf(),
                old(self).wf(),
                old(self).not_full(),
                self.shader == old(self).shader,
                self.uniform == old(self).uniform,
                self.width == old(self).width,
                self.height == old(self).height,
                self.region_width == old(self).region_width,
                self.region_height == old(self).region_height,
                self.regions@.len() == old(self).regions@.len(),
                forall|ay: int|
                    0 <= ay < old(self).regions@.len() ==> (#[trigger] self.regions@[ay])@.len()
                        == old(self).regions@[ay]@.len(),
                from_tx == bin_lo(min3(p0.x, p1.x, p2.x), self.width as int, self.region_width as int),
                to_tx == bin_hi(max3(p0.x, p1.x, p2.x), self.width as int, self.region_width as int),
                from_ty == bin_lo(min3(p0.y, p1.y, p2.y), self.height as int, self.region_height as int),
                to_ty == bin_hi(max3(p0.y, p1.y, p2.y), self.height as int, self.region_height as int),
                from_tx < to_tx <= grid_count(self.width as int, self.region_width as int),
                from_ty <= ty <= to_ty,
                to_ty <= grid_count(self.height as int, self.region_height as int),
                forall|ax: int, ay: int|
                    0 <= ay < old(self).regions@.len() && 0 <= ax < old(self).regions@[ay]@.len()
                        ==> {
                        let r0 = old(self).regions@[ay]@[ax];
                        let r1 = #[trigger] self.regions@[ay]@[ax];
                        if from_tx <= ax < to_tx && from_ty <= ay && ay < ty {
                            enqueued(r0, r1, p0, a0, p1, a1, p2, a2, old(self).uniform)
                        } else {
                            r1 == r0
                        }
                    },
            decreases to_ty - ty,
        {
            let mut tx = from_tx;
            while tx < to_tx
                invariant
                    self.wf(),
                    old(self).wf(),
                    old(self).not_full(),
                    self.shader == old(self).shader,
                    self.uniform == old(self).uniform,
                    self.width == old(self).width,
                    self.height == old(self).height,
                    self.region_width == old(self).region_width,
                    self.region_height == old(self).region_height,
                    self.regions@.len() == old(self).regions@.len(),
                    from_tx == bin_lo(min3(p0.x, p1.x, p2.x), self.width as int, self.region_width as int),
                    to_tx == bin_hi(max3(p0.x, p1.x, p2.x), self.width as int, self.region_width as int),
                    from_ty == bin_lo(min3(p0.y, p1.y, p2.y), self.height as int, self.region_height as int),
                    to_ty == bin_hi(max3(p0.y, p1.y, p2.y), self.height as int, self.region_height as int),
                    forall|ay: int|
                        0 <= ay < old(self).regions@.len() ==> (#[trigger] self.regions@[ay])@.len()
                            == old(self).regions@[ay]@.len(),
                    from_tx < to_tx <= grid_count(self.width as int, self.region_width as int),
                    from_tx <= tx <= to_tx,
                    from_ty <= ty < to_ty,
                    to_ty <= grid_count(self.height as int, self.region_height as int),
                    forall|ax: int, ay: int|
                        0 <= ay < old(self).regions@.len() && 0 <= ax < old(self).regions@[ay]@.len()
                            ==> {
                            let r0 = old(self).regions@[ay]@[ax];
                            let r1 = #[trigger] self.regions@[ay]@[ax];
                            if from_tx <= ax < to_tx && from_ty <= ay && (ay < ty || (ay == ty && ax
                                < tx)) {
                                enqueued(r0, r1, p0, a0, p1, a1, p2, a2, old(self).uniform)
                            } else {
                                r1 == r0
                            }
                        },
                decreases to_tx - tx,
            {
                let ghost rows0 = self.regions@;
                let mut row = self.regions.remove(ty);
                let ghost row0 = row@;
                let mut cell = row.remove(tx);
                cell.push_triangle(p0, a0, p1, a1, p2, a2, self.uniform);
                row.insert(tx, cell);
                self.regions.insert(ty, row);
                proof {
                    assert(row@ =~= row0.update(tx as int, cell));
                    assert(self.regions@ =~= rows0.update(ty as int, row));
                }
                tx += 1;
            }
            ty += 1;
        }
    }

    /// Transform the three inputs through the vertex stage with the
    /// current uniform, then bin the resulting triangle.  Whatever
    /// positions and attributes the stage produced, each tile queue is
    /// either untouched or extended by exactly that one triangle with a
    /// snapshot of the current uniform.
    pub fn enqueue_triangle(&mut self, i0: P::Input, i1: P::Input, i2: P::Input)
        requires
            old(self).wf(),
            old(self).not_full(),
        ensures
            final(self).wf(),
            final(self).shader == old(self).shader,
            final(self).uniform == old(self).uniform,
            final(self).width == old(self).width,
            final(self).height == old(self).height,
            final(self).region_width == old(self).region_width,
            final(self).region_height == old(self).region_height,
            final(self).regions@.len() == old(self).regions@.len(),
            forall|ty: int|
                0 <= ty < old(self).regions@.len() ==> (#[trigger] final(self).regions@[ty])@.len()
                    == old(self).regions@[ty]@.len(),
            forall|tx: int, ty: int|
                0 <= ty < old(self).regions@.len() && 0 <= tx < old(self).regions@[ty]@.len()
                    ==> {
                    let r0 = old(self).regions@[ty]@[tx];
                    let r1 = #[trigger] final(self).regions@[ty]@[tx];
                    r1 == r0 || exists|q0: Vector3, b0: P::Attr, q1: Vector3, b1: P::Attr, q2: Vector3, b2: P::Attr|
                        enqueued(r0, r1, q0, b0, q1, b1, q2, b2, old(self).uniform)
                },
    {
        let u = self.uniform;
        let sh = self.shader;
        let r0 = sh.vertex(i0, &u);
        let r1 = sh.vertex(i1, &u);
        let r2 = sh.vertex(i2, &u);
        self.enqueue_transformed(r0.0, r0.1, r1.0, r1.1, r2.0, r2.1);
        proof {
            assert forall|tx: int, ty: int|
                0 <= ty < old(self).regions@.len() && 0 <= tx < old(self).regions@[ty]@.len()
                    implies {
                    let t0 = old(self).regions@[ty]@[tx];
                    let t1 = #[trigger] self.regions@[ty]@[tx];
                    t1 == t0 || exists|q0: Vector3, b0: P::Attr, q1: Vector3, b1: P::Attr, q2: Vector3, b2: P::Attr|
                        enqueued(t0, t1, q0, b0, q1, b1, q2, b2, old(self).uniform)
                } by {
                let t0 = old(self).regions@[ty]@[tx];
                let t1 = self.regions@[ty]@[tx];
                if t1 != t0 {
                    assert(enqueued(t0, t1, r0.0, r0.1, r1.0, r1.1, r2.0, r2.1, old(self).uniform));
                }
            }
        }
    }

    /// The grid of tile renderers, for the dispatch layer to pair with
    /// the framebuffer's matching tile handles.
    pub fn region_renderers(&self) -> (r: &Vec<Vec<RegionRenderer<P>>>)
        ensures
            r == &self.regions,
    {
        &self.regions
    }
}


/// Binning soundness, single-tile case: when a triangle's clamped pixel
/// bounding box lies inside the span of tile `t` along an axis, the tile
/// range `[lo/step, hi/step + 1)` computed by the binning stage is
/// exactly `{t}` along that axis, so only that tile's queue receives the
/// triangle.
pub proof fn lemma_bin_range_single(extent: int, step: int, lo_px: int, hi_px: int, t: int)
    requires
        1 <= step,
        1 <= extent,
        0 <= lo_px <= hi_px < extent,
        0 <= t < grid_count(extent, step),
        t * step <= lo_px,
        hi_px < t * step + tile_extent(t, extent, step),
    ensures
        lo_px / step == t,
        hi_px / step == t,
{
    crate::framebuffer::lemma_tile_partition_1d(extent, step, lo_px);
    crate::framebuffer::lemma_tile_partition_1d(extent, step, hi_px);
}

/// One frame's dispatch, run tile by tile: pair every tile renderer with
/// the matching framebuffer tile handle, rasterize, and write the tile
/// back.  Every pixel ends exactly at the fold of its own tile's queue
/// (`depth_after` / `color_after`); a pixel whose tile queue holds no
/// covering triangle keeps its color and depth; depths never increase;
/// the packed output buffer is untouched until `finish_rendering`.
pub fn render_frame<P: Pipeline + Copy>(program: &Program<P>, fb: &mut Framebuffer)
    requires
        program.wf(),
        old(fb).wf(),
        program.width == old(fb).width,
        program.height == old(fb).height,
    ensures
        final(fb).wf(),
        final(fb).width == old(fb).width,
        final(fb).height == old(fb).height,
        final(fb).packed_seq() == old(fb).packed_seq(),
        final(fb).colors_seq().len() == old(fb).colors_seq().len(),
        final(fb).depth_seq().len() == old(fb).depth_seq().len(),
        forall|i: int|
            0 <= i < old(fb).depth_seq().len() ==> final(fb).depth_seq()[i] <= old(fb).depth_seq()[i] && (final(fb).depth_seq()[i] == old(fb).depth_seq()[i] ==> final(fb).colors_seq()[i] == old(fb).colors_seq()[i]),
        forall|tx: int, ty: int, x: int, y: int, j: int|
            #![trigger pix_index(old(fb).width as int, x, y), program.regions@[ty]@[tx].triangles@[j]]
            0 <= ty < program.regions@.len() && 0 <= tx < program.regions@[ty]@.len()
                && program.regions@[ty]@[tx].in_tile(x, y) && 0 <= j
                < program.regions@[ty]@[tx].triangles@.len() && covers(
                program.regions@[ty]@[tx].triangles@[j],
                x,
                y,
                old(fb).width as int,
                old(fb).height as int,
            ) ==> final(fb).depth_seq()[pix_index(old(fb).width as int, x, y)] <= pixel_point(
                program.regions@[ty]@[tx].triangles@[j],
                x,
                y,
                old(fb).width as int,
                old(fb).height as int,
            ).z,
        forall|tx: int, ty: int, x: int, y: int|
            #![trigger program.regions@[ty]@[tx].in_tile(x, y), pix_index(old(fb).width as int, x, y)]
            0 <= ty < program.regions@.len() && 0 <= tx < program.regions@[ty]@.len()
                && program.regions@[ty]@[tx].in_tile(x, y) ==> ({
                let gi = pix_index(old(fb).width as int, x, y);
                let own = program.regions@[ty]@[tx];
                let n = own.triangles@.len() as int;
                &&& final(fb).depth_seq()[gi] == own.depth_after(n, x, y, old(fb).depth_seq()[gi])
                &&& final(fb).colors_seq()[gi] == own.color_after(
                    n,
                    x,
                    y,
                    old(fb).colors_seq()[gi],
                    old(fb).depth_seq()[gi],
                )
            }),
        forall|tx: int, ty: int, x: int, y: int|
            #![trigger program.regions@[ty]@[tx].in_tile(x, y), pix_index(old(fb).width as int, x, y)]
            0 <= ty < program.regions@.len() && 0 <= tx < program.regions@[ty]@.len()
                && program.regions@[ty]@[tx].in_tile(x, y) && program.regions@[ty]@[tx].uncovered(
                x,
                y,
            ) ==> final(fb).depth_seq()[pix_index(old(fb).width as int, x, y)] == old(fb).depth_seq()[pix_index(old(fb).width as int, x, y)] && final(fb).colors_seq()[pix_index(old(fb).width as int, x, y)] == old(fb).colors_seq()[pix_index(old(fb).width as int, x, y)],
{
    let count_y = program.regions.len();
    let mut ty: usize = 0;
    while ty < count_y
        invariant
            program.wf(),
            old(fb).wf(),
            fb.wf(),
            program.width == old(fb).width,
            program.height == old(fb).height,
            count_y == program.regions@.len(),
            ty <= count_y,
            fb.width == old(fb).width,
            fb.height == old(fb).height,
            fb.packed_seq() == old(fb).packed_seq(),
            fb.colors_seq().len() == old(fb).colors_seq().len(),
            fb.depth_seq().len() == old(fb).depth_seq().len(),
            forall|i: int|
                0 <= i < old(fb).depth_seq().len() ==> fb.depth_seq()[i] <= old(fb).depth_seq()[i]
                    && (fb.depth_seq()[i] == old(fb).depth_seq()[i] ==> fb.colors_seq()[i] == old(fb).colors_seq()[i]),
            forall|atx: int, aty: int, x: int, y: int, j: int|
                #![trigger pix_index(old(fb).width as int, x, y), program.regions@[aty]@[atx].triangles@[j]]
                0 <= aty < program.regions@.len() && 0 <= atx < program.regions@[aty]@.len() && aty
                    < ty && program.regions@[aty]@[atx].in_tile(x, y) && 0 <= j
                    < program.regions@[aty]@[atx].triangles@.len() && covers(
                    program.regions@[aty]@[atx].triangles@[j],
                    x,
                    y,
                    old(fb).width as int,
                    old(fb).height as int,
                ) ==> fb.depth_seq()[pix_index(old(fb).width as int, x, y)] <= pixel_point(
                    program.regions@[aty]@[atx].triangles@[j],
                    x,
                    y,
                    old(fb).width as int,
                    old(fb).height as int,
                ).z,
            forall|atx: int, aty: int, x: int, y: int|
                #![trigger program.regions@[aty]@[atx].in_tile(x, y), pix_index(old(fb).width as int, x, y)]
                0 <= aty < program.regions@.len() && 0 <= atx < program.regions@[aty]@.len()
                    && program.regions@[aty]@[atx].in_tile(x, y) ==> ({
                    let gi = pix_index(old(fb).width as int, x, y);
                    let own = program.regions@[aty]@[atx];
                    let n = own.triangles@.len() as int;
                    if aty < ty {
                        fb.depth_seq()[gi] == own.depth_after(n, x, y, old(fb).depth_seq()[gi])
                            && fb.colors_seq()[gi] == own.color_after(
                            n,
                            x,
                            y,
                            old(fb).colors_seq()[gi],
                            old(fb).depth_seq()[gi],
                        )
                    } else {
                        fb.depth_seq()[gi] == old(fb).depth_seq()[gi] && fb.colors_seq()[gi]
                            == old(fb).colors_seq()[gi]
                    }
                }),
        decreases count_y - ty,
    {
        let row = &program.regions[ty];
        let count_x = row.len();
        let mut tx: usize = 0;
        while tx < count_x
            invariant
                program.wf(),
                old(fb).wf(),
                fb.wf(),
                program.width == old(fb).width,
                program.height == old(fb).height,
                count_y == program.regions@.len(),
                ty < count_y,
                row == &program.regions@[ty as int],
                count_x == program.regions@[ty as int]@.len(),
                tx <= count_x,
                fb.width == old(fb).width,
                fb.height == old(fb).height,
                fb.packed_seq() == old(fb).packed_seq(),
                fb.colors_seq().len() == old(fb).colors_seq().len(),
                fb.depth_seq().len() == old(fb).depth_seq().len(),
                forall|i: int|
                    0 <= i < old(fb).depth_seq().len() ==> fb.depth_seq()[i] <= old(fb).depth_seq()[i] && (fb.depth_seq()[i] == old(fb).depth_seq()[i]
                        ==> fb.colors_seq()[i] == old(fb).colors_seq()[i]),
                forall|atx: int, aty: int, x: int, y: int, j: int|
                    #![trigger pix_index(old(fb).width as int, x, y), program.regions@[aty]@[atx].triangles@[j]]
                    0 <= aty < program.regions@.len() && 0 <= atx < program.regions@[aty]@.len()
                        && (aty < ty || (aty == ty && atx < tx))
                        && program.regions@[aty]@[atx].in_tile(x, y) && 0 <= j
                        < program.regions@[aty]@[atx].triangles@.len() && covers(
                        program.regions@[aty]@[atx].triangles@[j],
                        x,
                        y,
                        old(fb).width as int,
                        old(fb).height as int,
                    ) ==> fb.depth_seq()[pix_index(old(fb).width as int, x, y)] <= pixel_point(
                        program.regions@[aty]@[atx].triangles@[j],
                        x,
                        y,
                        old(fb).width as int,
                        old(fb).height as int,
                    ).z,
                forall|atx: int, aty: int, x: int, y: int|
                    #![trigger program.regions@[aty]@[atx].in_tile(x, y), pix_index(old(fb).width as int, x, y)]
                    0 <= aty < program.regions@.len() && 0 <= atx < program.regions@[aty]@.len()
                        && program.regions@[aty]@[atx].in_tile(x, y) ==> ({
                        let gi = pix_index(old(fb).width as int, x, y);
                        let own = program.regions@[aty]@[atx];
                        let n = own.triangles@.len() as int;
                        if aty < ty || (aty == ty && atx < tx) {
                            fb.depth_seq()[gi] == own.depth_after(n, x, y, old(fb).depth_seq()[gi])
                                && fb.colors_seq()[gi] == own.color_after(
                                n,
                                x,
                                y,
                                old(fb).colors_seq()[gi],
                                old(fb).depth_seq()[gi],
                            )
                        } else {
                            fb.depth_seq()[gi] == old(fb).depth_seq()[gi] && fb.colors_seq()[gi]
                                == old(fb).colors_seq()[gi]
                        }
                    }),
            decreases count_x - tx,
        {
            proof {
                crate::framebuffer::lemma_tile_in_image(
                    fb.width as int,
                    program.region_width as int,
                    tx as int,
                );
                crate::framebuffer::lemma_tile_in_image(
                    fb.height as int,
                    program.region_height as int,
                    ty as int,
                );
            }
            let renderer = &row[tx];
            let ghost mid = *fb;
            let mut tile = fb.extract_region(
                renderer.from.0,
                renderer.from.1,
                renderer.region_width,
                renderer.region_height,
            );
            let ghost tile0 = tile;
            renderer.render_region(&mut tile);
            fb.absorb(&tile);
            proof {
                let w = fb.width as int;
                let h = fb.height as int;
                let tw = tile.width as int;
                assert forall|i: int|
                    0 <= i < old(fb).depth_seq().len() implies fb.depth_seq()[i]
                    <= mid.depth_seq()[i] && (fb.depth_seq()[i] == mid.depth_seq()[i]
                    ==> fb.colors_seq()[i] == mid.colors_seq()[i]) by {
                    crate::framebuffer::lemma_area_bound(w, h);
                    let x = i % w;
                    let y = i / w;
                    vstd::arithmetic::div_mod::lemma_fundamental_div_mod(i, w);
                    vstd::arithmetic::div_mod::lemma_mod_division_less_than_divisor(i, w);
                    vstd::arithmetic::div_mod::lemma_div_pos_is_pos(i, w);

                    vstd::arithmetic::div_mod::lemma_multiply_divide_lt(i, w, h);
                    assert(y * w == w * y) by (nonlinear_arith);
                    assert(pix_index(w, x, y) == i);
                    if tile0.contains(x, y) {
                        lemma_pix_index_bounds(tw, tile.height as int, x - tile.from_x, y
                            - tile.from_y);
                        crate::framebuffer::lemma_area_bound(tw, tile.height as int);
                        let li = pix_index(tw, x - tile.from_x, y - tile.from_y);
                        assert(tile0.colors_seq()[li] == mid.colors_seq()[i]);
                        assert(tile0.depth_seq()[li] == mid.depth_seq()[i]);
                        assert(tile.depth_seq()[li] <= tile0.depth_seq()[li]);
                        assert(fb.colors_seq()[i] == tile.colors_seq()[li]);
                        assert(fb.depth_seq()[i] == tile.depth_seq()[li]);
                    } else {
                        assert(pix_index(mid.width as int, x, y) == i);
                        assert(fb.colors_seq()[i] == mid.colors_seq()[i]);
                        assert(fb.depth_seq()[i] == mid.depth_seq()[i]);
                    }
                }
                let w = old(fb).width as int;
                let h = old(fb).height as int;
                assert forall|atx: int, aty: int, x: int, y: int, j: int|
                    #![trigger pix_index(old(fb).width as int, x, y), program.regions@[aty]@[atx].triangles@[j]]
                    0 <= aty < program.regions@.len() && 0 <= atx < program.regions@[aty]@.len()
                        && (aty < ty || (aty == ty && atx < tx + 1))
                        && program.regions@[aty]@[atx].in_tile(x, y) && 0 <= j
                        < program.regions@[aty]@[atx].triangles@.len() && covers(
                        program.regions@[aty]@[atx].triangles@[j],
                        x,
                        y,
                        old(fb).width as int,
                        old(fb).height as int,
                    ) implies fb.depth_seq()[pix_index(old(fb).width as int, x, y)] <= pixel_point(
                        program.regions@[aty]@[atx].triangles@[j],
                        x,
                        y,
                        old(fb).width as int,
                        old(fb).height as int,
                    ).z by {
                    let own = program.regions@[aty]@[atx];
                    let tr = own.triangles@[j];
                    assert(0 <= x < w && 0 <= y < h);
                    crate::framebuffer::lemma_area_bound(w, h);
                    lemma_pix_index_bounds(w, h, x, y);
                    let gi = pix_index(w, x, y);
                    if aty == ty && atx == tx {
                        // the tile just rendered and absorbed: chain the
                        // bound through the handle
                        assert(own == *renderer);
                        assert(tile0.contains(x, y));
                        crate::framebuffer::lemma_area_bound(
                            tile.width as int,
                            tile.height as int,
                        );
                        lemma_pix_index_bounds(
                            tile.width as int,
                            tile.height as int,
                            x - tile.from_x,
                            y - tile.from_y,
                        );
                        let li = tile0.local_index(x, y);
                        assert(tile.depth_seq()[li] <= pixel_point(tr, x, y, w, h).z);
                        assert(fb.depth_seq()[gi] == tile.depth_seq()[li]);
                    } else {
                        // a tile finished earlier: the pixel lies in that
                        // tile's rectangle, so not in the one just written
                        crate::framebuffer::lemma_tile_partition_1d(
                            w,
                            program.region_width as int,
                            x,
                        );
                        crate::framebuffer::lemma_tile_partition_1d(
                            h,
                            program.region_height as int,
                            y,
                        );
                        assert(!tile.contains(x, y));
                        assert(fb.depth_seq()[gi] == mid.depth_seq()[gi]);
                        assert(mid.depth_seq()[gi] <= pixel_point(tr, x, y, w, h).z);
                    }
                }
                assert forall|atx: int, aty: int, x: int, y: int|
                    0 <= aty < program.regions@.len() && 0 <= atx < program.regions@[aty]@.len()
                        && program.regions@[aty]@[atx].in_tile(x, y) implies ({
                    let gi = pix_index(old(fb).width as int, x, y);
                    let own = program.regions@[aty]@[atx];
                    let n = own.triangles@.len() as int;
                    if aty < ty || (aty == ty && atx < tx + 1) {
                        fb.depth_seq()[gi] == own.depth_after(n, x, y, old(fb).depth_seq()[gi])
                            && fb.colors_seq()[gi] == own.color_after(
                            n,
                            x,
                            y,
                            old(fb).colors_seq()[gi],
                            old(fb).depth_seq()[gi],
                        )
                    } else {
                        fb.depth_seq()[gi] == old(fb).depth_seq()[gi] && fb.colors_seq()[gi]
                            == old(fb).colors_seq()[gi]
                    }
                }) by {
                    let w = old(fb).width as int;
                    let h = old(fb).height as int;
                    let own = program.regions@[aty]@[atx];
                    let n = own.triangles@.len() as int;
                    let gi = pix_index(w, x, y);
                    assert(0 <= x < w && 0 <= y < h);
                    crate::framebuffer::lemma_area_bound(w, h);
                    lemma_pix_index_bounds(w, h, x, y);
                    if aty == ty && atx == tx {
                        // the tile just rendered and absorbed: before
                        // this step the pixel still held its frame-start
                        // value, and the tile fold carries it forward
                        assert(own == *renderer);
                        assert(tile0.contains(x, y));
                        crate::framebuffer::lemma_area_bound(
                            tile.width as int,
                            tile.height as int,
                        );
                        lemma_pix_index_bounds(
                            tile.width as int,
                            tile.height as int,
                            x - tile.from_x,
                            y - tile.from_y,
                        );
                        let li = tile0.local_index(x, y);
                        assert(mid.depth_seq()[gi] == old(fb).depth_seq()[gi]);
                        assert(mid.colors_seq()[gi] == old(fb).colors_seq()[gi]);
                        assert(tile0.depth_seq()[li] == mid.depth_seq()[gi]);
                        assert(tile0.colors_seq()[li] == mid.colors_seq()[gi]);
                        assert(tile.depth_seq()[li] == own.depth_after(
                            n,
                            x,
                            y,
                            tile0.depth_seq()[li],
                        ));
                        assert(tile.colors_seq()[li] == own.color_after(
                            n,
                            x,
                            y,
                            tile0.colors_seq()[li],
                            tile0.depth_seq()[li],
                        ));
                        assert(fb.depth_seq()[gi] == tile.depth_seq()[li]);
                        assert(fb.colors_seq()[gi] == tile.colors_seq()[li]);
                    } else {
                        // another tile's pixel: the rectangle just
                        // written does not reach it
                        crate::framebuffer::lemma_tile_partition_1d(
                            w,
                            program.region_width as int,
                            x,
                        );
                        crate::framebuffer::lemma_tile_partition_1d(
                            h,
                            program.region_height as int,
                            y,
                        );
                        assert(!tile.contains(x, y));
                        assert(fb.depth_seq()[gi] == mid.depth_seq()[gi]);
                        assert(fb.colors_seq()[gi] == mid.colors_seq()[gi]);
                    }
                }
            }
            tx += 1;
        }
        ty += 1;
    }
    proof {
        assert forall|tx: int, ty: int, x: int, y: int|
            0 <= ty < program.regions@.len() && 0 <= tx < program.regions@[ty]@.len()
                && program.regions@[ty]@[tx].in_tile(x, y) && program.regions@[ty]@[tx].uncovered(
                x,
                y,
            ) implies fb.depth_seq()[pix_index(old(fb).width as int, x, y)] == old(fb).depth_seq()[pix_index(old(fb).width as int, x, y)] && fb.colors_seq()[pix_index(old(fb).width as int, x, y)] == old(fb).colors_seq()[pix_index(old(fb).width as int, x, y)] by {
            let own = program.regions@[ty]@[tx];
            let gi = pix_index(old(fb).width as int, x, y);
            own.lemma_uncovered_fold(
                own.triangles@.len() as int,
                x,
                y,
                old(fb).colors_seq()[gi],
                old(fb).depth_seq()[gi],
            );
        }
    }
}

} // verus!
