//! The pixel framebuffer: a color array and a depth array over
//! `width * height` pixels in row-major order, a packed 24-bit output
//! buffer, and tile write handles that partition the image into disjoint
//! rectangles.

use vstd::prelude::*;
use vstd::arithmetic::div_mod::{
    lemma_div_is_ordered, lemma_div_multiples_vanish, lemma_fundamental_div_mod,
    lemma_fundamental_div_mod_converse,
};
use vstd::arithmetic::mul::lemma_mul_inequality;
use crate::fixed::{DEPTH_FAR, SCALE};
use crate::vector::{Vector2, Vector3};

verus! {

/// Row-major pixel index: pixel `(x, y)` lives at `y * w + x`.
pub open spec fn pix_index(w: int, x: int, y: int) -> int {
    y * w + x
}

pub proof fn lemma_pix_index_bounds(w: int, h: int, x: int, y: int)
    requires
        0 <= x < w,
        0 <= y < h,
    ensures
        0 <= pix_index(w, x, y) < w * h,
{
    assert(0 <= y * w + x < w * h) by (nonlinear_arith)
        requires
            0 <= x < w,
            0 <= y < h,
    ;
}

pub proof fn lemma_area_bound(w: int, h: int)
    requires
        0 <= w <= 0xFFFF,
        0 <= h <= 0xFFFF,
    ensures
        0 <= w * h <= 0xFFFE_0001,
{
    assert(0 <= w * h <= 0xFFFE_0001) by (nonlinear_arith)
        requires
            0 <= w <= 0xFFFF,
            0 <= h <= 0xFFFF,
    ;
}

/// One channel clamped to the unit interval `[0, SCALE]`.
pub open spec fn clamp_unit(v: int) -> int {
    if v < 0 {
        0
    } else if v > SCALE {
        SCALE as int
    } else {
        v
    }
}

/// One packed byte: the clamped channel mapped onto `0..=255`, truncating.
pub open spec fn channel_byte(v: int) -> int {
    clamp_unit(v) * 255 / (SCALE as int)
}

/// The packed 24-bit pixel `0x00RRGGBB` of a color.
pub open spec fn spec_pack(c: Vector3) -> int {
    channel_byte(c.x as int) * 65536 + channel_byte(c.y as int) * 256 + channel_byte(c.z as int)
}

pub proof fn lemma_channel_byte_bounds(v: int)
    ensures
        0 <= channel_byte(v) <= 255,
{
    lemma_div_is_ordered(clamp_unit(v) * 255, (SCALE as int) * 255, SCALE as int);
    lemma_div_multiples_vanish(255, SCALE as int);
}

/// Packing never clamps a channel already inside the unit interval: there
/// the packed byte is exactly `v * 255 / SCALE`, the truncation of the
/// real product `value * 255`.
pub proof fn lemma_pack_unit_range(c: Vector3)
    requires
        0 <= c.x <= SCALE,
        0 <= c.y <= SCALE,
        0 <= c.z <= SCALE,
    ensures
        spec_pack(c) == (c.x as int) * 255 / (SCALE as int) * 65536
            + (c.y as int) * 255 / (SCALE as int) * 256 + (c.z as int) * 255 / (SCALE as int),
{
}

/// The nearest-neighbor source column (or row) for a texture coordinate
/// `v` in `[0, SCALE]` over an extent of `n` pixels.
pub open spec fn sample_coord(v: int, n: int) -> int {
    v * (n - 1) / (SCALE as int)
}

pub proof fn lemma_sample_coord_bounds(v: int, n: int)
    requires
        0 <= v <= SCALE,
        1 <= n,
    ensures
        0 <= sample_coord(v, n) < n,
{
    assert(v * (n - 1) <= (SCALE as int) * (n - 1)) by (nonlinear_arith)
        requires
            0 <= v <= SCALE,
            1 <= n,
    ;
    assert(0 <= v * (n - 1)) by (nonlinear_arith)
        requires
            0 <= v,
            1 <= n,
    ;
    lemma_div_is_ordered(v * (n - 1), (SCALE as int) * (n - 1), SCALE as int);
    lemma_div_multiples_vanish(n - 1, SCALE as int);
}

/// A depth-tested write of color `c` at depth `z` into pixel `i` of the
/// parallel color/depth arrays: the fragment lands only when it is
/// strictly nearer than what the pixel holds, so the earlier of two
/// fragments wins a tie.
pub open spec fn depth_tested_write(
    colors: Seq<Vector3>,
    depth: Seq<i64>,
    i: int,
    c: Vector3,
    z: i64,
) -> (Seq<Vector3>, Seq<i64>) {
    if z < depth[i] {
        (colors.update(i, c), depth.update(i, z))
    } else {
        (colors, depth)
    }
}

/// Anything pixels can be sampled from with normalized coordinates.
pub trait Texture {
    /// When sampling is allowed.
    spec fn sample_ok(&self, uv: Vector2) -> bool;

    /// The sampled color.
    spec fn sampled(&self, uv: Vector2) -> Vector3;

    fn sample(&self, uv: Vector2) -> (r: Vector3)
        requires
            self.sample_ok(uv),
        ensures
            r == self.sampled(uv),
    ;
}

pub struct Framebuffer {
    pub colors: Vec<Vector3>,
    pub depth: Vec<i64>,
    pub buffer: Vec<u32>,
    pub width: usize,
    pub height: usize,
}

impl Framebuffer {
    /// The color of each pixel, row-major.
    pub open spec fn colors_seq(&self) -> Seq<Vector3> {
        self.colors@
    }

    /// The depth of each pixel, row-major.
    pub open spec fn depth_seq(&self) -> Seq<i64> {
        self.depth@
    }

    /// The packed output pixels, row-major.
    pub open spec fn packed_seq(&self) -> Seq<u32> {
        self.buffer@
    }

    pub open spec fn wf(&self) -> bool {
        &&& self.colors_seq().len() == self.width * self.height
        &&& self.depth_seq().len() == self.width * self.height
        &&& self.packed_seq().len() == self.width * self.height
        &&& 0 < self.width <= 0xFFFF
        &&& 0 < self.height <= 0xFFFF
    }

    /// A black framebuffer of the given extent, with every pixel at the
    /// far depth and the packed buffer all zero.
    pub fn new(width: usize, height: usize) -> (r: Self)
        requires
            0 < width <= 0xFFFF,
            0 < height <= 0xFFFF,
        ensures
            r.wf(),
            r.width == width,
            r.height == height,
            forall|i: int|
                0 <= i < width * height ==> r.colors_seq()[i] == (Vector3 {
                    x: 0i64,
                    y: 0i64,
                    z: 0i64,
                }),
            forall|i: int| 0 <= i < width * height ==> r.depth_seq()[i] == DEPTH_FAR,
            forall|i: int| 0 <= i < width * height ==> r.packed_seq()[i] == 0u32,
    {
        proof {
            lemma_area_bound(width as int, height as int);
        }
        let n = width * height;
        let mut colors: Vec<Vector3> = Vec::new();
        let mut depth: Vec<i64> = Vec::new();
        let mut buffer: Vec<u32> = Vec::new();
        let mut i: usize = 0;
        while i < n
            invariant
                i <= n,
                colors@.len() == i,
                depth@.len() == i,
                buffer@.len() == i,
                forall|j: int|
                    0 <= j < i ==> colors@[j] == (Vector3 { x: 0i64, y: 0i64, z: 0i64 }),
                forall|j: int| 0 <= j < i ==> depth@[j] == DEPTH_FAR,
                forall|j: int| 0 <= j < i ==> buffer@[j] == 0u32,
            decreases n - i,
        {
            colors.push(Vector3::zero());
            depth.push(DEPTH_FAR);
            buffer.push(0);
            i += 1;
        }
        Framebuffer { colors, depth, buffer, width, height }
    }

    /// The depth-tested write: the fragment lands if and only if it is
    /// strictly nearer than the pixel's current depth, so of two
    /// fragments at equal depth the earlier one stays.
    pub fn set_color(&mut self, x: usize, y: usize, color: Vector3, depth: i64)
        requires
            old(self).wf(),
            x < old(self).width,
            y < old(self).height,
        ensures
            final(self).wf(),
            final(self).width == old(self).width,
            final(self).height == old(self).height,
            final(self).packed_seq() == old(self).packed_seq(),
            (final(self).colors_seq(), final(self).depth_seq()) == depth_tested_write(
                old(self).colors_seq(),
                old(self).depth_seq(),
                pix_index(old(self).width as int, x as int, y as int),
                color,
                depth,
            ),
    {
        proof {
            lemma_pix_index_bounds(
                self.width as int,
                self.height as int,
                x as int,
                y as int,
            );
        }
        let index = self.pos_to_index(x, y);
        if self.depth[index] > depth {
            self.colors[index] = color;
            self.depth[index] = depth;
        }
    }

    /// Every color becomes the clear color and every depth the far depth;
    /// the packed buffer is untouched.
    pub fn clear(&mut self, clear_color: Vector3)
        requires
            old(self).wf(),
        ensures
            final(self).wf(),
            final(self).width == old(self).width,
            final(self).height == old(self).height,
            final(self).packed_seq() == old(self).packed_seq(),
            final(self).colors_seq().len() == old(self).colors_seq().len(),
            final(self).depth_seq().len() == old(self).depth_seq().len(),
            forall|i: int|
                0 <= i < old(self).colors_seq().len() ==> final(self).colors_seq()[i]
                    == clear_color,
            forall|i: int|
                0 <= i < old(self).depth_seq().len() ==> final(self).depth_seq()[i] == DEPTH_FAR,
    {
        let n = self.colors.len();
        let mut i: usize = 0;
        while i < n
            invariant
                i <= n,
                self.wf(),
                n == self.colors_seq().len(),
                self.width == old(self).width,
                self.height == old(self).height,
                self.packed_seq() == old(self).packed_seq(),
                forall|j: int| 0 <= j < i ==> self.colors_seq()[j] == clear_color,
                forall|j: int| 0 <= j < i ==> self.depth_seq()[j] == DEPTH_FAR,
            decreases n - i,
        {
            self.colors[i] = clear_color;
            self.depth[i] = DEPTH_FAR;
            i += 1;
        }
    }

    /// Pack one color into a `0x00RRGGBB` pixel, clamping each channel
    /// into the unit interval first.
    pub fn pack_color(c: &Vector3) -> (r: u32)
        ensures
            r as int == spec_pack(*c),
    {
        let rb = Self::pack_channel(c.x);
        let gb = Self::pack_channel(c.y);
        let bb = Self::pack_channel(c.z);
        rb * 65536 + gb * 256 + bb
    }

    fn pack_channel(v: i64) -> (r: u32)
        ensures
            r as int == channel_byte(v as int),
            r <= 255,
    {
        let clamped: i64 = if v < 0 {
            0
        } else if v > SCALE {
            SCALE
        } else {
            v
        };
        let scaled: u64 = (clamped as u64) * 255 / (SCALE as u64);
        proof {
            lemma_channel_byte_bounds(v as int);
        }
        scaled as u32
    }

    /// Pack every color into the output buffer; colors and depths stay.
    pub fn finish_rendering(&mut self)
        requires
            old(self).wf(),
        ensures
            final(self).wf(),
            final(self).width == old(self).width,
            final(self).height == old(self).height,
            final(self).colors_seq() == old(self).colors_seq(),
            final(self).depth_seq() == old(self).depth_seq(),
            final(self).packed_seq().len() == old(self).packed_seq().len(),
            forall|i: int|
                0 <= i < old(self).packed_seq().len() ==> final(self).packed_seq()[i] as int
                    == spec_pack(old(self).colors_seq()[i]),
    {
        let n = self.buffer.len();
        let mut i: usize = 0;
        while i < n
            invariant
                i <= n,
                self.wf(),
                n == self.packed_seq().len(),
                self.width == old(self).width,
                self.height == old(self).height,
                self.colors_seq() == old(self).colors_seq(),
                self.depth_seq() == old(self).depth_seq(),
                forall|j: int|
                    0 <= j < i ==> self.packed_seq()[j] as int == spec_pack(
                        old(self).colors_seq()[j],
                    ),
            decreases n - i,
        {
            let packed = Self::pack_color(&self.colors[i]);
            self.buffer[i] = packed;
            i += 1;
        }
    }

    /// Read-only view of the packed output pixels.
    pub fn colors(&self) -> (r: &Vec<u32>)
        ensures
            r@ == self.packed_seq(),
    {
        &self.buffer
    }

    fn pos_to_index(&self, x: usize, y: usize) -> (r: usize)
        requires
            self.wf(),
            x < self.width,
            y < self.height,
        ensures
            r as int == pix_index(self.width as int, x as int, y as int),
            r < self.width * self.height,
    {
        proof {
            lemma_area_bound(self.width as int, self.height as int);
            lemma_pix_index_bounds(self.width as int, self.height as int, x as int, y as int);
        }
        y * self.width + x
    }
}

impl Texture for Framebuffer {
    open spec fn sample_ok(&self, uv: Vector2) -> bool {
        &&& self.wf()
        &&& 0 <= uv.x <= SCALE
        &&& 0 <= uv.y <= SCALE
    }

    /// Nearest-neighbor sampling: the pixel at column
    /// `uv.x * (width - 1) / SCALE` and row `uv.y * (height - 1) / SCALE`.
    open spec fn sampled(&self, uv: Vector2) -> Vector3 {
        self.colors_seq()[pix_index(
            self.width as int,
            sample_coord(uv.x as int, self.width as int),
            sample_coord(uv.y as int, self.height as int),
        )]
    }

    fn sample(&self, uv: Vector2) -> (r: Vector3) {
        proof {
            lemma_sample_coord_bounds(uv.x as int, self.width as int);
            lemma_sample_coord_bounds(uv.y as int, self.height as int);
        }
        let x = ((uv.x as u64) * ((self.width - 1) as u64) / (SCALE as u64)) as usize;
        let y = ((uv.y as u64) * ((self.height - 1) as u64) / (SCALE as u64)) as usize;
        proof {
            lemma_area_bound(self.width as int, self.height as int);
            lemma_pix_index_bounds(self.width as int, self.height as int, x as int, y as int);
        }
        self.colors[y * self.width + x]
    }
}


/// How many tiles of intended extent `step` cover an image extent: the
/// quotient, plus one when a remainder is left over.
pub open spec fn grid_count(extent: int, step: int) -> int
    recommends
        step >= 1,
{
    if extent % step != 0 {
        extent / step + 1
    } else {
        extent / step
    }
}

/// The extent of tile `i` along one axis: the intended extent, except
/// that the last tile is cut down to the remainder when there is one.
pub open spec fn tile_extent(i: int, extent: int, step: int) -> int
    recommends
        step >= 1,
{
    if i == grid_count(extent, step) - 1 && extent % step != 0 {
        extent % step
    } else {
        step
    }
}

/// Every tile is nonempty, no wider than intended, and lies inside the
/// image: tile `i` covers `[i*step, i*step + extent_of_i) <= extent`.
pub proof fn lemma_tile_in_image(extent: int, step: int, i: int)
    requires
        step >= 1,
        extent >= 1,
        0 <= i < grid_count(extent, step),
    ensures
        1 <= tile_extent(i, extent, step) <= step,
        0 <= i * step,
        i * step + tile_extent(i, extent, step) <= extent,
{
    lemma_fundamental_div_mod(extent, step);
    assert(0 <= i * step) by (nonlinear_arith)
        requires
            i >= 0,
            step >= 1,
    ;
    assert(i * step == step * i) by (nonlinear_arith);
    assert((i + 1) * step == step * i + step) by (nonlinear_arith);
    assert((extent / step) * step == step * (extent / step)) by (nonlinear_arith);
    if i == grid_count(extent, step) - 1 {
        if extent % step != 0 {
            assert(i == extent / step);
            assert(i * step + extent % step == extent);
        } else {
            assert(i + 1 == extent / step);
            assert((i + 1) * step == extent);
        }
    } else {
        // an inner tile: even the next tile still starts inside the image
        assert(i + 1 <= extent / step);
        lemma_mul_inequality(i + 1, extent / step, step);
        assert((extent / step) * step <= extent);
    }
}

/// Tile coverage along one axis: a coordinate `p` inside the image lies
/// in tile `i` exactly when `i == p / step`, so the tiles partition
/// `[0, extent)`.
pub proof fn lemma_tile_partition_1d(extent: int, step: int, p: int)
    requires
        step >= 1,
        extent >= 1,
        0 <= p < extent,
    ensures
        0 <= p / step < grid_count(extent, step),
        forall|i: int|
            0 <= i < grid_count(extent, step) ==> ((i * step <= p < i * step + #[trigger] tile_extent(
                i,
                extent,
                step,
            )) <==> i == p / step),
{
    lemma_fundamental_div_mod(p, step);
    lemma_fundamental_div_mod(extent, step);
    assert(0 <= p / step) by {
        vstd::arithmetic::div_mod::lemma_div_pos_is_pos(p, step);
    }
    assert(p / step < grid_count(extent, step)) by {
        lemma_div_is_ordered(p, extent - 1, step);
        if extent % step != 0 {
            lemma_div_is_ordered(p, extent, step);
        } else {
            // extent is a multiple: the last coordinate is extent - 1
            lemma_fundamental_div_mod(extent, step);
            assert(extent == (extent / step) * step) by (nonlinear_arith)
                requires
                    step >= 1,
                    extent == step * (extent / step) + extent % step,
                    extent % step == 0,
            ;
            assert(extent - 1 == (extent / step - 1) * step + (step - 1)) by (nonlinear_arith)
                requires
                    step >= 1,
                    extent == (extent / step) * step,
            ;
            lemma_fundamental_div_mod_converse(extent - 1, step, extent / step - 1, step - 1);
        }
    }
    assert forall|i: int|
        0 <= i < grid_count(extent, step) implies ((i * step <= p < i * step + #[trigger] tile_extent(
        i,
        extent,
        step,
    )) <==> i == p / step) by {
        lemma_tile_in_image(extent, step, i);
        lemma_fundamental_div_mod(p, step);
        lemma_fundamental_div_mod(extent, step);
        if i * step <= p < i * step + tile_extent(i, extent, step) {
            // inside tile i: division recovers i
            lemma_fundamental_div_mod_converse(p, step, i, p - i * step);
        }
        if i == p / step {
            // p's own tile holds it: p < i*step + extent_of_i
            assert(i * step == step * i) by (nonlinear_arith);
            assert(i * step <= p < i * step + step);
            if i == grid_count(extent, step) - 1 && extent % step != 0 {
                assert(i == extent / step);
                assert(i * step + extent % step == extent);
            }
        }
    }
}

/// A tile write handle: a bounded write capability over the rectangle
/// `[from_x, from_x + width) x [from_y, from_y + height)`, holding its
/// own copy of those pixels.  Distinct handles cover disjoint rectangles,
/// so they can be filled in parallel and absorbed back into the
/// framebuffer afterwards.
pub struct RegionBuffer {
    pub from_x: usize,
    pub from_y: usize,
    pub width: usize,
    pub height: usize,
    pub colors: Vec<Vector3>,
    pub depth: Vec<i64>,
}

impl RegionBuffer {
    /// The color of each pixel of the rectangle, row-major.
    pub open spec fn colors_seq(&self) -> Seq<Vector3> {
        self.colors@
    }

    /// The depth of each pixel of the rectangle, row-major.
    pub open spec fn depth_seq(&self) -> Seq<i64> {
        self.depth@
    }

    pub open spec fn wf(&self) -> bool {
        &&& self.colors_seq().len() == self.width * self.height
        &&& self.depth_seq().len() == self.width * self.height
        &&& self.width <= 0xFFFF
        &&& self.height <= 0xFFFF
        &&& self.from_x <= 0xFFFF
        &&& self.from_y <= 0xFFFF
    }

    /// Whether an image pixel lies inside this handle's rectangle.
    pub open spec fn contains(&self, x: int, y: int) -> bool {
        &&& self.from_x <= x < self.from_x + self.width
        &&& self.from_y <= y < self.from_y + self.height
    }

    /// The row-major index of an image pixel inside this handle.
    pub open spec fn local_index(&self, x: int, y: int) -> int {
        pix_index(self.width as int, x - self.from_x, y - self.from_y)
    }

    /// A handle with no extent: it contains no pixel, so every write
    /// through it is a no-op.
    pub fn without_dimensions() -> (r: Self)
        ensures
            r.wf(),
            r.from_x == 0,
            r.from_y == 0,
            r.width == 0,
            r.height == 0,
    {
        RegionBuffer {
            from_x: 0,
            from_y: 0,
            width: 0,
            height: 0,
            colors: Vec::new(),
            depth: Vec::new(),
        }
    }

    /// The depth-tested write, clipped to the handle's rectangle: a
    /// fragment outside the rectangle is dropped, one inside lands if and
    /// only if it is strictly nearer than the pixel's current depth.
    pub fn set_color(&mut self, x: usize, y: usize, color: Vector3, depth: i64)
        requires
            old(self).wf(),
        ensures
            final(self).wf(),
            final(self).from_x == old(self).from_x,
            final(self).from_y == old(self).from_y,
            final(self).width == old(self).width,
            final(self).height == old(self).height,
            (final(self).colors_seq(), final(self).depth_seq()) == if old(self).contains(
                x as int,
                y as int,
            ) {
                depth_tested_write(
                    old(self).colors_seq(),
                    old(self).depth_seq(),
                    old(self).local_index(x as int, y as int),
                    color,
                    depth,
                )
            } else {
                (old(self).colors_seq(), old(self).depth_seq())
            },
    {
        if x >= self.from_x && x < self.from_x + self.width && y >= self.from_y && y
            < self.from_y + self.height {
            proof {
                lemma_area_bound(self.width as int, self.height as int);
                lemma_pix_index_bounds(
                    self.width as int,
                    self.height as int,
                    x - self.from_x,
                    y - self.from_y,
                );
            }
            let index = (y - self.from_y) * self.width + (x - self.from_x);
            if self.depth[index] > depth {
                self.colors[index] = color;
                self.depth[index] = depth;
            }
        }
    }
}


/// Row-major indexing can be undone: the index determines the pixel.
pub proof fn lemma_pix_index_decompose(w: int, x: int, y: int)
    requires
        0 <= x < w,
        0 <= y,
    ensures
        pix_index(w, x, y) / w == y,
        pix_index(w, x, y) % w == x,
{
    lemma_fundamental_div_mod_converse(y * w + x, w, y, x);
}

impl Framebuffer {
    /// A tile handle over the given rectangle, holding a copy of the
    /// framebuffer's pixels there.
    pub fn extract_region(&self, from_x: usize, from_y: usize, width: usize, height: usize) -> (r:
        RegionBuffer)
        requires
            self.wf(),
            1 <= width,
            1 <= height,
            from_x + width <= self.width,
            from_y + height <= self.height,
        ensures
            r.wf(),
            r.from_x == from_x,
            r.from_y == from_y,
            r.width == width,
            r.height == height,
            forall|lx: int, ly: int|
                0 <= lx < width && 0 <= ly < height ==> r.colors_seq()[#[trigger] pix_index(
                    width as int,
                    lx,
                    ly,
                )] == self.colors_seq()[pix_index(self.width as int, from_x + lx, from_y + ly)]
                    && r.depth_seq()[pix_index(width as int, lx, ly)] == self.depth_seq()[pix_index(
                    self.width as int,
                    from_x + lx,
                    from_y + ly,
                )],
    {
        proof {
            lemma_area_bound(width as int, height as int);
        }
        let mut colors: Vec<Vector3> = Vec::new();
        let mut depth: Vec<i64> = Vec::new();
        let mut ly: usize = 0;
        while ly < height
            invariant
                self.wf(),
                ly <= height,
                1 <= width <= 0xFFFF,
                1 <= height <= 0xFFFF,
                from_x + width <= self.width,
                from_y + height <= self.height,
                colors@.len() == ly * width,
                depth@.len() == ly * width,
                forall|lx: int, j: int|
                    0 <= lx < width && 0 <= j < ly ==> colors@[#[trigger] pix_index(
                        width as int,
                        lx,
                        j,
                    )] == self.colors_seq()[pix_index(self.width as int, from_x + lx, from_y + j)]
                        && depth@[pix_index(width as int, lx, j)] == self.depth_seq()[pix_index(
                        self.width as int,
                        from_x + lx,
                        from_y + j,
                    )],
            decreases height - ly,
        {
            proof {
                lemma_pix_index_bounds(width as int, height as int, 0, ly as int);
                lemma_pix_index_bounds(width as int, height as int, width - 1, ly as int);
            }
            let mut lx: usize = 0;
            while lx < width
                invariant
                    self.wf(),
                    ly < height,
                    lx <= width,
                    1 <= width <= 0xFFFF,
                    1 <= height <= 0xFFFF,
                    from_x + width <= self.width,
                    from_y + height <= self.height,
                    colors@.len() == ly * width + lx,
                    depth@.len() == ly * width + lx,
                    forall|i: int, j: int|
                        0 <= i < width && 0 <= j < ly ==> colors@[#[trigger] pix_index(
                            width as int,
                            i,
                            j,
                        )] == self.colors_seq()[pix_index(
                            self.width as int,
                            from_x + i,
                            from_y + j,
                        )] && depth@[pix_index(width as int, i, j)]
                            == self.depth_seq()[pix_index(
                            self.width as int,
                            from_x + i,
                            from_y + j,
                        )],
                    forall|i: int|
                        0 <= i < lx ==> colors@[#[trigger] pix_index(width as int, i, ly as int)]
                            == self.colors_seq()[pix_index(
                            self.width as int,
                            from_x + i,
                            from_y + ly,
                        )] && depth@[pix_index(width as int, i, ly as int)]
                            == self.depth_seq()[pix_index(
                            self.width as int,
                            from_x + i,
                            from_y + ly,
                        )],
                decreases width - lx,
            {
                proof {
                    lemma_area_bound(self.width as int, self.height as int);
                    lemma_pix_index_bounds(
                        self.width as int,
                        self.height as int,
                        from_x + lx,
                        from_y + ly,
                    );
                    lemma_pix_index_bounds(width as int, height as int, lx as int, ly as int);
                }
                let gi = (from_y + ly) * self.width + (from_x + lx);
                colors.push(self.colors[gi]);
                depth.push(self.depth[gi]);
                proof {
                    assert forall|i: int, j: int|
                        0 <= i < width && 0 <= j < ly implies 0 <= #[trigger] pix_index(
                        width as int,
                        i,
                        j,
                    ) < ly * width + lx by {
                        lemma_pix_index_bounds(width as int, ly as int, i, j);
                        assert(i + j * width < ly * width) by (nonlinear_arith)
                            requires
                                0 <= i < width,
                                0 <= j < ly,
                        ;
                    }
                }
                lx += 1;
            }
            ly += 1;
            proof {
                assert(ly * width == (ly - 1) * width + width) by (nonlinear_arith);
            }
        }
        proof {
            assert(height * width == width * height) by (nonlinear_arith);
        }
        RegionBuffer { from_x, from_y, width, height, colors, depth }
    }

    /// The grid of disjoint tile handles covering the image: grid cell
    /// `(tx, ty)` covers the rectangle starting at
    /// `(tx * region_width, ty * region_height)`, cut down to the image
    /// remainder in the last column and row.
    pub fn regions(&self, region_width: usize, region_height: usize) -> (r: Vec<Vec<RegionBuffer>>)
        requires
            self.wf(),
            1 <= region_width,
            1 <= region_height,
        ensures
            r@.len() == grid_count(self.height as int, region_height as int),
            forall|ty: int|
                0 <= ty < r@.len() ==> (#[trigger] r@[ty])@.len() == grid_count(
                    self.width as int,
                    region_width as int,
                ),
            forall|tx: int, ty: int|
                0 <= ty < r@.len() && 0 <= tx < r@[ty]@.len() ==> {
                    let t = #[trigger] r@[ty]@[tx];
                    &&& t.wf()
                    &&& t.from_x == tx * region_width
                    &&& t.from_y == ty * region_height
                    &&& t.width == tile_extent(tx, self.width as int, region_width as int)
                    &&& t.height == tile_extent(ty, self.height as int, region_height as int)
                    &&& forall|lx: int, ly: int|
                        0 <= lx < t.width && 0 <= ly < t.height ==> t.colors_seq()[#[trigger] pix_index(
                            t.width as int,
                            lx,
                            ly,
                        )] == self.colors_seq()[pix_index(
                            self.width as int,
                            t.from_x + lx,
                            t.from_y + ly,
                        )] && t.depth_seq()[pix_index(t.width as int, lx, ly)]
                            == self.depth_seq()[pix_index(
                            self.width as int,
                            t.from_x + lx,
                            t.from_y + ly,
                        )]
                },
    {
        let count_x: usize = if self.width % region_width != 0 {
            self.width / region_width + 1
        } else {
            self.width / region_width
        };
        let count_y: usize = if self.height % region_height != 0 {
            self.height / region_height + 1
        } else {
            self.height / region_height
        };
        let mut rows: Vec<Vec<RegionBuffer>> = Vec::new();
        let mut ty: usize = 0;
        while ty < count_y
            invariant
                self.wf(),
                1 <= region_width,
                1 <= region_height,
                count_x == grid_count(self.width as int, region_width as int),
                count_y == grid_count(self.height as int, region_height as int),
                ty <= count_y,
                rows@.len() == ty,
                forall|j: int|
                    0 <= j < ty ==> (#[trigger] rows@[j])@.len() == grid_count(
                        self.width as int,
                        region_width as int,
                    ),
                forall|tx: int, j: int|
                    0 <= j < ty && 0 <= tx < rows@[j]@.len() ==> {
                        let t = #[trigger] rows@[j]@[tx];
                        &&& t.wf()
                        &&& t.from_x == tx * region_width
                        &&& t.from_y == j * region_height
                        &&& t.width == tile_extent(tx, self.width as int, region_width as int)
                        &&& t.height == tile_extent(j, self.height as int, region_height as int)
                        &&& forall|lx: int, ly: int|
                            0 <= lx < t.width && 0 <= ly < t.height ==> t.colors_seq()[#[trigger] pix_index(
                                t.width as int,
                                lx,
                                ly,
                            )] == self.colors_seq()[pix_index(
                                self.width as int,
                                t.from_x + lx,
                                t.from_y + ly,
                            )] && t.depth_seq()[pix_index(t.width as int, lx, ly)]
                                == self.depth_seq()[pix_index(
                                self.width as int,
                                t.from_x + lx,
                                t.from_y + ly,
                            )]
                    },
            decreases count_y - ty,
        {
            proof {
                lemma_tile_in_image(self.height as int, region_height as int, ty as int);
            }
            let ext_y: usize = if ty == count_y - 1 && self.height % region_height != 0 {
                self.height % region_height
            } else {
                region_height
            };
            let oy = ty * region_height;
            let mut row: Vec<RegionBuffer> = Vec::new();
            let mut tx: usize = 0;
            while tx < count_x
                invariant
                    self.wf(),
                    1 <= region_width,
                    1 <= region_height,
                    count_x == grid_count(self.width as int, region_width as int),
                    ty < count_y,
                    count_y == grid_count(self.height as int, region_height as int),
                    oy == ty * region_height,
                    ext_y == tile_extent(ty as int, self.height as int, region_height as int),
                    oy + ext_y <= self.height,
                    1 <= ext_y,
                    tx <= count_x,
                    row@.len() == tx,
                    forall|i: int|
                        0 <= i < tx ==> {
                            let t = #[trigger] row@[i];
                            &&& t.wf()
                            &&& t.from_x == i * region_width
                            &&& t.from_y == ty * region_height
                            &&& t.width == tile_extent(i, self.width as int, region_width as int)
                            &&& t.height == tile_extent(
                                ty as int,
                                self.height as int,
                                region_height as int,
                            )
                            &&& forall|lx: int, ly: int|
                                0 <= lx < t.width && 0 <= ly < t.height ==> t.colors_seq()[#[trigger] pix_index(
                                    t.width as int,
                                    lx,
                                    ly,
                                )] == self.colors_seq()[pix_index(
                                    self.width as int,
                                    t.from_x + lx,
                                    t.from_y + ly,
                                )] && t.depth_seq()[pix_index(t.width as int, lx, ly)]
                                    == self.depth_seq()[pix_index(
                                    self.width as int,
                                    t.from_x + lx,
                                    t.from_y + ly,
                                )]
                        },
                decreases count_x - tx,
            {
                proof {
                    lemma_tile_in_image(self.width as int, region_width as int, tx as int);
                }
                let ext_x: usize = if tx == count_x - 1 && self.width % region_width != 0 {
                    self.width % region_width
                } else {
                    region_width
                };
                let ox = tx * region_width;
                let t = self.extract_region(ox, oy, ext_x, ext_y);
                row.push(t);
                tx += 1;
            }
            rows.push(row);
            ty += 1;
        }
        rows
    }

    /// Write a tile handle's pixels back into its rectangle; everything
    /// outside the rectangle is untouched.
    pub fn absorb(&mut self, region: &RegionBuffer)
        requires
            old(self).wf(),
            region.wf(),
            region.from_x + region.width <= old(self).width,
            region.from_y + region.height <= old(self).height,
        ensures
            final(self).wf(),
            final(self).width == old(self).width,
            final(self).height == old(self).height,
            final(self).packed_seq() == old(self).packed_seq(),
            final(self).colors_seq().len() == old(self).colors_seq().len(),
            final(self).depth_seq().len() == old(self).depth_seq().len(),
            forall|x: int, y: int|
                0 <= x < old(self).width && 0 <= y < old(self).height ==> {
                    let gi = #[trigger] pix_index(old(self).width as int, x, y);
                    if region.contains(x, y) {
                        final(self).colors_seq()[gi] == region.colors_seq()[region.local_index(
                            x,
                            y,
                        )] && final(self).depth_seq()[gi] == region.depth_seq()[region.local_index(
                            x,
                            y,
                        )]
                    } else {
                        final(self).colors_seq()[gi] == old(self).colors_seq()[gi]
                            && final(self).depth_seq()[gi] == old(self).depth_seq()[gi]
                    }
                },
    {
        let w = region.width;
        let h = region.height;
        let fx = region.from_x;
        let fy = region.from_y;
        let mut ly: usize = 0;
        while ly < h
            invariant
                self.wf(),
                region.wf(),
                w == region.width,
                h == region.height,
                fx == region.from_x,
                fy == region.from_y,
                fx + w <= self.width,
                fy + h <= self.height,
                ly <= h,
                self.width == old(self).width,
                self.height == old(self).height,
                self.packed_seq() == old(self).packed_seq(),
                forall|x: int, y: int|
                    0 <= x < self.width && 0 <= y < self.height ==> {
                        let gi = #[trigger] pix_index(self.width as int, x, y);
                        if region.contains(x, y) && y - fy < ly {
                            self.colors_seq()[gi] == region.colors_seq()[region.local_index(x, y)]
                                && self.depth_seq()[gi] == region.depth_seq()[region.local_index(
                                x,
                                y,
                            )]
                        } else {
                            self.colors_seq()[gi] == old(self).colors_seq()[gi]
                                && self.depth_seq()[gi] == old(self).depth_seq()[gi]
                        }
                    },
            decreases h - ly,
        {
            let mut lx: usize = 0;
            while lx < w
                invariant
                    self.wf(),
                    region.wf(),
                    w == region.width,
                    h == region.height,
                    fx == region.from_x,
                    fy == region.from_y,
                    fx + w <= self.width,
                    fy + h <= self.height,
                    ly < h,
                    lx <= w,
                    self.width == old(self).width,
                    self.height == old(self).height,
                    self.packed_seq() == old(self).packed_seq(),
                    forall|x: int, y: int|
                        0 <= x < self.width && 0 <= y < self.height ==> {
                            let gi = #[trigger] pix_index(self.width as int, x, y);
                            if region.contains(x, y) && (y - fy < ly || (y - fy == ly && x - fx
                                < lx)) {
                                self.colors_seq()[gi] == region.colors_seq()[region.local_index(
                                    x,
                                    y,
                                )] && self.depth_seq()[gi] == region.depth_seq()[region.local_index(
                                    x,
                                    y,
                                )]
                            } else {
                                self.colors_seq()[gi] == old(self).colors_seq()[gi]
                                    && self.depth_seq()[gi] == old(self).depth_seq()[gi]
                            }
                        },
                decreases w - lx,
            {
                proof {
                    lemma_area_bound(self.width as int, self.height as int);
                    lemma_area_bound(w as int, h as int);
                    lemma_pix_index_bounds(
                        self.width as int,
                        self.height as int,
                        fx + lx,
                        fy + ly,
                    );
                    lemma_pix_index_bounds(w as int, h as int, lx as int, ly as int);
                }
                let li = ly * w + lx;
                let gi = (fy + ly) * self.width + (fx + lx);
                self.colors[gi] = region.colors[li];
                self.depth[gi] = region.depth[li];
                proof {
                    assert forall|x: int, y: int|
                        0 <= x < self.width && 0 <= y < self.height implies 0 <= #[trigger] pix_index(
                        self.width as int,
                        x,
                        y,
                    ) < self.colors_seq().len() by {
                        lemma_pix_index_bounds(self.width as int, self.height as int, x, y);
                        lemma_area_bound(self.width as int, self.height as int);
                    }
                    assert forall|x: int, y: int|
                        region.contains(x, y) implies 0 <= region.local_index(x, y)
                        < region.colors_seq().len() by {
                        lemma_pix_index_bounds(w as int, h as int, x - fx, y - fy);
                        lemma_area_bound(w as int, h as int);
                    }
                    assert forall|x: int, y: int|
                        0 <= x < self.width && 0 <= y < self.height && (x != fx + lx || y != fy
                            + ly) implies #[trigger] pix_index(self.width as int, x, y) != gi by {
                        lemma_pix_index_decompose(self.width as int, x, y);
                        lemma_pix_index_decompose(self.width as int, fx + lx, fy + ly);
                    }
                }
                lx += 1;
            }
            ly += 1;
        }
    }
}

/// Tile coverage: every pixel `(px, py)` of a `w x h` image lies in
/// exactly one cell of the tile grid with intended tile extent
/// `(rw, rh)`, namely cell `(px / rw, py / rh)`.
pub proof fn lemma_tile_partition(w: int, h: int, rw: int, rh: int, px: int, py: int)
    requires
        1 <= rw,
        1 <= rh,
        1 <= w,
        1 <= h,
        0 <= px < w,
        0 <= py < h,
    ensures
        0 <= px / rw < grid_count(w, rw),
        0 <= py / rh < grid_count(h, rh),
        forall|tx: int|
            0 <= tx < grid_count(w, rw) ==> ((tx * rw <= px < tx * rw + #[trigger] tile_extent(
                tx,
                w,
                rw,
            )) <==> tx == px / rw),
        forall|ty: int|
            0 <= ty < grid_count(h, rh) ==> ((ty * rh <= py < ty * rh + #[trigger] tile_extent(
                ty,
                h,
                rh,
            )) <==> ty == py / rh),
{
    lemma_tile_partition_1d(w, rw, px);
    lemma_tile_partition_1d(h, rh, py);
}

/// Depth test monotonicity: of two fragments at one pixel with depths
/// `z1 < z2`, the nearer one determines the pixel, whichever order they
/// arrive in, provided the nearer one beats what the pixel held.
pub proof fn lemma_depth_test_monotonic(
    colors: Seq<Vector3>,
    depth: Seq<i64>,
    i: int,
    c1: Vector3,
    z1: i64,
    c2: Vector3,
    z2: i64,
)
    requires
        0 <= i < colors.len(),
        colors.len() == depth.len(),
        z1 < z2,
        z1 < depth[i],
    ensures
        ({
            let (ca, da) = depth_tested_write(colors, depth, i, c1, z1);
            let (cb, db) = depth_tested_write(ca, da, i, c2, z2);
            cb[i] == c1 && db[i] == z1
        }),
        ({
            let (ca, da) = depth_tested_write(colors, depth, i, c2, z2);
            let (cb, db) = depth_tested_write(ca, da, i, c1, z1);
            cb[i] == c1 && db[i] == z1
        }),
{
}

/// Tie-breaking: a second fragment at the same pixel with the same depth
/// changes nothing, so the earlier write wins the tie.
pub proof fn lemma_depth_test_tie(
    colors: Seq<Vector3>,
    depth: Seq<i64>,
    i: int,
    c1: Vector3,
    c2: Vector3,
    z: i64,
)
    requires
        0 <= i < colors.len(),
        colors.len() == depth.len(),
    ensures
        ({
            let (ca, da) = depth_tested_write(colors, depth, i, c1, z);
            depth_tested_write(ca, da, i, c2, z) == (ca, da)
        }),
{
    let (ca, da) = depth_tested_write(colors, depth, i, c1, z);
    assert(!(z < da[i]));
}

/// Clearing shows everywhere: after `clear(c)` every sample, whatever
/// the coordinate, returns the clear color.
pub proof fn lemma_clear_then_sample(fb: Framebuffer, c: Vector3, uv: Vector2)
    requires
        fb.wf(),
        forall|i: int| 0 <= i < fb.colors_seq().len() ==> fb.colors_seq()[i] == c,
        0 <= uv.x <= SCALE,
        0 <= uv.y <= SCALE,
    ensures
        fb.sample_ok(uv),
        fb.sampled(uv) == c,
{
    lemma_sample_coord_bounds(uv.x as int, fb.width as int);
    lemma_sample_coord_bounds(uv.y as int, fb.height as int);
    lemma_pix_index_bounds(
        fb.width as int,
        fb.height as int,
        sample_coord(uv.x as int, fb.width as int),
        sample_coord(uv.y as int, fb.height as int),
    );
}

} // verus!
