use rasterizer::fixed::{fmul, DEPTH_FAR, SCALE};
use rasterizer::framebuffer::Framebuffer;
use rasterizer::matrix::Matrix4;
use rasterizer::renderer::{render_frame, Pipeline, Program, Triangle};
use rasterizer::vector::{Vector3, Vector4};

/// Passes positions through unchanged and paints each fragment with the
/// triangle's interpolated attribute.
#[derive(Clone, Copy)]
struct FlatShader;

impl Pipeline for FlatShader {
    type Input = (Vector3, Vector3);
    type Uniform = i64;
    type Attr = Vector3;

    // the ghost faces of the two stages: both stages are pure, so each
    // spec body is the stage itself
    fn vertex_spec(&self, input: (Vector3, Vector3), _uniform: i64) -> (Vector3, Vector3) {
        input
    }

    fn fragment_spec(&self, _p: Vector3, attr: Vector3, _uniform: i64) -> Vector3 {
        attr
    }

    fn vertex(&self, input: (Vector3, Vector3), _uniform: &i64) -> (Vector3, Vector3) {
        input
    }

    fn fragment(&self, _p: Vector3, attr: Vector3, _uniform: &i64) -> Vector3 {
        attr
    }
}

/// Ignores attributes and paints each fragment with the uniform snapshot
/// captured when its triangle was enqueued.
#[derive(Clone, Copy)]
struct UniformColorShader;

impl Pipeline for UniformColorShader {
    type Input = (Vector3, Vector3);
    type Uniform = Vector3;
    type Attr = Vector3;

    fn vertex_spec(&self, input: (Vector3, Vector3), _uniform: Vector3) -> (Vector3, Vector3) {
        input
    }

    fn fragment_spec(&self, _p: Vector3, _attr: Vector3, uniform: Vector3) -> Vector3 {
        uniform
    }

    fn vertex(&self, input: (Vector3, Vector3), _uniform: &Vector3) -> (Vector3, Vector3) {
        input
    }

    fn fragment(&self, _p: Vector3, _attr: Vector3, uniform: &Vector3) -> Vector3 {
        *uniform
    }
}

fn half() -> i64 {
    SCALE / 2
}

/// The triangle covering the upper-left half of the viewport at constant
/// depth one half.
fn big_triangle() -> (Vector3, Vector3, Vector3) {
    (
        Vector3::new(0, 0, half()),
        Vector3::new(SCALE, 0, half()),
        Vector3::new(0, SCALE, half()),
    )
}

#[test]
fn single_triangle_writes_inside_pixel_with_plane_depth() {
    let mut fb = Framebuffer::new(2, 2);
    fb.clear(Vector3::new(0, 0, 0));
    let mut program = Program::<FlatShader>::new(FlatShader, 0, 2, 2, 2, 2);
    let red = Vector3::new(SCALE, 0, 0);
    let (p0, p1, p2) = big_triangle();
    program.enqueue_transformed(p0, red, p1, red, p2, red);
    assert_eq!(program.regions.len(), 1);
    assert_eq!(program.regions[0].len(), 1);
    assert_eq!(program.regions[0][0].triangles.len(), 1);
    render_frame(&program, &mut fb);
    // pixel (0, 0) samples at the anchor vertex: inside, depth = 0.5
    assert_eq!(fb.depth[0], half());
    assert_eq!(fb.colors[0], red);
    // pixel (1, 1) samples the diagonal edge, where one weight is zero;
    // a zero weight still passes the non-negative inside test
    assert_eq!(fb.depth[3], half());
}

#[test]
fn manual_tile_dispatch_matches_render_frame() {
    let red = Vector3::new(SCALE, 0, 0);
    let (p0, p1, p2) = big_triangle();

    let mut program = Program::<FlatShader>::new(FlatShader, 0, 4, 4, 2, 2);
    program.enqueue_transformed(p0, red, p1, red, p2, red);

    let mut fb_a = Framebuffer::new(4, 4);
    fb_a.clear(Vector3::new(0, 0, 0));
    render_frame(&program, &mut fb_a);

    // the same frame, dispatched tile by tile through owned handles as a
    // worker pool would
    let mut fb_b = Framebuffer::new(4, 4);
    fb_b.clear(Vector3::new(0, 0, 0));
    let mut tiles = fb_b.regions(2, 2);
    let renderers = program.region_renderers();
    for (ty, row) in tiles.iter_mut().enumerate() {
        for (tx, tile) in row.iter_mut().enumerate() {
            renderers[ty][tx].render_region(tile);
        }
    }
    for row in tiles.iter() {
        for tile in row.iter() {
            fb_b.absorb(tile);
        }
    }

    assert_eq!(fb_a.colors, fb_b.colors);
    assert_eq!(fb_a.depth, fb_b.depth);
}

#[test]
fn earlier_nearer_triangle_keeps_its_color() {
    let mut fb = Framebuffer::new(2, 2);
    fb.clear(Vector3::new(0, 0, 0));
    let mut program = Program::<FlatShader>::new(FlatShader, 0, 2, 2, 2, 2);
    let red = Vector3::new(SCALE, 0, 0);
    let blue = Vector3::new(0, 0, SCALE);
    let (p0, p1, p2) = big_triangle();
    program.enqueue_transformed(p0, red, p1, red, p2, red);
    let farther = (SCALE * 7) / 10;
    let q0 = Vector3::new(0, 0, farther);
    let q1 = Vector3::new(SCALE, 0, farther);
    let q2 = Vector3::new(0, SCALE, farther);
    program.enqueue_transformed(q0, blue, q1, blue, q2, blue);
    render_frame(&program, &mut fb);
    // every pixel both triangles cover keeps the first (nearer) color
    assert_eq!(fb.colors[0], red);
    assert_eq!(fb.depth[0], half());
}

#[test]
fn offscreen_triangle_reaches_no_tile() {
    let mut fb = Framebuffer::new(4, 4);
    fb.clear(Vector3::new(0, 0, 0));
    let mut program = Program::<FlatShader>::new(FlatShader, 0, 4, 4, 2, 2);
    let c = Vector3::new(SCALE, 0, 0);
    let p0 = Vector3::new(2 * SCALE, 2 * SCALE, 0);
    let p1 = Vector3::new(2 * SCALE, 2 * SCALE, half());
    let p2 = Vector3::new(2 * SCALE, 2 * SCALE, SCALE);
    program.enqueue_transformed(p0, c, p1, c, p2, c);
    for row in program.regions.iter() {
        for tile in row.iter() {
            assert_eq!(tile.triangles.len(), 0);
        }
    }
    render_frame(&program, &mut fb);
    for (i, d) in fb.depth.iter().enumerate() {
        assert_eq!(*d, DEPTH_FAR);
        assert_eq!(fb.colors[i], Vector3::new(0, 0, 0));
    }
}

#[test]
fn binning_triangle_inside_one_tile_reaches_only_it() {
    let mut program = Program::<FlatShader>::new(FlatShader, 0, 4, 4, 2, 2);
    let c = Vector3::new(SCALE, 0, 0);
    // bounding box inside [0.1, 0.3]^2: pixel box [0, 0]..[0, 0] in a
    // 4x4 image, all within tile (0, 0)
    let p0 = Vector3::new(SCALE / 10, SCALE / 10, half());
    let p1 = Vector3::new(3 * SCALE / 10, SCALE / 10, half());
    let p2 = Vector3::new(SCALE / 10, 3 * SCALE / 10, half());
    program.enqueue_transformed(p0, c, p1, c, p2, c);
    assert_eq!(program.regions[0][0].triangles.len(), 1);
    assert_eq!(program.regions[0][1].triangles.len(), 0);
    assert_eq!(program.regions[1][0].triangles.len(), 0);
    assert_eq!(program.regions[1][1].triangles.len(), 0);
}

#[test]
fn binning_spanning_triangle_reaches_every_spanned_tile() {
    let mut program = Program::<FlatShader>::new(FlatShader, 0, 4, 4, 2, 2);
    let c = Vector3::new(SCALE, 0, 0);
    let (p0, p1, p2) = big_triangle();
    program.enqueue_transformed(p0, c, p1, c, p2, c);
    for row in program.regions.iter() {
        for tile in row.iter() {
            assert_eq!(tile.triangles.len(), 1);
        }
    }
}

#[test]
fn degenerate_triangle_is_dropped() {
    let mut program = Program::<FlatShader>::new(FlatShader, 0, 4, 4, 2, 2);
    let c = Vector3::new(SCALE, 0, 0);
    // three collinear points: d00*d11 - d01^2 == 0
    let p0 = Vector3::new(0, 0, 0);
    let p1 = Vector3::new(SCALE / 2, 0, 0);
    let p2 = Vector3::new(SCALE, 0, 0);
    program.enqueue_transformed(p0, c, p1, c, p2, c);
    for row in program.regions.iter() {
        for tile in row.iter() {
            assert_eq!(tile.triangles.len(), 0);
        }
    }
}

#[test]
fn enqueue_snapshots_the_uniform() {
    let mut program = Program::<FlatShader>::new(FlatShader, 11, 2, 2, 2, 2);
    let c = Vector3::new(SCALE, 0, 0);
    let (p0, p1, p2) = big_triangle();
    program.enqueue_transformed(p0, c, p1, c, p2, c);
    program.uniform = 99;
    program.enqueue_transformed(p0, c, p1, c, p2, c);
    let tile = &program.regions[0][0];
    assert_eq!(tile.uniforms.len(), 2);
    assert_eq!(tile.uniforms[0], 11);
    assert_eq!(tile.uniforms[1], 99);
}

#[test]
fn reset_empties_queues_and_keeps_layout() {
    let mut program = Program::<FlatShader>::new(FlatShader, 0, 3, 3, 2, 2);
    let c = Vector3::new(SCALE, 0, 0);
    let (p0, p1, p2) = big_triangle();
    program.enqueue_transformed(p0, c, p1, c, p2, c);
    program.reset();
    assert_eq!(program.regions.len(), 2);
    for (ty, row) in program.regions.iter().enumerate() {
        assert_eq!(row.len(), 2);
        for (tx, tile) in row.iter().enumerate() {
            assert_eq!(tile.triangles.len(), 0);
            assert_eq!(tile.from, (tx * 2, ty * 2));
        }
    }
    assert_eq!(program.regions[0][1].region_width, 1);
    assert_eq!(program.regions[1][0].region_height, 1);
    assert_eq!(program.uniform, 0);
}

#[test]
fn vertex_stage_feeds_binning() {
    let mut program = Program::<FlatShader>::new(FlatShader, 5, 2, 2, 2, 2);
    let red = Vector3::new(SCALE, 0, 0);
    let (p0, p1, p2) = big_triangle();
    program.enqueue_triangle((p0, red), (p1, red), (p2, red));
    let tile = &program.regions[0][0];
    assert_eq!(tile.triangles.len(), 1);
    assert_eq!(tile.triangles_attrs.len(), 3);
    assert_eq!(tile.triangles_attrs[0], red);
    assert_eq!(tile.uniforms[0], 5);
    assert_eq!(tile.triangles[0].a, p0);
}

#[test]
fn interpolate_weights_sum_to_one_inside() {
    let (p0, p1, p2) = big_triangle();
    let mut program = Program::<FlatShader>::new(FlatShader, 0, 2, 2, 2, 2);
    let c = Vector3::new(SCALE, 0, 0);
    program.enqueue_transformed(p0, c, p1, c, p2, c);
    let tri: Triangle = program.regions[0][0].triangles[0];
    // with every attribute equal to one, the interpolated value is
    // exactly v + w + u, which must be one inside the triangle
    let point = Vector3::new(SCALE / 4, SCALE / 4, half());
    let r: Option<i64> = tri.interpolate(point, &SCALE, &SCALE, &SCALE);
    assert_eq!(r, Some(SCALE));
}

#[test]
fn interpolate_rejects_outside_point() {
    let (p0, p1, p2) = big_triangle();
    let mut program = Program::<FlatShader>::new(FlatShader, 0, 2, 2, 2, 2);
    let c = Vector3::new(SCALE, 0, 0);
    program.enqueue_transformed(p0, c, p1, c, p2, c);
    let tri: Triangle = program.regions[0][0].triangles[0];
    let point = Vector3::new(2 * SCALE, 2 * SCALE, half());
    let r: Option<i64> = tri.interpolate(point, &SCALE, &SCALE, &SCALE);
    assert_eq!(r, None);
}

#[test]
fn interpolate_weights_attributes_by_vertex() {
    let (p0, p1, p2) = big_triangle();
    let mut program = Program::<FlatShader>::new(FlatShader, 0, 2, 2, 2, 2);
    let c = Vector3::new(SCALE, 0, 0);
    program.enqueue_transformed(p0, c, p1, c, p2, c);
    let tri: Triangle = program.regions[0][0].triangles[0];
    // at the anchor vertex the weights are (u, v, w) = (1, 0, 0), so the
    // first vertex's attribute comes through whole
    let r: Option<i64> = tri.interpolate(Vector3::new(0, 0, half()), &7, &1000, &2000);
    assert_eq!(r, Some(7));
    // at the second vertex, v = 1 picks the second attribute
    let r: Option<i64> = tri.interpolate(Vector3::new(SCALE, 0, half()), &7, &1000, &2000);
    assert_eq!(r, Some(1000));
}

#[test]
fn vector_arithmetic_matches_fixed_point() {
    let a = Vector3::new(SCALE, 2 * SCALE, -SCALE);
    let b = Vector3::new(SCALE / 2, SCALE, SCALE);
    assert_eq!(a.plus(&b), Vector3::new(SCALE + SCALE / 2, 3 * SCALE, 0));
    assert_eq!(a.minus(&b), Vector3::new(SCALE / 2, SCALE, -2 * SCALE));
    // 1*0.5 + 2*1 + (-1)*1 = 1.5
    assert_eq!(a.dot(&b), SCALE + SCALE / 2);
    assert_eq!(a.scaled(2 * SCALE), Vector3::new(2 * SCALE, 4 * SCALE, -2 * SCALE));
    assert_eq!(fmul(3 * SCALE, 2 * SCALE), 6 * SCALE);
}

#[test]
fn matrix_identity_is_neutral() {
    let one = SCALE;
    let id = Matrix4 {
        m00: one,
        m11: one,
        m22: one,
        m33: one,
        ..Matrix4::default()
    };
    let v = Vector4::new(SCALE, 2 * SCALE, 3 * SCALE, SCALE);
    assert_eq!(id.transform(&v), v);
    let m = Matrix4 {
        m00: 2 * one,
        m11: 2 * one,
        m22: one,
        m33: one,
        m30: 5 * one,
        ..Matrix4::default()
    };
    let prod = id.multiply(&m);
    assert_eq!(prod, m);
    let rows = m.as_rows();
    assert_eq!(rows[0], Vector4::new(2 * one, 0, 0, 5 * one));
    let cols = m.as_columns();
    assert_eq!(cols[0], Vector4::new(2 * one, 0, 0, 0));
}

#[test]
fn matrix_product_is_conventional_and_order_matters() {
    let one = SCALE;
    // uniform scale by two
    let a = Matrix4 {
        m00: 2 * one,
        m11: 2 * one,
        m22: 2 * one,
        m33: one,
        ..Matrix4::default()
    };
    // identity plus a translation column
    let b = Matrix4 {
        m00: one,
        m11: one,
        m22: one,
        m33: one,
        m30: one,
        m31: one,
        m32: one,
        ..Matrix4::default()
    };
    let ab = a.multiply(&b);
    let ba = b.multiply(&a);
    // scaling after translating doubles the translation; the other order
    // keeps it
    assert_eq!(ab.m30, 2 * one);
    assert_eq!(ba.m30, one);
    // component-wise sum and difference
    let s = a.plus(&b);
    assert_eq!(s.m00, 3 * one);
    assert_eq!(s.m30, one);
    let d = a.minus(&b);
    assert_eq!(d.m00, one);
    assert_eq!(d.m30, -one);
}

#[test]
fn fragment_sees_the_uniform_snapshot_not_the_live_uniform() {
    let mut fb = Framebuffer::new(2, 2);
    fb.clear(Vector3::new(0, 0, 0));
    let red = Vector3::new(SCALE, 0, 0);
    let green = Vector3::new(0, SCALE, 0);
    let mut program = Program::<UniformColorShader>::new(UniformColorShader, red, 2, 2, 2, 2);
    let dummy = Vector3::new(0, 0, 0);
    let (p0, p1, p2) = big_triangle();
    // enqueued while the uniform is red
    program.enqueue_transformed(p0, dummy, p1, dummy, p2, dummy);
    // the caller then mutates the uniform; the first triangle must not
    // see it
    program.uniform = green;
    let farther = (SCALE * 7) / 10;
    let q0 = Vector3::new(0, 0, farther);
    let q1 = Vector3::new(SCALE, 0, farther);
    let q2 = Vector3::new(0, SCALE, farther);
    program.enqueue_transformed(q0, dummy, q1, dummy, q2, dummy);
    render_frame(&program, &mut fb);
    // the nearer triangle wins and shades with its own snapshot
    assert_eq!(fb.colors[0], red);
    assert_eq!(fb.depth[0], half());
}
