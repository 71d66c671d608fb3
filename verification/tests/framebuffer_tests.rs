use rasterizer::fixed::{DEPTH_FAR, SCALE};
use rasterizer::framebuffer::{Framebuffer, RegionBuffer, Texture};
use rasterizer::vector::{Vector2, Vector3};

fn red() -> Vector3 {
    Vector3::new(SCALE, 0, 0)
}

#[test]
fn clear_then_finish_packs_solid_red() {
    let mut fb = Framebuffer::new(4, 4);
    fb.clear(red());
    fb.finish_rendering();
    let packed = fb.colors();
    assert_eq!(packed.len(), 16);
    for &px in packed.iter() {
        assert_eq!(px, 0x00FF0000);
    }
}

#[test]
fn new_framebuffer_is_black_and_far() {
    let fb = Framebuffer::new(3, 2);
    assert_eq!(fb.width, 3);
    assert_eq!(fb.height, 2);
    assert_eq!(fb.colors.len(), 6);
    for c in fb.colors.iter() {
        assert_eq!(*c, Vector3::new(0, 0, 0));
    }
    for d in fb.depth.iter() {
        assert_eq!(*d, DEPTH_FAR);
    }
}

#[test]
fn clear_then_sample_returns_clear_color_everywhere() {
    let mut fb = Framebuffer::new(5, 7);
    let c = Vector3::new(SCALE / 4, SCALE / 2, SCALE);
    fb.clear(c);
    let coords = [0, SCALE / 3, SCALE / 2, SCALE - 1, SCALE];
    for &u in coords.iter() {
        for &v in coords.iter() {
            assert_eq!(fb.sample(Vector2::new(u, v)), c);
        }
    }
}

#[test]
fn sample_picks_nearest_pixel() {
    let mut fb = Framebuffer::new(2, 2);
    fb.clear(Vector3::new(0, 0, 0));
    let c = Vector3::new(SCALE, SCALE, 0);
    // overwrite pixel (1, 1) directly: index 1*2 + 1
    fb.set_color(1, 1, c, 0);
    // uv = (1, 1) maps to pixel ((w-1)*1, (h-1)*1) = (1, 1)
    assert_eq!(fb.sample(Vector2::new(SCALE, SCALE)), c);
    // uv = (0, 0) maps to pixel (0, 0)
    assert_eq!(fb.sample(Vector2::new(0, 0)), Vector3::new(0, 0, 0));
}

#[test]
fn depth_test_nearer_fragment_wins_either_order() {
    let c1 = Vector3::new(SCALE, 0, 0);
    let c2 = Vector3::new(0, SCALE, 0);
    let z1 = SCALE / 2;
    let z2 = (SCALE * 7) / 10;

    let mut fb = Framebuffer::new(2, 2);
    fb.clear(Vector3::new(0, 0, 0));
    fb.set_color(1, 0, c1, z1);
    fb.set_color(1, 0, c2, z2);
    assert_eq!(fb.colors[1], c1);
    assert_eq!(fb.depth[1], z1);

    let mut fb = Framebuffer::new(2, 2);
    fb.clear(Vector3::new(0, 0, 0));
    fb.set_color(1, 0, c2, z2);
    fb.set_color(1, 0, c1, z1);
    assert_eq!(fb.colors[1], c1);
    assert_eq!(fb.depth[1], z1);
}

#[test]
fn depth_test_tie_keeps_earlier_fragment() {
    let c1 = Vector3::new(SCALE, 0, 0);
    let c2 = Vector3::new(0, SCALE, 0);
    let mut fb = Framebuffer::new(2, 2);
    fb.clear(Vector3::new(0, 0, 0));
    fb.set_color(0, 1, c1, 1234);
    fb.set_color(0, 1, c2, 1234);
    assert_eq!(fb.colors[2], c1);
    assert_eq!(fb.depth[2], 1234);
}

#[test]
fn pack_round_trip_in_range_and_clamped() {
    let mut fb = Framebuffer::new(2, 1);
    fb.clear(Vector3::new(0, 0, 0));
    // (1.0, 0.0, 0.5): bytes 255, 0, 127
    fb.set_color(0, 0, Vector3::new(SCALE, 0, SCALE / 2), 0);
    // out of range (1.5, -0.2, 1.0): clamps to 255, 0, 255
    fb.set_color(1, 0, Vector3::new(SCALE + SCALE / 2, -SCALE / 5, SCALE), 0);
    fb.finish_rendering();
    let packed = fb.colors();
    assert_eq!(packed[0], 0x00FF007F);
    assert_eq!(packed[1], 0x00FF00FF);
}

#[test]
fn regions_unit_tiles_cover_two_by_two() {
    let fb = Framebuffer::new(2, 2);
    let grid = fb.regions(1, 1);
    assert_eq!(grid.len(), 2);
    for (ty, row) in grid.iter().enumerate() {
        assert_eq!(row.len(), 2);
        for (tx, tile) in row.iter().enumerate() {
            assert_eq!(tile.from_x, tx);
            assert_eq!(tile.from_y, ty);
            assert_eq!(tile.width, 1);
            assert_eq!(tile.height, 1);
        }
    }
}

#[test]
fn regions_ragged_edges_get_remainder_extents() {
    let fb = Framebuffer::new(3, 3);
    let grid = fb.regions(2, 2);
    assert_eq!(grid.len(), 2);
    assert_eq!(grid[0].len(), 2);
    assert_eq!(grid[1].len(), 2);
    assert_eq!((grid[0][0].width, grid[0][0].height), (2, 2));
    assert_eq!((grid[0][1].width, grid[0][1].height), (1, 2));
    assert_eq!((grid[1][0].width, grid[1][0].height), (2, 1));
    assert_eq!((grid[1][1].width, grid[1][1].height), (1, 1));
    assert_eq!((grid[0][1].from_x, grid[0][1].from_y), (2, 0));
    assert_eq!((grid[1][0].from_x, grid[1][0].from_y), (0, 2));
}

#[test]
fn regions_partition_every_pixel_exactly_once() {
    let fb = Framebuffer::new(7, 5);
    let grid = fb.regions(3, 2);
    for px in 0..7usize {
        for py in 0..5usize {
            let mut owners = 0;
            for row in grid.iter() {
                for tile in row.iter() {
                    let inside_x = px >= tile.from_x && px < tile.from_x + tile.width;
                    let inside_y = py >= tile.from_y && py < tile.from_y + tile.height;
                    if inside_x && inside_y {
                        owners += 1;
                    }
                }
            }
            assert_eq!(owners, 1, "pixel ({px}, {py}) must lie in exactly one tile");
        }
    }
}

#[test]
fn region_buffer_clips_writes_outside_its_rectangle() {
    let mut fb = Framebuffer::new(4, 4);
    fb.clear(Vector3::new(0, 0, 0));
    let mut grid = fb.regions(2, 2);
    let tile = &mut grid[0][0];
    let c = Vector3::new(SCALE, SCALE, SCALE);
    // outside the 2x2 rectangle at the origin: a no-op
    tile.set_color(3, 3, c, 0);
    for p in tile.colors.iter() {
        assert_eq!(*p, Vector3::new(0, 0, 0));
    }
    // inside: a depth-tested write
    tile.set_color(1, 0, c, 42);
    assert_eq!(tile.colors[1], c);
    assert_eq!(tile.depth[1], 42);
}

#[test]
fn absorb_writes_tile_back_and_leaves_rest() {
    let mut fb = Framebuffer::new(4, 4);
    fb.clear(Vector3::new(0, 0, 0));
    let mut grid = fb.regions(2, 2);
    let c = Vector3::new(0, SCALE, 0);
    grid[1][1].set_color(2, 3, c, 7);
    let tile = &grid[1][1];
    fb.absorb(tile);
    for y in 0..4usize {
        for x in 0..4usize {
            let idx = y * 4 + x;
            if x == 2 && y == 3 {
                assert_eq!(fb.colors[idx], c);
                assert_eq!(fb.depth[idx], 7);
            } else {
                assert_eq!(fb.colors[idx], Vector3::new(0, 0, 0));
                assert_eq!(fb.depth[idx], DEPTH_FAR);
            }
        }
    }
}

#[test]
fn without_dimensions_handle_contains_nothing() {
    let mut handle = RegionBuffer::without_dimensions();
    assert_eq!(handle.width, 0);
    assert_eq!(handle.height, 0);
    handle.set_color(0, 0, Vector3::new(SCALE, 0, 0), 0);
    assert!(handle.colors.is_empty());
}
