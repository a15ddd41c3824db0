use rasterizer::color::Color;
use rasterizer::fixed::FP_ONE;
use rasterizer::framebuffer::{Framebuffer, DEPTH_FAR};
use rasterizer::geometry::Vec3;
use rasterizer::raster::{draw_line, draw_triangle};

fn fresh(w: usize, h: usize) -> Framebuffer {
    let mut fb = Framebuffer::new(w, h);
    fb.clear(Color::new(0, 0, 0));
    fb
}

fn px(v: i64) -> i64 {
    v * FP_ONE
}

#[test]
fn right_triangle_fills_expected_pixels() {
    let mut fb = fresh(16, 16);
    let c = Color::new(200, 100, 50);
    let v0 = Vec3::new(px(0), px(0), 0);
    let v1 = Vec3::new(px(10), px(0), 0);
    let v2 = Vec3::new(px(0), px(10), 0);
    draw_triangle(&mut fb, &v0, &v1, &v2, c);
    // The scanline rule fills row y from the long edge at x = 0 to the
    // interpolated short edge at x = 10 - y, rows 0 through 10.
    for y in 0..16 {
        for x in 0..16 {
            let inside = y <= 10 && x <= 10 - y;
            if inside {
                assert_eq!(fb.get_pixel(x, y), c);
                assert_eq!(fb.get_depth(x, y), 0);
            } else {
                assert_eq!(fb.get_pixel(x, y), Color::new(0, 0, 0));
                assert_eq!(fb.get_depth(x, y), DEPTH_FAR);
            }
        }
    }
}

#[test]
fn no_pixel_outside_the_bounding_box_is_written() {
    let mut fb = fresh(32, 32);
    let c = Color::new(1, 2, 3);
    let v0 = Vec3::new(px(5), px(4), 0);
    let v1 = Vec3::new(px(12), px(9), 0);
    let v2 = Vec3::new(px(8), px(20), 0);
    draw_triangle(&mut fb, &v0, &v1, &v2, c);
    for y in 0..32 {
        for x in 0..32 {
            let in_bbox = (5..=12).contains(&x) && (4..=20).contains(&y);
            if !in_bbox {
                assert_eq!(fb.get_pixel(x, y), Color::new(0, 0, 0));
                assert_eq!(fb.get_depth(x, y), DEPTH_FAR);
            }
        }
    }
}

#[test]
fn degenerate_triangle_writes_nothing() {
    let mut fb = fresh(16, 16);
    let c = Color::new(250, 250, 250);
    let v0 = Vec3::new(px(0), px(5), 0);
    let v1 = Vec3::new(px(3), px(5), 0);
    let v2 = Vec3::new(px(9), px(5), 0);
    draw_triangle(&mut fb, &v0, &v1, &v2, c);
    for y in 0..16 {
        for x in 0..16 {
            assert_eq!(fb.get_pixel(x, y), Color::new(0, 0, 0));
            assert_eq!(fb.get_depth(x, y), DEPTH_FAR);
        }
    }
}

#[test]
fn nearer_triangle_wins_regardless_of_draw_order() {
    let red = Color::new(255, 0, 0);
    let blue = Color::new(0, 0, 255);
    let v0 = Vec3::new(px(0), px(0), 0);
    let v1 = Vec3::new(px(10), px(0), 0);
    let v2 = Vec3::new(px(0), px(10), 0);
    let w0 = Vec3::new(px(0), px(0), 100);
    let w1 = Vec3::new(px(10), px(0), 100);
    let w2 = Vec3::new(px(0), px(10), 100);

    let mut a = fresh(16, 16);
    draw_triangle(&mut a, &v0, &v1, &v2, red);
    draw_triangle(&mut a, &w0, &w1, &w2, blue);

    let mut b = fresh(16, 16);
    draw_triangle(&mut b, &w0, &w1, &w2, blue);
    draw_triangle(&mut b, &v0, &v1, &v2, red);

    for y in 0..16 {
        for x in 0..16 {
            assert_eq!(a.get_pixel(x, y), b.get_pixel(x, y));
            assert_eq!(a.get_depth(x, y), b.get_depth(x, y));
            if y <= 10 && x <= 10 - y {
                assert_eq!(a.get_pixel(x, y), red);
                assert_eq!(a.get_depth(x, y), 0);
            }
        }
    }
}

#[test]
fn depth_is_interpolated_across_the_scanline() {
    let mut fb = fresh(16, 16);
    let c = Color::new(1, 1, 1);
    let v0 = Vec3::new(px(0), px(0), 0);
    let v1 = Vec3::new(px(4), px(0), 4096);
    let v2 = Vec3::new(px(0), px(4), 0);
    draw_triangle(&mut fb, &v0, &v1, &v2, c);
    // Row 0 spans x in [0, 4] with depth running linearly from 0 to 4096.
    assert_eq!(fb.get_depth(0, 0), 0);
    assert_eq!(fb.get_depth(1, 0), 1024);
    assert_eq!(fb.get_depth(2, 0), 2048);
    assert_eq!(fb.get_depth(3, 0), 3072);
    assert_eq!(fb.get_depth(4, 0), 4096);
}

#[test]
fn fractional_vertices_are_floored() {
    let mut fb = fresh(16, 16);
    let c = Color::new(9, 9, 9);
    // 2.75 floors to 2, 5.25 floors to 5: same fill as (2,0),(5,0),(2,5).
    let v0 = Vec3::new(2 * FP_ONE + 49152, 0, 0);
    let v1 = Vec3::new(5 * FP_ONE + 16384, 0, 0);
    let v2 = Vec3::new(2 * FP_ONE, 5 * FP_ONE, 0);
    draw_triangle(&mut fb, &v0, &v1, &v2, c);
    assert_eq!(fb.get_pixel(2, 0), c);
    assert_eq!(fb.get_pixel(5, 0), c);
    assert_eq!(fb.get_pixel(6, 0), Color::new(0, 0, 0));
    assert_eq!(fb.get_pixel(2, 5), c);
    assert_eq!(fb.get_pixel(2, 6), Color::new(0, 0, 0));
}

#[test]
fn horizontal_line_writes_exactly_six_pixels() {
    let mut fb = fresh(16, 16);
    let c = Color::new(0, 0, 0);
    fb.clear(Color::new(7, 7, 7));
    draw_line(&mut fb, 0, 0, 5, 0, c);
    let mut written: usize = 0;
    for y in 0..16 {
        for x in 0..16 {
            if fb.get_pixel(x, y) == c {
                written += 1;
                assert_eq!(y, 0);
                assert!(x <= 5);
            }
        }
    }
    assert_eq!(written, 6);
}

#[test]
fn diagonal_line_steps_both_axes() {
    let mut fb = fresh(8, 8);
    let c = Color::new(1, 1, 1);
    draw_line(&mut fb, 0, 0, 3, 3, c);
    for i in 0..4 {
        assert_eq!(fb.get_pixel(i, i), c);
    }
    assert_eq!(fb.get_pixel(0, 1), Color::new(0, 0, 0));
    assert_eq!(fb.get_pixel(1, 0), Color::new(0, 0, 0));
}

#[test]
fn line_endpoints_in_either_direction() {
    let mut fb = fresh(8, 8);
    let c = Color::new(5, 5, 5);
    draw_line(&mut fb, 6, 2, 1, 2, c);
    for x in 1..=6 {
        assert_eq!(fb.get_pixel(x, 2), c);
    }
}

#[test]
fn line_leaves_depth_plane_untouched() {
    let mut fb = fresh(8, 8);
    draw_line(&mut fb, 0, 0, 7, 5, Color::new(1, 2, 3));
    for y in 0..8 {
        for x in 0..8 {
            assert_eq!(fb.get_depth(x, y), DEPTH_FAR);
        }
    }
}

#[test]
fn line_clips_silently_at_the_border() {
    let mut fb = fresh(4, 4);
    let c = Color::new(8, 8, 8);
    draw_line(&mut fb, -2, 1, 5, 1, c);
    for x in 0..4 {
        assert_eq!(fb.get_pixel(x, 1), c);
    }
}
