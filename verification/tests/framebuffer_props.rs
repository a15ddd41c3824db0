use rasterizer::color::Color;
use rasterizer::framebuffer::{Framebuffer, DEPTH_FAR};

#[test]
fn clear_sets_every_pixel_and_depth() {
    let mut fb = Framebuffer::new(4, 3);
    let bg = Color::new(9, 8, 7);
    fb.clear(bg);
    for y in 0..3 {
        for x in 0..4 {
            assert_eq!(fb.get_pixel(x, y), bg);
            assert_eq!(fb.get_depth(x, y), DEPTH_FAR);
        }
    }
}

#[test]
fn new_framebuffer_is_black_and_far() {
    let fb = Framebuffer::new(5, 2);
    assert_eq!(fb.width(), 5);
    assert_eq!(fb.height(), 2);
    for y in 0..2 {
        for x in 0..5 {
            assert_eq!(fb.get_pixel(x, y), Color::new(0, 0, 0));
            assert_eq!(fb.get_depth(x, y), DEPTH_FAR);
        }
    }
}

#[test]
fn set_pixel_roundtrip() {
    let mut fb = Framebuffer::new(8, 8);
    fb.clear(Color::new(0, 0, 0));
    let c = Color::new(255, 1, 2);
    fb.set_pixel(3, 5, c);
    assert_eq!(fb.get_pixel(3, 5), c);
    assert_eq!(fb.get_pixel(4, 5), Color::new(0, 0, 0));
    assert_eq!(fb.get_pixel(3, 4), Color::new(0, 0, 0));
    assert_eq!(fb.get_depth(3, 5), DEPTH_FAR);
}

#[test]
fn set_pixel_out_of_bounds_is_a_noop() {
    let mut fb = Framebuffer::new(4, 4);
    fb.clear(Color::new(1, 1, 1));
    let c = Color::new(200, 200, 200);
    fb.set_pixel(-1, 0, c);
    fb.set_pixel(0, -1, c);
    fb.set_pixel(4, 0, c);
    fb.set_pixel(0, 4, c);
    fb.set_pixel(1000, 1000, c);
    for y in 0..4 {
        for x in 0..4 {
            assert_eq!(fb.get_pixel(x, y), Color::new(1, 1, 1));
        }
    }
}

#[test]
fn depth_tested_write_keeps_the_closer_write_in_either_order() {
    let near = Color::new(10, 0, 0);
    let far = Color::new(0, 10, 0);

    let mut a = Framebuffer::new(2, 2);
    a.clear(Color::new(0, 0, 0));
    a.set_pixel_depth_tested(1, 1, near, 5);
    a.set_pixel_depth_tested(1, 1, far, 9);

    let mut b = Framebuffer::new(2, 2);
    b.clear(Color::new(0, 0, 0));
    b.set_pixel_depth_tested(1, 1, far, 9);
    b.set_pixel_depth_tested(1, 1, near, 5);

    assert_eq!(a.get_pixel(1, 1), near);
    assert_eq!(b.get_pixel(1, 1), near);
    assert_eq!(a.get_depth(1, 1), 5);
    assert_eq!(b.get_depth(1, 1), 5);
}

#[test]
fn depth_tested_write_is_idempotent() {
    let c = Color::new(10, 20, 30);
    let mut a = Framebuffer::new(2, 2);
    a.clear(Color::new(0, 0, 0));
    a.set_pixel_depth_tested(0, 0, c, 7);
    let once_color = a.get_pixel(0, 0);
    let once_depth = a.get_depth(0, 0);
    a.set_pixel_depth_tested(0, 0, c, 7);
    assert_eq!(a.get_pixel(0, 0), once_color);
    assert_eq!(a.get_depth(0, 0), once_depth);
}

#[test]
fn depth_tested_write_out_of_bounds_is_a_noop() {
    let mut fb = Framebuffer::new(2, 2);
    fb.clear(Color::new(3, 3, 3));
    fb.set_pixel_depth_tested(-1, 0, Color::new(9, 9, 9), 0);
    fb.set_pixel_depth_tested(2, 0, Color::new(9, 9, 9), 0);
    for y in 0..2 {
        for x in 0..2 {
            assert_eq!(fb.get_pixel(x, y), Color::new(3, 3, 3));
            assert_eq!(fb.get_depth(x, y), DEPTH_FAR);
        }
    }
}

#[test]
fn rgb_bytes_are_row_major_three_per_pixel() {
    let mut fb = Framebuffer::new(2, 2);
    fb.clear(Color::new(0, 0, 0));
    fb.set_pixel(0, 0, Color::new(1, 2, 3));
    fb.set_pixel(1, 0, Color::new(4, 5, 6));
    fb.set_pixel(0, 1, Color::new(7, 8, 9));
    fb.set_pixel(1, 1, Color::new(10, 11, 12));
    let bytes = fb.to_rgb_bytes();
    assert_eq!(bytes, vec![1, 2, 3, 4, 5, 6, 7, 8, 9, 10, 11, 12]);
}
