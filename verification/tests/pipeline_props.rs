use rasterizer::color::Color;
use rasterizer::fixed::FP_ONE;
use rasterizer::framebuffer::{Framebuffer, DEPTH_FAR};
use rasterizer::geometry::Vec3;
use rasterizer::pipeline::{render_face, render_mesh, wireframe_mesh, Face, Mesh};
use rasterizer::shading::{classify, cycle_color, face_intensity, isqrt, modulate_color, normal_z, shade, unit_normal_abs, Region, RegionPalette, RegionThresholds};
use rasterizer::transform::{compute_scale, rotate_vertex, rotate_x, rotate_y, transform_vertex, RenderParams, SCALE_LIMIT};

fn identity_params() -> RenderParams {
    RenderParams {
        sin_x: 0,
        cos_x: FP_ONE,
        sin_y: 0,
        cos_y: FP_ONE,
        center: Vec3::new(0, 0, 0),
        scale: FP_ONE,
        offset_x: 0,
        offset_y: 0,
    }
}

fn classic_thresholds() -> RegionThresholds {
    RegionThresholds {
        top_min_y: 16384,
        top_max_abs_x: 16384,
        top_min_z: 26214,
        rear_max_z: -52429,
        lateral_min_abs_x: 45875,
    }
}

fn classic_palette() -> RegionPalette {
    RegionPalette {
        top_forward: Color::new(30, 30, 30),
        rear: Color::new(100, 100, 100),
        lateral: Color::new(255, 120, 50),
        body: Color::new(250, 250, 250),
    }
}

#[test]
fn identity_transform_moves_to_screen_center() {
    let p = identity_params();
    let v = Vec3::new(5 * FP_ONE, -3 * FP_ONE, 7);
    let r = transform_vertex(&v, &p, 800, 600);
    assert_eq!(r.x, 5 * FP_ONE + 400 * FP_ONE);
    assert_eq!(r.y, -3 * FP_ONE + 300 * FP_ONE);
    assert_eq!(r.z, 7);
}

#[test]
fn quarter_turn_about_x_sends_y_to_z() {
    let r = rotate_x(&Vec3::new(0, FP_ONE, 0), FP_ONE, 0);
    assert_eq!(r, Vec3::new(0, 0, FP_ONE));
}

#[test]
fn quarter_turn_about_y_sends_z_to_x() {
    let r = rotate_y(&Vec3::new(0, 0, FP_ONE), FP_ONE, 0);
    assert_eq!(r, Vec3::new(FP_ONE, 0, 0));
}

#[test]
fn fit_scale_matches_the_formula() {
    // 0.8 * min(800, 600) = 480 pixels over an extent of 2.0 units.
    let r = compute_scale(800, 600, &Vec3::new(2 * FP_ONE, FP_ONE, FP_ONE));
    assert_eq!(r, 240 * FP_ONE);
}

#[test]
fn fit_scale_is_clamped_for_tiny_extents() {
    let r = compute_scale(16384, 16384, &Vec3::new(1, 1, 1));
    assert_eq!(r, SCALE_LIMIT);
}

#[test]
fn rotation_composes_y_after_x() {
    // Quarter turns about both axes: X first sends +y to +z, then Y
    // sends +z to +x. The other composition order would land on +z.
    let p = RenderParams {
        sin_x: FP_ONE,
        cos_x: 0,
        sin_y: FP_ONE,
        cos_y: 0,
        center: Vec3::new(0, 0, 0),
        scale: FP_ONE,
        offset_x: 0,
        offset_y: 0,
    };
    let r = rotate_vertex(&Vec3::new(0, FP_ONE, 0), &p);
    assert_eq!(r, Vec3::new(FP_ONE, 0, 0));
}

#[test]
fn screen_offset_moves_the_projection() {
    let mut p = identity_params();
    p.offset_x = 10 * FP_ONE;
    p.offset_y = -7 * FP_ONE;
    let r = transform_vertex(&Vec3::new(0, 0, 0), &p, 800, 600);
    assert_eq!(r.x, 410 * FP_ONE);
    assert_eq!(r.y, 293 * FP_ONE);
}

#[test]
fn classify_follows_the_priority_order() {
    let t = classic_thresholds();
    assert_eq!(classify(0, 20000, 30000, &t), Region::TopForward);
    assert_eq!(classify(0, 0, -60000, &t), Region::Rear);
    assert_eq!(classify(-50000, 0, 0, &t), Region::Lateral);
    assert_eq!(classify(0, 0, 0, &t), Region::Body);
    // The top/forward test wins over the lateral one only when all three
    // of its conditions hold; a wide x falls through.
    assert_eq!(classify(50000, 20000, 30000, &t), Region::Lateral);
}

#[test]
fn isqrt_is_the_floor_square_root() {
    assert_eq!(isqrt(0), 0);
    assert_eq!(isqrt(1), 1);
    assert_eq!(isqrt(3), 1);
    assert_eq!(isqrt(4), 2);
    assert_eq!(isqrt(144), 12);
    assert_eq!(isqrt(146), 12);
    assert_eq!(isqrt((1u128 << 80) + 123), 1u64 << 40);
}

#[test]
fn intensity_of_a_camera_facing_face_is_full() {
    let q = face_intensity(
        &Vec3::new(0, 0, 0),
        &Vec3::new(FP_ONE, 0, 0),
        &Vec3::new(0, FP_ONE, 0),
    );
    assert_eq!(q, FP_ONE);
}

#[test]
fn intensity_of_a_backfacing_face_is_the_ambient_floor() {
    let q = face_intensity(
        &Vec3::new(0, 0, 0),
        &Vec3::new(0, FP_ONE, 0),
        &Vec3::new(FP_ONE, 0, 0),
    );
    assert_eq!(q, 13107);
}

#[test]
fn intensity_of_a_tilted_face_is_the_projected_cosine() {
    let q = face_intensity(
        &Vec3::new(0, 0, 0),
        &Vec3::new(FP_ONE, 0, 0),
        &Vec3::new(0, FP_ONE, FP_ONE),
    );
    assert_eq!(q, 46340);
}

#[test]
fn shading_scales_each_channel() {
    let c = shade(Color::new(200, 100, 51), 32768);
    assert_eq!(c, Color::new(100, 50, 25));
}

#[test]
fn normal_z_is_the_cross_product_z() {
    let z = normal_z(
        &Vec3::new(0, 0, 0),
        &Vec3::new(2, 0, 0),
        &Vec3::new(0, 3, 0),
    );
    assert_eq!(z, 6);
}

#[test]
fn unit_normal_of_a_flat_face_points_along_z() {
    let n = unit_normal_abs(
        &Vec3::new(0, 0, 0),
        &Vec3::new(FP_ONE, 0, 0),
        &Vec3::new(0, FP_ONE, 0),
    );
    assert_eq!(n, Vec3::new(0, 0, FP_ONE));
}

#[test]
fn unit_normal_of_a_degenerate_face_is_the_up_vector() {
    let n = unit_normal_abs(
        &Vec3::new(0, 0, 0),
        &Vec3::new(FP_ONE, 0, 0),
        &Vec3::new(2 * FP_ONE, 0, 0),
    );
    assert_eq!(n, Vec3::new(0, FP_ONE, 0));
}

#[test]
fn modulated_color_blends_each_channel_with_its_component() {
    // Unit normal along y, blend constant one half: the red and blue
    // channels halve, the green channel keeps its value.
    let c = modulate_color(Color::new(200, 100, 60), &Vec3::new(0, FP_ONE, 0), 32768);
    assert_eq!(c, Color::new(100, 100, 30));
    // Unit normal along z, blend constant 0.8: red and green fall to a
    // fifth (flooring just under it), blue is kept.
    let c2 = modulate_color(Color::new(200, 100, 60), &Vec3::new(0, 0, FP_ONE), 52429);
    assert_eq!(c2, Color::new(39, 19, 60));
}

#[test]
fn cycling_palette_wraps_by_face_index() {
    let pal = vec![Color::new(1, 0, 0), Color::new(0, 1, 0), Color::new(0, 0, 1)];
    assert_eq!(cycle_color(&pal, 0), Color::new(1, 0, 0));
    assert_eq!(cycle_color(&pal, 4), Color::new(0, 1, 0));
    assert_eq!(cycle_color(&pal, 5), Color::new(0, 0, 1));
}

#[test]
fn backfacing_face_writes_no_pixels_and_no_depth() {
    let mut fb = Framebuffer::new(100, 100);
    fb.clear(Color::new(0, 0, 0));
    let p = identity_params();
    // Wound so the rotated normal's z is negative.
    render_face(
        &mut fb,
        &Vec3::new(-FP_ONE, -FP_ONE, 0),
        &Vec3::new(-FP_ONE, FP_ONE, 0),
        &Vec3::new(FP_ONE, -FP_ONE, 0),
        &p,
        &classic_thresholds(),
        &classic_palette(),
    );
    for y in 0..100 {
        for x in 0..100 {
            assert_eq!(fb.get_pixel(x, y), Color::new(0, 0, 0));
            assert_eq!(fb.get_depth(x, y), DEPTH_FAR);
        }
    }
}

#[test]
fn front_facing_face_fills_its_screen_pixels() {
    let mut fb = Framebuffer::new(100, 100);
    fb.clear(Color::new(0, 0, 0));
    let p = identity_params();
    render_face(
        &mut fb,
        &Vec3::new(-FP_ONE, -FP_ONE, 0),
        &Vec3::new(FP_ONE, -FP_ONE, 0),
        &Vec3::new(-FP_ONE, FP_ONE, 0),
        &p,
        &classic_thresholds(),
        &classic_palette(),
    );
    // Screen vertices land on pixels (49,49), (51,49), (49,51); the fill
    // covers row 49 from 49..=51, row 50 from 49..=50, row 51 at 49, with
    // full intensity on the body color.
    let body = Color::new(250, 250, 250);
    for y in 0..100i32 {
        for x in 0..100i32 {
            let inside = (y == 49 && (49..=51).contains(&x)) || (y == 50 && (49..=50).contains(&x))
                || (y == 51 && x == 49);
            if inside {
                assert_eq!(fb.get_pixel(x, y), body);
                assert_eq!(fb.get_depth(x, y), 0);
            } else {
                assert_eq!(fb.get_pixel(x, y), Color::new(0, 0, 0));
                assert_eq!(fb.get_depth(x, y), DEPTH_FAR);
            }
        }
    }
}

fn single_face_mesh() -> Mesh {
    Mesh {
        vertices: vec![
            Vec3::new(-FP_ONE, -FP_ONE, 0),
            Vec3::new(FP_ONE, -FP_ONE, 0),
            Vec3::new(-FP_ONE, FP_ONE, 0),
        ],
        faces: vec![Face { i0: 0, i1: 1, i2: 2 }],
    }
}

#[test]
fn rendering_twice_changes_nothing_more() {
    let mut fb = Framebuffer::new(100, 100);
    fb.clear(Color::new(0, 0, 0));
    let p = identity_params();
    let mesh = single_face_mesh();
    assert!(mesh.is_wf());
    assert!(p.is_wf());
    render_mesh(&mut fb, &mesh, &p, &classic_thresholds(), &classic_palette());
    let first: Vec<u8> = fb.to_rgb_bytes();
    let d_first = fb.get_depth(49, 49);
    render_mesh(&mut fb, &mesh, &p, &classic_thresholds(), &classic_palette());
    assert_eq!(fb.to_rgb_bytes(), first);
    assert_eq!(fb.get_depth(49, 49), d_first);
}

#[test]
fn wireframe_touches_only_line_pixels_and_no_depth() {
    let mut fb = Framebuffer::new(100, 100);
    fb.clear(Color::new(7, 7, 7));
    let p = identity_params();
    let mesh = single_face_mesh();
    let line = Color::new(0, 0, 0);
    wireframe_mesh(&mut fb, &mesh, &p, line);
    let mut changed: usize = 0;
    for y in 0..100 {
        for x in 0..100 {
            let c = fb.get_pixel(x, y);
            assert!(c == Color::new(7, 7, 7) || c == line);
            if c == line {
                changed += 1;
            }
            assert_eq!(fb.get_depth(x, y), DEPTH_FAR);
        }
    }
    // The three edges of a small triangle: at least its corner pixels.
    assert!(changed >= 3);
    assert_eq!(fb.get_pixel(49, 49), line);
    assert_eq!(fb.get_pixel(51, 49), line);
    assert_eq!(fb.get_pixel(49, 51), line);
}

#[test]
fn center_and_size_are_the_bounding_box_ones() {
    let mesh = Mesh {
        vertices: vec![Vec3::new(-FP_ONE, 0, 0), Vec3::new(FP_ONE, 2 * FP_ONE, FP_ONE)],
        faces: vec![],
    };
    let c = mesh.calculate_center();
    assert_eq!(c, Vec3::new(0, FP_ONE, FP_ONE / 2));
    let s = mesh.calculate_size();
    assert_eq!(s, Vec3::new(2 * FP_ONE, 2 * FP_ONE, FP_ONE));
}

#[test]
fn mesh_with_dangling_face_index_is_rejected() {
    let mesh = Mesh {
        vertices: vec![Vec3::new(0, 0, 0)],
        faces: vec![Face { i0: 0, i1: 0, i2: 1 }],
    };
    assert!(!mesh.is_wf());
    let ok = single_face_mesh();
    assert!(ok.is_wf());
}
