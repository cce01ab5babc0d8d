use softrender::buffer::{DepthBuffer, Image, Rgb, DEPTH_EMPTY};
use softrender::geom::Vec3;
use softrender::model::Model;
use softrender::picture::{RenderConfig, face_light, render_model, triangle};

fn black() -> Rgb {
    Rgb { r: 0, g: 0, b: 0 }
}

fn uniform_tex(c: Rgb) -> Image {
    Image::new(4, 4, c)
}

#[test]
fn depth_buffer_holds_the_interpolated_depth_where_covered() {
    // A triangle whose three corners sit at depth 5.0 in front of a
    // camera 10 units out: every covered pixel must hold exactly 5.0 and
    // every other cell must stay at the empty ("negative infinity")
    // value.
    let config = RenderConfig {
        camera_distance: 10_000_000,
        light_dir: Vec3 { x: 0, y: 0, z: -1_000_000 },
    };
    let va = Vec3 { x: -500_000, y: -500_000, z: 5_000_000 };
    let vb = Vec3 { x: 500_000, y: -500_000, z: 5_000_000 };
    let vc = Vec3 { x: -500_000, y: 500_000, z: 5_000_000 };
    let t = Vec3 { x: 0, y: 0, z: 0 };
    let tex = uniform_tex(Rgb { r: 10, g: 20, b: 30 });
    let mut zb = DepthBuffer::new(20, 20);
    let mut img = Image::new(20, 20, black());
    triangle(va, vb, vc, t, t, t, &mut zb, &mut img, 1_000_000, &tex, &config);
    // The corners project to (2, 2), (17, 2) and (2, 17).
    assert_eq!(zb.get(5, 5), 5_000_000);
    assert_eq!(zb.get(3, 3), 5_000_000);
    assert_eq!(zb.get(17, 2), 5_000_000);
    assert_eq!(zb.get(10, 9), 5_000_000);
    assert_eq!(zb.get(0, 0), DEPTH_EMPTY);
    assert_eq!(zb.get(10, 10), DEPTH_EMPTY);
    assert_eq!(zb.get(18, 3), DEPTH_EMPTY);
    assert_eq!(zb.get(19, 19), DEPTH_EMPTY);
    assert_eq!(DEPTH_EMPTY, i64::MIN);
}

#[test]
fn nearer_triangle_wins_the_depth_test_and_farther_loses() {
    let config = RenderConfig {
        camera_distance: 10_000_000,
        light_dir: Vec3 { x: 0, y: 0, z: -1_000_000 },
    };
    let t = Vec3 { x: 0, y: 0, z: 0 };
    let far = uniform_tex(Rgb { r: 10, g: 10, b: 10 });
    let near = uniform_tex(Rgb { r: 200, g: 200, b: 200 });
    let mut zb = DepthBuffer::new(20, 20);
    let mut img = Image::new(20, 20, black());
    let mk = |z: i64| {
        (
            Vec3 { x: -500_000, y: -500_000, z },
            Vec3 { x: 500_000, y: -500_000, z },
            Vec3 { x: -500_000, y: 500_000, z },
        )
    };
    let (a1, b1, c1) = mk(2_000_000);
    triangle(a1, b1, c1, t, t, t, &mut zb, &mut img, 1_000_000, &far, &config);
    // Larger z is closer to the camera, so this one overwrites.
    let (a2, b2, c2) = mk(5_000_000);
    triangle(a2, b2, c2, t, t, t, &mut zb, &mut img, 1_000_000, &near, &config);
    assert_eq!(zb.get(5, 5), 5_000_000);
    assert_eq!(img.get_pixel(5, 5), Rgb { r: 200, g: 200, b: 200 });
    // Drawing the farther one again changes nothing.
    triangle(a1, b1, c1, t, t, t, &mut zb, &mut img, 1_000_000, &far, &config);
    assert_eq!(zb.get(5, 5), 5_000_000);
    assert_eq!(img.get_pixel(5, 5), Rgb { r: 200, g: 200, b: 200 });
}

#[test]
fn face_with_zero_light_dot_product_is_skipped() {
    // The edge cross product of this face has a zero z component, so its
    // dot product with the light (0, 0, -1) is exactly zero: the face
    // must contribute no pixels at all.
    let text = b"v 0 0 0\nv 0.5 0.5 0.1\nv 0.25 0.25 0.2\nvt 0 0 0\nvn 0 0 1\nf 1/1/1 2/1/1 3/1/1\n";
    let tex = uniform_tex(Rgb { r: 200, g: 100, b: 50 });
    let m = Model::new(text, tex).unwrap();
    let va = m.verts[0];
    let vb = m.verts[1];
    let vc = m.verts[2];
    let light = Vec3 { x: 0, y: 0, z: -1_000_000 };
    assert_eq!(face_light(va, vb, vc, light), (false, 0));
    let config = RenderConfig::default();
    let out = render_model((20, 20), &m, &config);
    for y in 0..20 {
        for x in 0..20 {
            assert_eq!(out.get_pixel(x, y), black());
        }
    }
}

#[test]
fn mesh_without_faces_renders_black() {
    let m = Model::new(b"v 0 0 0\n", uniform_tex(Rgb { r: 9, g: 9, b: 9 })).unwrap();
    let out = render_model((16, 16), &m, &RenderConfig::default());
    for y in 0..16 {
        for x in 0..16 {
            assert_eq!(out.get_pixel(x, y), black());
        }
    }
}

#[test]
fn triangle_behind_the_camera_draws_nothing() {
    // All three corners sit at z = 5 with the camera only 3 units out,
    // so their projections saturate far outside the image and the
    // clamped bounding box is empty.
    let text = b"v -0.5 -0.5 5\nv 0.5 -0.5 5\nv -0.5 0.5 5\nvt 0 0 0\nvn 0 0 1\nf 1/1/1 2/1/1 3/1/1\n";
    let m = Model::new(text, uniform_tex(Rgb { r: 9, g: 9, b: 9 })).unwrap();
    let out = render_model((16, 16), &m, &RenderConfig::default());
    for y in 0..16 {
        for x in 0..16 {
            assert_eq!(out.get_pixel(x, y), black());
        }
    }
}

#[test]
fn round_trip_uniform_texture_full_intensity() {
    // One triangle facing the light head on: intensity is exactly one,
    // so every covered pixel carries the texture color unchanged.
    let text = b"v -0.5 -0.5 0\nv 0.5 -0.5 0\nv -0.5 0.5 0\n\
vt 0 0 0\nvt 1 0 0\nvt 0 1 0\nvn 0 0 1\nf 1/1/1 2/2/1 3/3/1\n";
    let color = Rgb { r: 200, g: 100, b: 50 };
    let m = Model::new(text, uniform_tex(color)).unwrap();
    let light = Vec3 { x: 0, y: 0, z: -1_000_000 };
    assert_eq!(face_light(m.verts[0], m.verts[1], m.verts[2], light), (true, 1_000_000));
    let config = RenderConfig::default();
    let out = render_model((20, 20), &m, &config);
    assert_eq!(out.width(), 20);
    assert_eq!(out.height(), 20);
    // Before the vertical flip the corners project to (6, 6), (13, 6)
    // and (6, 13); pixel (7, 7) is covered and lands at (7, 12) in the
    // flipped output.
    assert_eq!(out.get_pixel(7, 12), color);
    assert_eq!(out.get_pixel(6, 13), color);
    assert_eq!(out.get_pixel(0, 0), black());
    assert_eq!(out.get_pixel(19, 19), black());
    // Every pixel is either the uniform color or untouched.
    for y in 0..20 {
        for x in 0..20 {
            let p = out.get_pixel(x, y);
            assert!(p == color || p == black());
        }
    }
}

#[test]
fn slanted_face_scales_the_texture_by_its_exact_intensity() {
    // The face normal leans 45 degrees away from the light, so the
    // fixed-point intensity is 894427 (the truncation of 1/sqrt(1.25)
    // in millionths) and each channel is truncated accordingly.
    let text = b"v -0.5 -0.5 0\nv 0.5 -0.5 0\nv -0.5 0.5 0.5\n\
vt 0 0 0\nvn 0 0 1\nf 1/1/1 2/1/1 3/1/1\n";
    let color = Rgb { r: 200, g: 100, b: 50 };
    let m = Model::new(text, uniform_tex(color)).unwrap();
    let light = Vec3 { x: 0, y: 0, z: -1_000_000 };
    assert_eq!(face_light(m.verts[0], m.verts[1], m.verts[2], light), (true, 894_427));
    let config = RenderConfig::default();
    let out = render_model((20, 20), &m, &config);
    // Pixel (7, 7) before the flip is covered; its channels are
    // 200, 100 and 50 scaled by 894427/1000000 and truncated.
    assert_eq!(out.get_pixel(7, 12), Rgb { r: 178, g: 89, b: 44 });
}
