use raytrace::num::SCALE;
use raytrace::vec::{Vec3, Point3};
use raytrace::geom::{Light, Camera, Object};
use raytrace::scene::Scene;
use raytrace::camera::camera_wf_check;
use raytrace::render::render;

const S: i64 = SCALE;

// tan(22.5 degrees) in fixed point: the 45-degree field of view.
const FOV_45: i64 = 27146;

fn pixel(buf: &[u8], w: u32, x: u32, y: u32) -> (u8, u8, u8) {
    let i = ((y * w + x) * 3) as usize;
    (buf[i], buf[i + 1], buf[i + 2])
}

#[test]
fn single_sphere_renders_centered_disc() {
    // A green sphere of radius 5 at the origin, one light directly above,
    // camera looking at the origin from outside: the image holds a
    // non-black disc around the centre and black background at the
    // corners.
    let scene = Scene::new(
        vec![Object::sphere(Point3::new(0, 0, 0), 5 * S, Vec3::new(0, S, 0))],
        Camera::new(Point3::new(0, 0, -30 * S), Point3::new(0, 0, 0)),
        vec![Light::new(Point3::new(0, 20 * S, 0), S)],
    );
    assert!(scene.wf_check());
    assert!(camera_wf_check(&scene.camera));

    let (w, h) = (32u32, 32u32);
    let buf = render(&scene, w, h, FOV_45);
    assert_eq!(buf.len(), (w * h * 3) as usize);

    // The upper part of the disc faces the light: lit, green only.
    for (x, y) in [(16u32, 12u32), (15, 12), (16, 13)] {
        let (r, g, b) = pixel(&buf, w, x, y);
        assert_eq!(r, 0);
        assert!(g > 0);
        assert_eq!(b, 0);
    }

    // The corners miss the sphere entirely: black background.
    for (x, y) in [(0u32, 0u32), (31, 0), (0, 31), (31, 31)] {
        assert_eq!(pixel(&buf, w, x, y), (0, 0, 0));
    }
}

#[test]
fn empty_scene_renders_black() {
    let scene = Scene::new(
        vec![],
        Camera::new(Point3::new(0, 0, -30 * S), Point3::new(0, 0, 0)),
        vec![Light::new(Point3::new(0, 20 * S, 0), S)],
    );
    let buf = render(&scene, 4, 4, FOV_45);
    assert_eq!(buf, vec![0u8; 4 * 4 * 3]);
}

#[test]
fn full_brightness_channel_saturates_to_255() {
    // A head-on camera with the light behind it gives the centre pixel a
    // Lambert cosine of one: the white sphere's channels reach exactly
    // 1.0, which converts to the byte 255.
    let scene = Scene::new(
        vec![Object::sphere(Point3::new(0, 0, 0), 5 * S, Vec3::new(S, S, S))],
        Camera::new(Point3::new(0, 0, -30 * S), Point3::new(0, 0, 0)),
        vec![Light::new(Point3::new(0, 0, -20 * S), S)],
    );
    let (w, h) = (11u32, 11u32);
    let buf = render(&scene, w, h, FOV_45);
    assert_eq!(pixel(&buf, w, 5, 5), (255, 255, 255));
}
