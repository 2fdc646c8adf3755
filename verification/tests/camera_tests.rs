use raytrace::num::SCALE;
use raytrace::vec::{Vec3, Point3};
use raytrace::geom::Camera;
use raytrace::camera::{camera_basis, camera_wf_check, pixel_ray};

const S: i64 = SCALE;

// tan(22.5 degrees) in fixed point: the 45-degree field of view.
const FOV_45: i64 = 27146;

fn forward_camera() -> Camera {
    Camera::new(Point3::new(0, 0, -30 * S), Point3::new(0, 0, 0))
}

#[test]
fn basis_of_axis_aligned_camera() {
    let c = forward_camera();
    assert!(camera_wf_check(&c));
    let b = camera_basis(&c);
    assert_eq!((b.x_axis.x, b.x_axis.y, b.x_axis.z), (S, 0, 0));
    assert_eq!((b.y_axis.x, b.y_axis.y, b.y_axis.z), (0, S, 0));
    assert_eq!((b.z_axis.x, b.z_axis.y, b.z_axis.z), (0, 0, S));
}

#[test]
fn camera_wf_check_rejects_degenerate() {
    // Position equal to the target: no viewing direction.
    let stuck = Camera::new(Point3::new(1, 2, 3), Point3::new(1, 2, 3));
    assert!(!camera_wf_check(&stuck));
    // Looking straight up: forward parallel to the world up.
    let up = Camera::new(Point3::new(0, 0, 0), Point3::new(0, 10 * S, 0));
    assert!(!camera_wf_check(&up));
}

#[test]
fn center_pixel_points_at_look_at() {
    // Odd width and height put a pixel centre exactly on the screen
    // origin: its ray leaves the camera position exactly along the unit
    // vector toward look_at, for any field of view.
    let c = forward_camera();
    let b = camera_basis(&c);
    for fov in [FOV_45, 54292, 11355] {
        let ray = pixel_ray(&c, &b, 5, 5, 11, 11, fov).unwrap();
        assert_eq!(
            (ray.origin.x, ray.origin.y, ray.origin.z),
            (0, 0, -30 * S)
        );
        assert_eq!(
            (ray.direction.x, ray.direction.y, ray.direction.z),
            (0, 0, S)
        );
    }
}

#[test]
fn screen_mapping_is_symmetric_and_top_down() {
    // Columns mirrored about the centre give opposite x directions; row 0
    // looks upward (positive y) and the last row downward.
    let c = forward_camera();
    let b = camera_basis(&c);
    let left = pixel_ray(&c, &b, 0, 5, 11, 11, FOV_45).unwrap();
    let right = pixel_ray(&c, &b, 10, 5, 11, 11, FOV_45).unwrap();
    assert_eq!(left.direction.x, -right.direction.x);
    assert_eq!(left.direction.y, right.direction.y);
    assert_eq!(left.direction.z, right.direction.z);
    assert!(left.direction.x < 0);

    let top = pixel_ray(&c, &b, 5, 0, 11, 11, FOV_45).unwrap();
    let bottom = pixel_ray(&c, &b, 5, 10, 11, 11, FOV_45).unwrap();
    assert!(top.direction.y > 0);
    assert_eq!(top.direction.y, -bottom.direction.y);
}
