use raytrace::num::SCALE;
use raytrace::vec::{Vec3, Point3};
use raytrace::geom::{Ray, Sphere, Object, Light, Camera, Shape};

const S: i64 = SCALE;

fn unit_z() -> Vec3 {
    Vec3::new(0, 0, S)
}

#[test]
fn sphere_hit_head_on() {
    // Sphere of radius 5 at the origin, ray from z = -30 straight at it:
    // the near root is exactly t = 25 and the normal is -z.
    let s = Sphere::new(Point3::new(0, 0, 0), 5 * S);
    let ray = Ray::new(Point3::new(0, 0, -30 * S), unit_z());
    let hit = s.intersect(&ray).unwrap();
    assert_eq!(hit.distance, 25 * S);
    assert_eq!((hit.normal.x, hit.normal.y, hit.normal.z), (0, 0, -S));
}

#[test]
fn sphere_hit_from_inside() {
    // From the centre the far root t = 5 is taken and the normal points
    // along the ray.
    let s = Sphere::new(Point3::new(0, 0, 0), 5 * S);
    let ray = Ray::new(Point3::new(0, 0, 0), unit_z());
    let hit = s.intersect(&ray).unwrap();
    assert_eq!(hit.distance, 5 * S);
    assert_eq!((hit.normal.x, hit.normal.y, hit.normal.z), (0, 0, S));
}

#[test]
fn sphere_tangent_misses() {
    // Offset by exactly the radius: the discriminant is exactly zero and
    // the strict-inequality policy reports a miss.
    let s = Sphere::new(Point3::new(0, 0, 0), 5 * S);
    let ray = Ray::new(Point3::new(0, 5 * S, -30 * S), unit_z());
    assert!(s.intersect(&ray).is_none());
}

#[test]
fn sphere_behind_misses() {
    // Pointing away: both roots are negative.
    let s = Sphere::new(Point3::new(0, 0, 0), 5 * S);
    let ray = Ray::new(Point3::new(0, 0, -30 * S), Vec3::new(0, 0, -S));
    assert!(s.intersect(&ray).is_none());
}

#[test]
fn object_dispatches_to_sphere() {
    let obj = Object::sphere(Point3::new(0, 0, 0), 5 * S, Vec3::new(S, 0, 0));
    let ray = Ray::new(Point3::new(0, 0, -30 * S), unit_z());
    let hit = obj.intersect(&ray).unwrap();
    assert_eq!(hit.distance, 25 * S);
    match obj.shape {
        Shape::Sphere(sp) => assert_eq!(sp.radius, 5 * S),
    }
}

#[test]
fn sphere_origin_on_surface_selects_far_root() {
    // From a point exactly on the surface, looking inward, the near root
    // is zero; a zero root is never selected as the reported distance,
    // so the far root (the diameter) is taken.
    let s = Sphere::new(Point3::new(0, 0, 0), 5 * S);
    let ray = Ray::new(Point3::new(0, 0, -5 * S), unit_z());
    let hit = s.intersect(&ray).unwrap();
    assert_eq!(hit.distance, 10 * S);
    assert_eq!((hit.normal.x, hit.normal.y, hit.normal.z), (0, 0, S));
}

#[test]
fn sphere_origin_on_surface_pointing_out_misses() {
    // Looking outward from the surface both roots are non-positive:
    // a surface at or behind the origin is invisible.
    let s = Sphere::new(Point3::new(0, 0, 0), 5 * S);
    let ray = Ray::new(Point3::new(0, 0, -5 * S), Vec3::new(0, 0, -S));
    assert!(s.intersect(&ray).is_none());
}

#[test]
fn point_at_distance_exact() {
    let ray = Ray::new(Point3::new(S, 0, -30 * S), unit_z());
    let p = ray.point_at_distance(25 * S);
    assert_eq!((p.x, p.y, p.z), (S, 0, -5 * S));
}

#[test]
fn point_at_distance_unnormalized_direction() {
    // The direction is used as given: with direction (0, 0, 2.0) and
    // distance 2.0 the ray from (1, 2, 3) reaches (1, 2, 7).
    let ray = Ray::new(Point3::new(S, 2 * S, 3 * S), Vec3::new(0, 0, 2 * S));
    let p = ray.point_at_distance(2 * S);
    assert_eq!((p.x, p.y, p.z), (S, 2 * S, 7 * S));
}

#[test]
fn constructors_keep_fields() {
    let l = Light::new(Point3::new(1, 2, 3), 7);
    assert_eq!(l.intensity, 7);
    assert_eq!((l.position.x, l.position.y, l.position.z), (1, 2, 3));
    let c = Camera::new(Point3::new(4, 5, 6), Point3::new(0, 0, 0));
    assert_eq!((c.position.x, c.position.y, c.position.z), (4, 5, 6));
    assert_eq!((c.look_at.x, c.look_at.y, c.look_at.z), (0, 0, 0));
    let r = Ray::new(Point3::new(9, 9, 9), Vec3::new(0, 0, 1));
    assert_eq!(r.origin.x, 9);
    assert_eq!(r.direction.z, 1);
}
