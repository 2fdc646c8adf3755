use raytrace::num::SCALE;
use raytrace::vec::{Vec3, Point3};

const S: i64 = SCALE;

#[test]
fn dot_product_exact() {
    let a = Vec3::new(1, 2, 3);
    let b = Vec3::new(4, -5, 6);
    assert_eq!(a.dot(&b), 4 - 10 + 18);
}

#[test]
fn cross_product_exact() {
    let x = Vec3::new(S, 0, 0);
    let y = Vec3::new(0, S, 0);
    let c = x.cross(&y);
    assert_eq!((c.x, c.y, c.z), (0, 0, S * S));
    let anti = y.cross(&x);
    assert_eq!((anti.x, anti.y, anti.z), (0, 0, -S * S));
}

#[test]
fn normalize_axis_vector() {
    let v = Vec3::new(0, 0, 30 * S);
    let u = v.normalize();
    assert_eq!((u.x, u.y, u.z), (0, 0, S));
}

#[test]
fn normalize_three_four_five() {
    // |(3, 4, 0)| = 5, so the unit vector is (3/5, 4/5, 0), truncated.
    let v = Vec3::new(3 * S, 4 * S, 0);
    let u = v.normalize();
    assert_eq!(u.x, 3 * S * S / (5 * S));
    assert_eq!(u.y, 4 * S * S / (5 * S));
    assert_eq!(u.z, 0);
}

#[test]
fn point_minus_and_plus() {
    let p = Point3::new(10, 20, 30);
    let q = Point3::new(1, 2, 3);
    let v = p.minus(&q);
    assert_eq!((v.x, v.y, v.z), (9, 18, 27));
    let r = q.plus(&v);
    assert_eq!((r.x, r.y, r.z), (10, 20, 30));
}
