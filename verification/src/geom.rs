//! Rays, hits, shapes, materials, lights and the analytic ray/sphere
//! intersection.  The intersection decision (hit or miss, and which root is
//! taken) is exact integer arithmetic; the reported distance and normal are
//! fixed-point quantities pinned down by `hit_spec`.

use vstd::prelude::*;
use crate::num::{
    SCALE, COORD_MAX, sqrt_floor, tdiv, lemma_tdiv_le, lemma_tdiv_nonneg, lemma_mul_bound, isqrt,
    div_trunc,
};
use crate::vec::{V3i, Vec3, Point3};

verus! {

/// Largest distance a reported hit may carry (fixed-point units).
pub const DIST_MAX: i64 = 0x1000_0000_0000_0000;

/// Largest light intensity the scene may carry (fixed-point units).
pub const INTENSITY_MAX: i64 = 16777216;

/// Largest magnitude a ray direction component may take when a point
/// along the ray is computed: four units, the widest a 64-bit
/// coordinate bears against a distance of `DIST_MAX`.
pub const DIR_MAX: i64 = 262144;

/// A half-line `origin + t * direction`, `t >= 0`.
#[derive(Clone, Copy, Debug)]
pub struct Ray {
    pub origin: Point3,
    pub direction: Vec3,
}

/// A surface intersection: distance along the ray and unit surface normal.
#[derive(Clone, Copy, Debug)]
pub struct Hit {
    pub distance: i64,
    pub normal: Vec3,
}

/// Mathematical model of a hit: unbounded integer distance and normal.
pub ghost struct HitG {
    pub distance: int,
    pub normal: V3i,
}

/// A point light with no falloff: intensity is a direct multiplicative
/// weight, `SCALE` standing for 1.
#[derive(Clone, Copy, Debug)]
pub struct Light {
    pub position: Point3,
    pub intensity: i64,
}

/// A sphere given by centre and radius.
#[derive(Clone, Copy, Debug)]
pub struct Sphere {
    pub position: Point3,
    pub radius: i64,
}

/// The camera: a position and the point it looks at, with world up `(0,1,0)`.
#[derive(Clone, Copy, Debug)]
pub struct Camera {
    pub position: Point3,
    pub look_at: Point3,
}

/// The closed set of intersectable shapes; adding a primitive means adding
/// a variant here and an arm in `Object::intersect`.
#[derive(Clone, Copy, Debug)]
pub enum Shape {
    Sphere(Sphere),
}

/// A reflectance tint, each channel in `[0, SCALE]` for `[0, 1]`.
#[derive(Clone, Copy, Debug)]
pub struct Material {
    pub color: Vec3,
}

/// One renderable: a shape with its material.
#[derive(Clone, Copy, Debug)]
pub struct Object {
    pub shape: Shape,
    pub material: Material,
}

/// Position reached from `o` after travelling `t` fixed-point units along
/// direction `d`.
pub open spec fn ray_at(o: V3i, d: V3i, t: int) -> V3i {
    o.plus(d.scaled_q(t))
}

impl Ray {
    /// The position reached after travelling `d` fixed-point units.
    pub open spec fn at_q(self, d: int) -> V3i {
        ray_at(self.origin@, self.direction@, d)
    }

    /// A ray fit for tracing: origin inside the scene volume, direction a
    /// nonzero quantized unit vector.
    pub open spec fn wf(self) -> bool {
        &&& self.origin@.bounded(COORD_MAX as int)
        &&& self.direction@.bounded(SCALE as int)
        &&& self.direction@.norm_sq() >= 1
    }

    pub fn new(origin: Point3, direction: Vec3) -> (r: Ray)
        ensures
            r.origin == origin,
            r.direction == direction,
    {
        Ray { origin, direction }
    }

    /// The point `origin + distance * direction`, in fixed-point steps.
    /// The direction need not be normalized: any components up to
    /// `DIR_MAX` (four units) are admitted, the widest the 64-bit result
    /// bears against the largest admitted distance.
    pub fn point_at_distance(&self, distance: i64) -> (r: Point3)
        requires
            0 <= distance <= DIST_MAX,
            self.direction@.bounded(DIR_MAX as int),
            self.origin@.bounded(COORD_MAX as int),
        ensures
            r@ == self.at_q(distance as int),
            r@.bounded(4 * DIST_MAX as int + COORD_MAX as int),
            self.direction@.bounded(SCALE as int) ==> r@.bounded(
                DIST_MAX as int + COORD_MAX as int,
            ),
    {
        proof {
            lemma_mul_bound(distance as int, self.direction.x as int, DIST_MAX as int, DIR_MAX as int);
            lemma_mul_bound(distance as int, self.direction.y as int, DIST_MAX as int, DIR_MAX as int);
            lemma_mul_bound(distance as int, self.direction.z as int, DIST_MAX as int, DIR_MAX as int);
            lemma_tdiv_le(distance as int * self.direction.x, SCALE as int, 4 * DIST_MAX as int);
            lemma_tdiv_le(distance as int * self.direction.y, SCALE as int, 4 * DIST_MAX as int);
            lemma_tdiv_le(distance as int * self.direction.z, SCALE as int, 4 * DIST_MAX as int);
            if self.direction@.bounded(SCALE as int) {
                lemma_mul_bound(distance as int, self.direction.x as int, DIST_MAX as int, SCALE as int);
                lemma_mul_bound(distance as int, self.direction.y as int, DIST_MAX as int, SCALE as int);
                lemma_mul_bound(distance as int, self.direction.z as int, DIST_MAX as int, SCALE as int);
                lemma_tdiv_le(distance as int * self.direction.x, SCALE as int, DIST_MAX as int);
                lemma_tdiv_le(distance as int * self.direction.y, SCALE as int, DIST_MAX as int);
                lemma_tdiv_le(distance as int * self.direction.z, SCALE as int, DIST_MAX as int);
            }
        }
        let dx: i128 = div_trunc((distance as i128) * (self.direction.x as i128), SCALE as i128);
        let dy: i128 = div_trunc((distance as i128) * (self.direction.y as i128), SCALE as i128);
        let dz: i128 = div_trunc((distance as i128) * (self.direction.z as i128), SCALE as i128);
        Point3 {
            x: self.origin.x + dx as i64,
            y: self.origin.y + dy as i64,
            z: self.origin.z + dz as i64,
        }
    }
}

impl Light {
    /// Position inside the scene volume, non-negative bounded intensity.
    pub open spec fn wf(self) -> bool {
        &&& self.position@.bounded(COORD_MAX as int)
        &&& 0 <= self.intensity <= INTENSITY_MAX
    }

    pub fn new(position: Point3, intensity: i64) -> (r: Light)
        ensures
            r.position == position,
            r.intensity == intensity,
    {
        Light { position, intensity }
    }
}

impl Camera {
    pub fn new(position: Point3, look_at: Point3) -> (r: Camera)
        ensures
            r.position == position,
            r.look_at == look_at,
    {
        Camera { position, look_at }
    }
}

impl Sphere {
    /// Strictly positive bounded radius, and the whole surface inside
    /// the scene volume: each centre component plus the radius stays
    /// within `COORD_MAX`, so every point of the sphere has coordinates
    /// the shading pipeline accepts.
    pub open spec fn wf(self) -> bool {
        &&& 1 <= self.radius <= COORD_MAX
        &&& self.position@.bounded(COORD_MAX as int - self.radius)
    }

    pub fn new(position: Point3, radius: i64) -> (r: Sphere)
        ensures
            r.position == position,
            r.radius == radius,
    {
        Sphere { position, radius }
    }

    /// Quadratic coefficient `a = D . D` of `|O + tD - C|^2 = r^2`.
    pub open spec fn coeff_a(self, d: V3i) -> int {
        d.dot(d)
    }

    /// Quadratic coefficient `b = 2 (O - C) . D`.
    pub open spec fn coeff_b(self, o: V3i, d: V3i) -> int {
        2 * o.minus(self.position@).dot(d)
    }

    /// Quadratic coefficient `c = (O - C) . (O - C) - r^2`.
    pub open spec fn coeff_c(self, o: V3i) -> int {
        let oc = o.minus(self.position@);
        oc.dot(oc) - self.radius * self.radius
    }

    /// Discriminant `b^2 - 4 a c` of the intersection quadratic.
    pub open spec fn disc_at(self, o: V3i, d: V3i) -> int {
        self.coeff_b(o, d) * self.coeff_b(o, d) - 4 * self.coeff_a(d) * self.coeff_c(o)
    }

    /// The exact outcome of intersecting `ray` with this sphere.
    ///
    /// A non-positive discriminant (tangent included) is a miss, as is a
    /// sphere whose both roots are non-positive (a surface at or behind
    /// the ray origin is invisible, so a zero root is never selected:
    /// from an origin exactly on the surface the far root is taken).
    /// Otherwise the smaller strictly positive root is taken.  The root
    /// signs are decided on the exact numerators
    /// `-b -/+ sqrt_floor(disc)`; the reported distance and normal are
    /// those values quantized to `1/SCALE` steps.  A root below one
    /// quantization step (reported distance zero), and a quantized hit
    /// point that falls exactly on the centre (no defined normal), are
    /// likewise misses: a reported distance is always strictly positive.
    pub open spec fn hit_at(self, o: V3i, d: V3i) -> Option<HitG> {
        let a = self.coeff_a(d);
        let b = self.coeff_b(o, d);
        let disc = self.disc_at(o, d);
        if disc <= 0 {
            None
        } else {
            let s = sqrt_floor(disc as nat) as int;
            if -b - s <= 0 && -b + s <= 0 {
                None
            } else {
                let num = if -b - s <= 0 { -b + s } else { -b - s };
                let t = tdiv(num * SCALE, 2 * a);
                if t == 0 {
                    None
                } else {
                    let nv = ray_at(o, d, t).minus(self.position@);
                    if nv.norm_sq() == 0 {
                        None
                    } else {
                        Some(HitG { distance: t, normal: nv.unit_q() })
                    }
                }
            }
        }
    }

    /// `hit_at`, applied to an executable ray.
    pub open spec fn hit_spec(self, ray: Ray) -> Option<HitG> {
        self.hit_at(ray.origin@, ray.direction@)
    }

    /// Analytic ray/sphere intersection, exactly the value of `hit_spec`.
    pub fn intersect(&self, ray: &Ray) -> (r: Option<Hit>)
        requires
            self.wf(),
            ray.wf(),
        ensures
            hit_matches(r, self.hit_spec(*ray)),
    {
        let oc: Vec3 = ray.origin.minus(&self.position);
        let a: i64 = ray.direction.dot(&ray.direction);
        let hb: i64 = oc.dot(&ray.direction);
        let o2: i64 = oc.dot(&oc);
        proof {
            lemma_coeff_bounds(oc@, ray.direction@, self.radius as int);
        }
        let b: i64 = 2 * hb;
        let rr: i64 = self.radius * self.radius;
        let c: i64 = o2 - rr;
        proof {
            lemma_mul_bound(b as int, b as int, 13194139533314, 13194139533314);
            lemma_mul_bound(4 * (a as int), c as int, 51539607552, 3377699720527873);
            assert(b as int * b as int >= 0) by (nonlinear_arith);
            assert(a as int * 4 == 4 * (a as int)) by (nonlinear_arith);
        }
        let disc: i128 = (b as i128) * (b as i128) - (4 * (a as i128)) * (c as i128);
        proof {
            assert(disc as int == self.disc_at(ray.origin@, ray.direction@));
        }
        if disc <= 0 {
            return None;
        }
        let su: u128 = isqrt(disc as u128);
        proof {
            assert((disc as u128) as nat == (self.disc_at(ray.origin@, ray.direction@) as nat));
            assert(su <= 20000000000000u128) by (nonlinear_arith)
                requires
                    su as int * su as int <= disc as u128 as int,
                    disc as u128 as int <= 400000000000000000000000000,
            ;
        }
        let s: i128 = su as i128;
        let num0: i128 = -(b as i128) - s;
        let num1: i128 = -(b as i128) + s;
        if num0 <= 0 && num1 <= 0 {
            return None;
        }
        let num: i128 = if num0 <= 0 { num1 } else { num0 };
        proof {
            lemma_mul_bound(num as int, SCALE as int, 33194139533314, SCALE as int);
            assert(num as int * SCALE as int >= 0) by (nonlinear_arith)
                requires
                    num >= 0,
                    SCALE == 65536i64,
            ;
            assert(num as int * SCALE as int <= DIST_MAX as int * (2 * (a as int))) by (nonlinear_arith)
                requires
                    0 <= num <= 33194139533314,
                    a >= 1,
                    SCALE == 65536i64,
                    DIST_MAX == 0x1000_0000_0000_0000i64,
            ;
            lemma_tdiv_le(num as int * SCALE as int, 2 * (a as int), DIST_MAX as int);
            lemma_tdiv_nonneg(num as int * SCALE as int, 2 * (a as int));
        }
        let d128: i128 = div_trunc(num * (SCALE as i128), 2 * (a as i128));
        let d: i64 = d128 as i64;
        if d == 0 {
            return None;
        }
        let hp: Point3 = ray.point_at_distance(d);
        let nv: Vec3 = hp.minus(&self.position);
        proof {
            lemma_mul_bound(nv.x as int, nv.x as int, 0x2080_0000_0000_0000, 0x2080_0000_0000_0000);
            lemma_mul_bound(nv.y as int, nv.y as int, 0x2080_0000_0000_0000, 0x2080_0000_0000_0000);
            lemma_mul_bound(nv.z as int, nv.z as int, 0x2080_0000_0000_0000, 0x2080_0000_0000_0000);
            assert(nv.x as int * nv.x as int >= 0) by (nonlinear_arith);
            assert(nv.y as int * nv.y as int >= 0) by (nonlinear_arith);
            assert(nv.z as int * nv.z as int >= 0) by (nonlinear_arith);
        }
        let ns: i128 = (nv.x as i128) * (nv.x as i128) + (nv.y as i128) * (nv.y as i128)
            + (nv.z as i128) * (nv.z as i128);
        if ns == 0 {
            return None;
        }
        let normal: Vec3 = nv.normalize();
        Some(Hit { distance: d, normal })
    }
}

/// The executable hit agrees with the mathematical one.
pub open spec fn hit_matches(r: Option<Hit>, g: Option<HitG>) -> bool {
    match (r, g) {
        (Option::None, Option::None) => true,
        (Option::Some(h), Option::Some(hg)) => {
            &&& h.distance == hg.distance
            &&& h.normal@ == hg.normal
            &&& 0 < h.distance <= DIST_MAX
            &&& h.normal@.bounded(SCALE as int)
            &&& h.normal@.norm_sq() >= 1
        },
        _ => false,
    }
}

/// Magnitude bounds for the intersection coefficients of a well-formed
/// sphere and ray, tight enough that the discriminant and the selected
/// root stay inside 128-bit and `DIST_MAX` limits.
proof fn lemma_coeff_bounds(oc: V3i, dir: V3i, radius: int)
    requires
        oc.bounded(0x200_0000),
        dir.bounded(SCALE as int),
        1 <= radius <= COORD_MAX as int,
    ensures
        0 <= dir.dot(dir) <= 12884901888,
        -6597069766657 <= oc.dot(dir) <= 6597069766657,
        0 <= oc.dot(oc) <= 3377699720527873,
        1 <= radius * radius <= 0x1_0000_0000_0000,
{
    lemma_mul_bound(dir.x, dir.x, SCALE as int, SCALE as int);
    lemma_mul_bound(dir.y, dir.y, SCALE as int, SCALE as int);
    lemma_mul_bound(dir.z, dir.z, SCALE as int, SCALE as int);
    assert(dir.x * dir.x >= 0) by (nonlinear_arith);
    assert(dir.y * dir.y >= 0) by (nonlinear_arith);
    assert(dir.z * dir.z >= 0) by (nonlinear_arith);
    lemma_mul_bound(oc.x, dir.x, 0x200_0000, SCALE as int);
    lemma_mul_bound(oc.y, dir.y, 0x200_0000, SCALE as int);
    lemma_mul_bound(oc.z, dir.z, 0x200_0000, SCALE as int);
    lemma_mul_bound(oc.x, oc.x, 0x200_0000, 0x200_0000);
    lemma_mul_bound(oc.y, oc.y, 0x200_0000, 0x200_0000);
    lemma_mul_bound(oc.z, oc.z, 0x200_0000, 0x200_0000);
    assert(oc.x * oc.x >= 0) by (nonlinear_arith);
    assert(oc.y * oc.y >= 0) by (nonlinear_arith);
    assert(oc.z * oc.z >= 0) by (nonlinear_arith);
    lemma_mul_bound(radius, radius, COORD_MAX as int, COORD_MAX as int);
    assert(radius * radius >= 1) by (nonlinear_arith)
        requires
            radius >= 1,
    ;
}

impl Material {
    /// Each channel within `[0, SCALE]`, the fixed-point image of `[0, 1]`.
    pub open spec fn wf(self) -> bool {
        &&& 0 <= self.color.x <= SCALE
        &&& 0 <= self.color.y <= SCALE
        &&& 0 <= self.color.z <= SCALE
    }
}

impl Object {
    pub open spec fn wf(self) -> bool {
        &&& match self.shape {
            Shape::Sphere(s) => s.wf(),
        }
        &&& self.material.wf()
    }

    /// The exact outcome of intersecting a ray with this object's shape.
    pub open spec fn hit_at(self, o: V3i, d: V3i) -> Option<HitG> {
        match self.shape {
            Shape::Sphere(s) => s.hit_at(o, d),
        }
    }

    /// `hit_at`, applied to an executable ray.
    pub open spec fn hit_spec(self, ray: Ray) -> Option<HitG> {
        self.hit_at(ray.origin@, ray.direction@)
    }

    pub fn sphere(position: Point3, radius: i64, color: Vec3) -> (r: Object)
        ensures
            r.shape == Shape::Sphere(Sphere { position, radius }),
            r.material.color == color,
    {
        Object {
            shape: Shape::Sphere(Sphere::new(position, radius)),
            material: Material { color },
        }
    }

    /// Dispatch intersection over the shape variants.
    pub fn intersect(&self, ray: &Ray) -> (r: Option<Hit>)
        requires
            self.wf(),
            ray.wf(),
        ensures
            hit_matches(r, self.hit_spec(*ray)),
    {
        match &self.shape {
            Shape::Sphere(sphere) => sphere.intersect(ray),
        }
    }
}

} // verus!
