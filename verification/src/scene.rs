//! The scene: an ordered collection of objects, a camera and point lights,
//! with the nearest-hit visibility query and the shading engine (Lambertian
//! diffuse, hard shadows, additive over lights).

use vstd::prelude::*;
use crate::num::{
    SCALE, COORD_MAX, tdiv, lemma_tdiv_le, lemma_tdiv_nonneg, lemma_mul_bound, div_trunc,
};
use crate::vec::{V3i, Vec3, Point3};
use crate::geom::{Ray, Hit, HitG, Light, Camera, Object, Shape, hit_matches, ray_at, INTENSITY_MAX};

verus! {

/// Offset applied to a hit point along its normal before casting shadow
/// rays, to prevent false self-occlusion from fixed-point round-off
/// ("shadow acne").  This is `0.0002` scene units at the crate's scale.
pub const SHADOW_BIAS: i64 = 13;

/// Largest value one light can add to one colour channel.
pub const TERM_MAX: i64 = 50331648;

/// Largest value a traced colour channel can take (65536 lights of
/// maximal intensity).
pub const SHADE_MAX: i64 = 3298534883328;

/// The zero colour / zero vector.
pub open spec fn black() -> V3i {
    V3i { x: 0, y: 0, z: 0 }
}

/// The nearest hit among the first `n` objects, with the owning object's
/// index.  Ties keep the earlier object.
pub open spec fn nearest_upto(objects: Seq<Object>, o: V3i, d: V3i, n: int) -> Option<(HitG, int)>
    decreases n,
{
    if n <= 0 {
        None
    } else {
        let prev = nearest_upto(objects, o, d, n - 1);
        let cur = objects[n - 1].hit_at(o, d);
        match prev {
            Option::None => match cur {
                Option::None => None,
                Option::Some(h) => Some((h, n - 1)),
            },
            Option::Some(p) => match cur {
                Option::None => Some(p),
                Option::Some(h) => if h.distance < p.0.distance {
                    Some((h, n - 1))
                } else {
                    Some(p)
                },
            },
        }
    }
}

/// The nearest hit among all objects.
pub open spec fn nearest_at(objects: Seq<Object>, o: V3i, d: V3i) -> Option<(HitG, int)> {
    nearest_upto(objects, o, d, objects.len() as int)
}

/// A reported nearest hit really comes from one of the first `n` objects.
pub proof fn lemma_nearest_upto_props(objects: Seq<Object>, o: V3i, d: V3i, n: int)
    requires
        n <= objects.len(),
    ensures
        nearest_upto(objects, o, d, n) matches Some(p) ==> {
            &&& 0 <= p.1 < n
            &&& objects[p.1].hit_at(o, d) == Some::<HitG>(p.0)
        },
    decreases n,
{
    if n > 0 {
        lemma_nearest_upto_props(objects, o, d, n - 1);
    }
}

/// The executable nearest hit agrees with the mathematical one.
pub open spec fn nearest_matches(r: Option<(Hit, usize)>, g: Option<(HitG, int)>) -> bool {
    match r {
        Option::None => g is None,
        Option::Some(p) => match g {
            Option::None => false,
            Option::Some(q) => p.1 == q.1 && hit_matches(Some(p.0), Some(q.0)),
        },
    }
}

/// Fixed-point product of a Lambert cosine (at scale `SCALE * SCALE`,
/// being a dot product of two unit vectors), a colour channel and a
/// light intensity, truncating after each factor:
/// `((lam / SCALE) * col / SCALE) * inten / SCALE`.
pub open spec fn channel_spec(lam: int, col: int, inten: int) -> int {
    tdiv(tdiv(tdiv(lam, SCALE as int) * col, SCALE as int) * inten, SCALE as int)
}

/// What one light adds to the colour at a shaded point.
///
/// The light is skipped (adds black) when it sits exactly on the shaded
/// point (no direction), or when any object occludes the shadow ray from
/// the biased hit point toward the light.  The shadow ray has no distance
/// limit — an occluder beyond the light still shadows.  That is a
/// deliberate, documented simplification, kept rather than silently
/// bounding the ray by the light's distance.
pub open spec fn light_term(
    objects: Seq<Object>,
    hpb: V3i,
    normal: V3i,
    color: V3i,
    light: Light,
) -> V3i {
    let lv = light.position@.minus(hpb);
    if lv.norm_sq() == 0 {
        black()
    } else {
        let ldir = lv.unit_q();
        if nearest_at(objects, hpb, ldir) is Some {
            black()
        } else {
            let lam0 = normal.dot(ldir);
            let lam = if lam0 > 0 { lam0 } else { 0 };
            V3i {
                x: channel_spec(lam, color.x, light.intensity as int),
                y: channel_spec(lam, color.y, light.intensity as int),
                z: channel_spec(lam, color.z, light.intensity as int),
            }
        }
    }
}

/// Colour accumulated from the first `n` lights: a componentwise sum of
/// the per-light terms.
pub open spec fn shade_upto(
    objects: Seq<Object>,
    hpb: V3i,
    normal: V3i,
    color: V3i,
    lights: Seq<Light>,
    n: int,
) -> V3i
    decreases n,
{
    if n <= 0 {
        black()
    } else {
        shade_upto(objects, hpb, normal, color, lights, n - 1).plus(
            light_term(objects, hpb, normal, color, lights[n - 1]),
        )
    }
}

/// The scene: read-only for the duration of a render.
pub struct Scene {
    pub objects: Vec<Object>,
    pub camera: Camera,
    pub lights: Vec<Light>,
}

impl Scene {
    /// Every object and light within bounds, and few enough lights that
    /// accumulated shading cannot overflow.
    pub open spec fn wf(self) -> bool {
        &&& forall|i: int| 0 <= i < self.objects@.len() ==> (#[trigger] self.objects@[i]).wf()
        &&& forall|i: int| 0 <= i < self.lights@.len() ==> (#[trigger] self.lights@[i]).wf()
        &&& self.lights@.len() <= 65536
    }

    pub fn new(objects: Vec<Object>, camera: Camera, lights: Vec<Light>) -> (r: Scene)
        ensures
            r.objects == objects,
            r.camera == camera,
            r.lights == lights,
    {
        Scene { objects, camera, lights }
    }

    /// The colour seen along `ray`: black on a miss, otherwise the sum
    /// over lights of the shadow-tested Lambertian terms, evaluated at
    /// the bias-offset hit point.  In a well-formed scene every sphere
    /// surface lies inside the coordinate volume, so the guard on the
    /// biased hit point can only fire when quantization carries a
    /// boundary-grazing hit past the edge; such a point is not shaded.
    pub open spec fn trace_at(self, o: V3i, d: V3i) -> V3i {
        match nearest_at(self.objects@, o, d) {
            Option::None => black(),
            Option::Some(p) => {
                let hp = ray_at(o, d, p.0.distance);
                let hpb = hp.plus(p.0.normal.scaled_q(SHADOW_BIAS as int));
                if !hpb.bounded(COORD_MAX as int) {
                    black()
                } else {
                    shade_upto(
                        self.objects@,
                        hpb,
                        p.0.normal,
                        self.objects@[p.1].material.color@,
                        self.lights@,
                        self.lights@.len() as int,
                    )
                }
            },
        }
    }

    /// `trace_at`, applied to an executable ray.
    pub open spec fn trace_spec(self, ray: Ray) -> V3i {
        self.trace_at(ray.origin@, ray.direction@)
    }

    /// Decide `wf` at run time, for callers outside the proof system.
    pub fn wf_check(&self) -> (r: bool)
        ensures
            r == self.wf(),
    {
        let mut i: usize = 0;
        while i < self.objects.len()
            invariant
                i <= self.objects@.len(),
                forall|j: int| 0 <= j < i ==> (#[trigger] self.objects@[j]).wf(),
            decreases self.objects@.len() - i,
        {
            let ok: bool = match &self.objects[i].shape {
                Shape::Sphere(s) => {
                    if 1 <= s.radius && s.radius <= COORD_MAX {
                        let m: i64 = COORD_MAX - s.radius;
                        let p = &s.position;
                        -m <= p.x && p.x <= m && -m <= p.y && p.y <= m && -m <= p.z && p.z <= m
                    } else {
                        false
                    }
                },
            };
            let col = &self.objects[i].material.color;
            let ok = ok && 0 <= col.x && col.x <= SCALE && 0 <= col.y && col.y <= SCALE && 0
                <= col.z && col.z <= SCALE;
            if !ok {
                return false;
            }
            i = i + 1;
        }
        let mut i: usize = 0;
        while i < self.lights.len()
            invariant
                i <= self.lights@.len(),
                forall|j: int| 0 <= j < i ==> (#[trigger] self.lights@[j]).wf(),
            decreases self.lights@.len() - i,
        {
            let l = &self.lights[i];
            let p = &l.position;
            if !(-COORD_MAX <= p.x && p.x <= COORD_MAX && -COORD_MAX <= p.y && p.y <= COORD_MAX
                && -COORD_MAX <= p.z && p.z <= COORD_MAX && 0 <= l.intensity
                && l.intensity <= INTENSITY_MAX) {
                return false;
            }
            i = i + 1;
        }
        self.lights.len() <= 65536
    }

    /// Nearest valid intersection across all objects, used identically
    /// for primary visibility and shadow occlusion.
    pub fn intersect(&self, ray: &Ray) -> (r: Option<(Hit, usize)>)
        requires
            self.wf(),
            ray.wf(),
        ensures
            nearest_matches(r, nearest_at(self.objects@, ray.origin@, ray.direction@)),
            r matches Some(p) ==> p.1 < self.objects@.len(),
    {
        let mut best: Option<(Hit, usize)> = None;
        let mut i: usize = 0;
        while i < self.objects.len()
            invariant
                self.wf(),
                ray.wf(),
                i <= self.objects@.len(),
                nearest_matches(best, nearest_upto(self.objects@, ray.origin@, ray.direction@, i as int)),
                best matches Some(p) ==> p.1 < i,
            decreases self.objects@.len() - i,
        {
            let cur = self.objects[i].intersect(ray);
            match cur {
                Option::None => {},
                Option::Some(h) => {
                    match best {
                        Option::None => {
                            best = Some((h, i));
                        },
                        Option::Some(p) => {
                            if h.distance < p.0.distance {
                                best = Some((h, i));
                            }
                        },
                    }
                },
            }
            i = i + 1;
        }
        best
    }

    /// Get a colour for a ray (primary visibility plus direct lighting).
    pub fn trace(&self, ray: &Ray) -> (r: Vec3)
        requires
            self.wf(),
            ray.wf(),
        ensures
            r@ == self.trace_spec(*ray),
            0 <= r.x <= SHADE_MAX,
            0 <= r.y <= SHADE_MAX,
            0 <= r.z <= SHADE_MAX,
    {
        let nres = self.intersect(ray);
        let (hit, idx) = match nres {
            Option::None => {
                return Vec3::new(0, 0, 0);
            },
            Option::Some(p) => p,
        };
        let hp: Point3 = ray.point_at_distance(hit.distance);
        let bx: i128 = div_trunc((SHADOW_BIAS as i128) * (hit.normal.x as i128), SCALE as i128);
        let by: i128 = div_trunc((SHADOW_BIAS as i128) * (hit.normal.y as i128), SCALE as i128);
        let bz: i128 = div_trunc((SHADOW_BIAS as i128) * (hit.normal.z as i128), SCALE as i128);
        proof {
            lemma_mul_bound(SHADOW_BIAS as int, hit.normal.x as int, SHADOW_BIAS as int, SCALE as int);
            lemma_mul_bound(SHADOW_BIAS as int, hit.normal.y as int, SHADOW_BIAS as int, SCALE as int);
            lemma_mul_bound(SHADOW_BIAS as int, hit.normal.z as int, SHADOW_BIAS as int, SCALE as int);
            lemma_tdiv_le(SHADOW_BIAS as int * hit.normal.x as int, SCALE as int, SHADOW_BIAS as int);
            lemma_tdiv_le(SHADOW_BIAS as int * hit.normal.y as int, SCALE as int, SHADOW_BIAS as int);
            lemma_tdiv_le(SHADOW_BIAS as int * hit.normal.z as int, SCALE as int, SHADOW_BIAS as int);
        }
        let hpb = Point3 {
            x: hp.x + bx as i64,
            y: hp.y + by as i64,
            z: hp.z + bz as i64,
        };
        if !(-COORD_MAX <= hpb.x && hpb.x <= COORD_MAX && -COORD_MAX <= hpb.y && hpb.y <= COORD_MAX
            && -COORD_MAX <= hpb.z && hpb.z <= COORD_MAX) {
            return Vec3::new(0, 0, 0);
        }
        proof {
            lemma_nearest_upto_props(
                self.objects@,
                ray.origin@,
                ray.direction@,
                self.objects@.len() as int,
            );
        }
        let color: Vec3 = self.objects[idx].material.color;
        let mut acc = Vec3::new(0, 0, 0);
        let mut li: usize = 0;
        while li < self.lights.len()
            invariant
                self.wf(),
                ray.wf(),
                li <= self.lights@.len(),
                self.lights@.len() <= 65536,
                hpb@.bounded(COORD_MAX as int),
                hit.normal@.bounded(SCALE as int),
                0 <= color.x <= SCALE,
                0 <= color.y <= SCALE,
                0 <= color.z <= SCALE,
                acc@ == shade_upto(self.objects@, hpb@, hit.normal@, color@, self.lights@, li as int),
                0 <= acc.x <= li * TERM_MAX,
                0 <= acc.y <= li * TERM_MAX,
                0 <= acc.z <= li * TERM_MAX,
            decreases self.lights@.len() - li,
        {
            let light: Light = self.lights[li];
            let lv: Vec3 = light.position.minus(&hpb);
            let lns: i64 = lv.dot(&lv);
            proof {
                lemma_mul_bound(lv.x as int, lv.x as int, 0x200_0000, 0x200_0000);
                assert(lv.x as int * lv.x as int >= 0) by (nonlinear_arith);
                assert(lv.y as int * lv.y as int >= 0) by (nonlinear_arith);
                assert(lv.z as int * lv.z as int >= 0) by (nonlinear_arith);
            }
            if lns != 0 {
                let ldir: Vec3 = lv.normalize();
                let sray = Ray::new(hpb, ldir);
                let occ = self.intersect(&sray);
                if occ.is_none() {
                    let lam0: i64 = hit.normal.dot(&ldir);
                    let lam: i64 = if lam0 > 0 { lam0 } else { 0 };
                    proof {
                        lemma_dot_unit_bound(hit.normal@, ldir@, lam0 as int);
                    }
                    let tx: i64 = channel(lam, color.x, light.intensity);
                    let ty: i64 = channel(lam, color.y, light.intensity);
                    let tz: i64 = channel(lam, color.z, light.intensity);
                    acc = Vec3 { x: acc.x + tx, y: acc.y + ty, z: acc.z + tz };
                }
            }
            li = li + 1;
        }
        acc
    }
}

/// The dot product of two quantized unit vectors is bounded by
/// `3 * SCALE * SCALE`.
proof fn lemma_dot_unit_bound(a: V3i, b: V3i, d: int)
    requires
        a.bounded(SCALE as int),
        b.bounded(SCALE as int),
        d == a.dot(b),
    ensures
        -12884901888 <= d <= 12884901888,
{
    lemma_mul_bound(a.x, b.x, SCALE as int, SCALE as int);
    lemma_mul_bound(a.y, b.y, SCALE as int, SCALE as int);
    lemma_mul_bound(a.z, b.z, SCALE as int, SCALE as int);
}

/// One light's contribution to one channel, truncating fixed-point
/// multiplication at each step.
fn channel(lam: i64, col: i64, inten: i64) -> (r: i64)
    requires
        0 <= lam <= 12884901888,
        0 <= col <= SCALE,
        0 <= inten <= INTENSITY_MAX,
    ensures
        r == channel_spec(lam as int, col as int, inten as int),
        0 <= r <= TERM_MAX,
{
    proof {
        lemma_tdiv_le(lam as int, SCALE as int, 196608);
        lemma_tdiv_nonneg(lam as int, SCALE as int);
    }
    let cos: i128 = div_trunc(lam as i128, SCALE as i128);
    proof {
        lemma_mul_bound(cos as int, col as int, 196608, SCALE as int);
        assert(cos as int * col as int >= 0) by (nonlinear_arith)
            requires
                cos >= 0,
                col >= 0,
        ;
        assert(cos as int * col as int <= 196608 * (SCALE as int)) by (nonlinear_arith)
            requires
                0 <= cos <= 196608i128,
                0 <= col <= SCALE,
                SCALE == 65536i64,
        ;
        lemma_tdiv_le(cos as int * col as int, SCALE as int, 196608);
        lemma_tdiv_nonneg(cos as int * col as int, SCALE as int);
    }
    let t1: i128 = div_trunc(cos * (col as i128), SCALE as i128);
    proof {
        lemma_mul_bound(t1 as int, inten as int, 196608, INTENSITY_MAX as int);
        assert(t1 as int * inten as int >= 0) by (nonlinear_arith)
            requires
                t1 >= 0,
                inten >= 0,
        ;
        assert(t1 as int * inten as int <= TERM_MAX as int * (SCALE as int)) by (nonlinear_arith)
            requires
                0 <= t1 <= 196608i128,
                0 <= inten <= INTENSITY_MAX,
                INTENSITY_MAX == 16777216i64,
                TERM_MAX == 50331648i64,
                SCALE == 65536i64,
        ;
        lemma_tdiv_le(t1 as int * inten as int, SCALE as int, TERM_MAX as int);
        lemma_tdiv_nonneg(t1 as int * inten as int, SCALE as int);
    }
    let t2: i128 = div_trunc(t1 * (inten as i128), SCALE as i128);
    t2 as i64
}

} // verus!
