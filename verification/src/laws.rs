//! Global properties of the tracing pipeline, each proved from the
//! contracts of the modules it spans: misses for rays pointing away from
//! every sphere, the tangent-ray policy, normals of centre rays, shadowed
//! and lit light contributions, additivity of shading over lights, and
//! the centre-pixel viewing direction.

use vstd::prelude::*;
use crate::num::{SCALE, tdiv, sqrt_floor, lemma_sqrt_floor, lemma_tdiv_ge, lemma_tdiv_nonneg};
use crate::vec::V3i;
use crate::geom::{Object, Shape, Sphere, Light, Camera};
use crate::scene::{
    Scene, black, nearest_at, nearest_upto, light_term, shade_upto, channel_spec,
};
use crate::camera::{camera_wf, camera_forward, basis_z, pixel_dir_raw, screen_x, screen_y};

verus! {

/// The ray `(o, d)` starts outside this object's sphere (`c > 0`) and
/// points away from it (`b >= 0`).
pub open spec fn outside_and_away(obj: Object, o: V3i, d: V3i) -> bool {
    match obj.shape {
        Shape::Sphere(s) => s.coeff_c(o) > 0 && s.coeff_b(o, d) >= 0,
    }
}

/// A sphere with the ray's origin outside it and the direction pointing
/// away reports no hit: the discriminant is either non-positive, or both
/// roots are negative.
pub proof fn lemma_sphere_away_misses(s: Sphere, o: V3i, d: V3i)
    requires
        d.norm_sq() >= 1,
        s.coeff_c(o) > 0,
        s.coeff_b(o, d) >= 0,
    ensures
        s.hit_at(o, d) is None,
{
    let a = s.coeff_a(d);
    let b = s.coeff_b(o, d);
    let c = s.coeff_c(o);
    let disc = s.disc_at(o, d);
    if disc > 0 {
        assert(disc < b * b) by (nonlinear_arith)
            requires
                disc == b * b - 4 * a * c,
                a >= 1,
                c >= 1,
        ;
        let sq = sqrt_floor(disc as nat) as int;
        lemma_sqrt_floor(disc as nat);
        assert(sq < b) by (nonlinear_arith)
            requires
                sq * sq <= disc,
                disc < b * b,
                sq >= 0,
                b >= 0,
        ;
        assert(-b - sq < 0 && -b + sq < 0);
    }
}

/// Helper: if every one of the first `n` objects satisfies the
/// outside-and-away condition, no nearest hit exists among them.
proof fn lemma_away_upto(objects: Seq<Object>, o: V3i, d: V3i, n: int)
    requires
        d.norm_sq() >= 1,
        n <= objects.len(),
        forall|i: int| 0 <= i < objects.len() ==> outside_and_away(#[trigger] objects[i], o, d),
    ensures
        nearest_upto(objects, o, d, n) is None,
    decreases n,
{
    if n > 0 {
        lemma_away_upto(objects, o, d, n - 1);
        match objects[n - 1].shape {
            Shape::Sphere(s) => {
                lemma_sphere_away_misses(s, o, d);
            },
        }
    }
}

/// A ray whose origin lies outside every sphere and whose direction
/// points away from each of them finds no nearest hit in the scene.
pub proof fn lemma_ray_away_misses_all(objects: Seq<Object>, o: V3i, d: V3i)
    requires
        d.norm_sq() >= 1,
        forall|i: int| 0 <= i < objects.len() ==> outside_and_away(#[trigger] objects[i], o, d),
    ensures
        nearest_at(objects, o, d) is None,
{
    lemma_away_upto(objects, o, d, objects.len() as int);
}

/// A ray exactly tangent to a sphere (discriminant zero) reports no hit:
/// the hit test uses a strict inequality on the discriminant.
pub proof fn lemma_tangent_misses(s: Sphere, o: V3i, d: V3i)
    requires
        s.disc_at(o, d) == 0,
    ensures
        s.hit_at(o, d) is None,
{
}

/// A ray through a sphere's centre: when the origin's offset from the
/// centre is an exact integer multiple of the direction, every point of
/// the ray keeps that property, so the exact surface offset at any
/// travelled distance `t` — the unnormalized normal — has zero cross
/// product with the direction: it is parallel (origin outside) or
/// anti-parallel (origin inside) to the ray.  Quantization of the
/// reported distance is orthogonal to this: the statement holds for
/// every `t`.
pub proof fn lemma_center_ray_normal_parallel(o: V3i, centre: V3i, d: V3i, k: int, t: int)
    requires
        o.minus(centre) == (V3i { x: k * d.x, y: k * d.y, z: k * d.z }),
    ensures
        ({
            let hp = V3i { x: o.x + t * d.x, y: o.y + t * d.y, z: o.z + t * d.z };
            hp.minus(centre).cross(d) == (V3i { x: 0, y: 0, z: 0 })
        }),
{
    let hp = V3i { x: o.x + t * d.x, y: o.y + t * d.y, z: o.z + t * d.z };
    let nv = hp.minus(centre);
    assert(nv.x == (k + t) * d.x && nv.y == (k + t) * d.y && nv.z == (k + t) * d.z)
        by (nonlinear_arith)
        requires
            nv.x == k * d.x + t * d.x,
            nv.y == k * d.y + t * d.y,
            nv.z == k * d.z + t * d.z,
    ;
    assert(nv.y * d.z - nv.z * d.y == 0 && nv.z * d.x - nv.x * d.z == 0 && nv.x * d.y - nv.y * d.x
        == 0) by (nonlinear_arith)
        requires
            nv.x == (k + t) * d.x,
            nv.y == (k + t) * d.y,
            nv.z == (k + t) * d.z,
    ;
}

/// A light whose shadow ray is occluded by any object contributes
/// exactly black to the shaded colour.
pub proof fn lemma_occluded_light_dark(
    objects: Seq<Object>,
    hpb: V3i,
    normal: V3i,
    color: V3i,
    light: Light,
)
    requires
        nearest_at(objects, hpb, light.position@.minus(hpb).unit_q()) is Some,
    ensures
        light_term(objects, hpb, normal, color, light) == black(),
{
}

/// A light whose shadow ray is unoccluded, falling at a non-grazing
/// angle (`lambert * colour >= SCALE`, one full quantization step) with
/// at least unit intensity, contributes strictly positive red; the other
/// channels behave alike.
pub proof fn lemma_unoccluded_light_bright(
    objects: Seq<Object>,
    hpb: V3i,
    normal: V3i,
    color: V3i,
    light: Light,
)
    requires
        light.position@.minus(hpb).norm_sq() >= 1,
        nearest_at(objects, hpb, light.position@.minus(hpb).unit_q()) is None,
        color.x >= 0,
        tdiv(normal.dot(light.position@.minus(hpb).unit_q()), SCALE as int) * color.x >= SCALE,
        light.intensity >= SCALE,
    ensures
        light_term(objects, hpb, normal, color, light).x >= 1,
{
    let ldir = light.position@.minus(hpb).unit_q();
    let lam0 = normal.dot(ldir);
    let cos = tdiv(lam0, SCALE as int);
    assert(cos > 0) by (nonlinear_arith)
        requires
            cos * color.x >= SCALE,
            color.x >= 0,
            SCALE == 65536i64,
    ;
    assert(lam0 > 0) by {
        if lam0 <= 0 {
            lemma_tdiv_nonneg(-lam0, SCALE as int);
        }
    }
    let t1 = tdiv(cos * color.x, SCALE as int);
    assert(1 * (SCALE as int) <= cos * color.x) by (nonlinear_arith)
        requires
            cos * color.x >= SCALE,
            SCALE == 65536i64,
    ;
    lemma_tdiv_ge(cos * color.x, SCALE as int, 1);
    assert(t1 * light.intensity >= 1 * (SCALE as int)) by (nonlinear_arith)
        requires
            t1 >= 1,
            light.intensity >= SCALE,
            SCALE == 65536i64,
    ;
    lemma_tdiv_ge(t1 * light.intensity, SCALE as int, 1);
    assert(channel_spec(lam0, color.x, light.intensity as int) >= 1);
}

/// Helper: shading over a prefix of a concatenation only reads the
/// prefix.
proof fn lemma_shade_prefix(
    objects: Seq<Object>,
    hpb: V3i,
    normal: V3i,
    color: V3i,
    l1: Seq<Light>,
    l2: Seq<Light>,
    n: int,
)
    requires
        0 <= n <= l1.len(),
    ensures
        shade_upto(objects, hpb, normal, color, l1 + l2, n) == shade_upto(
            objects,
            hpb,
            normal,
            color,
            l1,
            n,
        ),
    decreases n,
{
    if n > 0 {
        lemma_shade_prefix(objects, hpb, normal, color, l1, l2, n - 1);
        assert((l1 + l2)[n - 1] == l1[n - 1]);
    }
}

/// Helper: peeling the second operand of a concatenation off the sum.
proof fn lemma_shade_concat(
    objects: Seq<Object>,
    hpb: V3i,
    normal: V3i,
    color: V3i,
    l1: Seq<Light>,
    l2: Seq<Light>,
    n: int,
)
    requires
        0 <= n <= l2.len(),
    ensures
        shade_upto(objects, hpb, normal, color, l1 + l2, l1.len() + n) == shade_upto(
            objects,
            hpb,
            normal,
            color,
            l1,
            l1.len() as int,
        ).plus(shade_upto(objects, hpb, normal, color, l2, n)),
    decreases n,
{
    if n == 0 {
        lemma_shade_prefix(objects, hpb, normal, color, l1, l2, l1.len() as int);
    } else {
        lemma_shade_concat(objects, hpb, normal, color, l1, l2, n - 1);
        assert((l1 + l2)[l1.len() + n - 1] == l2[n - 1]);
    }
}

/// Shading is purely additive across lights: the colour accumulated over
/// the concatenation of two light lists (same objects, same shaded point,
/// same normal and colour, hence the same occlusion state per light) is
/// the componentwise sum of the colours each list yields alone.
pub proof fn lemma_shade_additive(
    objects: Seq<Object>,
    hpb: V3i,
    normal: V3i,
    color: V3i,
    l1: Seq<Light>,
    l2: Seq<Light>,
)
    ensures
        shade_upto(objects, hpb, normal, color, l1 + l2, (l1 + l2).len() as int) == shade_upto(
            objects,
            hpb,
            normal,
            color,
            l1,
            l1.len() as int,
        ).plus(shade_upto(objects, hpb, normal, color, l2, l2.len() as int)),
{
    lemma_shade_concat(objects, hpb, normal, color, l1, l2, l2.len() as int);
}

/// Additivity lifted to whole traces: scenes that share objects and
/// camera and split their light list have componentwise-additive traced
/// colours, for every ray.
pub proof fn lemma_trace_additive_over_lights(s1: Scene, s2: Scene, s12: Scene, o: V3i, d: V3i)
    requires
        s1.objects@ == s12.objects@,
        s2.objects@ == s12.objects@,
        s12.lights@ == s1.lights@ + s2.lights@,
    ensures
        s12.trace_at(o, d) == s1.trace_at(o, d).plus(s2.trace_at(o, d)),
{
    lemma_shade_additive_full(s1, s2, s12, o, d);
}

/// Body of the trace-level additivity argument.
proof fn lemma_shade_additive_full(s1: Scene, s2: Scene, s12: Scene, o: V3i, d: V3i)
    requires
        s1.objects@ == s12.objects@,
        s2.objects@ == s12.objects@,
        s12.lights@ == s1.lights@ + s2.lights@,
    ensures
        s12.trace_at(o, d) == s1.trace_at(o, d).plus(s2.trace_at(o, d)),
{
    match nearest_at(s12.objects@, o, d) {
        Option::None => {},
        Option::Some(p) => {
            lemma_shade_additive(
                s12.objects@,
                crate::geom::ray_at(o, d, p.0.distance).plus(
                    p.0.normal.scaled_q(crate::scene::SHADOW_BIAS as int),
                ),
                p.0.normal,
                s12.objects@[p.1].material.color@,
                s1.lights@,
                s2.lights@,
            );
        },
    }
}

/// The exact centre of the screen looks along the camera's forward axis:
/// screen coordinates `(0, 0)` give, before normalization, exactly the
/// quantized unit vector from the camera position toward `look_at` —
/// independent of image size and field of view, which only scale the
/// (zero) screen offsets.
pub proof fn lemma_center_dir_toward_look_at(c: Camera)
    requires
        camera_wf(c),
    ensures
        pixel_dir_raw(c, 0, 0) == camera_forward(c).unit_q(),
{
    let bz = basis_z(c);
    assert(tdiv(0, SCALE as int) == 0);
    assert(pixel_dir_raw(c, 0, 0) == (V3i { x: bz.x, y: bz.y, z: bz.z }));
    assert((V3i { x: bz.x, y: bz.y, z: bz.z }) == bz);
}

/// In an image with odd width and height, the centre pixel's ray leaves
/// the camera exactly along the quantized unit vector toward `look_at`:
/// the camera mapping is invertible in direction at the image centre,
/// independent of image size and field of view.
pub proof fn lemma_center_pixel_direction(c: Camera, w: int, h: int, fov_adjust: int)
    requires
        camera_wf(c),
        w >= 1,
        h >= 1,
        w % 2 == 1,
        h % 2 == 1,
    ensures
        pixel_dir_raw(
            c,
            screen_x((w - 1) / 2, w, h, fov_adjust),
            screen_y((h - 1) / 2, h, fov_adjust),
        ) == camera_forward(c).unit_q(),
{
    lemma_center_pixel_screen_coords(w, h, fov_adjust);
    lemma_center_dir_toward_look_at(c);
}

/// In an image with odd width and height, the centre pixel's screen
/// coordinates are exactly `(0, 0)`, whatever the image size and field
/// of view.
pub proof fn lemma_center_pixel_screen_coords(w: int, h: int, fov_adjust: int)
    requires
        w >= 1,
        h >= 1,
        w % 2 == 1,
        h % 2 == 1,
    ensures
        screen_x((w - 1) / 2, w, h, fov_adjust) == 0,
        screen_y((h - 1) / 2, h, fov_adjust) == 0,
{
    assert(2 * ((w - 1) / 2) == w - 1) by (nonlinear_arith)
        requires
            w >= 1,
            w % 2 == 1,
    ;
    assert(2 * ((h - 1) / 2) == h - 1) by (nonlinear_arith)
        requires
            h >= 1,
            h % 2 == 1,
    ;
    assert(screen_x((w - 1) / 2, w, h, fov_adjust) == tdiv(0 * fov_adjust, h));
    assert(screen_y((h - 1) / 2, h, fov_adjust) == tdiv(0 * fov_adjust, h));
    assert(0 * fov_adjust == 0) by (nonlinear_arith);
    assert(tdiv(0, h) == 0);
}

} // verus!
