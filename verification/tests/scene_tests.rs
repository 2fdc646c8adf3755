use raytrace::num::SCALE;
use raytrace::vec::{Vec3, Point3};
use raytrace::geom::{Ray, Light, Camera, Object};
use raytrace::scene::Scene;

const S: i64 = SCALE;

fn unit_z() -> Vec3 {
    Vec3::new(0, 0, S)
}

fn camera_at_origin() -> Camera {
    Camera::new(Point3::new(0, 0, -30 * S), Point3::new(0, 0, 0))
}

fn white() -> Vec3 {
    Vec3::new(S, S, S)
}

#[test]
fn nearest_picks_closer_object() {
    let objects = vec![
        Object::sphere(Point3::new(0, 0, 20 * S), 5 * S, white()),
        Object::sphere(Point3::new(0, 0, 0), 5 * S, white()),
    ];
    let scene = Scene::new(objects, camera_at_origin(), vec![]);
    let ray = Ray::new(Point3::new(0, 0, -30 * S), unit_z());
    let (hit, idx) = scene.intersect(&ray).unwrap();
    assert_eq!(idx, 1);
    assert_eq!(hit.distance, 25 * S);
}

#[test]
fn nearest_tie_keeps_first() {
    let objects = vec![
        Object::sphere(Point3::new(0, 0, 0), 5 * S, white()),
        Object::sphere(Point3::new(0, 0, 0), 5 * S, white()),
    ];
    let scene = Scene::new(objects, camera_at_origin(), vec![]);
    let ray = Ray::new(Point3::new(0, 0, -30 * S), unit_z());
    let (_, idx) = scene.intersect(&ray).unwrap();
    assert_eq!(idx, 0);
}

#[test]
fn ray_pointing_away_finds_nothing() {
    let objects = vec![
        Object::sphere(Point3::new(0, 0, 0), 5 * S, white()),
        Object::sphere(Point3::new(-10 * S, 0, 0), 2 * S, white()),
    ];
    let scene = Scene::new(objects, camera_at_origin(), vec![]);
    let ray = Ray::new(Point3::new(0, 0, -30 * S), Vec3::new(0, 0, -S));
    assert!(scene.intersect(&ray).is_none());
}

#[test]
fn trace_miss_is_black() {
    let objects = vec![Object::sphere(Point3::new(0, 0, 0), 5 * S, white())];
    let lights = vec![Light::new(Point3::new(0, 0, -20 * S), S)];
    let scene = Scene::new(objects, camera_at_origin(), lights);
    let ray = Ray::new(Point3::new(0, 0, -30 * S), Vec3::new(0, 0, -S));
    let c = scene.trace(&ray);
    assert_eq!((c.x, c.y, c.z), (0, 0, 0));
}

#[test]
fn trace_head_on_exact_value() {
    // The hit normal is -z and the light sits on that normal, so the
    // Lambert cosine is exactly one: each channel comes out as the
    // material colour times the intensity, here (1.0, 0.5, 0.0).
    let objects = vec![Object::sphere(Point3::new(0, 0, 0), 5 * S, Vec3::new(S, S / 2, 0))];
    let lights = vec![Light::new(Point3::new(0, 0, -20 * S), S)];
    let scene = Scene::new(objects, camera_at_origin(), lights);
    let ray = Ray::new(Point3::new(0, 0, -30 * S), unit_z());
    let c = scene.trace(&ray);
    assert_eq!((c.x, c.y, c.z), (S, S / 2, 0));
}

#[test]
fn occluder_blocks_light_and_removal_restores_it() {
    // A diagonal ray hits the upper front of the sphere; the light above
    // lights it.  A small sphere strictly between the hit point and the
    // light darkens it to exactly black; without the occluder the
    // contribution is strictly positive.
    let target = Object::sphere(Point3::new(0, 0, 0), 5 * S, white());
    let occluder = Object::sphere(Point3::new(0, 12 * S, 0), 2 * S, white());
    let lights = vec![Light::new(Point3::new(0, 20 * S, 0), S)];
    let ray = Ray::new(
        Point3::new(0, 0, -30 * S),
        Vec3::new(0, 5 * S, 30 * S).normalize(),
    );

    let open_scene = Scene::new(vec![target], camera_at_origin(), lights.clone());
    let lit = open_scene.trace(&ray);
    assert!(lit.x > 0 && lit.y > 0 && lit.z > 0);

    let blocked_scene = Scene::new(vec![target, occluder], camera_at_origin(), lights);
    let dark = blocked_scene.trace(&ray);
    assert_eq!((dark.x, dark.y, dark.z), (0, 0, 0));
}

#[test]
fn shading_adds_over_lights() {
    // Tracing with both lights equals the componentwise sum of tracing
    // with each light alone.
    let objects = vec![Object::sphere(Point3::new(0, 0, 0), 5 * S, white())];
    let l1 = Light::new(Point3::new(0, 0, -20 * S), S);
    let l2 = Light::new(Point3::new(0, 20 * S, 0), S / 2);
    let ray = Ray::new(
        Point3::new(0, 0, -30 * S),
        Vec3::new(0, 5 * S, 30 * S).normalize(),
    );

    let both = Scene::new(objects.clone(), camera_at_origin(), vec![l1, l2]);
    let only1 = Scene::new(objects.clone(), camera_at_origin(), vec![l1]);
    let only2 = Scene::new(objects, camera_at_origin(), vec![l2]);

    let cb = both.trace(&ray);
    let c1 = only1.trace(&ray);
    let c2 = only2.trace(&ray);
    assert_eq!((cb.x, cb.y, cb.z), (c1.x + c2.x, c1.y + c2.y, c1.z + c2.z));
}

#[test]
fn scene_wf_check_accepts_and_rejects() {
    let good = Scene::new(
        vec![Object::sphere(Point3::new(0, 0, 0), 5 * S, white())],
        camera_at_origin(),
        vec![Light::new(Point3::new(0, 20 * S, 0), S)],
    );
    assert!(good.wf_check());

    let zero_radius = Scene::new(
        vec![Object::sphere(Point3::new(0, 0, 0), 0, white())],
        camera_at_origin(),
        vec![],
    );
    assert!(!zero_radius.wf_check());

    let negative_intensity = Scene::new(
        vec![],
        camera_at_origin(),
        vec![Light::new(Point3::new(0, 0, 0), -1)],
    );
    assert!(!negative_intensity.wf_check());
}
