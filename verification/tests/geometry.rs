use ray_tracer::vec3::Vec3;
use ray_tracer::ray::Ray;
use ray_tracer::sphere::Sphere;
use ray_tracer::hittable_list::HittableList;

// 1.0 in raw fixed-point units.
const ONE: i64 = 10_000;

#[test]
fn vec3_new_and_fields() {
    let v = Vec3::new(1, -2, 3);
    assert_eq!(v.x, 1);
    assert_eq!(v.y, -2);
    assert_eq!(v.z, 3);
}

#[test]
fn vec3_add_sub_neg() {
    let a = Vec3::new(10_000, -20_000, 30_000);
    let b = Vec3::new(5_000, 5_000, -5_000);
    assert_eq!(a.add(&b), Vec3::new(15_000, -15_000, 25_000));
    assert_eq!(a.sub(&b), Vec3::new(5_000, -25_000, 35_000));
    assert_eq!(a.neg(), Vec3::new(-10_000, 20_000, -30_000));
}

#[test]
fn vec3_scale_and_div() {
    let a = Vec3::new(10_000, -20_000, 5_000);
    // times 0.5
    assert_eq!(a.scale(5_000), Vec3::new(5_000, -10_000, 2_500));
    // divided by 2.0
    assert_eq!(a.div_scalar(20_000), Vec3::new(5_000, -10_000, 2_500));
}

#[test]
fn vec3_dot_exact() {
    // (1,2,3) . (4,5,6) = 32
    let a = Vec3::new(10_000, 20_000, 30_000);
    let b = Vec3::new(40_000, 50_000, 60_000);
    assert_eq!(a.dot(&b), 32 * ONE);
}

#[test]
fn vec3_cross_axes() {
    // x cross y = z
    let x = Vec3::new(ONE, 0, 0);
    let y = Vec3::new(0, ONE, 0);
    assert_eq!(x.cross(&y), Vec3::new(0, 0, ONE));
    assert_eq!(y.cross(&x), Vec3::new(0, 0, -ONE));
}

#[test]
fn vec3_length_pythagorean() {
    // |(3,4,0)| = 5
    let v = Vec3::new(3 * ONE, 4 * ONE, 0);
    assert_eq!(v.length_squared(), 25 * ONE);
    assert_eq!(v.length(), 5 * ONE);
}

#[test]
fn vec3_unit_vector_exact() {
    // (0,3,4)/5 = (0, 0.6, 0.8)
    let v = Vec3::new(0, 3 * ONE, 4 * ONE);
    assert_eq!(v.unit_vector(), Vec3::new(0, 6_000, 8_000));
}

#[test]
fn vec3_length_of_short_vector_is_exact() {
    // the length is the truncated root of the raw sum of squares, so even
    // a vector far below unit scale keeps its exact raw length
    let v = Vec3::new(0, 141, 0);
    assert_eq!(v.length(), 141);
    assert_eq!(Vec3::new(3, 4, 0).length(), 5);
}

#[test]
fn vec3_unit_vector_of_short_vector_is_exact() {
    // (0, 0.0141, 0) normalizes to (0, 1, 0) exactly, not to an
    // overshooting approximation
    assert_eq!(Vec3::new(0, 141, 0).unit_vector(), Vec3::new(0, ONE, 0));
    assert_eq!(Vec3::new(0, -141, 0).unit_vector(), Vec3::new(0, -ONE, 0));
}

#[test]
fn ray_at_evaluates_exactly() {
    // origin + direction * t, componentwise
    let origin = Vec3::new(ONE, 2 * ONE, 3 * ONE);
    let direction = Vec3::new(5_000, -ONE, 2 * ONE);
    let ray = Ray::new(origin, direction);
    // t = 2.0
    assert_eq!(ray.at(2 * ONE), Vec3::new(2 * ONE, 0, 7 * ONE));
    // t = 0 gives the origin back
    assert_eq!(ray.at(0), origin);
    // t = -1.0 walks backwards
    assert_eq!(ray.at(-ONE), Vec3::new(5_000, 3 * ONE, ONE));
}

#[test]
fn sphere_hit_head_on() {
    // ray from the origin down -z, sphere at (0,0,-1) radius 0.5:
    // nearest hit at t = 0.5, point (0,0,-0.5), outward normal (0,0,1).
    let ray = Ray::new(Vec3::new(0, 0, 0), Vec3::new(0, 0, -ONE));
    let sphere = Sphere::new(Vec3::new(0, 0, -ONE), 5_000);
    let hit = sphere.hit(&ray, 0, 100 * ONE).expect("head-on ray must hit");
    assert_eq!(hit.t, 5_000);
    assert_eq!(hit.p, Vec3::new(0, 0, -5_000));
    assert_eq!(hit.normal, Vec3::new(0, 0, ONE));
    assert!(hit.front_face);
}

#[test]
fn sphere_miss_off_axis() {
    // same ray, sphere far off the ray's path: no hit for any interval
    let ray = Ray::new(Vec3::new(0, 0, 0), Vec3::new(0, 0, -ONE));
    let sphere = Sphere::new(Vec3::new(5 * ONE, 5 * ONE, -ONE), 5_000);
    assert!(sphere.hit(&ray, 0, 100 * ONE).is_none());
    assert!(sphere.hit(&ray, -100 * ONE, 100 * ONE).is_none());
    assert!(sphere.hit(&ray, 10, ONE).is_none());
}

#[test]
fn sphere_interval_exclusion() {
    // sphere straddling t in [2.0, 3.0]: a valid hit at t = 2.0 is not
    // reported with t_max = 1.0, and is reported with t_max = 3.0
    let ray = Ray::new(Vec3::new(0, 0, 0), Vec3::new(0, 0, -ONE));
    let sphere = Sphere::new(Vec3::new(0, 0, -25_000), 5_000);
    assert!(sphere.hit(&ray, 0, ONE).is_none());
    let hit = sphere.hit(&ray, 0, 3 * ONE).expect("hit inside the interval");
    assert_eq!(hit.t, 2 * ONE);
    // the boundary itself is accepted
    let at_edge = sphere.hit(&ray, 0, 2 * ONE).expect("hit at the boundary");
    assert_eq!(at_edge.t, 2 * ONE);
}

#[test]
fn sphere_far_root_fallback() {
    // query from inside the span of the two roots: the nearer root t = 2.0
    // falls below t_min, so the farther root t = 3.0 is reported
    let ray = Ray::new(Vec3::new(0, 0, 0), Vec3::new(0, 0, -ONE));
    let sphere = Sphere::new(Vec3::new(0, 0, -25_000), 5_000);
    let hit = sphere.hit(&ray, 25_000, 100 * ONE).expect("farther root in range");
    assert_eq!(hit.t, 3 * ONE);
    assert!(!hit.front_face);
}

#[test]
fn scene_nearest_hit_regardless_of_order() {
    // two spheres along the ray with nearest hits at t = 1.0 and t = 3.0:
    // the aggregate reports t = 1.0 whichever was inserted first
    let ray = Ray::new(Vec3::new(0, 0, 0), Vec3::new(0, 0, -ONE));
    let near = Sphere::new(Vec3::new(0, 0, -15_000), 5_000);
    let far = Sphere::new(Vec3::new(0, 0, -35_000), 5_000);

    let mut world_a = HittableList::new();
    world_a.add(near);
    world_a.add(far);
    let hit_a = world_a.hit(&ray, 10, 100 * ONE).expect("scene hit");
    assert_eq!(hit_a.t, ONE);

    let mut world_b = HittableList::new();
    world_b.add(far);
    world_b.add(near);
    let hit_b = world_b.hit(&ray, 10, 100 * ONE).expect("scene hit");
    assert_eq!(hit_b.t, ONE);
    assert_eq!(hit_a, hit_b);
}

#[test]
fn scene_empty_reports_no_hit() {
    let ray = Ray::new(Vec3::new(0, 0, 0), Vec3::new(0, 0, -ONE));
    let world = HittableList::new();
    assert!(world.hit(&ray, 10, 100 * ONE).is_none());
}

#[test]
fn scene_hit_idempotent() {
    // repeated queries against an unmutated scene return identical results
    let ray = Ray::new(Vec3::new(0, 0, 0), Vec3::new(0, 0, -ONE));
    let mut world = HittableList::new();
    world.add(Sphere::new(Vec3::new(0, 0, -ONE), 5_000));
    world.add(Sphere::new(Vec3::new(0, -1_005_000, -ONE), 100 * ONE));
    let first = world.hit(&ray, 10, 100 * ONE);
    for _ in 0..10 {
        assert_eq!(world.hit(&ray, 10, 100 * ONE), first);
    }
}
