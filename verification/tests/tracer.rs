use ray_tracer::vec3::Vec3;
use ray_tracer::ray::Ray;
use ray_tracer::sphere::Sphere;
use ray_tracer::hittable_list::HittableList;
use ray_tracer::tracer::{background, ray_color, ray_color_with};

const ONE: i64 = 10_000;

#[test]
fn depth_zero_is_black() {
    // depth exhaustion returns exactly black whatever the ray or scene
    let mut world = HittableList::new();
    world.add(Sphere::new(Vec3::new(0, 0, -ONE), 5_000));
    let ray = Ray::new(Vec3::new(0, 0, 0), Vec3::new(0, 0, -ONE));
    assert_eq!(ray_color(&ray, &world, 0), Vec3::new(0, 0, 0));
    let ray_up = Ray::new(Vec3::new(3 * ONE, 0, 0), Vec3::new(0, ONE, 0));
    assert_eq!(ray_color(&ray_up, &world, 0), Vec3::new(0, 0, 0));
    let empty = HittableList::new();
    assert_eq!(ray_color(&ray, &empty, 0), Vec3::new(0, 0, 0));
}

#[test]
fn background_endpoints() {
    // straight up: unit y = 1, t = 1, pure sky blue (0.5, 0.7, 1.0)
    let up = Ray::new(Vec3::new(0, 0, 0), Vec3::new(0, ONE, 0));
    assert_eq!(background(&up), Vec3::new(5_000, 7_000, ONE));
    // straight down: unit y = -1, t = 0, pure white
    let down = Ray::new(Vec3::new(0, 0, 0), Vec3::new(0, -ONE, 0));
    assert_eq!(background(&down), Vec3::new(ONE, ONE, ONE));
}

#[test]
fn background_short_directions_stay_at_endpoints() {
    // directions far below unit scale normalize against the exact raw
    // length, so the endpoints are still met exactly: 141 raw is 0.0141
    // units, and (0, 141, 0) normalizes to (0, 1, 0) on the nose
    let up = Ray::new(Vec3::new(0, 0, 0), Vec3::new(0, 141, 0));
    assert_eq!(background(&up), Vec3::new(5_000, 7_000, ONE));
    let down = Ray::new(Vec3::new(0, 0, 0), Vec3::new(0, -141, 0));
    assert_eq!(background(&down), Vec3::new(ONE, ONE, ONE));
}

#[test]
fn background_stays_in_gamut() {
    // each channel lies between its white and sky endpoints and blue is
    // exactly full, including for short and skewed directions
    let dirs = [
        Vec3::new(0, 141, 0),
        Vec3::new(0, -141, 0),
        Vec3::new(100, -141, 37),
        Vec3::new(-5_000, 9_999, 2_500),
        Vec3::new(123_456, -654_321, 111_111),
    ];
    for dir in dirs {
        let c = background(&Ray::new(Vec3::new(0, 0, 0), dir));
        assert!(5_000 <= c.x && c.x <= ONE);
        assert!(7_000 <= c.y && c.y <= ONE);
        assert_eq!(c.z, ONE);
    }
}

#[test]
fn miss_returns_background() {
    // a ray that hits nothing evaluates the sky gradient, at any depth
    let world = HittableList::new();
    let up = Ray::new(Vec3::new(0, 0, 0), Vec3::new(0, ONE, 0));
    assert_eq!(ray_color(&up, &world, 50), Vec3::new(5_000, 7_000, ONE));
    let down = Ray::new(Vec3::new(0, 0, 0), Vec3::new(0, -ONE, 0));
    assert_eq!(ray_color(&down, &world, 50), Vec3::new(ONE, ONE, ONE));
    // horizontal: unit y = 0, t = 0.5, midpoint of the gradient
    let level = Ray::new(Vec3::new(0, 0, 0), Vec3::new(ONE, 0, 0));
    assert_eq!(ray_color(&level, &world, 50), Vec3::new(7_500, 8_500, ONE));
}

#[test]
fn one_bounce_to_sky_attenuates_by_half() {
    // the ray hits the sphere head on; the chosen sample scatters the
    // bounce straight along +z, which escapes (the epsilon excludes the
    // surface itself), so the result is half the horizontal gradient value
    let mut world = HittableList::new();
    world.add(Sphere::new(Vec3::new(0, 0, -ONE), 5_000));
    let ray = Ray::new(Vec3::new(0, 0, 0), Vec3::new(0, 0, -ONE));
    let samples = vec![Vec3::new(0, 0, ONE), Vec3::new(0, 0, ONE)];
    let c = ray_color_with(&ray, &world, 2, &samples);
    // bounce direction (0,0,2): unit y = 0, gradient (0.75, 0.85, 1.0),
    // attenuated once by 0.5
    assert_eq!(c, Vec3::new(3_750, 4_250, 5_000));
}

#[test]
fn deterministic_estimator_is_repeatable() {
    let mut world = HittableList::new();
    world.add(Sphere::new(Vec3::new(0, 0, -ONE), 5_000));
    world.add(Sphere::new(Vec3::new(0, -1_005_000, -ONE), 100 * ONE));
    let ray = Ray::new(Vec3::new(0, 0, 0), Vec3::new(0, 0, -ONE));
    let samples = vec![
        Vec3::new(0, 0, ONE),
        Vec3::new(5_000, 5_000, 5_000),
        Vec3::new(0, ONE, 0),
    ];
    let first = ray_color_with(&ray, &world, 3, &samples);
    for _ in 0..5 {
        assert_eq!(ray_color_with(&ray, &world, 3, &samples), first);
    }
}

#[test]
fn random_fixed_range_is_exact() {
    // a range with one element must come back exactly: fails if the
    // sampler altered or ignored its bounds
    let v = Vec3::random(42, 42);
    assert_eq!(v, Vec3::new(42, 42, 42));
}

#[test]
fn random_within_bounds() {
    for _ in 0..200 {
        let v = Vec3::random(-ONE, ONE);
        assert!(-ONE <= v.x && v.x <= ONE);
        assert!(-ONE <= v.y && v.y <= ONE);
        assert!(-ONE <= v.z && v.z <= ONE);
        let u = Vec3::random_unit();
        assert!(0 <= u.x && u.x < ONE);
        assert!(0 <= u.y && u.y < ONE);
        assert!(0 <= u.z && u.z < ONE);
    }
}

#[test]
fn random_in_unit_sphere_is_inside() {
    for _ in 0..200 {
        let p = Vec3::random_in_unit_sphere();
        let len_sq = p.length_squared();
        assert!(1 <= len_sq && len_sq < ONE);
    }
}

#[test]
fn random_unit_vector_is_near_unit() {
    for _ in 0..200 {
        let u = Vec3::random_unit_vector();
        // normalization against the exact raw length: accurate to about one
        // raw unit per component even for the shortest accepted samples
        let len = u.length();
        assert!(
            9_900 <= len && len <= 10_100,
            "unit vector length {} out of tolerance",
            len
        );
    }
}

#[test]
fn random_in_hemisphere_agrees_with_normal() {
    let normal = Vec3::new(0, ONE, 0);
    for _ in 0..200 {
        let v = Vec3::random_in_hemisphere(&normal);
        // the flip decision compares the exact raw dot product, which
        // negation mirrors exactly, so the result never opposes the normal
        assert!(v.dot(&normal) >= 0);
    }
}

#[test]
fn estimated_color_stays_in_gamut_for_simple_scene() {
    // with a 50% reflectance and a background bounded by (1,1,1), every
    // estimate lies in [0, 1] per channel
    let mut world = HittableList::new();
    world.add(Sphere::new(Vec3::new(0, 0, -ONE), 5_000));
    world.add(Sphere::new(Vec3::new(0, -1_005_000, -ONE), 100 * ONE));
    for sx in -2..3 {
        for sy in -2..3 {
            let dir = Vec3::new(sx * 2_000, sy * 2_000, -ONE);
            let ray = Ray::new(Vec3::new(0, 0, 0), dir);
            let c = ray_color(&ray, &world, 50);
            assert!(0 <= c.x && c.x <= ONE);
            assert!(0 <= c.y && c.y <= ONE);
            assert!(0 <= c.z && c.z <= ONE);
        }
    }
}
