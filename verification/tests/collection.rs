use raytraceweekend::hit::{Hittable, HittableList};
use raytraceweekend::ray::Ray;
use raytraceweekend::sphere::Sphere;
use raytraceweekend::{Point3, Vec3};

/// A whole number as a fixed-point scalar.
fn fx(x: i64) -> i64 {
    x * 65536
}

/// A ratio as a fixed-point scalar, truncated toward zero.
fn fxr(n: i64, d: i64) -> i64 {
    n * 65536 / d
}

fn near() -> Sphere {
    Sphere::new(Point3::new(0, 0, fx(-2)), fxr(1, 2))
}

fn far() -> Sphere {
    Sphere::new(Point3::new(0, 0, fx(-5)), fxr(1, 2))
}

fn axis_ray() -> Ray {
    Ray::new(Vec3::new(0, 0, 0), Vec3::new(0, 0, fx(-1)))
}

#[test]
fn test_nearest_hit_wins_in_either_order() {
    let mut world_a = HittableList::new();
    world_a.add(near());
    world_a.add(far());
    let mut world_b = HittableList::new();
    world_b.add(far());
    world_b.add(near());

    let hit_a = world_a.hit(&axis_ray(), 0, i64::MAX).expect("expected a hit");
    let hit_b = world_b.hit(&axis_ray(), 0, i64::MAX).expect("expected a hit");
    // The nearest sphere wins whichever was inserted first.
    assert_eq!(hit_a.t, fx(2) - fxr(1, 2));
    assert_eq!(hit_a.t, hit_b.t);
    assert_eq!(hit_a.p, hit_b.p);
    assert_eq!(hit_a.normal, hit_b.normal);
    assert_eq!(hit_a.front_face, hit_b.front_face);
}

#[test]
fn test_narrowed_interval_skips_near_sphere() {
    let mut world = HittableList::new();
    world.add(near());
    world.add(far());
    // With the lower bound past the near sphere, only the far one is
    // reported.
    let hit = world.hit(&axis_ray(), fx(3), i64::MAX).expect("expected a hit");
    assert_eq!(hit.t, fx(5) - fxr(1, 2));
}

#[test]
fn test_empty_and_cleared_world_misses() {
    let mut world = HittableList::new();
    assert!(world.hit(&axis_ray(), 0, i64::MAX).is_none());
    world.add(near());
    assert!(world.hit(&axis_ray(), 0, i64::MAX).is_some());
    world.clear();
    assert!(world.hit(&axis_ray(), 0, i64::MAX).is_none());
}
