use raytraceweekend::hit::Hittable;
use raytraceweekend::ray::Ray;
use raytraceweekend::sphere::Sphere;
use raytraceweekend::{hit_sphere, Point3, Vec3};

/// A whole number as a fixed-point scalar.
fn fx(x: i64) -> i64 {
    x * 65536
}

/// A ratio as a fixed-point scalar, truncated toward zero.
fn fxr(n: i64, d: i64) -> i64 {
    n * 65536 / d
}

#[test]
fn test_new_clamps_negative_radius() {
    let s = Sphere::new(Point3::new(0, 0, 0), fxr(-25, 10));
    assert_eq!(s.radius, 0);
}

#[test]
fn test_new_positive_radius() {
    let s = Sphere::new(Point3::new(0, 0, 0), fx(5));
    assert_eq!(s.radius, fx(5));
}

#[test]
fn test_hit() {
    // (centre, radius, ray, want_t, want_normal, want_front)
    let cases = [
        (
            // Ray hits centre: from z = -3 toward +z, sphere of radius
            // one at the origin; first intersection at t = 2, front
            // face, normal back toward the ray origin.
            Point3::new(0, 0, 0),
            fx(1),
            Ray::new(Vec3::new(0, 0, fx(-3)), Vec3::new(0, 0, fx(1))),
            Some(fx(2)),
            Vec3::new(0, 0, fx(-1)),
            true,
        ),
        (
            // Ray misses the sphere.
            Point3::new(0, 0, 0),
            fx(1),
            Ray::new(Vec3::new(0, fx(2), fx(-3)), Vec3::new(0, 0, fx(1))),
            None,
            Vec3::new(0, 0, 0),
            false,
        ),
        (
            // Ray tangent to the sphere: no root strictly inside the
            // interval.
            Point3::new(0, 0, 0),
            fx(1),
            Ray::new(Vec3::new(fx(1), fx(1), fx(-3)), Vec3::new(0, 0, fx(1))),
            None,
            Vec3::new(0, 0, 0),
            false,
        ),
        (
            // Ray starting inside the sphere, pointing outward: not a
            // front face.
            Point3::new(0, 0, 0),
            fx(1),
            Ray::new(Vec3::new(0, 0, 0), Vec3::new(0, 0, fx(1))),
            Some(fx(1)),
            Vec3::new(0, 0, fx(-1)),
            false,
        ),
    ];
    for (centre, radius, ray, want_t, want_normal, want_front) in cases {
        let s = Sphere::new(centre, radius);
        let res = s.hit(&ray, fxr(1, 1000), fxr(25, 10));
        match want_t {
            Some(want_val) => {
                let rec = res.expect("expected a hit");
                assert_eq!(rec.t, want_val);
                assert_eq!(rec.normal, want_normal);
                assert_eq!(rec.front_face, want_front);
            },
            None => assert!(res.is_none(), "expected no hit"),
        }
    }
}

#[test]
fn test_hit_sphere_helper() {
    // Straight down the axis at a unit sphere three units away: the
    // near intersection is at t = 2.
    let centre = Point3::new(0, 0, fx(-3));
    let r = Ray::new(Vec3::new(0, 0, 0), Vec3::new(0, 0, fx(-1)));
    assert_eq!(hit_sphere(&centre, fx(1), &r), fx(2));
    // A ray pointed the other way reports a negative root; a sideways
    // ray misses and reports minus one.
    let away = Ray::new(Vec3::new(0, 0, 0), Vec3::new(0, 0, fx(1)));
    assert_eq!(hit_sphere(&centre, fx(1), &away), fx(-4));
    let sideways = Ray::new(Vec3::new(0, 0, 0), Vec3::new(0, fx(1), 0));
    assert_eq!(hit_sphere(&centre, fx(1), &sideways), fx(-1));
}

#[test]
fn test_axial_hit_distance() {
    // A ray aimed straight at a sphere's centre from outside hits at
    // the distance to the centre minus the radius.
    let s = Sphere::new(Point3::new(0, 0, fx(-4)), fxr(1, 2));
    let ray = Ray::new(Vec3::new(0, 0, 0), Vec3::new(0, 0, fx(-1)));
    let rec = s.hit(&ray, 0, i64::MAX).expect("expected a hit");
    assert_eq!(rec.t, fx(4) - fxr(1, 2));
    assert_eq!(rec.normal, Vec3::new(0, 0, fx(1)));
    assert!(rec.front_face);
}

#[test]
fn test_zero_radius_never_hits() {
    let s = Sphere::new(Point3::new(0, 0, fx(-2)), 0);
    let ray = Ray::new(Vec3::new(0, 0, 0), Vec3::new(0, 0, fx(-1)));
    assert!(s.hit(&ray, 0, i64::MAX).is_none());
}
