use raytraceweekend::ray::Ray;
use raytraceweekend::{dot, scalar_div, scalar_mul, Point3, Vec3};

/// A whole number as a fixed-point scalar.
fn fx(x: i64) -> i64 {
    x * 65536
}

/// A ratio as a fixed-point scalar, truncated toward zero.
fn fxr(n: i64, d: i64) -> i64 {
    n * 65536 / d
}

#[test]
fn test_neg_vec3() {
    let cases = [
        (Vec3::new(fx(2), fx(3), fx(4)), Vec3::new(fx(-2), fx(-3), fx(-4))),
        (Vec3::new(fx(-2), fx(-3), fx(-4)), Vec3::new(fx(2), fx(3), fx(4))),
        (Vec3::new(fx(2), fx(-3), fx(4)), Vec3::new(fx(-2), fx(3), fx(-4))),
    ];
    for (give, want) in cases {
        let negated = give.neg();
        assert_eq!(negated, want, "Give: {:?}, Want: {:?}", give, want);
        let double_negated = negated.neg();
        assert_eq!(double_negated, give, "Give: {:?}, Want: {:?}", give, want);
    }
}

#[test]
fn test_add() {
    let cases = [
        (
            Vec3::new(fx(2), fx(2), fx(2)),
            Vec3::new(fx(1), fx(1), fx(1)),
            Vec3::new(fx(3), fx(3), fx(3)),
        ),
        (
            Vec3::new(fxr(-1, 2), fxr(-1, 2), fxr(-1, 2)),
            Vec3::new(fx(1), fx(1), fx(1)),
            Vec3::new(fxr(1, 2), fxr(1, 2), fxr(1, 2)),
        ),
    ];
    for (mut a, b, want) in cases {
        assert_eq!(a.add(b), want, "{:?} + {:?} = {:?}?", a, b, want);
        a.add_assign(b);
        assert_eq!(a, want);
    }
}

#[test]
fn test_sub() {
    let cases = [
        (
            Vec3::new(fx(2), fx(2), fx(2)),
            Vec3::new(fx(1), fx(1), fx(1)),
            Vec3::new(fx(1), fx(1), fx(1)),
        ),
        (
            Vec3::new(fxr(1, 2), fxr(1, 2), fxr(1, 2)),
            Vec3::new(fx(1), fx(1), fx(1)),
            Vec3::new(fxr(-1, 2), fxr(-1, 2), fxr(-1, 2)),
        ),
    ];
    for (mut a, b, want) in cases {
        assert_eq!(a.sub(b), want, "{:?} - {:?} = {:?}?", a, b, want);
        a.sub_assign(b);
        assert_eq!(a, want);
    }
}

#[test]
fn test_mul() {
    let cases = [
        (
            Vec3::new(fx(2), fx(2), fx(2)),
            Vec3::new(fx(1), fx(1), fx(1)),
            Vec3::new(fx(2), fx(2), fx(2)),
        ),
        (
            Vec3::new(fx(2), fx(2), fx(2)),
            Vec3::new(fx(2), fx(2), fx(2)),
            Vec3::new(fx(4), fx(4), fx(4)),
        ),
        (
            Vec3::new(fxr(-1, 2), fxr(-1, 2), fxr(-1, 2)),
            Vec3::new(fx(2), fx(2), fx(2)),
            Vec3::new(fx(-1), fx(-1), fx(-1)),
        ),
    ];
    for (mut a, b, want) in cases {
        assert_eq!(a.mul(b), want, "{:?} * {:?} = {:?}?", a, b, want);
        a.mul_assign(b);
        assert_eq!(a, want);
    }
}

#[test]
fn test_mul_f64() {
    let cases = [
        (Vec3::new(fx(2), fx(2), fx(2)), fx(2), Vec3::new(fx(4), fx(4), fx(4))),
        (
            Vec3::new(fxr(-1, 2), fxr(-1, 2), fxr(-1, 2)),
            fx(2),
            Vec3::new(fx(-1), fx(-1), fx(-1)),
        ),
    ];
    for (mut a, b, want) in cases {
        assert_eq!(a.mul_t(b), want, "{:?} * {:?} = {:?}?", a, b, want);
        assert_eq!(scalar_mul(b, a), want);
        a.mul_assign_t(b);
        assert_eq!(a, want);
    }
}

#[test]
fn test_div_f64() {
    let cases = [
        (Vec3::new(fx(2), fx(2), fx(2)), fx(2), Vec3::new(fx(1), fx(1), fx(1))),
        (
            Vec3::new(fxr(-1, 2), fxr(-1, 2), fxr(-1, 2)),
            fx(2),
            Vec3::new(fxr(-1, 4), fxr(-1, 4), fxr(-1, 4)),
        ),
    ];
    for (mut a, b, want) in cases {
        assert_eq!(a.div_t(b), want, "{:?} / {:?} = {:?}?", a, b, want);
        assert_eq!(scalar_div(b, a), want);
        a.div_assign_t(b);
        assert_eq!(a, want);
    }
}

#[test]
fn test_div() {
    let cases = [
        (
            Vec3::new(fx(2), fx(2), fx(2)),
            Vec3::new(fx(1), fx(1), fx(1)),
            Vec3::new(fx(2), fx(2), fx(2)),
        ),
        (
            Vec3::new(fx(2), fx(2), fx(2)),
            Vec3::new(fx(2), fx(2), fx(2)),
            Vec3::new(fx(1), fx(1), fx(1)),
        ),
        (
            Vec3::new(fxr(-1, 2), fxr(-1, 2), fxr(-1, 2)),
            Vec3::new(fx(2), fx(2), fx(2)),
            Vec3::new(fxr(-1, 4), fxr(-1, 4), fxr(-1, 4)),
        ),
    ];
    for (mut a, b, want) in cases {
        assert_eq!(a.div(b), want, "{:?} / {:?} = {:?}?", a, b, want);
        a.div_assign(b);
        assert_eq!(a, want);
    }
}

#[test]
fn test_vec3_creation() {
    assert_eq!(
        Vec3::new(fx(1), fxr(12, 10), fxr(14, 10)),
        Vec3 { x: fx(1), y: fxr(12, 10), z: fxr(14, 10) }
    );
}

#[test]
fn test_vec3_length_squared() {
    let v = Vec3::new(fx(1), fx(1), fx(1));
    assert_eq!(v.length_squared(), fx(3));
    let v = Vec3::new(fx(4), fx(4), fx(4));
    assert_eq!(v.length_squared(), fx(48));
}

#[test]
fn test_vec3_cross() {
    let v = Vec3::new(fx(2), fx(3), fx(4));
    let w = Vec3::new(fx(2), fx(2), fx(2));
    assert_eq!(v.cross(w), Vec3::new(fx(-2), fx(4), fx(-2)));
}

#[test]
fn test_vec3_dot() {
    let a = Vec3::new(fx(2), fx(3), fx(4));
    let b = Vec3::new(fx(1), fx(2), fx(3));
    assert_eq!(dot(&a, &b), fx(20));
}

#[test]
fn test_ray_callables() {
    let origin = Vec3::new(fx(1), fx(1), fx(1));
    let direction = Vec3::new(fx(2), fx(2), fx(2));
    let r = Ray::new(origin, direction);
    assert_eq!(r.at(fx(1)), Point3::new(fx(3), fx(3), fx(3)));
    assert_eq!(r.at(fx(2)), Point3::new(fx(5), fx(5), fx(5)));
}

#[test]
fn test_unit_vector_axis() {
    let v = Vec3::new(0, 0, fx(-7));
    let u = raytraceweekend::unit_vector(&v);
    assert_eq!(u, Vec3::new(0, 0, fx(-1)));
}

#[test]
fn test_length_non_square() {
    // sqrt(2) in fixed point, truncated: 92681 / 65536.
    let v = Vec3::new(fx(1), fx(1), 0);
    assert_eq!(v.length(), 92681);
}

#[test]
fn test_add_then_sub_is_identity() {
    let a = Vec3::new(fxr(7, 3), fxr(-1, 2), fx(5));
    let b = Vec3::new(fx(-2), fxr(9, 7), fxr(1, 3));
    assert_eq!(a.add(b).sub(b), a);
}

#[test]
fn test_scale_then_divide_is_identity() {
    // Scaling by a whole-unit scalar and dividing by the same scalar
    // recovers the vector exactly.
    let a = Vec3::new(fxr(7, 3), fxr(-1, 2), 12345);
    let s = fx(-3);
    assert_eq!(a.mul_t(s).div_t(s), a);
}

#[test]
fn test_dot_commutes() {
    let a = Vec3::new(fxr(7, 3), fxr(-1, 2), fx(5));
    let b = Vec3::new(fx(-2), fxr(9, 7), fxr(1, 3));
    assert_eq!(dot(&a, &b), dot(&b, &a));
}

#[test]
fn test_length_squared_is_self_dot() {
    let a = Vec3::new(fxr(7, 3), fxr(-1, 2), fx(5));
    assert_eq!(a.length_squared(), dot(&a, &a));
}

#[test]
fn test_ray_at_zero_is_origin() {
    let origin = Vec3::new(fxr(7, 3), fxr(-1, 2), fx(5));
    let r = Ray::new(origin, Vec3::new(fx(2), fx(-1), fxr(1, 3)));
    assert_eq!(r.at(0), origin);
}
