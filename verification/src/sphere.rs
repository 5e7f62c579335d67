//! Spheres: the one concrete intersectable shape, with the closed-form
//! quadratic intersection test.

use vstd::prelude::*;

verus! {

use crate::fx::{
    fx_div, fx_div_capped, fx_div_s, fx_mul, fx_mul_s, fx_sqrt, fx_sqrt_s, i64_fits,
    lemma_fx_div_bound, lemma_fx_mul_bound, lemma_sqrt_floor_le, COORD_MAX,
};
use crate::hit::{HitRecS, HitRecord, Hittable};
use crate::ray::{ray_at_fits, ray_at_s, Ray, RayS};
use crate::{
    dot, lemma_fx_square_nonneg, v_div_t, v_dot, v_in_range, v_len_sq, v_neg, v_sub, v_unitish,
    Point3, Vec3, Vec3s,
};

/// Mathematical view of a [`Sphere`].
pub struct SphereS {
    pub centre: Vec3s,
    pub radius: int,
}

/// A sphere: a centre point and a non-negative radius.
#[derive(Clone, Copy, Debug)]
pub struct Sphere {
    pub centre: Point3,
    pub radius: i64,
}

impl View for Sphere {
    type V = SphereS;

    open spec fn view(&self) -> SphereS {
        SphereS { centre: self.centre@, radius: self.radius as int }
    }
}

/// A sphere fit for tracing: centre within the coordinate range and
/// radius non-negative and within it too.
pub open spec fn sphere_wf(s: SphereS) -> bool {
    v_in_range(s.centre) && 0 <= s.radius <= COORD_MAX as int
}

impl Sphere {
    /// A sphere from its centre and radius; a negative radius is
    /// silently clamped to zero.
    pub fn new(centre: Point3, radius: i64) -> (r: Self)
        ensures
            r@.centre == centre@,
            r@.radius == if radius < 0 {
                0int
            } else {
                radius as int
            },
    {
        Self { centre, radius: if radius < 0 { 0 } else { radius } }
    }
}

/// The exact result of the quadratic intersection test, over the
/// fixed-point model.  With ray origin `O`, direction `D`, centre `C`
/// and radius `r`: for `oc = C - O`, `a = |D|^2`, `h = D . oc` and
/// `c = |oc|^2 - r^2`, the discriminant is `h^2 - a c`; a negative
/// discriminant is a miss, and otherwise the smaller root
/// `(h - sqrt(disc)) / a` is tried first and the larger one second,
/// each accepted only strictly inside `(t_min, t_max)`.  A degenerate
/// query — a direction whose fixed-point squared length is zero, a
/// zero radius, or an accepted root whose hit point or normal leaves
/// the fixed-point range — is a miss.
pub open spec fn sphere_hit_s(s: SphereS, r: RayS, t_min: int, t_max: int) -> Option<HitRecS> {
    let oc = v_sub(s.centre, r.origin);
    let a = v_len_sq(r.direction);
    if a == 0 || s.radius == 0 {
        None
    } else {
        let h = v_dot(r.direction, oc);
        let c = v_len_sq(oc) - fx_mul_s(s.radius, s.radius);
        let disc = fx_mul_s(h, h) - fx_mul_s(a, c);
        if disc < 0 {
            None
        } else {
            let sqrtd = fx_sqrt_s(disc);
            let root1 = fx_div_s(h - sqrtd, a);
            let root = if t_min < root1 && root1 < t_max {
                root1
            } else {
                fx_div_s(h + sqrtd, a)
            };
            if !(t_min < root && root < t_max) {
                None
            } else if !ray_at_fits(r, root) {
                None
            } else {
                let p = ray_at_s(r, root);
                if !(i64_fits(p.x - s.centre.x) && i64_fits(p.y - s.centre.y) && i64_fits(
                    p.z - s.centre.z,
                )) {
                    None
                } else {
                    let outward = v_div_t(v_sub(p, s.centre), s.radius);
                    if !v_unitish(outward) {
                        None
                    } else {
                        let ff = v_dot(r.direction, outward) < 0;
                        Some(
                            HitRecS {
                                p,
                                normal: if ff {
                                    outward
                                } else {
                                    v_neg(outward)
                                },
                                t: root,
                                front_face: ff,
                            },
                        )
                    }
                }
            }
        }
    }
}

/// The candidate intersection of a ray with a sphere above a lower
/// bound alone: the root the test would accept were the upper bound
/// infinite.  [`lemma_sphere_hit_vs_cand`] shows that
/// [`sphere_hit_s`] returns exactly this candidate filtered by the
/// upper bound — which is what makes narrowing the bound while
/// scanning a scene sound.
pub open spec fn sphere_cand(s: SphereS, r: RayS, t_min: int) -> Option<HitRecS> {
    let oc = v_sub(s.centre, r.origin);
    let a = v_len_sq(r.direction);
    if a == 0 || s.radius == 0 {
        None
    } else {
        let h = v_dot(r.direction, oc);
        let c = v_len_sq(oc) - fx_mul_s(s.radius, s.radius);
        let disc = fx_mul_s(h, h) - fx_mul_s(a, c);
        if disc < 0 {
            None
        } else {
            let sqrtd = fx_sqrt_s(disc);
            let root1 = fx_div_s(h - sqrtd, a);
            let root = if t_min < root1 {
                root1
            } else {
                fx_div_s(h + sqrtd, a)
            };
            if !(t_min < root) {
                None
            } else if !ray_at_fits(r, root) {
                None
            } else {
                let p = ray_at_s(r, root);
                if !(i64_fits(p.x - s.centre.x) && i64_fits(p.y - s.centre.y) && i64_fits(
                    p.z - s.centre.z,
                )) {
                    None
                } else {
                    let outward = v_div_t(v_sub(p, s.centre), s.radius);
                    if !v_unitish(outward) {
                        None
                    } else {
                        let ff = v_dot(r.direction, outward) < 0;
                        Some(
                            HitRecS {
                                p,
                                normal: if ff {
                                    outward
                                } else {
                                    v_neg(outward)
                                },
                                t: root,
                                front_face: ff,
                            },
                        )
                    }
                }
            }
        }
    }
}

/// Does the candidate exist?
pub open spec fn cand_hits(s: SphereS, r: RayS, t_min: int) -> bool {
    sphere_cand(s, r, t_min) is Some
}

/// The parameter of the candidate (zero when there is none).
pub open spec fn cand_t(s: SphereS, r: RayS, t_min: int) -> int {
    match sphere_cand(s, r, t_min) {
        Some(rec) => rec.t,
        None => 0,
    }
}

/// The bounded intersection test returns exactly the candidate of
/// [`sphere_cand`], filtered by the upper bound.  In particular the
/// candidate a sphere offers does not depend on how far the upper
/// bound has been narrowed.
pub proof fn lemma_sphere_hit_vs_cand(s: SphereS, r: RayS, t_min: int, t_max: int)
    ensures
        sphere_hit_s(s, r, t_min, t_max) == (match sphere_cand(s, r, t_min) {
            Some(rec) => if rec.t < t_max {
                Some(rec)
            } else {
                None::<HitRecS>
            },
            None => None::<HitRecS>,
        }),
{
    let oc = v_sub(s.centre, r.origin);
    let a = v_len_sq(r.direction);
    if a == 0 || s.radius == 0 {
    } else {
        crate::lemma_len_sq_nonneg(r.direction);
        let h = v_dot(r.direction, oc);
        let c = v_len_sq(oc) - fx_mul_s(s.radius, s.radius);
        let disc = fx_mul_s(h, h) - fx_mul_s(a, c);
        if disc < 0 {
        } else {
            let sqrtd = fx_sqrt_s(disc);
            assert(0 <= sqrtd) by {
                crate::fx::lemma_sqrt_floor_props(disc * 65536);
            }
            let root1 = fx_div_s(h - sqrtd, a);
            let root2 = fx_div_s(h + sqrtd, a);
            assert(root1 <= root2) by {
                crate::fx::lemma_tdiv_mono((h - sqrtd) * 65536, (h + sqrtd) * 65536, a);
            }
        }
    }
}

/// A negative discriminant — the ray's closest approach farther from
/// the centre than the radius — is a miss, whatever the bounds.
pub proof fn lemma_negative_discriminant_misses(s: SphereS, r: RayS, t_min: int, t_max: int)
    requires
        v_len_sq(r.direction) != 0,
        s.radius != 0,
        ({
            let oc = v_sub(s.centre, r.origin);
            let a = v_len_sq(r.direction);
            let h = v_dot(r.direction, oc);
            let c = v_len_sq(oc) - fx_mul_s(s.radius, s.radius);
            fx_mul_s(h, h) - fx_mul_s(a, c) < 0
        }),
    ensures
        sphere_hit_s(s, r, t_min, t_max) is None,
{
}

/// A ray aimed straight down the axis at a sphere's centre from
/// outside hits at the distance to the centre minus the radius,
/// facing front, with the normal pointing back along the axis toward
/// the ray origin.  Stated for a downward axis ray at a whole-unit
/// distance `k` and a radius that is a multiple of two hundred and
/// fifty-six raw units, for which the fixed-point arithmetic is
/// exact.
pub proof fn lemma_axial_hit(o: Vec3s, k: int, m: int, t_min: int, t_max: int)
    requires
        v_in_range(o),
        1 <= m,
        1 <= k,
        256 * m < k * 65536,
        k * 65536 <= 50331648,
        t_min < k * 65536 - 256 * m < t_max,
    ensures
        sphere_hit_s(
            SphereS {
                centre: Vec3s { x: o.x, y: o.y, z: o.z - k * 65536 },
                radius: 256 * m,
            },
            RayS { origin: o, direction: Vec3s { x: 0, y: 0, z: -65536 } },
            t_min,
            t_max,
        ) == Some(
            HitRecS {
                p: Vec3s { x: o.x, y: o.y, z: o.z - (k * 65536 - 256 * m) },
                normal: Vec3s { x: 0, y: 0, z: 65536 },
                t: k * 65536 - 256 * m,
                front_face: true,
            },
        ),
{
    let rad = 256 * m;
    let s = SphereS { centre: Vec3s { x: o.x, y: o.y, z: o.z - k * 65536 }, radius: rad };
    let r = RayS { origin: o, direction: Vec3s { x: 0, y: 0, z: -65536 } };
    let oc = v_sub(s.centre, r.origin);
    assert(oc == (Vec3s { x: 0, y: 0, z: -(k * 65536) }));
    let a = v_len_sq(r.direction);
    assert(fx_mul_s(0, 0) == 0);
    assert(fx_mul_s(-65536, -65536) == 65536) by {
        assert((-65536) * (-65536) == 65536 * 65536);
        crate::fx::lemma_tdiv_exact(65536, 65536);
    }
    assert(a == 65536);
    let h = v_dot(r.direction, oc);
    assert(fx_mul_s(-65536, -(k * 65536)) == k * 65536) by {
        assert((-65536) * (-(k * 65536)) == (k * 65536) * 65536) by (nonlinear_arith);
        crate::fx::lemma_tdiv_exact(k * 65536, 65536);
    }
    assert(h == k * 65536);
    assert(fx_mul_s(-(k * 65536), -(k * 65536)) == (k * k) * 65536) by {
        assert((-(k * 65536)) * (-(k * 65536)) == ((k * k) * 65536) * 65536) by (nonlinear_arith);
        crate::fx::lemma_tdiv_exact((k * k) * 65536, 65536);
    }
    assert(fx_mul_s(rad, rad) == m * m) by {
        assert((256 * m) * (256 * m) == (m * m) * 65536) by (nonlinear_arith);
        crate::fx::lemma_tdiv_exact(m * m, 65536);
    }
    let c = v_len_sq(oc) - fx_mul_s(s.radius, s.radius);
    assert(c == (k * k) * 65536 - m * m);
    assert(fx_mul_s(h, h) == (k * k) * 65536) by {
        assert((k * 65536) * (k * 65536) == ((k * k) * 65536) * 65536) by (nonlinear_arith);
        crate::fx::lemma_tdiv_exact((k * k) * 65536, 65536);
    }
    assert(fx_mul_s(a, c) == c) by {
        assert(65536 * c == c * 65536);
        crate::fx::lemma_tdiv_exact(c, 65536);
    }
    let disc = fx_mul_s(h, h) - fx_mul_s(a, c);
    assert(disc == m * m);
    assert(0 < m * m) by (nonlinear_arith)
        requires
            1 <= m,
    ;
    assert(fx_sqrt_s(m * m) == rad) by {
        assert((m * m) * 65536 == (256 * m) * (256 * m)) by (nonlinear_arith);
        assert((m * m) * 65536 < (256 * m + 1) * (256 * m + 1)) by (nonlinear_arith)
            requires
                1 <= m,
        ;
        crate::fx::lemma_sqrt_floor_unique((m * m) * 65536, 256 * m);
    }
    let root1 = fx_div_s(h - rad, a);
    assert(root1 == k * 65536 - rad) by {
        assert((k * 65536 - rad) * 65536 == (k * 65536 - rad) * 65536);
        crate::fx::lemma_tdiv_exact(k * 65536 - rad, 65536);
    }
    assert(t_min < root1 && root1 < t_max);
    assert(fx_mul_s(root1, 0) == 0);
    assert(fx_mul_s(root1, -65536) == -root1) by {
        assert(root1 * (-65536) == (-root1) * 65536) by (nonlinear_arith);
        crate::fx::lemma_tdiv_exact(-root1, 65536);
    }
    assert(ray_at_fits(r, root1));
    let p = ray_at_s(r, root1);
    assert(p == (Vec3s { x: o.x, y: o.y, z: o.z - root1 }));
    assert(p.z - s.centre.z == rad);
    assert(fx_div_s(0, rad) == 0) by {
        vstd::arithmetic::div_mod::lemma_div_basics(rad);
    }
    assert(fx_div_s(rad, rad) == 65536) by {
        assert(rad * 65536 == 65536 * rad);
        crate::fx::lemma_tdiv_exact(65536, rad);
    }
    let outward = v_div_t(v_sub(p, s.centre), s.radius);
    assert(outward == (Vec3s { x: 0, y: 0, z: 65536 }));
    assert(v_unitish(outward));
    assert(fx_mul_s(-65536, 65536) == -65536) by {
        assert((-65536) * 65536 == (-65536) * 65536);
        crate::fx::lemma_tdiv_exact(-65536, 65536);
    }
    assert(v_dot(r.direction, outward) == -65536);
}

/// A ray starting at a sphere's centre leaves through the surface at
/// the radius, does not face front, and the stored normal is flipped
/// back against the ray.  Stated for a downward axis ray and a radius
/// that is a multiple of two hundred and fifty-six raw units, for
/// which the fixed-point arithmetic is exact.
pub proof fn lemma_axial_inside(o: Vec3s, m: int, t_min: int, t_max: int)
    requires
        v_in_range(o),
        1 <= m,
        256 * m <= 50331648,
        0 <= t_min < 256 * m < t_max,
    ensures
        sphere_hit_s(
            SphereS { centre: o, radius: 256 * m },
            RayS { origin: o, direction: Vec3s { x: 0, y: 0, z: -65536 } },
            t_min,
            t_max,
        ) == Some(
            HitRecS {
                p: Vec3s { x: o.x, y: o.y, z: o.z - 256 * m },
                normal: Vec3s { x: 0, y: 0, z: 65536 },
                t: 256 * m,
                front_face: false,
            },
        ),
{
    let rad = 256 * m;
    let s = SphereS { centre: o, radius: rad };
    let r = RayS { origin: o, direction: Vec3s { x: 0, y: 0, z: -65536 } };
    let oc = v_sub(s.centre, r.origin);
    assert(oc == (Vec3s { x: 0, y: 0, z: 0 }));
    assert(fx_mul_s(0, 0) == 0) by {
        crate::fx::lemma_tdiv_zero(65536);
        assert(0int * 0 == 0);
    }
    assert(fx_mul_s(-65536, -65536) == 65536) by {
        assert((-65536) * (-65536) == 65536 * 65536);
        crate::fx::lemma_tdiv_exact(65536, 65536);
    }
    assert(fx_mul_s(-65536, 0) == 0) by {
        crate::fx::lemma_tdiv_zero(65536);
        assert((-65536) * 0 == 0);
    }
    let a = v_len_sq(r.direction);
    assert(a == 65536);
    let h = v_dot(r.direction, oc);
    assert(h == 0);
    assert(fx_mul_s(rad, rad) == m * m) by {
        assert((256 * m) * (256 * m) == (m * m) * 65536) by (nonlinear_arith);
        crate::fx::lemma_tdiv_exact(m * m, 65536);
    }
    let c = v_len_sq(oc) - fx_mul_s(s.radius, s.radius);
    assert(c == -(m * m));
    assert(fx_mul_s(a, c) == c) by {
        assert(65536 * c == c * 65536);
        crate::fx::lemma_tdiv_exact(c, 65536);
    }
    let disc = fx_mul_s(h, h) - fx_mul_s(a, c);
    assert(disc == m * m);
    assert(0 < m * m) by (nonlinear_arith)
        requires
            1 <= m,
    ;
    assert(fx_sqrt_s(m * m) == rad) by {
        assert((m * m) * 65536 == (256 * m) * (256 * m)) by (nonlinear_arith);
        assert((m * m) * 65536 < (256 * m + 1) * (256 * m + 1)) by (nonlinear_arith)
            requires
                1 <= m,
        ;
        crate::fx::lemma_sqrt_floor_unique((m * m) * 65536, 256 * m);
    }
    let root1 = fx_div_s(h - rad, a);
    assert(root1 == -rad) by {
        assert((0 - rad) * 65536 == (-rad) * 65536);
        crate::fx::lemma_tdiv_exact(-rad, 65536);
    }
    assert(!(t_min < root1));
    let root2 = fx_div_s(h + rad, a);
    assert(root2 == rad) by {
        assert((0 + rad) * 65536 == rad * 65536);
        crate::fx::lemma_tdiv_exact(rad, 65536);
    }
    assert(t_min < root2 && root2 < t_max);
    assert(fx_mul_s(root2, 0) == 0) by {
        crate::fx::lemma_tdiv_zero(65536);
        assert(rad * 0 == 0);
    }
    assert(fx_mul_s(root2, -65536) == -rad) by {
        assert(rad * (-65536) == (-rad) * 65536) by (nonlinear_arith);
        crate::fx::lemma_tdiv_exact(-rad, 65536);
    }
    assert(ray_at_fits(r, root2));
    let p = ray_at_s(r, root2);
    assert(p == (Vec3s { x: o.x, y: o.y, z: o.z - rad }));
    assert(fx_div_s(0, rad) == 0) by {
        vstd::arithmetic::div_mod::lemma_div_basics(rad);
    }
    assert(fx_div_s(-rad, rad) == -65536) by {
        assert((-rad) * 65536 == (-65536) * rad) by (nonlinear_arith);
        crate::fx::lemma_tdiv_exact(-65536, rad);
    }
    let outward = v_div_t(v_sub(p, s.centre), s.radius);
    assert(outward == (Vec3s { x: 0, y: 0, z: -65536 }));
    assert(v_unitish(outward));
    assert(v_dot(r.direction, outward) == 65536);
}

impl Hittable for Sphere {
    open spec fn wf(&self) -> bool {
        sphere_wf(self@)
    }

    open spec fn hit_s(&self, r: RayS, t_min: int, t_max: int) -> Option<HitRecS> {
        sphere_hit_s(self@, r, t_min, t_max)
    }

    /// The quadratic intersection test; see [`sphere_hit_s`] for the
    /// exact meaning of every step.
    fn hit(&self, ray: &Ray, t_min: i64, t_max: i64) -> (res: Option<HitRecord>) {
        let ghost dv = ray@.direction;
        let ghost ocv = v_sub(self@.centre, ray@.origin);
        proof {
            lemma_fx_mul_bound(dv.x, dv.x, 50331648, 50331648);
            lemma_fx_mul_bound(dv.y, dv.y, 50331648, 50331648);
            lemma_fx_mul_bound(dv.z, dv.z, 50331648, 50331648);
            lemma_fx_square_nonneg(dv.x);
            lemma_fx_square_nonneg(dv.y);
            lemma_fx_square_nonneg(dv.z);
            lemma_fx_mul_bound(dv.x, ocv.x, 50331648, 100663296);
            lemma_fx_mul_bound(dv.y, ocv.y, 50331648, 100663296);
            lemma_fx_mul_bound(dv.z, ocv.z, 50331648, 100663296);
            lemma_fx_mul_bound(ocv.x, ocv.x, 100663296, 100663296);
            lemma_fx_mul_bound(ocv.y, ocv.y, 100663296, 100663296);
            lemma_fx_mul_bound(ocv.z, ocv.z, 100663296, 100663296);
            lemma_fx_square_nonneg(ocv.x);
            lemma_fx_square_nonneg(ocv.y);
            lemma_fx_square_nonneg(ocv.z);
            lemma_fx_mul_bound(self@.radius, self@.radius, 50331648, 50331648);
            lemma_fx_square_nonneg(self@.radius);
        }
        let oc = self.centre.sub(ray.origin);
        let a = ray.direction.length_squared();
        if a == 0 {
            return None;
        }
        if self.radius == 0 {
            return None;
        }
        let h = dot(&ray.direction, &oc);
        let c = oc.length_squared() - fx_mul(self.radius, self.radius);
        proof {
            lemma_fx_mul_bound(h as int, h as int, 231928233984, 231928233984);
            lemma_fx_square_nonneg(h as int);
            lemma_fx_mul_bound(a as int, c as int, 115964116992, 502511173632);
        }
        let disc = fx_mul(h, h) - fx_mul(a, c);
        if disc < 0 {
            return None;
        }
        let sqrtd = fx_sqrt(disc);
        proof {
            lemma_sqrt_floor_le((disc as int) * 65536, 400000000000);
            lemma_fx_div_bound((h - sqrtd) as int, a as int, 631928233984);
            lemma_fx_div_bound((h + sqrtd) as int, a as int, 631928233984);
        }
        let mut root = fx_div(h - sqrtd, a);
        if !(t_min < root && root < t_max) {
            root = fx_div(h + sqrtd, a);
            if !(t_min < root && root < t_max) {
                return None;
            }
        }
        let p = match ray.at_checked(root) {
            Some(p) => p,
            None => {
                return None;
            },
        };
        let dx = match p.x.checked_sub(self.centre.x) {
            Some(v) => v,
            None => {
                return None;
            },
        };
        let dy = match p.y.checked_sub(self.centre.y) {
            Some(v) => v,
            None => {
                return None;
            },
        };
        let dz = match p.z.checked_sub(self.centre.z) {
            Some(v) => v,
            None => {
                return None;
            },
        };
        let ox = match fx_div_capped(dx, self.radius, 131072) {
            Some(v) => v,
            None => {
                return None;
            },
        };
        let oy = match fx_div_capped(dy, self.radius, 131072) {
            Some(v) => v,
            None => {
                return None;
            },
        };
        let oz = match fx_div_capped(dz, self.radius, 131072) {
            Some(v) => v,
            None => {
                return None;
            },
        };
        let outward = Vec3::new(ox, oy, oz);
        let mut rec = HitRecord { p, normal: outward, t: root, front_face: false };
        rec.set_face_normal(ray, &outward);
        Some(rec)
    }
}

} // verus!
