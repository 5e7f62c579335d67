//! Rays: a half-line through space, parametrized by a fixed-point
//! scalar `t`.

use vstd::prelude::*;

verus! {

use crate::fx::{fx_mul_checked, fx_mul_s, i64_fits, lemma_tdiv_exact, ONE};
use crate::{v_add, v_in_range, v_scale, Point3, Vec3, Vec3s};

/// Mathematical view of a [`Ray`].
pub struct RayS {
    pub origin: Vec3s,
    pub direction: Vec3s,
}

/// A ray: an origin point and a direction vector.  The direction need
/// not be of unit length.
#[derive(Clone, Copy, Debug)]
pub struct Ray {
    pub origin: Point3,
    pub direction: Vec3,
}

impl View for Ray {
    type V = RayS;

    open spec fn view(&self) -> RayS {
        RayS { origin: self.origin@, direction: self.direction@ }
    }
}

/// The point `origin + t * direction`.
pub open spec fn ray_at_s(r: RayS, t: int) -> Vec3s {
    v_add(r.origin, v_scale(t, r.direction))
}

/// Does every arithmetic step of [`Ray::at`] stay inside `i64`?
pub open spec fn ray_at_fits(r: RayS, t: int) -> bool {
    &&& i64_fits(fx_mul_s(t, r.direction.x))
    &&& i64_fits(fx_mul_s(t, r.direction.y))
    &&& i64_fits(fx_mul_s(t, r.direction.z))
    &&& i64_fits(r.origin.x + fx_mul_s(t, r.direction.x))
    &&& i64_fits(r.origin.y + fx_mul_s(t, r.direction.y))
    &&& i64_fits(r.origin.z + fx_mul_s(t, r.direction.z))
}

/// A ray whose origin and direction are within the coordinate range of
/// the library.
pub open spec fn ray_wf(r: RayS) -> bool {
    v_in_range(r.origin) && v_in_range(r.direction)
}

impl Ray {
    /// A ray from its origin and direction.
    pub fn new(origin: Point3, direction: Vec3) -> (r: Ray)
        ensures
            r@ == (RayS { origin: origin@, direction: direction@ }),
    {
        Ray { origin, direction }
    }

    /// The point at parameter `t`: `origin + t * direction`.  Negative
    /// parameters name points behind the origin.
    pub fn at(&self, t: i64) -> (p: Point3)
        requires
            ray_at_fits(self@, t as int),
        ensures
            p@ == ray_at_s(self@, t as int),
    {
        self.origin.add(self.direction.mul_t(t))
    }

    /// The point at parameter `t`, with every arithmetic step checked
    /// at run time: `None` exactly when the computation of [`Ray::at`]
    /// would leave `i64`.
    pub fn at_checked(&self, t: i64) -> (p: Option<Point3>)
        ensures
            p is Some <==> ray_at_fits(self@, t as int),
            p matches Some(q) ==> q@ == ray_at_s(self@, t as int),
    {
        let sx = match fx_mul_checked(t, self.direction.x) {
            Some(v) => v,
            None => {
                return None;
            },
        };
        let sy = match fx_mul_checked(t, self.direction.y) {
            Some(v) => v,
            None => {
                return None;
            },
        };
        let sz = match fx_mul_checked(t, self.direction.z) {
            Some(v) => v,
            None => {
                return None;
            },
        };
        let x = match self.origin.x.checked_add(sx) {
            Some(v) => v,
            None => {
                return None;
            },
        };
        let y = match self.origin.y.checked_add(sy) {
            Some(v) => v,
            None => {
                return None;
            },
        };
        let z = match self.origin.z.checked_add(sz) {
            Some(v) => v,
            None => {
                return None;
            },
        };
        Some(Vec3::new(x, y, z))
    }
}

/// At parameter zero a ray is at its origin.
pub proof fn lemma_ray_at_zero(r: RayS)
    ensures
        ray_at_s(r, 0) == r.origin,
{
    assert(0 * r.direction.x == 0);
    assert(0 * r.direction.y == 0);
    assert(0 * r.direction.z == 0);
}

/// At a whole-unit parameter `m * ONE` the evaluation is exactly
/// affine: the origin plus `m` times the direction, with no rounding.
pub proof fn lemma_ray_at_whole(r: RayS, m: int)
    ensures
        ray_at_s(r, m * (ONE as int)) == (Vec3s {
            x: r.origin.x + m * r.direction.x,
            y: r.origin.y + m * r.direction.y,
            z: r.origin.z + m * r.direction.z,
        }),
{
    lemma_ray_at_whole_component(r.direction.x, m);
    lemma_ray_at_whole_component(r.direction.y, m);
    lemma_ray_at_whole_component(r.direction.z, m);
}

proof fn lemma_ray_at_whole_component(d: int, m: int)
    ensures
        fx_mul_s(m * 65536, d) == m * d,
{
    assert((m * 65536) * d == (m * d) * 65536) by (nonlinear_arith);
    lemma_tdiv_exact(m * d, 65536);
}

} // verus!
