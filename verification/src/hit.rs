//! Intersections: the record a successful ray–surface test produces,
//! the capability of being intersected, and an ordered collection of
//! intersectable objects that reports the globally nearest hit.

use vstd::prelude::*;

verus! {

use crate::fx::{lemma_fx_mul_bound, COORD_MAX};
use crate::ray::{ray_wf, Ray, RayS};
use crate::sphere::{sphere_hit_s, Sphere, SphereS};
use crate::{dot, v_dot, v_in_range, v_neg, v_unitish, Point3, Vec3, Vec3s};

/// Mathematical view of a [`HitRecord`].
pub struct HitRecS {
    pub p: Vec3s,
    pub normal: Vec3s,
    pub t: int,
    pub front_face: bool,
}

/// The result of a successful ray–surface intersection: the hit point,
/// a normal opposing the incoming ray, the ray parameter of the hit,
/// and whether the ray struck the outward-facing side.
#[derive(Clone, Copy, Debug)]
pub struct HitRecord {
    pub p: Point3,
    pub normal: Vec3,
    pub t: i64,
    pub front_face: bool,
}

impl View for HitRecord {
    type V = HitRecS;

    open spec fn view(&self) -> HitRecS {
        HitRecS { p: self.p@, normal: self.normal@, t: self.t as int, front_face: self.front_face }
    }
}

/// View of an optional hit record.
pub open spec fn rec_view(o: Option<HitRecord>) -> Option<HitRecS> {
    match o {
        Some(r) => Some(r@),
        None => None,
    }
}

impl HitRecord {
    /// Store the facing flag and the normal: the record faces front
    /// when the ray direction opposes the outward normal, and the
    /// stored normal is flipped so that it always opposes the ray.
    /// The parameter `outward_normal` is expected to be of roughly
    /// unit length.
    pub fn set_face_normal(&mut self, r: &Ray, outward_normal: &Vec3)
        requires
            v_in_range(r@.direction),
            v_unitish(outward_normal@),
        ensures
            final(self).front_face == (v_dot(r@.direction, outward_normal@) < 0),
            final(self)@.normal == if v_dot(r@.direction, outward_normal@) < 0 {
                outward_normal@
            } else {
                v_neg(outward_normal@)
            },
            final(self).p == old(self).p,
            final(self).t == old(self).t,
    {
        proof {
            lemma_fx_mul_bound(r@.direction.x, outward_normal@.x, COORD_MAX as int, 131072);
            lemma_fx_mul_bound(r@.direction.y, outward_normal@.y, COORD_MAX as int, 131072);
            lemma_fx_mul_bound(r@.direction.z, outward_normal@.z, COORD_MAX as int, 131072);
        }
        self.front_face = dot(&r.direction, outward_normal) < 0;
        self.normal = if self.front_face {
            *outward_normal
        } else {
            outward_normal.neg()
        };
    }
}

/// The capability of reporting the nearest intersection of a ray
/// strictly inside an open parameter interval.
pub trait Hittable: Sized {
    /// The well-formedness the shape must have before it is traced.
    spec fn wf(&self) -> bool;

    /// The exact mathematical result of [`Hittable::hit`].
    spec fn hit_s(&self, r: RayS, t_min: int, t_max: int) -> Option<HitRecS>;

    /// The nearest intersection of `r` with parameter strictly inside
    /// `(t_min, t_max)`, or `None` when there is none.
    fn hit(&self, r: &Ray, t_min: i64, t_max: i64) -> (res: Option<HitRecord>)
        requires
            self.wf(),
            ray_wf(r@),
        ensures
            rec_view(res) == self.hit_s(r@, t_min as int, t_max as int),
    ;
}

/// An ordered collection of owned intersectable objects.
pub struct HittableList {
    pub objects: Vec<Sphere>,
}

impl View for HittableList {
    type V = Seq<SphereS>;

    open spec fn view(&self) -> Seq<SphereS> {
        self.objects@.map_values(|s: Sphere| s@)
    }
}

/// Nearest hit over the first `n` members, scanned in order: each
/// member is queried with the upper bound narrowed to the best `t`
/// found so far, so a later member wins exactly when its hit is
/// strictly nearer.
pub open spec fn list_hit_upto(
    objs: Seq<SphereS>,
    r: RayS,
    t_min: int,
    t_max: int,
    n: nat,
) -> Option<HitRecS>
    decreases n,
{
    if n == 0 {
        None
    } else {
        let prev = list_hit_upto(objs, r, t_min, t_max, (n - 1) as nat);
        let upper = match prev {
            Some(rec) => rec.t,
            None => t_max,
        };
        match sphere_hit_s(objs[n - 1], r, t_min, upper) {
            Some(rec) => Some(rec),
            None => prev,
        }
    }
}

/// Nearest hit over a whole scene.
pub open spec fn list_hit_s(objs: Seq<SphereS>, r: RayS, t_min: int, t_max: int) -> Option<
    HitRecS,
> {
    list_hit_upto(objs, r, t_min, t_max, objs.len())
}

/// What the scan of a scene returns, characterized without reference
/// to the scan order: a miss means no member offers a candidate below
/// the upper bound; a hit is some member's candidate, below the upper
/// bound and no farther than any other member's candidate.
pub proof fn lemma_list_hit_character(objs: Seq<SphereS>, r: RayS, t_min: int, t_max: int, n: nat)
    requires
        n <= objs.len(),
    ensures
        ({
            let res = list_hit_upto(objs, r, t_min, t_max, n);
            match res {
                None => forall|k: int|
                    0 <= k < n ==> !(crate::sphere::cand_hits(#[trigger] objs[k], r, t_min)
                        && crate::sphere::cand_t(objs[k], r, t_min) < t_max),
                Some(rec) => {
                    &&& rec.t < t_max
                    &&& exists|k: int|
                        0 <= k < n && crate::sphere::sphere_cand(#[trigger] objs[k], r, t_min)
                            == Some(rec)
                    &&& forall|k: int|
                        0 <= k < n && crate::sphere::cand_hits(#[trigger] objs[k], r, t_min)
                            ==> crate::sphere::cand_t(objs[k], r, t_min) >= rec.t
                },
            }
        }),
    decreases n,
{
    if n == 0 {
    } else {
        lemma_list_hit_character(objs, r, t_min, t_max, (n - 1) as nat);
        let prev = list_hit_upto(objs, r, t_min, t_max, (n - 1) as nat);
        let upper = match prev {
            Some(rec) => rec.t,
            None => t_max,
        };
        crate::sphere::lemma_sphere_hit_vs_cand(objs[n - 1], r, t_min, upper);
        let cur = sphere_hit_s(objs[n - 1], r, t_min, upper);
        let res = list_hit_upto(objs, r, t_min, t_max, n);
        match cur {
            Some(rec) => {
                assert(res == Some(rec));
                assert(crate::sphere::sphere_cand(objs[n - 1], r, t_min) == Some(rec));
                assert(0 <= n - 1 < n && crate::sphere::sphere_cand(
                    objs[n - 1],
                    r,
                    t_min,
                ) == Some(rec));
                assert forall|k: int|
                    0 <= k < n && crate::sphere::cand_hits(#[trigger] objs[k], r, t_min) implies
                    crate::sphere::cand_t(objs[k], r, t_min) >= rec.t by {
                    if k < n - 1 {
                        match prev {
                            Some(prec) => {
                                assert(crate::sphere::cand_t(objs[k], r, t_min) >= prec.t);
                                assert(rec.t < prec.t);
                            },
                            None => {
                                assert(!(crate::sphere::cand_hits(objs[k], r, t_min)
                                    && crate::sphere::cand_t(objs[k], r, t_min) < t_max));
                            },
                        }
                    }
                }
            },
            None => {
                assert(res == prev);
                match prev {
                    Some(prec) => {
                        assert forall|k: int|
                            0 <= k < n && crate::sphere::cand_hits(#[trigger] objs[k], r, t_min)
                            implies crate::sphere::cand_t(objs[k], r, t_min) >= prec.t by {
                            if k == n - 1 {
                                assert(crate::sphere::cand_t(objs[k], r, t_min) >= upper);
                            }
                        }
                    },
                    None => {
                        assert forall|k: int| 0 <= k < n implies !(crate::sphere::cand_hits(
                            #[trigger] objs[k],
                            r,
                            t_min,
                        ) && crate::sphere::cand_t(objs[k], r, t_min) < t_max) by {
                            if k == n - 1 {
                                assert(!(crate::sphere::cand_hits(objs[k], r, t_min)
                                    && crate::sphere::cand_t(objs[k], r, t_min) < upper));
                            }
                        }
                    },
                }
            },
        }
    }
}

/// Nearest-hit selection is invariant under the insertion order of
/// the members: two scenes holding the same spheres, in any order,
/// yield the same result — provided no two distinct spheres are hit
/// at the same parameter (geometry that does not overlap).
pub proof fn lemma_hit_order_invariant(
    objs1: Seq<SphereS>,
    objs2: Seq<SphereS>,
    r: RayS,
    t_min: int,
    t_max: int,
)
    requires
        objs1.to_multiset() == objs2.to_multiset(),
        forall|s1: SphereS, s2: SphereS|
            objs1.contains(s1) && objs1.contains(s2) && s1 != s2 && #[trigger] crate::sphere::cand_hits(
                s1,
                r,
                t_min,
            ) && #[trigger] crate::sphere::cand_hits(s2, r, t_min)
                ==> crate::sphere::cand_t(s1, r, t_min) != crate::sphere::cand_t(s2, r, t_min),
    ensures
        list_hit_s(objs1, r, t_min, t_max) == list_hit_s(objs2, r, t_min, t_max),
{
    objs1.to_multiset_ensures();
    objs2.to_multiset_ensures();
    lemma_list_hit_character(objs1, r, t_min, t_max, objs1.len());
    lemma_list_hit_character(objs2, r, t_min, t_max, objs2.len());
    assert forall|s: SphereS| objs1.contains(s) implies objs2.contains(s) by {
        assert(objs1.to_multiset().count(s) > 0);
    }
    assert forall|s: SphereS| objs2.contains(s) implies objs1.contains(s) by {
        assert(objs2.to_multiset().count(s) > 0);
    }
    let res1 = list_hit_s(objs1, r, t_min, t_max);
    let res2 = list_hit_s(objs2, r, t_min, t_max);
    match res1 {
        Some(rec1) => {
            let k1 = choose|k: int|
                0 <= k < objs1.len() && crate::sphere::sphere_cand(objs1[k], r, t_min) == Some(
                    rec1,
                );
            let s1 = objs1[k1];
            assert(objs1.contains(s1));
            assert(objs2.contains(s1));
            let i1 = choose|i: int| 0 <= i < objs2.len() && objs2[i] == s1;
            match res2 {
                Some(rec2) => {
                    let k2 = choose|k: int|
                        0 <= k < objs2.len() && crate::sphere::sphere_cand(objs2[k], r, t_min)
                            == Some(rec2);
                    let s2 = objs2[k2];
                    assert(objs2.contains(s2));
                    assert(objs1.contains(s2));
                    let i2 = choose|i: int| 0 <= i < objs1.len() && objs1[i] == s2;
                    assert(crate::sphere::cand_hits(objs2[i1], r, t_min));
                    assert(rec1.t >= rec2.t);
                    assert(crate::sphere::cand_hits(objs1[i2], r, t_min));
                    assert(rec2.t >= rec1.t);
                    if s1 == s2 {
                        assert(rec1 == rec2);
                    } else {
                        assert(crate::sphere::cand_t(s1, r, t_min) != crate::sphere::cand_t(
                            s2,
                            r,
                            t_min,
                        ));
                        assert(false);
                    }
                },
                None => {
                    assert(!(crate::sphere::cand_hits(objs2[i1], r, t_min)
                        && crate::sphere::cand_t(objs2[i1], r, t_min) < t_max));
                    assert(false);
                },
            }
        },
        None => {
            match res2 {
                Some(rec2) => {
                    let k2 = choose|k: int|
                        0 <= k < objs2.len() && crate::sphere::sphere_cand(objs2[k], r, t_min)
                            == Some(rec2);
                    let s2 = objs2[k2];
                    assert(objs2.contains(s2));
                    assert(objs1.contains(s2));
                    let i2 = choose|i: int| 0 <= i < objs1.len() && objs1[i] == s2;
                    assert(!(crate::sphere::cand_hits(objs1[i2], r, t_min)
                        && crate::sphere::cand_t(objs1[i2], r, t_min) < t_max));
                    assert(false);
                },
                None => {},
            }
        },
    }
}

impl Default for HittableList {
    /// An empty collection.
    fn default() -> (r: Self)
        ensures
            r@ == Seq::<SphereS>::empty(),
    {
        Self::new()
    }
}

impl HittableList {
    /// An empty collection.
    pub fn new() -> (r: Self)
        ensures
            r@ == Seq::<SphereS>::empty(),
    {
        let r = Self { objects: Vec::new() };
        proof {
            assert(r@ =~= Seq::<SphereS>::empty());
        }
        r
    }

    /// Remove every member.
    pub fn clear(&mut self)
        ensures
            final(self)@ == Seq::<SphereS>::empty(),
    {
        self.objects.clear();
        proof {
            assert(self@ =~= Seq::<SphereS>::empty());
        }
    }

    /// Append a member; it is scanned after every member added before
    /// it.
    pub fn add(&mut self, object: Sphere)
        ensures
            final(self)@ == old(self)@.push(object@),
    {
        self.objects.push(object);
        proof {
            assert(self@ =~= old(self)@.push(object@));
        }
    }
}

impl Hittable for HittableList {
    /// Every member is well-formed.
    open spec fn wf(&self) -> bool {
        forall|i: int|
            0 <= i < self.objects@.len() ==> (#[trigger] self.objects@[i]).wf()
    }

    open spec fn hit_s(&self, r: RayS, t_min: int, t_max: int) -> Option<HitRecS> {
        list_hit_s(self@, r, t_min, t_max)
    }

    /// Scan the members in order, narrowing the upper bound of the
    /// search interval to the nearest hit found so far.
    fn hit(&self, r: &Ray, t_min: i64, t_max: i64) -> (res: Option<HitRecord>) {
        let mut best: Option<HitRecord> = None;
        let mut closest: i64 = t_max;
        let n = self.objects.len();
        let mut i: usize = 0;
        while i < n
            invariant
                0 <= i <= n,
                n == self.objects@.len(),
                self.wf(),
                ray_wf(r@),
                rec_view(best) == list_hit_upto(self@, r@, t_min as int, t_max as int, i as nat),
                closest as int == match list_hit_upto(
                    self@,
                    r@,
                    t_min as int,
                    t_max as int,
                    i as nat,
                ) {
                    Some(rec) => rec.t,
                    None => t_max as int,
                },
            decreases n - i,
        {
            let obj = &self.objects[i];
            match obj.hit(r, t_min, closest) {
                Some(rec) => {
                    closest = rec.t;
                    best = Some(rec);
                },
                None => {},
            }
            i = i + 1;
        }
        best
    }
}

} // verus!
