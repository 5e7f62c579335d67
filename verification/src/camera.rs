//! The camera: viewport geometry derived once from the construction
//! parameters, per-pixel jittered sample rays, recursive diffuse
//! shading with an explicit depth cap, and the scan-order render loop.

use vstd::prelude::*;

verus! {

use crate::fx::{
    fx_div, fx_div_s, fx_mul, fx_mul_s, iabs, lemma_fx_div_bound, lemma_fx_mul_bound,
    lemma_fx_mul_bound_scaled, tdiv, COORD_MAX,
};
use crate::hit::{list_hit_s, Hittable, HittableList};
use crate::ray::{ray_wf, Ray, RayS};
use crate::rng::{rng_draw_s, rng_next_s, Rng};
use crate::{
    scalar_mul, unit_vector, v_add, v_in_range, v_len_sq, v_scale, v_sub, v_unit, v_unitish,
    Colour, Point3, Vec3, Vec3s,
};

/// The depth cap of the recursive diffuse shading: past this many
/// bounces a ray contributes black.
pub const MAX_DEPTH: u32 = 50;

/// Mathematical view of a [`Camera`].
pub struct CameraS {
    pub image_width: int,
    pub image_height: int,
    pub centre: Vec3s,
    pub pixel00_loc: Vec3s,
    pub pixel_delta_u: Vec3s,
    pub pixel_delta_v: Vec3s,
    pub samples_per_pixel: int,
    pub pixel_samples_scale: int,
}

/// The camera state derived from an aspect ratio (a fixed-point
/// scalar), an image width in pixels and a sample count.
///
/// The image height is the width over the aspect ratio, rounded to the
/// nearest integer and at least one.  The viewport is two world units
/// high and wide in proportion to the *actual* ratio of the pixel
/// counts, which keeps pixels square even when the rounding changed
/// the effective ratio; the focal length is one world unit.  Pixel
/// `(0, 0)` is centred half a pixel step in from the viewport's upper
/// left corner.
pub open spec fn camera_s(aspect: int, width: int, spp: int) -> CameraS {
    let h0 = (2 * width * 65536 + aspect) / (2 * aspect);
    let height = if h0 < 1 {
        1int
    } else {
        h0
    };
    let vw = (2 * 65536 * width) / height;
    let viewport_u = Vec3s { x: vw, y: 0, z: 0 };
    let viewport_v = Vec3s { x: 0, y: -131072, z: 0 };
    let du = crate::v_div_t(viewport_u, width * 65536);
    let dv = crate::v_div_t(viewport_v, height * 65536);
    let centre = Vec3s { x: 0, y: 0, z: 0 };
    let upper_left = v_sub(
        v_sub(v_sub(centre, Vec3s { x: 0, y: 0, z: 65536 }), crate::v_div_t(viewport_u, 131072)),
        crate::v_div_t(viewport_v, 131072),
    );
    let p00 = v_add(upper_left, v_scale(32768, v_add(du, dv)));
    CameraS {
        image_width: width,
        image_height: height,
        centre,
        pixel00_loc: p00,
        pixel_delta_u: du,
        pixel_delta_v: dv,
        samples_per_pixel: spp,
        pixel_samples_scale: fx_div_s(65536, spp * 65536),
    }
}

/// A camera whose derived state is moderate enough that every sample
/// ray it generates stays within the coordinate range of the library.
pub open spec fn cam_renderable(c: CameraS) -> bool {
    &&& 1 <= c.image_width <= 1048576
    &&& 1 <= c.image_height <= 137438953472
    &&& 1 <= c.samples_per_pixel <= 65536
    &&& 0 <= c.pixel_samples_scale <= 65536
    &&& c.centre == (Vec3s { x: 0, y: 0, z: 0 })
    &&& iabs(c.pixel00_loc.x) <= (COORD_MAX as int) / 4
    &&& iabs(c.pixel00_loc.y) <= (COORD_MAX as int) / 4
    &&& iabs(c.pixel00_loc.z) <= (COORD_MAX as int) / 4
    &&& iabs(c.pixel_delta_u.x) * c.image_width <= (COORD_MAX as int) / 4
    &&& iabs(c.pixel_delta_u.y) * c.image_width <= (COORD_MAX as int) / 4
    &&& iabs(c.pixel_delta_u.z) * c.image_width <= (COORD_MAX as int) / 4
    &&& iabs(c.pixel_delta_v.x) * c.image_height <= (COORD_MAX as int) / 4
    &&& iabs(c.pixel_delta_v.y) * c.image_height <= (COORD_MAX as int) / 4
    &&& iabs(c.pixel_delta_v.z) * c.image_height <= (COORD_MAX as int) / 4
}

/// A camera: immutable derived state computed once by
/// [`Camera::new`].
#[derive(Clone, Copy, Debug)]
pub struct Camera {
    pub image_width: u64,
    pub image_height: u64,
    pub centre: Point3,
    pub pixel00_loc: Point3,
    pub pixel_delta_u: Vec3,
    pub pixel_delta_v: Vec3,
    pub samples_per_pixel: u64,
    pub pixel_samples_scale: i64,
}

impl View for Camera {
    type V = CameraS;

    open spec fn view(&self) -> CameraS {
        CameraS {
            image_width: self.image_width as int,
            image_height: self.image_height as int,
            centre: self.centre@,
            pixel00_loc: self.pixel00_loc@,
            pixel_delta_u: self.pixel_delta_u@,
            pixel_delta_v: self.pixel_delta_v@,
            samples_per_pixel: self.samples_per_pixel as int,
            pixel_samples_scale: self.pixel_samples_scale as int,
        }
    }
}

impl Default for Camera {
    /// A square camera four hundred pixels wide with ten samples per
    /// pixel.
    fn default() -> (r: Self)
        ensures
            r@ == camera_s(65536, 400, 10),
    {
        Camera::new(65536, 400, 10)
    }
}

impl Camera {
    /// Derive the camera state; see [`camera_s`] for the exact
    /// meaning of every derived field.  The image height is always at
    /// least one, whatever the aspect ratio.
    pub fn new(aspect_ratio: i64, image_width: u64, samples_per_pixel: u64) -> (r: Self)
        requires
            1 <= aspect_ratio <= 4294967296,
            1 <= image_width <= 1048576,
            1 <= samples_per_pixel <= 65536,
        ensures
            r@ == camera_s(aspect_ratio as int, image_width as int, samples_per_pixel as int),
            1 <= r@.image_height,
    {
        let num: u64 = 2 * image_width * 65536 + (aspect_ratio as u64);
        let h0: u64 = num / (2 * (aspect_ratio as u64));
        let image_height: u64 = if h0 < 1 {
            1
        } else {
            h0
        };
        let vw: i64 = ((2 * 65536 * image_width) / image_height) as i64;
        let viewport_u = Vec3::new(vw, 0, 0);
        let viewport_v = Vec3::new(0, -131072, 0);
        let w_fx: i64 = (image_width as i64) * 65536;
        let h_fx: i64 = (image_height as i64) * 65536;
        proof {
            lemma_fx_div_bound(vw as int, w_fx as int, 137438953472);
            lemma_fx_div_bound(-131072, h_fx as int, 131072);
            lemma_fx_div_bound(vw as int, 131072, 137438953472);
            lemma_fx_div_bound(-131072, 131072, 131072);
        }
        let pixel_delta_u = viewport_u.div_t(w_fx);
        let pixel_delta_v = viewport_v.div_t(h_fx);
        let centre = Vec3::new(0, 0, 0);
        let upper_left = centre.sub(Vec3::new(0, 0, 65536)).sub(viewport_u.div_t(131072)).sub(
            viewport_v.div_t(131072),
        );
        proof {
            lemma_fx_mul_bound(
                32768,
                (pixel_delta_u@.x + pixel_delta_v@.x) as int,
                32768,
                18014398509481984,
            );
            lemma_fx_mul_bound(
                32768,
                (pixel_delta_u@.y + pixel_delta_v@.y) as int,
                32768,
                18014398509481984,
            );
            lemma_fx_mul_bound(
                32768,
                (pixel_delta_u@.z + pixel_delta_v@.z) as int,
                32768,
                18014398509481984,
            );
        }
        let pixel00_loc = upper_left.add(scalar_mul(32768, pixel_delta_u.add(pixel_delta_v)));
        let spp_fx: i64 = (samples_per_pixel as i64) * 65536;
        proof {
            lemma_fx_div_bound(65536, spp_fx as int, 65536);
        }
        let pixel_samples_scale = fx_div(65536, spp_fx);
        Self {
            image_width,
            image_height,
            centre,
            pixel00_loc,
            pixel_delta_u,
            pixel_delta_v,
            samples_per_pixel,
            pixel_samples_scale,
        }
    }
}

/// Is the magnitude of `a` at most `cap`?
fn abs_le(a: i64, cap: i64) -> (r: bool)
    requires
        0 <= cap,
    ensures
        r == (iabs(a as int) <= cap as int),
{
    -cap <= a && a <= cap
}

/// Is the magnitude of `a` times `b` at most `cap`?
fn abs_times_le(a: i64, b: u64, cap: i64) -> (r: bool)
    requires
        0 <= cap,
    ensures
        r == (iabs(a as int) * (b as int) <= cap as int),
{
    let ua: u128 = if a < 0 {
        (-(a as i128)) as u128
    } else {
        a as u128
    };
    proof {
        assert((ua as int) * (b as int) <= 170141183460469231731687303715884105727int)
            by (nonlinear_arith)
            requires
                ua <= 9223372036854775808u128,
                b <= 18446744073709551615u64,
        ;
    }
    let p = ua * (b as u128);
    p <= cap as u128
}

/// The jitter of one sample: an offset of up to half a pixel step in
/// each axis, from two draws of the generator.
pub open spec fn sample_square_s(s: u64) -> (Vec3s, u64) {
    let s1 = rng_next_s(s);
    let s2 = rng_next_s(s1);
    (Vec3s { x: rng_draw_s(s1) - 32768, y: rng_draw_s(s2) - 32768, z: 0 }, s2)
}

/// The sample ray for pixel `(i, j)`: from the camera centre through
/// the pixel's location jittered by [`sample_square_s`].
pub open spec fn get_ray_s(c: CameraS, i: int, j: int, s: u64) -> (RayS, u64) {
    let off = sample_square_s(s);
    let px = v_add(
        v_add(c.pixel00_loc, v_scale(i * 65536 + off.0.x, c.pixel_delta_u)),
        v_scale(j * 65536 + off.0.y, c.pixel_delta_v),
    );
    (RayS { origin: c.centre, direction: v_sub(px, c.centre) }, off.1)
}

/// The colour assigned to a ray by the recursive diffuse evaluation:
/// a miss blends white into sky blue by the vertical component of the
/// unit direction; a hit scatters into a random hemisphere direction,
/// recurses, and keeps half the energy; at depth zero the colour is
/// black.  A degenerate ray — a direction of zero fixed-point length,
/// or a hit whose point or normal left the fixed-point range — is
/// black as well.
pub open spec fn ray_colour_s(objs: Seq<crate::sphere::SphereS>, r: RayS, depth: nat, s: u64) -> (
    Vec3s,
    u64,
)
    decreases depth,
{
    if depth == 0 {
        (Vec3s { x: 0, y: 0, z: 0 }, s)
    } else {
        match list_hit_s(objs, r, 0, i64::MAX as int) {
            Some(rec) => {
                if !(v_in_range(rec.p) && v_unitish(rec.normal)) {
                    (Vec3s { x: 0, y: 0, z: 0 }, s)
                } else {
                    let dir = crate::hemi_s(rec.normal, s, 16);
                    let sub = ray_colour_s(
                        objs,
                        RayS { origin: rec.p, direction: dir.0 },
                        (depth - 1) as nat,
                        dir.1,
                    );
                    (v_scale(32768, sub.0), sub.1)
                }
            },
            None => (sky_colour_s(r), s),
        }
    }
}

/// The background colour of a ray that escapes the scene: white at
/// the horizon blending linearly into sky blue upward, by the
/// vertical component of the unit direction.  Black for a direction
/// of zero fixed-point length.
pub open spec fn sky_colour_s(r: RayS) -> Vec3s {
    if v_len_sq(r.direction) < 1 {
        Vec3s { x: 0, y: 0, z: 0 }
    } else {
        let u = v_unit(r.direction);
        if !v_unitish(u) {
            Vec3s { x: 0, y: 0, z: 0 }
        } else {
            let a = fx_mul_s(32768, u.y + 65536);
            v_add(
                v_scale(65536 - a, Vec3s { x: 65536, y: 65536, z: 65536 }),
                v_scale(a, Vec3s { x: 32768, y: 45875, z: 65536 }),
            )
        }
    }
}

/// The depth-one shading that pictures geometry directly: a hit is
/// coloured by its surface normal, `(normal + white) / 2`, and a miss
/// by the sky.
pub open spec fn ray_colour_normal_s(objs: Seq<crate::sphere::SphereS>, r: RayS) -> Vec3s {
    match list_hit_s(objs, r, 0, i64::MAX as int) {
        Some(rec) => {
            if !v_unitish(rec.normal) {
                Vec3s { x: 0, y: 0, z: 0 }
            } else {
                v_scale(
                    32768,
                    v_add(rec.normal, Vec3s { x: 65536, y: 65536, z: 65536 }),
                )
            }
        },
        None => sky_colour_s(r),
    }
}

/// Every component of a colour the recursive evaluation yields has
/// magnitude at most four units.
pub proof fn lemma_ray_colour_bounds(
    objs: Seq<crate::sphere::SphereS>,
    r: RayS,
    depth: nat,
    s: u64,
)
    ensures
        iabs(ray_colour_s(objs, r, depth, s).0.x) <= 262144,
        iabs(ray_colour_s(objs, r, depth, s).0.y) <= 262144,
        iabs(ray_colour_s(objs, r, depth, s).0.z) <= 262144,
    decreases depth,
{
    if depth == 0 {
    } else {
        match list_hit_s(objs, r, 0, i64::MAX as int) {
            Some(rec) => {
                if v_in_range(rec.p) && v_unitish(rec.normal) {
                    let dir = crate::hemi_s(rec.normal, s, 16);
                    let sub = ray_colour_s(
                        objs,
                        RayS { origin: rec.p, direction: dir.0 },
                        (depth - 1) as nat,
                        dir.1,
                    );
                    lemma_ray_colour_bounds(
                        objs,
                        RayS { origin: rec.p, direction: dir.0 },
                        (depth - 1) as nat,
                        dir.1,
                    );
                    lemma_fx_mul_bound(32768, sub.0.x, 32768, 262144);
                    lemma_fx_mul_bound(32768, sub.0.y, 32768, 262144);
                    lemma_fx_mul_bound(32768, sub.0.z, 32768, 262144);
                }
            },
            None => {
                lemma_sky_colour_bounds(r);
            },
        }
    }
}

/// Every component of a sky colour has magnitude at most four units.
pub proof fn lemma_sky_colour_bounds(r: RayS)
    ensures
        iabs(sky_colour_s(r).x) <= 262144,
        iabs(sky_colour_s(r).y) <= 262144,
        iabs(sky_colour_s(r).z) <= 262144,
{
    if v_len_sq(r.direction) < 1 {
    } else {
        let u = v_unit(r.direction);
        if v_unitish(u) {
            let a = fx_mul_s(32768, u.y + 65536);
            lemma_fx_mul_bound(32768, u.y + 65536, 32768, 196608);
            lemma_fx_mul_bound(65536 - a, 65536, 163840, 65536);
            lemma_fx_mul_bound(a, 32768, 98304, 32768);
            lemma_fx_mul_bound(a, 45875, 98304, 45875);
            lemma_fx_mul_bound(a, 65536, 98304, 65536);
        }
    }
}

impl Camera {
    /// The jittered sample ray for pixel `(i, j)`; see [`get_ray_s`].
    #[verifier::rlimit(90)]
    pub fn get_ray(&self, i: u64, j: u64, rng: &mut Rng) -> (r: Ray)
        requires
            cam_renderable(self@),
            i < self@.image_width,
            j < self@.image_height,
        ensures
            r@ == get_ray_s(self@, i as int, j as int, old(rng).state).0,
            final(rng).state == get_ray_s(self@, i as int, j as int, old(rng).state).1,
            ray_wf(r@),
    {
        let offset = Camera::sample_square(rng);
        let ai: i64 = (i as i64) * 65536 + offset.x;
        let aj: i64 = (j as i64) * 65536 + offset.y;
        proof {
            assert(iabs(ai as int) <= self@.image_width * 65536);
            assert(iabs(aj as int) <= self@.image_height * 65536);
            lemma_fx_mul_bound_scaled(
                ai as int,
                self@.pixel_delta_u.x,
                self@.image_width,
                iabs(self@.pixel_delta_u.x),
            );
            lemma_fx_mul_bound_scaled(
                ai as int,
                self@.pixel_delta_u.y,
                self@.image_width,
                iabs(self@.pixel_delta_u.y),
            );
            lemma_fx_mul_bound_scaled(
                ai as int,
                self@.pixel_delta_u.z,
                self@.image_width,
                iabs(self@.pixel_delta_u.z),
            );
            lemma_fx_mul_bound_scaled(
                aj as int,
                self@.pixel_delta_v.x,
                self@.image_height,
                iabs(self@.pixel_delta_v.x),
            );
            lemma_fx_mul_bound_scaled(
                aj as int,
                self@.pixel_delta_v.y,
                self@.image_height,
                iabs(self@.pixel_delta_v.y),
            );
            lemma_fx_mul_bound_scaled(
                aj as int,
                self@.pixel_delta_v.z,
                self@.image_height,
                iabs(self@.pixel_delta_v.z),
            );
            assert(iabs(fx_mul_s(ai as int, self@.pixel_delta_u.x)) <= 12582912);
            assert(iabs(fx_mul_s(ai as int, self@.pixel_delta_u.y)) <= 12582912);
            assert(iabs(fx_mul_s(ai as int, self@.pixel_delta_u.z)) <= 12582912);
            assert(iabs(fx_mul_s(aj as int, self@.pixel_delta_v.x)) <= 12582912);
            assert(iabs(fx_mul_s(aj as int, self@.pixel_delta_v.y)) <= 12582912);
            assert(iabs(fx_mul_s(aj as int, self@.pixel_delta_v.z)) <= 12582912);
        }
        let pixel_sample = self.pixel00_loc.add(scalar_mul(ai, self.pixel_delta_u)).add(
            scalar_mul(aj, self.pixel_delta_v),
        );
        let ray_origin = self.centre;
        let ray_direction = pixel_sample.sub(ray_origin);
        Ray::new(ray_origin, ray_direction)
    }

    /// Does this camera satisfy [`cam_renderable`]?  The check the
    /// render entry points require; callers outside the library can
    /// test it instead of restating it.
    pub fn renderable(&self) -> (r: bool)
        ensures
            r == cam_renderable(self@),
    {
        1 <= self.image_width && self.image_width <= 1048576 && 1 <= self.image_height
            && self.image_height <= 137438953472 && 1 <= self.samples_per_pixel
            && self.samples_per_pixel <= 65536 && 0 <= self.pixel_samples_scale
            && self.pixel_samples_scale <= 65536 && self.centre.x == 0 && self.centre.y == 0
            && self.centre.z == 0 && abs_le(self.pixel00_loc.x, 12582912) && abs_le(
            self.pixel00_loc.y,
            12582912,
        ) && abs_le(self.pixel00_loc.z, 12582912) && abs_times_le(
            self.pixel_delta_u.x,
            self.image_width,
            12582912,
        ) && abs_times_le(self.pixel_delta_u.y, self.image_width, 12582912) && abs_times_le(
            self.pixel_delta_u.z,
            self.image_width,
            12582912,
        ) && abs_times_le(self.pixel_delta_v.x, self.image_height, 12582912) && abs_times_le(
            self.pixel_delta_v.y,
            self.image_height,
            12582912,
        ) && abs_times_le(self.pixel_delta_v.z, self.image_height, 12582912)
    }

    /// The jitter of one sample; see [`sample_square_s`].
    fn sample_square(rng: &mut Rng) -> (off: Vec3)
        ensures
            off@ == sample_square_s(old(rng).state).0,
            final(rng).state == sample_square_s(old(rng).state).1,
            iabs(off@.x) <= 32768,
            iabs(off@.y) <= 32768,
            off@.z == 0,
    {
        let a = rng.next16();
        let b = rng.next16();
        Vec3::new(a as i64 - 32768, b as i64 - 32768, 0)
    }

    /// The colour of one ray under the recursive diffuse evaluation;
    /// see [`ray_colour_s`].
    pub fn ray_colour(r: &Ray, world: &HittableList, depth: u32, rng: &mut Rng) -> (col: Colour)
        requires
            world.wf(),
            ray_wf(r@),
        ensures
            col@ == ray_colour_s(world@, r@, depth as nat, old(rng).state).0,
            final(rng).state == ray_colour_s(world@, r@, depth as nat, old(rng).state).1,
            iabs(col@.x) <= 262144,
            iabs(col@.y) <= 262144,
            iabs(col@.z) <= 262144,
        decreases depth,
    {
        proof {
            lemma_ray_colour_bounds(world@, r@, depth as nat, old(rng).state);
        }
        if depth == 0 {
            return Vec3::new(0, 0, 0);
        }
        match world.hit(r, 0, 9223372036854775807) {
            Some(rec) => {
                if !(rec.p.in_range() && rec.normal.unitish()) {
                    return Vec3::new(0, 0, 0);
                }
                let direction = crate::random_on_hemisphere(&rec.normal, rng);
                let bounced = Camera::ray_colour(&Ray::new(rec.p, direction), world, depth - 1, rng);
                proof {
                    let dir = crate::hemi_s(rec@.normal, old(rng).state, 16);
                    lemma_ray_colour_bounds(
                        world@,
                        RayS { origin: rec@.p, direction: dir.0 },
                        (depth - 1) as nat,
                        dir.1,
                    );
                    lemma_fx_mul_bound(32768, bounced@.x, 32768, 262144);
                    lemma_fx_mul_bound(32768, bounced@.y, 32768, 262144);
                    lemma_fx_mul_bound(32768, bounced@.z, 32768, 262144);
                }
                scalar_mul(32768, bounced)
            },
            None => Camera::sky_colour(r),
        }
    }

    /// The background colour of a ray that escapes the scene; see
    /// [`sky_colour_s`].
    pub fn sky_colour(r: &Ray) -> (col: Colour)
        requires
            ray_wf(r@),
        ensures
            col@ == sky_colour_s(r@),
    {
        proof {
            lemma_fx_mul_bound(r@.direction.x, r@.direction.x, 50331648, 50331648);
            lemma_fx_mul_bound(r@.direction.y, r@.direction.y, 50331648, 50331648);
            lemma_fx_mul_bound(r@.direction.z, r@.direction.z, 50331648, 50331648);
            crate::lemma_fx_square_nonneg(r@.direction.x);
            crate::lemma_fx_square_nonneg(r@.direction.y);
            crate::lemma_fx_square_nonneg(r@.direction.z);
        }
        let dsq = r.direction.length_squared();
        if dsq < 1 {
            return Vec3::new(0, 0, 0);
        }
        let u = unit_vector(&r.direction);
        if !u.unitish() {
            return Vec3::new(0, 0, 0);
        }
        proof {
            lemma_fx_mul_bound(32768, u@.y + 65536, 32768, 196608);
        }
        let a = fx_mul(32768, u.y + 65536);
        proof {
            lemma_fx_mul_bound(65536 - a, 65536, 163840, 65536);
            lemma_fx_mul_bound(a as int, 32768, 98304, 32768);
            lemma_fx_mul_bound(a as int, 45875, 98304, 45875);
            lemma_fx_mul_bound(a as int, 65536, 98304, 65536);
        }
        let white = Vec3::new(65536, 65536, 65536);
        let blue = Vec3::new(32768, 45875, 65536);
        scalar_mul(65536 - a, white).add(scalar_mul(a, blue))
    }

    /// The depth-one shading that pictures geometry directly; see
    /// [`ray_colour_normal_s`].
    pub fn ray_colour_normal(r: &Ray, world: &HittableList) -> (col: Colour)
        requires
            world.wf(),
            ray_wf(r@),
        ensures
            col@ == ray_colour_normal_s(world@, r@),
    {
        match world.hit(r, 0, 9223372036854775807) {
            Some(rec) => {
                if !rec.normal.unitish() {
                    return Vec3::new(0, 0, 0);
                }
                proof {
                    lemma_fx_mul_bound(32768, rec@.normal.x + 65536, 32768, 196608);
                    lemma_fx_mul_bound(32768, rec@.normal.y + 65536, 32768, 196608);
                    lemma_fx_mul_bound(32768, rec@.normal.z + 65536, 32768, 196608);
                }
                scalar_mul(32768, rec.normal.add(Vec3::new(65536, 65536, 65536)))
            },
            None => Camera::sky_colour(r),
        }
    }

    /// The pixels of row `j`, left to right; see [`row_s`].
    #[verifier::loop_isolation(false)]
    pub fn render_row(&self, world: &HittableList, j: u64, rng: &mut Rng) -> (row: Vec<Colour>)
        requires
            cam_renderable(self@),
            world.wf(),
            j < self@.image_height,
        ensures
            row@.map_values(|c: Colour| c@) == row_s(
                self@,
                world@,
                j as int,
                self@.image_width as nat,
                old(rng).state,
            ).0,
            final(rng).state == row_s(
                self@,
                world@,
                j as int,
                self@.image_width as nat,
                old(rng).state,
            ).1,
            row@.len() == self@.image_width,
    {
        let ghost s_row = rng.state;
        let mut out: Vec<Colour> = Vec::new();
        let w = self.image_width;
        let mut i: u64 = 0;
        proof {
            assert(out@.map_values(|c: Colour| c@) =~= row_s(
                self@,
                world@,
                j as int,
                0,
                s_row,
            ).0);
        }
        while i < w
            invariant
                i <= w,
                out@.len() == i,
                out@.map_values(|c: Colour| c@) == row_s(self@, world@, j as int, i as nat, s_row).0,
                rng.state == row_s(self@, world@, j as int, i as nat, s_row).1,
            decreases w - i,
        {
            let ghost s_px = rng.state;
            let mut acc = Vec3::new(0, 0, 0);
            let spp = self.samples_per_pixel;
            let mut k: u64 = 0;
            while k < spp
                invariant
                    k <= spp,
                    acc@ == pixel_samples_s(self@, world@, i as int, j as int, k as nat, s_px).0,
                    rng.state == pixel_samples_s(self@, world@, i as int, j as int, k as nat, s_px).1,
                    iabs(acc@.x) <= 262144 * k,
                    iabs(acc@.y) <= 262144 * k,
                    iabs(acc@.z) <= 262144 * k,
                decreases spp - k,
            {
                let ray = self.get_ray(i, j, rng);
                let col = Camera::ray_colour(&ray, world, MAX_DEPTH, rng);
                acc = acc.add(col);
                k = k + 1;
            }
            proof {
                lemma_fx_mul_bound(
                    self@.pixel_samples_scale,
                    acc@.x,
                    65536,
                    17179869184,
                );
                lemma_fx_mul_bound(
                    self@.pixel_samples_scale,
                    acc@.y,
                    65536,
                    17179869184,
                );
                lemma_fx_mul_bound(
                    self@.pixel_samples_scale,
                    acc@.z,
                    65536,
                    17179869184,
                );
            }
            let pix = scalar_mul(self.pixel_samples_scale, acc);
            out.push(pix);
            proof {
                assert(out@.map_values(|c: Colour| c@) =~= row_s(
                    self@,
                    world@,
                    j as int,
                    (i + 1) as nat,
                    s_row,
                ).0);
            }
            i = i + 1;
        }
        out
    }

    /// Render the whole image in scan order, top row first; see
    /// [`render_s`].  The pixels are a function of the camera, the
    /// scene and the generator's starting state alone, so rendering
    /// twice from the same seed gives bit-identical output.
    #[verifier::loop_isolation(false)]
    pub fn render(&self, world: &HittableList, rng: &mut Rng) -> (pixels: Vec<Colour>)
        requires
            cam_renderable(self@),
            world.wf(),
        ensures
            pixels@.map_values(|c: Colour| c@) == render_s(
                self@,
                world@,
                self@.image_height as nat,
                old(rng).state,
            ).0,
            final(rng).state == render_s(
                self@,
                world@,
                self@.image_height as nat,
                old(rng).state,
            ).1,
            pixels@.len() == self@.image_width * self@.image_height,
    {
        let ghost s0 = rng.state;
        let mut out: Vec<Colour> = Vec::new();
        let h = self.image_height;
        let mut j: u64 = 0;
        proof {
            assert(out@.map_values(|c: Colour| c@) =~= render_s(self@, world@, 0, s0).0);
        }
        while j < h
            invariant
                j <= h,
                out@.len() == (j as int) * self@.image_width,
                out@.map_values(|c: Colour| c@) == render_s(self@, world@, j as nat, s0).0,
                rng.state == render_s(self@, world@, j as nat, s0).1,
            decreases h - j,
        {
            let mut row = self.render_row(world, j, rng);
            out.append(&mut row);
            proof {
                assert(out@.map_values(|c: Colour| c@) =~= render_s(
                    self@,
                    world@,
                    (j + 1) as nat,
                    s0,
                ).0);
                assert((j as int + 1) * self@.image_width == (j as int) * self@.image_width
                    + self@.image_width) by (nonlinear_arith);
            }
            j = j + 1;
        }
        proof {
            assert((h as int) * self@.image_width == self@.image_width * (h as int));
        }
        out
    }
}

/// The image is at least one pixel high, whatever the construction
/// parameters.
pub proof fn lemma_image_height_at_least_one(aspect: int, width: int, spp: int)
    ensures
        1 <= camera_s(aspect, width, spp).image_height,
{
}

/// The pixel grid tiles the viewport: `width` horizontal pixel steps
/// recover the viewport width up to a remainder below one raw unit
/// per pixel, and `height` vertical steps likewise recover the
/// viewport height.
pub proof fn lemma_viewport_tiling(aspect: int, width: int, spp: int)
    requires
        1 <= aspect,
        1 <= width,
    ensures
        ({
            let c = camera_s(aspect, width, spp);
            let vw = (2 * 65536 * width) / c.image_height;
            &&& 0 <= vw - width * c.pixel_delta_u.x < width
            &&& -c.image_height < (-131072) - c.image_height * c.pixel_delta_v.y <= 0
        }),
{
    let c = camera_s(aspect, width, spp);
    let h = c.image_height;
    assert(1 <= h) by {
        vstd::arithmetic::div_mod::lemma_div_pos_is_pos(2 * width * 65536 + aspect, 2 * aspect);
    }
    let vw = (2 * 65536 * width) / h;
    assert(0 <= vw) by {
        vstd::arithmetic::div_mod::lemma_div_pos_is_pos(2 * 65536 * width, h);
    }
    lemma_grid_step(vw, width);
    lemma_grid_step(131072, h);
    assert(c.pixel_delta_u.x == tdiv(vw * 65536, width * 65536));
    assert(c.pixel_delta_v.y == tdiv((-131072) * 65536, h * 65536));
    assert(tdiv((-131072) * 65536, h * 65536) == -tdiv(131072int * 65536, h * 65536)) by {
        crate::fx::lemma_iabs_mul(-131072, 65536);
        crate::fx::lemma_iabs_mul(131072, 65536);
        crate::fx::lemma_iabs_mul(h, 65536);
    }
    assert(h * (-tdiv(131072int * 65536, h * 65536)) == -(h * tdiv(131072int * 65536, h * 65536)))
        by (nonlinear_arith);
}

/// A camera derived from an aspect ratio of at most sixty-four units
/// is renderable, whatever the accepted width and sample count: every
/// derived field is small enough for [`Camera::render`].
pub proof fn lemma_moderate_camera_renderable(aspect: int, width: int, spp: int)
    requires
        65536 <= aspect <= 4194304,
        1 <= width <= 1048576,
        1 <= spp <= 65536,
    ensures
        cam_renderable(camera_s(aspect, width, spp)),
{
    let c = camera_s(aspect, width, spp);
    let num = 2 * width * 65536 + aspect;
    let h0 = num / (2 * aspect);
    let h = c.image_height;

    // The height is between one and the width of the widest image.
    vstd::arithmetic::div_mod::lemma_div_pos_is_pos(num, 2 * aspect);
    assert(h0 <= num / 131072) by {
        vstd::arithmetic::div_mod::lemma_div_is_ordered_by_denominator(num, 131072, 2 * aspect);
    }
    assert(num / 131072 <= 137443147776int / 131072) by {
        vstd::arithmetic::div_mod::lemma_div_is_ordered(num, 137443147776, 131072);
    }
    assert(137443147776int / 131072 <= 137443147776int) by {
        vstd::arithmetic::div_mod::lemma_div_nonincreasing(137443147776, 131072);
    }
    assert(1 <= h <= 137438953472) by {
        assert(131072 * 1048608 == 137443147776int);
        vstd::arithmetic::div_mod::lemma_fundamental_div_mod(137443147776, 131072);
        vstd::arithmetic::div_mod::lemma_mod_division_less_than_divisor(137443147776, 131072);
    }

    // The averaging scale lies between zero and one unit.
    let sden = spp * 65536;
    assert(65536 <= sden <= 4294967296) by (nonlinear_arith)
        requires
            1 <= spp <= 65536,
            sden == spp * 65536,
    ;
    let q = 4294967296int / sden;
    assert(c.pixel_samples_scale == q) by {
        assert(65536 * 65536 == 4294967296int);
        assert(iabs(4294967296int) == 4294967296int && iabs(sden) == sden);
    }
    vstd::arithmetic::div_mod::lemma_div_pos_is_pos(4294967296, sden);
    assert(q <= 4294967296int / 65536) by {
        vstd::arithmetic::div_mod::lemma_div_is_ordered_by_denominator(4294967296, 65536, sden);
    }
    assert(4294967296int / 65536 == 65536) by {
        vstd::arithmetic::div_mod::lemma_div_multiples_vanish(65536, 65536);
    }

    // The viewport width is at most a quarter of the coordinate range:
    // narrow images are bounded outright, and wide ones have enough
    // rows that the width per row stays small.
    let vw = (2 * 65536 * width) / h;
    vstd::arithmetic::div_mod::lemma_div_pos_is_pos(2 * 65536 * width, h);
    if width <= 96 {
        assert(vw <= 2 * 65536 * width) by {
            vstd::arithmetic::div_mod::lemma_div_nonincreasing(2 * 65536 * width, h);
        }
        assert(2 * 65536 * width <= 12582912) by (nonlinear_arith)
            requires
                width <= 96,
        ;
    } else {
        // From the defining division: 2 * aspect * h0 > num - 2 * aspect.
        vstd::arithmetic::div_mod::lemma_fundamental_div_mod(num, 2 * aspect);
        vstd::arithmetic::div_mod::lemma_mod_division_less_than_divisor(num, 2 * aspect);
        assert((2 * aspect) * h0 >= 2 * width * 65536 - aspect);
        // Ninety-six rows per unit of width.
        assert(96 * ((2 * aspect) * h0) >= (2 * aspect) * width) by (nonlinear_arith)
            requires
                (2 * aspect) * h0 >= 2 * width * 65536 - aspect,
                65536 <= aspect <= 4194304,
                97 <= width,
        ;
        assert(96 * h0 >= width) by (nonlinear_arith)
            requires
                96 * ((2 * aspect) * h0) >= (2 * aspect) * width,
                0 < aspect,
        ;
        assert(h0 >= 1);
        assert(h == h0);
        // The division by the height caps the viewport width.
        vstd::arithmetic::div_mod::lemma_fundamental_div_mod(2 * 65536 * width, h);
        vstd::arithmetic::div_mod::lemma_mod_division_less_than_divisor(2 * 65536 * width, h);
        assert(h * vw <= 2 * 65536 * width);
        assert(vw <= 12582912) by (nonlinear_arith)
            requires
                h * vw <= 2 * 65536 * width,
                96 * h >= width,
                1 <= h,
                0 <= vw,
        ;
    }
    assert(0 <= vw <= 12582912);

    // Pixel steps: a row of steps stays within the viewport width, a
    // column within the viewport height.
    lemma_grid_step(vw, width);
    lemma_grid_step(131072, h);
    let dux = c.pixel_delta_u.x;
    let dvy = c.pixel_delta_v.y;
    assert(dux == tdiv(vw * 65536, width * 65536));
    assert(0 <= dux) by {
        crate::fx::lemma_iabs_mul(vw, 65536);
        crate::fx::lemma_iabs_mul(width, 65536);
        vstd::arithmetic::div_mod::lemma_div_pos_is_pos(vw * 65536, width * 65536);
    }
    assert(width * dux <= vw);
    assert(iabs(dux) * width <= 12582912) by (nonlinear_arith)
        requires
            iabs(dux) == dux,
            width * dux <= vw,
            vw <= 12582912,
            0 <= dux,
            1 <= width,
    ;
    assert(dvy == -tdiv(131072int * 65536, h * 65536)) by {
        crate::fx::lemma_iabs_mul(-131072, 65536);
        crate::fx::lemma_iabs_mul(131072, 65536);
        crate::fx::lemma_iabs_mul(h, 65536);
    }
    let qv = tdiv(131072int * 65536, h * 65536);
    assert(0 <= qv) by {
        crate::fx::lemma_iabs_mul(131072, 65536);
        crate::fx::lemma_iabs_mul(h, 65536);
        vstd::arithmetic::div_mod::lemma_div_pos_is_pos(131072int * 65536, h * 65536);
    }
    assert(h * qv <= 131072);
    assert(iabs(dvy) * h <= 12582912) by (nonlinear_arith)
        requires
            iabs(dvy) == qv,
            h * qv <= 131072,
            0 <= qv,
            1 <= h,
    ;
    // The off-axis steps are zero.
    assert(c.pixel_delta_u.y == 0 && c.pixel_delta_u.z == 0) by {
        crate::fx::lemma_tdiv_zero(width * 65536);
        assert(0 * 65536 == 0);
        assert(width * 65536 != 0) by (nonlinear_arith)
            requires
                1 <= width,
        ;
    }
    assert(c.pixel_delta_v.x == 0 && c.pixel_delta_v.z == 0) by {
        crate::fx::lemma_tdiv_zero(h * 65536);
        assert(0 * 65536 == 0);
        assert(h * 65536 != 0) by (nonlinear_arith)
            requires
                1 <= h,
        ;
    }
    assert(iabs(c.pixel_delta_u.y) * width == 0) by (nonlinear_arith)
        requires
            c.pixel_delta_u.y == 0,
    ;
    assert(iabs(c.pixel_delta_u.z) * width == 0) by (nonlinear_arith)
        requires
            c.pixel_delta_u.z == 0,
    ;
    assert(iabs(c.pixel_delta_v.x) * h == 0) by (nonlinear_arith)
        requires
            c.pixel_delta_v.x == 0,
    ;
    assert(iabs(c.pixel_delta_v.z) * h == 0) by (nonlinear_arith)
        requires
            c.pixel_delta_v.z == 0,
    ;

    // The location of the first pixel: at most half the viewport off
    // axis, one unit vertically, one unit back.
    let q2 = fx_div_s(vw, 131072);
    assert(q2 == tdiv(vw * 65536, 131072));
    assert(0 <= q2 && 2 * q2 <= vw) by {
        crate::fx::lemma_iabs_mul(vw, 65536);
        vstd::arithmetic::div_mod::lemma_div_pos_is_pos(vw * 65536, 131072);
        vstd::arithmetic::div_mod::lemma_fundamental_div_mod(vw * 65536, 131072);
        vstd::arithmetic::div_mod::lemma_mod_division_less_than_divisor(vw * 65536, 131072);
        assert(2 * tdiv(vw * 65536, 131072) <= vw) by (nonlinear_arith)
            requires
                tdiv(vw * 65536, 131072) == (vw * 65536) / 131072,
                131072 * ((vw * 65536) / 131072) <= vw * 65536,
                0 <= (vw * 65536) / 131072,
        ;
    }
    assert(fx_div_s(-131072, 131072) == -65536) by {
        assert((-65536) * 131072 == (-131072) * 65536);
        crate::fx::lemma_tdiv_exact(-65536, 131072);
    }
    assert(fx_div_s(0, 131072) == 0) by {
        crate::fx::lemma_tdiv_zero(131072);
        assert(0 * 65536 == 0);
    }
    let hx = fx_mul_s(32768, dux + 0);
    assert(0 <= hx <= dux) by {
        crate::fx::lemma_iabs_mul(32768, dux);
        vstd::arithmetic::div_mod::lemma_div_pos_is_pos(32768 * dux, 65536);
        vstd::arithmetic::div_mod::lemma_fundamental_div_mod(32768 * dux, 65536);
        vstd::arithmetic::div_mod::lemma_mod_division_less_than_divisor(32768 * dux, 65536);
        assert((32768 * dux) / 65536 <= dux) by (nonlinear_arith)
            requires
                65536 * ((32768 * dux) / 65536) <= 32768 * dux,
                0 <= (32768 * dux) / 65536,
                0 <= dux,
        ;
    }
    let hy = fx_mul_s(32768, 0 + dvy);
    assert(iabs(dvy) <= 131072) by (nonlinear_arith)
        requires
            iabs(dvy) == qv,
            0 <= qv,
            h * qv <= 131072,
            1 <= h,
    ;
    assert(iabs(hy) <= 65536) by {
        lemma_fx_mul_bound(32768, dvy, 32768, 131072);
    }
    let hz = fx_mul_s(32768, 0int + 0);
    assert(hz == 0) by {
        crate::fx::lemma_tdiv_zero(65536);
        assert(32768 * 0 == 0);
    }
    assert(dux <= 12582912) by (nonlinear_arith)
        requires
            iabs(dux) * width <= 12582912,
            1 <= width,
            0 <= dux,
    ;
    assert(c.pixel00_loc.x == 0 - 0 - q2 - 0 + hx);
    assert(iabs(c.pixel00_loc.x) <= 12582912);
    assert(c.pixel00_loc.y == 0 - 0 - 0 - (-65536) + hy);
    assert(iabs(c.pixel00_loc.y) <= 131072);
    assert(c.pixel00_loc.z == 0 - 65536 - 0 - 0 + 0);
}

/// One axis of the tiling: `n` steps of `tdiv(v * 65536, n * 65536)`
/// fall short of `v` by less than `n` raw units.
proof fn lemma_grid_step(v: int, n: int)
    requires
        0 <= v,
        1 <= n,
    ensures
        0 <= v - n * tdiv(v * 65536, n * 65536) < n,
{
    let k = 65536int;
    let q = tdiv(v * k, n * k);
    assert(q == (v * k) / (n * k)) by {
        crate::fx::lemma_iabs_mul(v, k);
        crate::fx::lemma_iabs_mul(n, k);
        assert(0 <= v * k && 0 < n * k) by (nonlinear_arith)
            requires
                0 <= v,
                1 <= n,
                k == 65536,
        ;
    }
    vstd::arithmetic::div_mod::lemma_fundamental_div_mod(v * k, n * k);
    vstd::arithmetic::div_mod::lemma_mod_division_less_than_divisor(v * k, n * k);
    assert(0 < n * k) by (nonlinear_arith)
        requires
            1 <= n,
            k == 65536,
    ;
    let rem = (v * k) % (n * k);
    assert(v * k == (n * k) * q + rem);
    assert((v - n * q) * k == rem) by (nonlinear_arith)
        requires
            v * k == (n * k) * q + rem,
            k == 65536,
    ;
    assert(0 <= v - n * q < n) by (nonlinear_arith)
        requires
            (v - n * q) * k == rem,
            0 <= rem < n * k,
            k == 65536,
            1 <= n,
    ;
}

/// The sum of the first `n` sample colours of pixel `(i, j)`.
pub open spec fn pixel_samples_s(
    c: CameraS,
    objs: Seq<crate::sphere::SphereS>,
    i: int,
    j: int,
    n: nat,
    s: u64,
) -> (Vec3s, u64)
    decreases n,
{
    if n == 0 {
        (Vec3s { x: 0, y: 0, z: 0 }, s)
    } else {
        let prev = pixel_samples_s(c, objs, i, j, (n - 1) as nat, s);
        let ray = get_ray_s(c, i, j, prev.1);
        let col = ray_colour_s(objs, ray.0, MAX_DEPTH as nat, ray.1);
        (v_add(prev.0, col.0), col.1)
    }
}

/// The colour of pixel `(i, j)`: the accumulated samples averaged by
/// the pixel-sample scale.
pub open spec fn pixel_s(c: CameraS, objs: Seq<crate::sphere::SphereS>, i: int, j: int, s: u64) -> (
    Vec3s,
    u64,
) {
    let acc = pixel_samples_s(c, objs, i, j, c.samples_per_pixel as nat, s);
    (v_scale(c.pixel_samples_scale, acc.0), acc.1)
}

/// The first `n` pixels of row `j`, left to right.
pub open spec fn row_s(
    c: CameraS,
    objs: Seq<crate::sphere::SphereS>,
    j: int,
    n: nat,
    s: u64,
) -> (Seq<Vec3s>, u64)
    decreases n,
{
    if n == 0 {
        (Seq::empty(), s)
    } else {
        let prev = row_s(c, objs, j, (n - 1) as nat, s);
        let px = pixel_s(c, objs, n - 1, j, prev.1);
        (prev.0.push(px.0), px.1)
    }
}

/// The first `n` rows of the image, top to bottom.
pub open spec fn render_s(c: CameraS, objs: Seq<crate::sphere::SphereS>, n: nat, s: u64) -> (
    Seq<Vec3s>,
    u64,
)
    decreases n,
{
    if n == 0 {
        (Seq::empty(), s)
    } else {
        let prev = render_s(c, objs, (n - 1) as nat, s);
        let row = row_s(c, objs, n - 1, c.image_width as nat, prev.1);
        (prev.0 + row.0, row.1)
    }
}

} // verus!
