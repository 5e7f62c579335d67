use raytraceweekend::camera::Camera;
use raytraceweekend::hit::{Hittable, HittableList};
use raytraceweekend::ray::Ray;
use raytraceweekend::rng::Rng;
use raytraceweekend::sphere::Sphere;
use raytraceweekend::{dot, random_on_hemisphere, scalar_mul, Point3, Vec3};

/// A whole number as a fixed-point scalar.
fn fx(x: i64) -> i64 {
    x * 65536
}

/// A ratio as a fixed-point scalar, truncated toward zero.
fn fxr(n: i64, d: i64) -> i64 {
    n * 65536 / d
}

fn single_sphere_world() -> HittableList {
    let mut world = HittableList::new();
    world.add(Sphere::new(Point3::new(0, 0, fx(-1)), fxr(1, 2)));
    world
}

fn two_sphere_world() -> HittableList {
    let mut world = single_sphere_world();
    world.add(Sphere::new(Point3::new(0, fxr(-201, 2), fx(-1)), fx(100)));
    world
}

#[test]
fn test_image_height_at_least_one() {
    // The widest aspect ratio the camera accepts still gives a one
    // pixel high image, never zero.
    let cam = Camera::new(4294967296, 400, 10);
    assert_eq!(cam.image_height, 1);
    let cam = Camera::new(fx(100), 3, 10);
    assert_eq!(cam.image_height, 1);
}

#[test]
fn test_image_dimensions_sixteen_nine() {
    let cam = Camera::new(fxr(16, 9), 400, 10);
    assert_eq!(cam.image_width, 400);
    assert_eq!(cam.image_height, 225);
}

#[test]
fn test_default_camera() {
    let cam = Camera::default();
    assert_eq!(cam.image_width, 400);
    assert_eq!(cam.image_height, 400);
    assert_eq!(cam.samples_per_pixel, 10);
    assert_eq!(cam.centre, Point3::new(0, 0, 0));
}

#[test]
fn test_pixel_grid_tiles_viewport() {
    let cam = Camera::new(fxr(16, 9), 400, 10);
    let h = cam.image_height as i64;
    let w = cam.image_width as i64;
    let vw: i64 = 2 * 65536 * w / h;
    // Horizontal steps recover the viewport width up to less than one
    // raw unit per pixel.
    let gap_u = vw - w * cam.pixel_delta_u.x;
    assert!(0 <= gap_u && gap_u < w);
    // Vertical steps likewise; the vertical edge points down.
    let gap_v = -131072 - h * cam.pixel_delta_v.y;
    assert!(-h < gap_v && gap_v <= 0);
    assert!(cam.pixel_delta_u.x > 0);
    assert!(cam.pixel_delta_v.y < 0);
}

#[test]
fn test_axial_normal_colouring() {
    // Straight at the sphere: it is hit at half a unit, the normal
    // points back at the camera, and the normal colouring is exactly
    // half of white plus the normal.
    let world = single_sphere_world();
    let ray = Ray::new(Point3::new(0, 0, 0), Vec3::new(0, 0, fx(-1)));
    let rec = world.hit(&ray, 0, i64::MAX).expect("expected a hit");
    assert_eq!(rec.t, fxr(1, 2));
    assert_eq!(rec.normal, Vec3::new(0, 0, fx(1)));
    assert!(rec.front_face);
    let col = Camera::ray_colour_normal(&ray, &world);
    assert_eq!(col, Vec3::new(fxr(1, 2), fxr(1, 2), fx(1)));
}

#[test]
fn test_sky_gradient() {
    let world = HittableList::new();
    // Straight up: pure sky blue.
    let up = Ray::new(Point3::new(0, 0, 0), Vec3::new(0, fx(1), 0));
    assert_eq!(Camera::ray_colour_normal(&up, &world), Vec3::new(32768, 45875, fx(1)));
    // At the horizon: the even blend of white and sky blue.
    let level = Ray::new(Point3::new(0, 0, 0), Vec3::new(fx(1), 0, 0));
    assert_eq!(Camera::ray_colour_normal(&level, &world), Vec3::new(49152, 55705, fx(1)));
    // Straight down: pure white.
    let down = Ray::new(Point3::new(0, 0, 0), Vec3::new(0, fx(-1), 0));
    assert_eq!(Camera::ray_colour_normal(&down, &world), Vec3::new(fx(1), fx(1), fx(1)));
}

#[test]
fn test_single_sphere_scene() {
    // A sphere of radius one half at minus one down the view axis,
    // camera at the origin: the centre of the image shows the disc,
    // the corner shows the sky gradient.
    let cam = Camera::new(fxr(16, 9), 400, 10);
    let world = single_sphere_world();

    let centre_dir = cam
        .pixel00_loc
        .add(scalar_mul(fx(200), cam.pixel_delta_u))
        .add(scalar_mul(fx(112), cam.pixel_delta_v));
    let centre_ray = Ray::new(cam.centre, centre_dir.sub(cam.centre));
    let rec = world.hit(&centre_ray, 0, i64::MAX).expect("disc expected at the image centre");
    assert!(rec.front_face);
    assert!(rec.normal.z > 65000);
    let centre_col = Camera::ray_colour_normal(&centre_ray, &world);
    assert!(centre_col.z > 65000);

    let corner_ray = Ray::new(cam.centre, cam.pixel00_loc.sub(cam.centre));
    assert!(world.hit(&corner_ray, 0, i64::MAX).is_none());
    let corner_col = Camera::ray_colour_normal(&corner_ray, &world);
    // Sky colours keep a full blue channel; the blend leans toward
    // white near the horizon and toward blue upward.
    assert_eq!(corner_col.z, fx(1));
    assert!(corner_col.x > 32768 && corner_col.x < fx(1));
}

#[test]
fn test_renderable_check() {
    // Cameras of moderate size pass the render precondition check; a
    // degenerate hand-built one does not.
    assert!(Camera::new(fxr(16, 9), 400, 10).renderable());
    assert!(Camera::default().renderable());
    let mut broken = Camera::default();
    broken.centre = Vec3::new(fx(1), 0, 0);
    assert!(!broken.renderable());
}

#[test]
fn test_render_deterministic() {
    // The same seed gives a bit-identical image (and the generator
    // ends in the same state); rendering is a pure function of
    // camera, scene and seed.
    let cam = Camera::new(fx(1), 16, 2);
    assert_eq!(cam.image_height, 16);
    let world = two_sphere_world();
    let mut rng_a = Rng::new(42);
    let mut rng_b = Rng::new(42);
    let image_a = cam.render(&world, &mut rng_a);
    let image_b = cam.render(&world, &mut rng_b);
    assert_eq!(image_a.len(), 256);
    assert_eq!(image_a, image_b);
    assert_eq!(rng_a.state, rng_b.state);
}

#[test]
fn test_render_row_matches_render() {
    // Rendering row by row from the same seed walks the same pixels
    // in the same order.
    let cam = Camera::new(fx(1), 8, 2);
    let world = two_sphere_world();
    let mut rng_whole = Rng::new(7);
    let image = cam.render(&world, &mut rng_whole);
    let mut rng_rows = Rng::new(7);
    let mut stitched = Vec::new();
    for j in 0..cam.image_height {
        let mut row = cam.render_row(&world, j, &mut rng_rows);
        stitched.append(&mut row);
    }
    assert_eq!(image, stitched);
    assert_eq!(rng_whole.state, rng_rows.state);
}

#[test]
fn test_hemisphere_draw_stays_on_hemisphere() {
    let normal = Vec3::new(0, 0, fx(1));
    let mut rng = Rng::new(1234);
    for _ in 0..32 {
        let d = random_on_hemisphere(&normal, &mut rng);
        assert!(dot(&d, &normal) >= 0);
        assert!(d.x.abs() <= 131072 && d.y.abs() <= 131072 && d.z.abs() <= 131072);
    }
}
