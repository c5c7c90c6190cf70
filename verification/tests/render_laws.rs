//! Scenario tests for the intersection, scattering, integration and
//! sampling behaviour; one fixed-point unit is 65536.
use pathtrace::camera::Camera;
use pathtrace::color::{finalize_pixel, to_rgb8};
use pathtrace::hittable::{HitRecord, Hittable, HittableList, Obj};
use pathtrace::material::{Dielectric, Lambertian, Material, Materials, Metal};
use pathtrace::ray::Ray;
use pathtrace::render::render;
use pathtrace::rng::Rng;
use pathtrace::sphere::Sphere;
use pathtrace::vec3::Vec3;

fn gray() -> Materials {
    Materials::Lambertian(Lambertian::new(Vec3::new(32768, 32768, 32768)))
}

fn small_sphere() -> Sphere {
    Sphere::new(Vec3::new(0, 0, -65536), 32768, gray())
}

#[test]
fn intersection_direct_hit() {
    let s = small_sphere();
    let r = Ray::new(Vec3::new(0, 0, 0), Vec3::new(0, 0, -65536));
    let hit = s.hit(&r, 66, 0x8000_0000).unwrap();

    assert_eq!(hit.t, 32768);
    assert_eq!(hit.point, Vec3::new(0, 0, -32768));
    assert_eq!(hit.normal, Vec3::new(0, 0, 65536));
    assert!(hit.front_face);
    assert!(r.direction.dot(hit.normal) <= 0);
}

#[test]
fn miss_perpendicular_distance() {
    let s = small_sphere();
    let r = Ray::new(Vec3::new(0, 131072, 0), Vec3::new(0, 0, -65536));

    assert!(s.hit(&r, 66, 0x8000_0000).is_none());
}

#[test]
fn two_sphere_scene_center_ray() {
    let mut world = HittableList::new();
    world.add(Obj::Sphere(small_sphere()));
    world.add(Obj::Sphere(Sphere::new(
        Vec3::new(0, -6586368, -65536),
        6553600,
        gray(),
    )));
    let r = Ray::new(Vec3::new(0, 0, 0), Vec3::new(0, 0, -65536));
    let hit = world.hit(&r, 66, 0x8000_0000).unwrap();

    assert_eq!(hit.t, 32768);
    assert_eq!(hit.normal, Vec3::new(0, 0, 65536));

    // The same ray, produced by a camera at the origin through the
    // image center, hits the small sphere, not the ground.
    let cam = test_camera();
    let center_ray = cam.ger_ray(32768, 32768);
    assert_eq!(center_ray.direction, Vec3::new(0, 0, -65536));
    assert_eq!(world.hit(&center_ray, 66, 0x8000_0000).unwrap().t, 32768);
}

#[test]
fn closest_hit_wins_either_order() {
    let near = Sphere::new(Vec3::new(0, 0, -65536), 32768, gray());
    let far = Sphere::new(Vec3::new(0, 0, -131072), 32768, gray());
    let r = Ray::new(Vec3::new(0, 0, 0), Vec3::new(0, 0, -65536));

    let mut a = HittableList::new();
    a.add(Obj::Sphere(near));
    a.add(Obj::Sphere(far));
    let mut b = HittableList::new();
    b.add(Obj::Sphere(far));
    b.add(Obj::Sphere(near));

    assert_eq!(a.hit(&r, 66, 0x8000_0000).unwrap().t, 32768);
    assert_eq!(b.hit(&r, 66, 0x8000_0000).unwrap().t, 32768);
}

#[test]
fn depth_zero_is_black() {
    let mut world = HittableList::new();
    world.add(Obj::Sphere(small_sphere()));
    let r = Ray::new(Vec3::new(0, 0, 0), Vec3::new(0, 0, -65536));
    let mut rng = Rng::with_seed(7);

    assert_eq!(r.color(&world, 0, &mut rng), Vec3::new(0, 0, 0));
    assert_eq!(rng, Rng::with_seed(7));
}

#[test]
fn background_zenith_and_horizon() {
    let world = HittableList::new();
    let up = Ray::new(Vec3::new(0, 0, 0), Vec3::new(0, 65536, 0));
    let down = Ray::new(Vec3::new(0, 0, 0), Vec3::new(0, -65536, 0));
    let mut rng = Rng::with_seed(1);

    assert_eq!(up.color(&world, 4, &mut rng), Vec3::new(32768, 45875, 65536));
    assert_eq!(down.color(&world, 4, &mut rng), Vec3::new(65536, 65536, 65536));
}

#[test]
fn metal_mirror_reflection() {
    let mirror = Materials::Metal(Metal::new(Vec3::new(65536, 65536, 65536), 0));
    let mut world = HittableList::new();
    world.add(Obj::Sphere(Sphere::new(Vec3::new(0, 0, -65536), 32768, mirror)));
    let r = Ray::new(Vec3::new(0, 0, 0), Vec3::new(0, 0, -65536));
    let mut rng = Rng::with_seed(9);

    // The fuzz is zero, so the bounce reflects straight back along +z and
    // meets the background gradient at its midpoint.
    assert_eq!(r.color(&world, 3, &mut rng), Vec3::new(49152, 55705, 65536));
}

#[test]
fn lambertian_scatter_attenuates_by_albedo() {
    let albedo = Vec3::new(32768, 16384, 8192);
    let l = Lambertian::new(albedo);
    let s = Sphere::new(Vec3::new(0, 0, -65536), 32768, Materials::Lambertian(l));
    let r = Ray::new(Vec3::new(0, 0, 0), Vec3::new(0, 0, -65536));
    let hit = s.hit(&r, 66, 0x8000_0000).unwrap();
    let mut rng = Rng::with_seed(11);

    let (scattered, attenuation) = l.scatter(&r, hit, &mut rng).unwrap();
    assert_eq!(attenuation, albedo);
    assert_eq!(scattered.origin, hit.point);
    assert!(!scattered.direction.near_zero());
}

#[test]
fn schlick_reflectance_at_normal_incidence() {
    let d = Dielectric::new(98304);

    // (1 - cosine)^5 vanishes at normal incidence, leaving exactly
    // ((1 - n) / (1 + n))^2, about 0.04 at the fixed-point scale.
    assert_eq!(d.reflectance(65536, 98304), 2621);
}

#[test]
fn dielectric_straight_through() {
    let d = Dielectric::new(98304);
    let s = Sphere::new(
        Vec3::new(0, 0, -65536),
        32768,
        Materials::Dielectric(d),
    );
    let r = Ray::new(Vec3::new(0, 0, 0), Vec3::new(0, 0, -65536));
    let hit = s.hit(&r, 66, 0x8000_0000).unwrap();
    let mut rng = Rng::with_seed(1);

    // The first unit draw of this seed exceeds the reflectance, so the
    // perpendicular ray passes straight through, attenuated by white.
    let (scattered, attenuation) = d.scatter(&r, hit, &mut rng).unwrap();
    assert_eq!(attenuation, Vec3::new(65536, 65536, 65536));
    assert_eq!(scattered.direction, Vec3::new(0, 0, -65536));
}

#[test]
fn reflect_about_axis() {
    let v = Vec3::new(65536, -65536, 0);
    let n = Vec3::new(0, 65536, 0);

    assert_eq!(v.reflect(n), Vec3::new(65536, 65536, 0));
}

#[test]
fn refract_perpendicular() {
    let uv = Vec3::new(0, 0, -65536);
    let n = Vec3::new(0, 0, 65536);

    assert_eq!(uv.refract(n, 43690), Vec3::new(0, 0, -65536));
}

#[test]
fn finalize_and_quantize() {
    let sum = Vec3::new(4 * 65536, 0, 4 * 16384);
    let c = finalize_pixel(&sum, 4);

    assert_eq!(c, Vec3::new(65470, 0, 32768));
    assert_eq!(to_rgb8(&c), (255, 0, 128));
}

#[test]
fn sampler_is_deterministic() {
    let mut a = Rng::with_seed(123);
    let mut b = Rng::with_seed(123);
    for _ in 0..16 {
        let x = a.next_unit();
        assert_eq!(x, b.next_unit());
        assert!(0 <= x && x < 65536);
        let y = a.in_range(-65536, 65536);
        assert_eq!(y, b.in_range(-65536, 65536));
        assert!(-65536 <= y && y < 65536);
    }
}

fn test_camera() -> Camera {
    Camera::new(
        Vec3::new(0, 0, 0),
        Vec3::new(0, 0, -65536),
        Vec3::new(0, 65536, 0),
        65536,
        116508,
    )
}

#[test]
fn camera_center_ray() {
    let cam = test_camera();
    let r = cam.ger_ray(32768, 32768);

    assert_eq!(r.origin, Vec3::new(0, 0, 0));
    assert_eq!(r.direction, Vec3::new(0, 0, -65536));
}

#[test]
fn render_same_seed_identical() {
    let mut world = HittableList::new();
    world.add(Obj::Sphere(small_sphere()));
    world.add(Obj::Sphere(Sphere::new(
        Vec3::new(0, -6586368, -65536),
        6553600,
        gray(),
    )));
    let cam = test_camera();

    let img1 = render(&cam, &world, 4, 3, 2, 3, 42);
    let img2 = render(&cam, &world, 4, 3, 2, 3, 42);

    assert_eq!(img1.len(), 12);
    assert_eq!(img1, img2);
    for p in img1.iter() {
        assert!(0 <= p.x && p.x <= 65470);
        assert!(0 <= p.y && p.y <= 65470);
        assert!(0 <= p.z && p.z <= 65470);
    }
}

#[test]
fn render_differs_across_seeds() {
    let mut world = HittableList::new();
    world.add(Obj::Sphere(small_sphere()));
    let cam = test_camera();

    let img1 = render(&cam, &world, 4, 3, 2, 3, 1);
    let img2 = render(&cam, &world, 4, 3, 2, 3, 2);

    assert_eq!(img1.len(), img2.len());
    assert!(img1 != img2);
}
