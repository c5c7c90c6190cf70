//! Tests of the samplers and the remaining vector helpers; one
//! fixed-point unit is 65536.
use pathtrace::ray::Ray;
use pathtrace::rng::Rng;
use pathtrace::sphere::{random_in_unit_sphere, random_unit_vector};
use pathtrace::vec3::{random_scalar, Vec3};

#[test]
fn accessors() {
    let a = Vec3::new(1, 2, 3);
    assert_eq!(a.x(), 1);
    assert_eq!(a.y(), 2);
    assert_eq!(a.z(), 3);
}

#[test]
fn clamp_components() {
    let a = Vec3::new(-5, 70000, 300);
    assert_eq!(a.clamp(0, 65535), Vec3::new(0, 65535, 300));
}

#[test]
fn sqrt_components() {
    // sqrt(4) = 2 and sqrt(1/4) = 1/2, exactly at this scale.
    let a = Vec3::new(4 * 65536, 16384, 0);
    assert_eq!(a.sqrt(), Vec3::new(2 * 65536, 32768, 0));
}

#[test]
fn mul_add() {
    let a = Vec3::new(65536, -131072, 32768);
    let b = Vec3::new(100, 200, 300);
    // a * 2 + b
    assert_eq!(a.mul_add_vec(131072, b), Vec3::new(131172, -261944, 65836));
}

#[test]
fn near_zero_detects_vanishing() {
    assert!(Vec3::new(0, 0, 0).near_zero());
    assert!(!Vec3::new(0, 1, 0).near_zero());
}

#[test]
fn ray_at_parameter() {
    let r = Ray::new(Vec3::new(65536, 0, 0), Vec3::new(0, 0, -65536));
    // P(2) = origin + 2 * direction
    assert_eq!(r.at(131072), Vec3::new(65536, 0, -131072));
}

#[test]
fn random_vector_in_unit_cube() {
    let mut rng = Rng::with_seed(3);
    let v = Vec3::random(&mut rng);
    assert!(0 <= v.x && v.x < 65536);
    assert!(0 <= v.y && v.y < 65536);
    assert!(0 <= v.z && v.z < 65536);
}

#[test]
fn random_vector_in_range() {
    let mut rng = Rng::with_seed(4);
    let v = Vec3::random_in_range(-65536, 65536, &mut rng);
    assert!(-65536 <= v.x && v.x < 65536);
    assert!(-65536 <= v.y && v.y < 65536);
    assert!(-65536 <= v.z && v.z < 65536);
}

#[test]
fn random_disk_in_plane() {
    let mut rng = Rng::with_seed(5);
    for _ in 0..32 {
        let v = Vec3::random_in_unit_disk(&mut rng);
        assert_eq!(v.z, 0);
        assert!(v.len_squared() < 65536);
    }
}

#[test]
fn random_sphere_inside_ball() {
    let mut rng = Rng::with_seed(6);
    for _ in 0..32 {
        let v = random_in_unit_sphere(&mut rng);
        assert!(v.len_squared() < 65536);
        assert!(!v.near_zero());
    }
}

#[test]
fn random_unit_vector_components() {
    let mut rng = Rng::with_seed(8);
    for _ in 0..32 {
        let v = random_unit_vector(&mut rng);
        assert!(-65536 <= v.x && v.x <= 65536);
        assert!(-65536 <= v.y && v.y <= 65536);
        assert!(-65536 <= v.z && v.z <= 65536);
    }
}

#[test]
fn random_scalar_in_bounds() {
    let mut rng = Rng::with_seed(10);
    for _ in 0..32 {
        let x = random_scalar(-32768, 98304, &mut rng);
        assert!(-32768 <= x && x < 98304);
    }
}

#[test]
fn entropy_seeded_sampler_draws_units() {
    let mut rng = Rng::from_entropy();
    let x = rng.next_unit();
    assert!(0 <= x && x < 65536);
}
