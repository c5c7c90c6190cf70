//! Vector algebra at the fixed-point scale: one unit is 65536.
use pathtrace::fx;
use pathtrace::vec3::Vec3;

#[test]
fn sum() {
    let a = Vec3::new(65536, 131072, 196608);
    let b = Vec3::new(65536, 131072, 196608);

    assert_eq!(a.add(b), Vec3::new(131072, 262144, 393216));
}

#[test]
fn sub() {
    let a = Vec3::new(65536, 131072, 196608);
    let b = Vec3::new(65536, 131072, 196608);

    assert_eq!(a.sub(b), Vec3::new(0, 0, 0));
}

#[test]
fn neg() {
    let a = Vec3::new(65536, 131072, 196608);

    assert_eq!(a.neg(), Vec3::new(-65536, -131072, -196608));
    assert_eq!(a, Vec3::new(65536, 131072, 196608));
}

#[test]
fn mul() {
    let a = Vec3::new(65536, 131072, 196608);
    let b = Vec3::new(131072, 262144, 393216);

    assert_eq!(a.mul(b), Vec3::new(131072, 524288, 1179648));
}

#[test]
fn mul_scalar() {
    let a = Vec3::new(65536, 131072, 196608);
    let b = 3 * 65536;

    assert_eq!(a.scale(b), Vec3::new(196608, 393216, 589824));
}

#[test]
fn div() {
    let a = Vec3::new(131072, 262144, 524288);
    let b = Vec3::new(131072, 131072, 262144);

    assert_eq!(a.div(b), Vec3::new(65536, 131072, 131072));
}

#[test]
fn div_scalar() {
    let a = Vec3::new(131072, 262144, 524288);
    let b = Vec3::new(65536, 131072, 262144);

    assert_eq!(a.div_scalar(2 * 65536), b);
}

#[test]
fn dot() {
    let a = Vec3::new(65536, 131072, 196608);
    let b = Vec3::new(262144, -327680, 393216);

    assert_eq!(a.dot(b), 12 * 65536);
}

#[test]
fn len() {
    let a = Vec3::new(65536, -196608, 262144);
    assert_eq!(a.len(), fx::sqrt_fx(26 * 65536));

    let a = Vec3::new(65536, -196608, 262144);
    assert_eq!(a.len_squared(), 26 * 65536);
}

#[test]
fn unit() {
    let a = Vec3::new(65536, -196608, 262144);
    let len = a.len();

    assert_eq!(
        a.unit_vector(),
        Vec3::new(
            fx::sdiv(65536, len),
            fx::sdiv(-196608, len),
            fx::sdiv(262144, len)
        )
    );
}

#[test]
fn cross() {
    let a = Vec3::new(131072, 196608, 262144);
    let b = Vec3::new(327680, 393216, 458752);

    assert_eq!(a.cross(b), Vec3::new(-196608, 393216, -196608));
}
