//! The sphere primitive and its ray intersection test, together with the
//! random direction samplers used by the scattering models.
use crate::fx;
use crate::fx::{abs_i, sdiv_s, smul_s, sqrt_i, SCALE};
use crate::hittable::{HitRecord, HitS, Hittable, COORD_BOUND, POINT_BOUND, RAY_BOUND, T_LIMIT};
use crate::material::Materials;
use crate::ray::{Point3, Ray, RayS};
use crate::rng::Rng;
use crate::vec3::{
    lemma_dot_le, lemma_norm2_nonneg, lemma_scale_le, rand_range3_s, Vec3, V3, SAMPLE_TRIES,
};
use vstd::prelude::*;

verus! {

/// A sphere.  A negative radius models a hollow, inverted shell: the
/// intersection arithmetic divides by the radius, which flips the
/// outward normal, and that flip is intentional.
#[derive(Clone, Copy, Debug, PartialEq, Eq, Structural)]
pub struct Sphere {
    pub center: Point3,
    pub radius: i64,
    pub material: Materials,
}

impl Sphere {
    pub fn new(center: Point3, radius: i64, m: Materials) -> (r: Self)
        requires
            center@.bounded(COORD_BOUND as int),
            1 <= abs_i(radius as int) <= COORD_BOUND,
            m.wf_s(),
        ensures
            r.center == center,
            r.radius == radius,
            r.material == m,
            r.shape_wf(),
    {
        Self { center, radius, material: m }
    }

    /// Whether the sphere's geometry is within the accepted bounds.
    pub fn is_wf(&self) -> (r: bool)
        ensures
            r == self.shape_wf(),
    {
        self.center.bounded_by(COORD_BOUND) && self.radius != 0 && -COORD_BOUND <= self.radius
            && self.radius <= COORD_BOUND && self.material_is_wf()
    }

    /// Whether the material parameters are within the accepted bounds.
    fn material_is_wf(&self) -> (r: bool)
        ensures
            r == self.material.wf_s(),
    {
        match self.material {
            Materials::Lambertian(l) => {
                0 <= l.albedo.x && l.albedo.x <= SCALE && 0 <= l.albedo.y && l.albedo.y <= SCALE
                    && 0 <= l.albedo.z && l.albedo.z <= SCALE
            },
            Materials::Metal(m) => {
                0 <= m.albedo.x && m.albedo.x <= SCALE && 0 <= m.albedo.y && m.albedo.y <= SCALE
                    && 0 <= m.albedo.z && m.albedo.z <= SCALE && -SCALE <= m.fuzz && m.fuzz
                    <= SCALE
            },
            Materials::Dielectric(d) => {
                16384 <= d.index_of_refraction && d.index_of_refraction <= 262144
            },
        }
    }
}

/// The mathematical ray-sphere intersection.  With `oc` the vector from
/// the center to the ray origin: `a = dot(d, d)`, `half_b = dot(oc, d)`,
/// `c = dot(oc, oc) - r^2`; the discriminant `half_b^2 - a * c` is kept
/// exact (at the doubled scale).  The nearer root is tried first and the
/// farther root is the only fallback.  A record is produced only when
/// the hit point and outward normal pass the magnitude guards that every
/// well-formed record promises.
pub open spec fn sphere_hit_s(
    center: V3,
    radius: int,
    material: Materials,
    ray: RayS,
    t_min: int,
    t_max: int,
) -> Option<HitS> {
    let oc = ray.origin.sub_s(center);
    let a = ray.direction.len2_s();
    let half_b = oc.dot_s(ray.direction);
    let c = oc.len2_s() - smul_s(radius, radius);
    let d2 = half_b * half_b - a * c;
    if a < 1 || d2 < 0 {
        None
    } else {
        let sqrtd = sqrt_i(d2);
        let near = sdiv_s(-half_b - sqrtd, a);
        let root = if t_min <= near <= t_max {
            near
        } else {
            sdiv_s(-half_b + sqrtd, a)
        };
        if !(t_min <= root <= t_max) {
            None
        } else {
            let point = ray.at_s(root);
            if !point.bounded(POINT_BOUND as int) {
                None
            } else {
                let outward = point.sub_s(center).div_scale_s(radius);
                if !outward.bounded(2 * (SCALE as int)) || outward.near_zero_s() {
                    None
                } else {
                    let rec = HitS { point, normal: outward, material, t: root, front_face: false };
                    Some(rec.face_corrected(ray))
                }
            }
        }
    }
}

impl Hittable for Sphere {
    open spec fn hit_s(&self, ray: RayS, t_min: int, t_max: int) -> Option<HitS> {
        sphere_hit_s(self.center@, self.radius as int, self.material, ray, t_min, t_max)
    }

    open spec fn shape_wf(&self) -> bool {
        self.center@.bounded(COORD_BOUND as int) && 1 <= abs_i(self.radius as int) <= COORD_BOUND
            && self.material.wf_s()
    }

    fn hit(&self, r: &Ray, t_min: i64, t_max: i64) -> (res: Option<HitRecord>) {
        let oc: Vec3 = r.origin.sub(self.center);
        proof {
            assert(3 * ((RAY_BOUND as int) * (RAY_BOUND as int)) <= 0x2000_0000_0000 * (
            SCALE as int)) by (nonlinear_arith);
            lemma_dot_le(r@.direction, r@.direction, RAY_BOUND as int, RAY_BOUND as int,
                0x2000_0000_0000);
            assert(3 * (0x1000_0000int * (RAY_BOUND as int)) <= 0x800_0000_0000 * (SCALE as int))
                by (nonlinear_arith);
            lemma_dot_le(oc@, r@.direction, 0x1000_0000, RAY_BOUND as int, 0x800_0000_0000);
            assert(3 * (0x1000_0000int * 0x1000_0000) <= 0x400_0000_0000 * (SCALE as int))
                by (nonlinear_arith);
            lemma_dot_le(oc@, oc@, 0x1000_0000, 0x1000_0000, 0x400_0000_0000);
            assert((COORD_BOUND as int) * (COORD_BOUND as int) <= 0x10_0000_0000 * (SCALE as int))
                by (nonlinear_arith);
            fx::lemma_smul_le(
                self.radius as int,
                self.radius as int,
                COORD_BOUND as int,
                COORD_BOUND as int,
                0x10_0000_0000,
            );
            lemma_norm2_nonneg(r@.direction);
            lemma_norm2_nonneg(oc@);
        }
        let a: i64 = r.direction.len_squared();
        let half_b: i64 = oc.dot(r.direction);
        let c: i64 = oc.len_squared() - fx::smul(self.radius, self.radius);
        if a < 1 {
            return None;
        }
        proof {
            assert(-0x1_0000_0000_0000_0000_0000_0000 < (half_b as int) * (half_b as int) < 0x1_0000_0000_0000_0000_0000_0000
                && -0x1_0000_0000_0000_0000_0000_0000 < (a as int) * (c as int) < 0x1_0000_0000_0000_0000_0000_0000)
                by (nonlinear_arith)
                requires
                    abs_i(half_b as int) <= 0x800_0000_0000,
                    abs_i(a as int) <= 0x2000_0000_0000,
                    abs_i(c as int) <= 0x500_0000_0000,
            ;
        }
        let d2: i128 = (half_b as i128) * (half_b as i128) - (a as i128) * (c as i128);
        if d2 < 0 {
            return None;
        }
        let sq: u64 = fx::isqrt(d2 as u128);
        proof {
            assert((sq as int) * (sq as int) <= d2 as int);
            assert(d2 as int <= 0x100_0000_0000_0000_0000_0000) by (nonlinear_arith)
                requires
                    d2 as int == (half_b as int) * (half_b as int) - (a as int) * (c as int),
                    abs_i(half_b as int) <= 0x800_0000_0000,
                    abs_i(a as int) <= 0x2000_0000_0000,
                    abs_i(c as int) <= 0x500_0000_0000,
            ;
            assert(sq as int <= 0x1000_0000_0000) by (nonlinear_arith)
                requires
                    (sq as int) * (sq as int) <= 0x100_0000_0000_0000_0000_0000,
                    sq as int >= 0,
            ;
        }
        let sqrtd: i64 = sq as i64;
        proof {
            lemma_root_div_ok(-(half_b as int) - sqrtd, a as int);
            lemma_root_div_ok(-(half_b as int) + sqrtd, a as int);
        }
        let mut root: i64 = fx::sdiv(-half_b - sqrtd, a);
        if root < t_min || t_max < root {
            root = fx::sdiv(-half_b + sqrtd, a);
            if root < t_min || t_max < root {
                return None;
            }
        }
        proof {
            assert((RAY_BOUND as int) * (T_LIMIT as int) <= 0x10_0000_0000_0000 * (SCALE as int))
                by (nonlinear_arith);
            lemma_scale_le(
                r@.direction,
                root as int,
                RAY_BOUND as int,
                T_LIMIT as int,
                0x10_0000_0000_0000,
            );
        }
        let point: Point3 = r.at(root);
        if !point.bounded_by(POINT_BOUND) {
            return None;
        }
        let rel: Vec3 = point.sub(self.center);
        proof {
            lemma_normal_div_ok(rel@.x, self.radius as int);
            lemma_normal_div_ok(rel@.y, self.radius as int);
            lemma_normal_div_ok(rel@.z, self.radius as int);
        }
        let outward: Vec3 = rel.div_scalar(self.radius);
        if !outward.bounded_by(2 * SCALE) {
            return None;
        }
        if outward.near_zero() {
            return None;
        }
        proof {
            lemma_norm2_nonneg(outward@);
        }
        let mut hr: HitRecord = HitRecord::new(point, outward, root, self.material);
        hr.set_face_normal(r);
        proof {
            assert(hr@.normal.norm2_raw() >= 1) by {
                if !hr@.front_face {
                    assert(hr@.normal == outward@.neg_s());
                    assert(outward@.neg_s().norm2_raw() == outward@.norm2_raw())
                        by (nonlinear_arith);
                } else {
                    assert(hr@.normal == outward@);
                }
            }
        }
        Some(hr)
    }
}

/// The quotient of a root numerator by a positive squared length stays
/// in range: the denominator is at least one.
proof fn lemma_root_div_ok(num: int, a: int)
    requires
        a >= 1,
        abs_i(num) <= 0x2000_0000_0000,
    ensures
        abs_i(sdiv_s(num, a)) <= 0x2000_0000_0000_0000,
{
    fx::lemma_tdiv_mag(num * SCALE, a);
    assert(abs_i(num * SCALE) <= 0x2000_0000_0000_0000) by (nonlinear_arith)
        requires
            abs_i(num) <= 0x2000_0000_0000,
    ;
}

/// Dividing a coordinate of a guarded hit point by a non-zero radius
/// stays in range.
proof fn lemma_normal_div_ok(p: int, radius: int)
    requires
        1 <= abs_i(radius),
        abs_i(p) <= 0x1000_0000,
    ensures
        radius != 0,
        abs_i(sdiv_s(p, radius)) <= 0x1000_0000_0000,
{
    fx::lemma_tdiv_mag(p * SCALE, radius);
    assert(abs_i(p * SCALE) <= 0x1000_0000_0000) by (nonlinear_arith)
        requires
            abs_i(p) <= 0x1000_0000,
    ;
}

/// Every record that the mathematical intersection produces is well
/// formed and lies inside the queried interval.
pub proof fn lemma_sphere_hit_wf(
    center: V3,
    radius: int,
    material: Materials,
    ray: RayS,
    t_min: int,
    t_max: int,
)
    requires
        material.wf_s(),
        t_min >= 0,
    ensures
        match sphere_hit_s(center, radius, material, ray, t_min, t_max) {
            Some(h) => h.wf_s() && t_min <= h.t <= t_max,
            None => true,
        },
{
    let oc = ray.origin.sub_s(center);
    let a = ray.direction.len2_s();
    let half_b = oc.dot_s(ray.direction);
    let c = oc.len2_s() - smul_s(radius, radius);
    let d2 = half_b * half_b - a * c;
    if a >= 1 && d2 >= 0 {
        let sqrtd = sqrt_i(d2);
        let near = sdiv_s(-half_b - sqrtd, a);
        let far = sdiv_s(-half_b + sqrtd, a);
        let root = if t_min <= near <= t_max {
            near
        } else {
            far
        };
        if t_min <= root <= t_max {
            let point = ray.at_s(root);
            if point.bounded(POINT_BOUND as int) {
                let outward = point.sub_s(center).div_scale_s(radius);
                if outward.bounded(2 * (SCALE as int)) && !outward.near_zero_s() {
                    lemma_norm2_nonneg(outward);
                    let rec = HitS {
                        point,
                        normal: outward,
                        material,
                        t: root,
                        front_face: false,
                    };
                    let h = rec.face_corrected(ray);
                    if !h.front_face {
                        assert(h.normal == outward.neg_s());
                        assert(outward.neg_s().norm2_raw() == outward.norm2_raw())
                            by (nonlinear_arith);
                    }
                    assert(h.wf_s());
                }
            }
        }
    }
}

/// Miss correctness: with a negative discriminant — the quadratic has
/// no real root, which is how a line passing the sphere at a distance
/// beyond its radius shows up — the intersection test reports no hit,
/// for any parametric interval.
pub proof fn lemma_miss_negative_discriminant(
    center: V3,
    radius: int,
    material: Materials,
    ray: RayS,
    t_min: int,
    t_max: int,
)
    requires
        ({
            let oc = ray.origin.sub_s(center);
            let a = ray.direction.len2_s();
            let half_b = oc.dot_s(ray.direction);
            let c = oc.len2_s() - smul_s(radius, radius);
            half_b * half_b - a * c < 0
        }),
    ensures
        sphere_hit_s(center, radius, material, ray, t_min, t_max) is None,
{
}

/// Intersection correctness: whenever the test reports a hit, the
/// parametric distance is one of the two analytic roots of the
/// quadratic, the nearer one whenever it lies in the interval, and the
/// farther one only as a fallback; and the reported normal is exactly
/// the line from the center to the hit point, divided by the radius,
/// kept when the front face was struck and negated otherwise.
pub proof fn lemma_hit_analytic_root(
    center: V3,
    radius: int,
    material: Materials,
    ray: RayS,
    t_min: int,
    t_max: int,
)
    ensures
        ({
            let oc = ray.origin.sub_s(center);
            let a = ray.direction.len2_s();
            let half_b = oc.dot_s(ray.direction);
            let c = oc.len2_s() - smul_s(radius, radius);
            let d2 = half_b * half_b - a * c;
            let near = sdiv_s(-half_b - sqrt_i(d2), a);
            let far = sdiv_s(-half_b + sqrt_i(d2), a);
            match sphere_hit_s(center, radius, material, ray, t_min, t_max) {
                Some(h) => {
                    &&& h.t == if t_min <= near <= t_max {
                        near
                    } else {
                        far
                    }
                    &&& t_min <= h.t <= t_max
                    &&& {
                        let outward = ray.at_s(h.t).sub_s(center).div_scale_s(radius);
                        h.normal == if h.front_face {
                            outward
                        } else {
                            outward.neg_s()
                        }
                    }
                },
                None => true,
            }
        }),
{
    let oc = ray.origin.sub_s(center);
    let a = ray.direction.len2_s();
    let half_b = oc.dot_s(ray.direction);
    let c = oc.len2_s() - smul_s(radius, radius);
    let d2 = half_b * half_b - a * c;
    if a >= 1 && d2 >= 0 {
        let near = sdiv_s(-half_b - sqrt_i(d2), a);
        let far = sdiv_s(-half_b + sqrt_i(d2), a);
        let root = if t_min <= near <= t_max {
            near
        } else {
            far
        };
        if t_min <= root <= t_max {
            let point = ray.at_s(root);
            let outward = point.sub_s(center).div_scale_s(radius);
            let rec = HitS { point, normal: outward, material, t: root, front_face: false };
            assert(rec.face_corrected(ray).t == root);
        }
    }
}

/// Rejection sampling of the open unit ball: draw from the enclosing
/// cube until the squared length falls below one (and the draw is not
/// degenerate), with a deterministic fallback once the tries run out.
pub open spec fn rand_sphere_s(s: u64, tries: nat) -> (V3, u64)
    decreases tries,
{
    if tries == 0 {
        (V3 { x: 32768, y: 0, z: 0 }, s)
    } else {
        let pair = rand_range3_s(s, -(SCALE as int), SCALE as int);
        let p = pair.0;
        if p.len2_s() < SCALE && !p.near_zero_s() {
            (p, pair.1)
        } else {
            rand_sphere_s(pair.1, (tries - 1) as nat)
        }
    }
}

/// A unit-ball draw, rescaled to length one.
pub open spec fn rand_unit_vector_s(s: u64) -> (V3, u64) {
    let pair = rand_sphere_s(s, SAMPLE_TRIES as nat);
    (pair.0.unit_s(), pair.1)
}

/// A draw from the open unit ball.
pub fn random_in_unit_sphere(rng: &mut Rng) -> (r: Vec3)
    ensures
        r@ == rand_sphere_s(old(rng).state, SAMPLE_TRIES as nat).0,
        final(rng).state == rand_sphere_s(old(rng).state, SAMPLE_TRIES as nat).1,
        r@.bounded(SCALE as int),
        r@.len2_s() < SCALE,
        r@.norm2_raw() >= 1,
{
    sphere_go(rng, SAMPLE_TRIES)
}

/// One rejection-sampling round for the unit ball.
fn sphere_go(rng: &mut Rng, tries: u64) -> (r: Vec3)
    ensures
        r@ == rand_sphere_s(old(rng).state, tries as nat).0,
        final(rng).state == rand_sphere_s(old(rng).state, tries as nat).1,
        r@.bounded(SCALE as int),
        r@.len2_s() < SCALE,
        r@.norm2_raw() >= 1,
    decreases tries,
{
    if tries == 0 {
        let r = Vec3::new(32768, 0, 0);
        proof {
            assert(32768int * 32768int == 0x4000_0000int) by (nonlinear_arith);
            assert(r@.norm2_raw() == 0x4000_0000);
            assert(16384int * 65536int + 0 == 0x4000_0000int) by (nonlinear_arith);
            vstd::arithmetic::div_mod::lemma_fundamental_div_mod_converse_div(
                0x4000_0000,
                65536,
                16384,
                0,
            );
            fx::lemma_tdiv_mag(r@.norm2_raw(), SCALE as int);
        }
        r
    } else {
        let p: Vec3 = Vec3::random_in_range(-SCALE, SCALE, rng);
        proof {
            lemma_norm2_nonneg(p@);
        }
        if p.len_squared() < SCALE && !p.near_zero() {
            p
        } else {
            sphere_go(rng, tries - 1)
        }
    }
}

/// A random direction of length one: a unit-ball draw, normalized.
pub fn random_unit_vector(rng: &mut Rng) -> (r: Vec3)
    ensures
        r@ == rand_unit_vector_s(old(rng).state).0,
        final(rng).state == rand_unit_vector_s(old(rng).state).1,
        r@.bounded(SCALE as int),
{
    let p: Vec3 = random_in_unit_sphere(rng);
    p.unit_vector()
}

} // verus!
