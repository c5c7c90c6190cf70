//! Surface scattering models: diffuse (Lambertian), specular (Metal with
//! fuzz) and refractive (Dielectric with a Schlick reflectance test).
use crate::fx;
use crate::fx::{abs_i, sdiv_s, smul_s, sqrt_fx_s, SCALE};
use crate::hittable::{ray_wf, HitRecord, HitS, RAY_BOUND};
use crate::ray::{Ray, RayS};
use crate::rng::{next_state_s, unit_from, Rng};
use crate::sphere::{rand_sphere_s, rand_unit_vector_s, random_in_unit_sphere, random_unit_vector};
use crate::vec3::{lemma_dot_le, lemma_scale_le, Color, Vec3, V3};
use vstd::arithmetic::div_mod::{
    lemma_div_is_ordered_by_denominator, lemma_div_of0, lemma_fundamental_div_mod_converse_div,
};
use vstd::prelude::*;

verus! {

/// A color whose channels lie in the unit interval: a valid albedo.
pub open spec fn color_wf(c: V3) -> bool {
    0 <= c.x <= SCALE && 0 <= c.y <= SCALE && 0 <= c.z <= SCALE
}

/// The closed set of scattering behaviours.
#[derive(Clone, Copy, Debug, PartialEq, Eq, Structural)]
pub enum Materials {
    Lambertian(Lambertian),
    Metal(Metal),
    Dielectric(Dielectric),
}

impl Materials {
    pub open spec fn wf_s(self) -> bool {
        match self {
            Materials::Lambertian(l) => l.wf_s(),
            Materials::Metal(m) => m.wf_s(),
            Materials::Dielectric(d) => d.wf_s(),
        }
    }

    /// The mathematical scattering answer of whichever variant this is.
    pub open spec fn scatter_dispatch_s(self, ray: RayS, rec: HitS, s: u64) -> (
        Option<(RayS, V3)>,
        u64,
    ) {
        match self {
            Materials::Lambertian(l) => l.scatter_s(ray, rec, s),
            Materials::Metal(m) => m.scatter_s(ray, rec, s),
            Materials::Dielectric(d) => d.scatter_s(ray, rec, s),
        }
    }
}

/// The executable scatter answer carries exactly the values of the
/// mathematical one.
pub open spec fn scatter_matches(r: Option<(Ray, Color)>, s: Option<(RayS, V3)>) -> bool {
    match r {
        Some(p) => s == Some((p.0@, p.1@)),
        None => s is None,
    }
}

/// A scattering model: given the incoming ray and a hit record, either
/// absorb the ray or produce a scattered ray and an attenuation color.
/// `scatter_s` is the model's mathematical answer, a function of the
/// sampler state; `scatter` computes exactly it.
pub trait Material {
    /// The mathematical scattering answer and the sampler state after it.
    spec fn scatter_s(self, ray: RayS, rec: HitS, s: u64) -> (Option<(RayS, V3)>, u64);

    /// Bounds on the model's parameters.
    spec fn mat_wf(self) -> bool;

    /// Scatter `ray_in` at `rec`.  A produced ray starts at the hit
    /// point and has a bounded direction, and the attenuation is a valid
    /// color, so no scattered path can gain energy.
    fn scatter(self, ray_in: &Ray, rec: HitRecord, rng: &mut Rng) -> (r: Option<(Ray, Color)>)
        requires
            self.mat_wf(),
            ray_wf(ray_in@),
            ray_in@.direction.norm2_raw() >= 1,
            rec@.wf_s(),
        ensures
            scatter_matches(r, self.scatter_s(ray_in@, rec@, old(rng).state).0),
            final(rng).state == self.scatter_s(ray_in@, rec@, old(rng).state).1,
            match r {
                Some(p) => p.0@.origin == rec@.point && p.0@.direction.bounded(RAY_BOUND as int)
                    && color_wf(p.1@),
                None => true,
            },
    ;
}

/// Diffuse surface: scatters into the normal hemisphere, attenuating by
/// its albedo.
#[derive(Clone, Copy, Debug, PartialEq, Eq, Structural)]
pub struct Lambertian {
    pub albedo: Color,
}

impl Lambertian {
    pub open spec fn wf_s(self) -> bool {
        color_wf(self.albedo@)
    }

    pub fn new(albedo: Color) -> (r: Self)
        requires
            color_wf(albedo@),
        ensures
            r.albedo == albedo,
            r.wf_s(),
    {
        Self { albedo }
    }
}

impl Material for Lambertian {
    /// Scatter toward the normal plus a random unit direction, falling
    /// back to the normal itself when that sum vanishes; attenuate by
    /// the albedo.  The ray is never absorbed.
    open spec fn scatter_s(self, ray: RayS, rec: HitS, s: u64) -> (Option<(RayS, V3)>, u64) {
        let pair = rand_unit_vector_s(s);
        let d0 = rec.normal.add_s(pair.0);
        let dir = if d0.near_zero_s() {
            rec.normal
        } else {
            d0
        };
        (Some((RayS { origin: rec.point, direction: dir }, self.albedo@)), pair.1)
    }

    open spec fn mat_wf(self) -> bool {
        self.wf_s()
    }

    fn scatter(self, _ray_in: &Ray, rec: HitRecord, rng: &mut Rng) -> (r: Option<(Ray, Color)>) {
        let mut scatter_direction: Vec3 = rec.normal.add(random_unit_vector(rng));
        if scatter_direction.near_zero() {
            scatter_direction = rec.normal;
        }
        Some((Ray::new(rec.point, scatter_direction), self.albedo))
    }
}

/// Specular surface: mirrors the incoming direction, perturbed by `fuzz`.
#[derive(Clone, Copy, Debug, PartialEq, Eq, Structural)]
pub struct Metal {
    pub albedo: Color,
    pub fuzz: i64,
}

impl Metal {
    pub open spec fn wf_s(self) -> bool {
        color_wf(self.albedo@) && -(SCALE as int) <= self.fuzz <= SCALE
    }

    /// The fuzz parameter is clamped so that it never exceeds one.
    pub fn new(albedo: Color, fuzz: i64) -> (r: Self)
        requires
            color_wf(albedo@),
            fuzz >= -SCALE,
        ensures
            r.albedo == albedo,
            r.fuzz == if fuzz <= SCALE { fuzz as int } else { SCALE as int },
            r.wf_s(),
    {
        Self { albedo, fuzz: if fuzz <= SCALE { fuzz } else { SCALE } }
    }
}

impl Material for Metal {
    /// Reflect the unit incoming direction about the normal and perturb
    /// it by `fuzz` times a unit-ball draw; absorb the ray when the
    /// perturbed direction would point into the surface.
    open spec fn scatter_s(self, ray: RayS, rec: HitS, s: u64) -> (Option<(RayS, V3)>, u64) {
        let reflected = ray.direction.unit_s().reflect_s(rec.normal);
        let pair = rand_sphere_s(s, crate::vec3::SAMPLE_TRIES as nat);
        let dir = pair.0.mul_add_s(self.fuzz as int, reflected);
        if dir.dot_s(rec.normal) > 0 {
            (Some((RayS { origin: rec.point, direction: dir }, self.albedo@)), pair.1)
        } else {
            (None, pair.1)
        }
    }

    open spec fn mat_wf(self) -> bool {
        self.wf_s()
    }

    fn scatter(self, ray_in: &Ray, rec: HitRecord, rng: &mut Rng) -> (r: Option<(Ray, Color)>) {
        let reflected: Vec3 = ray_in.direction.unit_vector().reflect(rec.normal);
        let p: Vec3 = random_in_unit_sphere(rng);
        proof {
            assert((SCALE as int) * (SCALE as int) <= (SCALE as int) * (SCALE as int));
            lemma_scale_le(p@, self.fuzz as int, SCALE as int, SCALE as int, SCALE as int);
        }
        let scattered: Ray = Ray::new(rec.point, p.mul_add_vec(self.fuzz, reflected));
        if scattered.direction.dot(rec.normal) > 0 {
            Some((scattered, self.albedo))
        } else {
            None
        }
    }
}

/// Refractive surface with a given index of refraction; attenuation is
/// always white.
#[derive(Clone, Copy, Debug, PartialEq, Eq, Structural)]
pub struct Dielectric {
    pub index_of_refraction: i64,
}

/// Schlick's reflectance approximation, on fixed-point scalars:
/// `r0 + (1 - r0) * (1 - cosine)^5` with `r0 = ((1 - n) / (1 + n))^2`.
pub open spec fn reflectance_s(cosine: int, ref_idx: int) -> int {
    schlick_r0_s(ref_idx) + smul_s(SCALE - schlick_r0_s(ref_idx), pow5_s(SCALE - cosine))
}

/// The reflectance at normal incidence: `((1 - n) / (1 + n))^2`.
pub open spec fn schlick_r0_s(ref_idx: int) -> int {
    let q = sdiv_s(SCALE - ref_idx, SCALE + ref_idx);
    smul_s(q, q)
}

/// Fifth power of a fixed-point scalar.
pub open spec fn pow5_s(p: int) -> int {
    smul_s(smul_s(smul_s(p, p), smul_s(p, p)), p)
}

/// At normal incidence (`cosine` equal to one) the Schlick reflectance is
/// exactly the normal-incidence term, because the fifth power vanishes.
pub proof fn lemma_reflectance_at_normal(ref_idx: int)
    ensures
        reflectance_s(SCALE as int, ref_idx) == schlick_r0_s(ref_idx),
{
    lemma_div_of0(SCALE as int);
    assert(pow5_s(0) == 0);
    assert(smul_s(SCALE - schlick_r0_s(ref_idx), 0) == 0);
}

impl Dielectric {
    /// The index must stay within a quarter and four: it covers every
    /// physical medium and keeps the refraction arithmetic in range.
    pub open spec fn wf_s(self) -> bool {
        16384 <= self.index_of_refraction <= 262144
    }

    pub fn new(index_of_refraction: i64) -> (r: Self)
        requires
            16384 <= index_of_refraction <= 262144,
        ensures
            r.index_of_refraction == index_of_refraction,
            r.wf_s(),
    {
        Self { index_of_refraction }
    }

    /// Schlick's reflectance approximation.
    pub fn reflectance(&self, cosine: i64, ref_idx: i64) -> (r: i64)
        requires
            -12 * (SCALE as int) <= cosine <= SCALE,
            16384 <= ref_idx <= 262144,
        ensures
            r == reflectance_s(cosine as int, ref_idx as int),
    {
        proof {
            lemma_schlick_r0_bounds(ref_idx as int);
        }
        let q: i64 = fx::sdiv(SCALE - ref_idx, SCALE + ref_idx);
        proof {
            assert((3 * (SCALE as int)) * (3 * (SCALE as int)) <= (9 * (SCALE as int)) * (
            SCALE as int)) by (nonlinear_arith);
            fx::lemma_smul_le(q as int, q as int, 3 * (SCALE as int), 3 * (SCALE as int), 9 * (
            SCALE as int));
        }
        let r0: i64 = fx::smul(q, q);
        let p: i64 = SCALE - cosine;
        proof {
            assert((13 * (SCALE as int)) * (13 * (SCALE as int)) <= (169 * (SCALE as int)) * (
            SCALE as int)) by (nonlinear_arith);
            fx::lemma_smul_le(p as int, p as int, 13 * (SCALE as int), 13 * (SCALE as int), 169 * (
            SCALE as int));
        }
        let p2: i64 = fx::smul(p, p);
        proof {
            assert((169 * (SCALE as int)) * (169 * (SCALE as int)) <= (28561 * (SCALE as int)) * (
            SCALE as int)) by (nonlinear_arith);
            fx::lemma_smul_le(
                p2 as int,
                p2 as int,
                169 * (SCALE as int),
                169 * (SCALE as int),
                28561 * (SCALE as int),
            );
        }
        let p4: i64 = fx::smul(p2, p2);
        proof {
            assert((28561 * (SCALE as int)) * (13 * (SCALE as int)) <= (371293 * (SCALE as int)) * (
            SCALE as int)) by (nonlinear_arith);
            fx::lemma_smul_le(
                p4 as int,
                p as int,
                28561 * (SCALE as int),
                13 * (SCALE as int),
                371293 * (SCALE as int),
            );
        }
        let p5: i64 = fx::smul(p4, p);
        proof {
            assert((10 * (SCALE as int)) * (371293 * (SCALE as int)) <= (3712930 * (SCALE as int))
                * (SCALE as int)) by (nonlinear_arith);
            fx::lemma_smul_le(
                (SCALE - r0) as int,
                p5 as int,
                10 * (SCALE as int),
                371293 * (SCALE as int),
                3712930 * (SCALE as int),
            );
        }
        r0 + fx::smul(SCALE - r0, p5)
    }
}

/// The reciprocal of a well-formed refraction index stays within the
/// same well-formed range.
pub proof fn lemma_ratio_bounds(idx: int)
    requires
        16384 <= idx <= 262144,
    ensures
        16384 <= sdiv_s(SCALE as int, idx) <= 262144,
{
    assert(16384int * 262144int + 0 == 65536int * 65536int) by (nonlinear_arith);
    assert((SCALE as int) * (SCALE as int) == 65536int * 65536int) by (nonlinear_arith);
    lemma_fundamental_div_mod_converse_div(65536int * 65536int, 262144, 16384, 0);
    lemma_fundamental_div_mod_converse_div(65536int * 65536int, 16384, 262144, 0);
    lemma_div_is_ordered_by_denominator(65536int * 65536int, idx, 262144);
    lemma_div_is_ordered_by_denominator(65536int * 65536int, 16384, idx);
    assert(sdiv_s(SCALE as int, idx) == (65536int * 65536int) / idx);
}

impl Material for Dielectric {
    /// Choose between reflection and refraction: reflect on total
    /// internal reflection, or when a unit draw falls below the Schlick
    /// reflectance; refract otherwise.  Attenuation is always white and
    /// the ray is never absorbed.  The draw is made only when total
    /// internal reflection has been ruled out.
    open spec fn scatter_s(self, ray: RayS, rec: HitS, s: u64) -> (Option<(RayS, V3)>, u64) {
        let idx = self.index_of_refraction as int;
        let ratio = if rec.front_face {
            sdiv_s(SCALE as int, idx)
        } else {
            idx
        };
        let unit = ray.direction.unit_s();
        let cos0 = unit.neg_s().dot_s(rec.normal);
        let cos = if cos0 > SCALE {
            SCALE as int
        } else {
            cos0
        };
        let sin2 = SCALE - smul_s(cos, cos);
        let sin = sqrt_fx_s(
            if sin2 < 0 {
                0
            } else {
                sin2
            },
        );
        let white = V3 { x: SCALE as int, y: SCALE as int, z: SCALE as int };
        if smul_s(ratio, sin) > SCALE {
            let dir = unit.reflect_s(rec.normal);
            (Some((RayS { origin: rec.point, direction: dir }, white)), s)
        } else {
            let rnd = unit_from(s);
            let s1 = next_state_s(s);
            let dir = if reflectance_s(cos, ratio) > rnd {
                unit.reflect_s(rec.normal)
            } else {
                unit.refract_s(rec.normal, ratio)
            };
            (Some((RayS { origin: rec.point, direction: dir }, white)), s1)
        }
    }

    open spec fn mat_wf(self) -> bool {
        self.wf_s()
    }

    fn scatter(self, ray_in: &Ray, rec: HitRecord, rng: &mut Rng) -> (r: Option<(Ray, Color)>) {
        proof {
            lemma_ratio_bounds(self.index_of_refraction as int);
        }
        let refraction_ratio: i64 = if rec.front_face {
            fx::sdiv(SCALE, self.index_of_refraction)
        } else {
            self.index_of_refraction
        };
        let unit_direction: Vec3 = ray_in.direction.unit_vector();
        proof {
            assert(3 * ((SCALE as int) * (2 * (SCALE as int))) <= (6 * (SCALE as int)) * (
            SCALE as int)) by (nonlinear_arith);
            lemma_dot_le(
                unit_direction@.neg_s(),
                rec@.normal,
                SCALE as int,
                2 * (SCALE as int),
                6 * (SCALE as int),
            );
        }
        let d: i64 = unit_direction.neg().dot(rec.normal);
        let cos_theta: i64 = if d > SCALE {
            SCALE
        } else {
            d
        };
        proof {
            assert((6 * (SCALE as int)) * (6 * (SCALE as int)) <= (36 * (SCALE as int)) * (
            SCALE as int)) by (nonlinear_arith);
            fx::lemma_smul_le(
                cos_theta as int,
                cos_theta as int,
                6 * (SCALE as int),
                6 * (SCALE as int),
                36 * (SCALE as int),
            );
            assert((cos_theta as int) * (cos_theta as int) >= 0) by (nonlinear_arith);
            fx::lemma_tdiv_mag((cos_theta as int) * (cos_theta as int), SCALE as int);
        }
        let c2: i64 = fx::smul(cos_theta, cos_theta);
        let sin2: i64 = if SCALE - c2 < 0 {
            0
        } else {
            SCALE - c2
        };
        let sin_theta: i64 = fx::sqrt_fx(sin2);
        proof {
            assert(65536int * 65536int == 0x1_0000_0000int) by (nonlinear_arith);
            fx::lemma_sqrt_le(sin2 as int * (SCALE as int), SCALE as int);
            assert((4 * (SCALE as int)) * (SCALE as int) <= (4 * (SCALE as int)) * (SCALE as int));
            fx::lemma_smul_le(
                refraction_ratio as int,
                sin_theta as int,
                4 * (SCALE as int),
                SCALE as int,
                4 * (SCALE as int),
            );
        }
        let direction: Vec3 = if fx::smul(refraction_ratio, sin_theta) > SCALE {
            unit_direction.reflect(rec.normal)
        } else {
            let rnd: i64 = rng.next_unit();
            if self.reflectance(cos_theta, refraction_ratio) > rnd {
                unit_direction.reflect(rec.normal)
            } else {
                unit_direction.refract(rec.normal, refraction_ratio)
            }
        };
        Some((Ray::new(rec.point, direction), Color::new(SCALE, SCALE, SCALE)))
    }
}

/// Whatever a well-formed material scatters, the attenuation color lies
/// in the unit interval: diffuse and specular surfaces attenuate by
/// their albedo, refractive ones by white.
pub proof fn lemma_scatter_attenuation_wf(m: Materials, ray: RayS, rec: HitS, s: u64)
    requires
        m.wf_s(),
    ensures
        match m.scatter_dispatch_s(ray, rec, s).0 {
            Some(p) => color_wf(p.1),
            None => true,
        },
{
}

/// The normal-incidence reflectance of a well-formed index lies in
/// `[0, 9]` at the fixed-point scale.
pub proof fn lemma_schlick_r0_bounds(ref_idx: int)
    requires
        16384 <= ref_idx <= 262144,
    ensures
        abs_i(sdiv_s(SCALE - ref_idx, SCALE + ref_idx)) <= 3 * (SCALE as int),
        0 <= schlick_r0_s(ref_idx) <= 9 * (SCALE as int),
{
    let a = SCALE - ref_idx;
    let b = SCALE + ref_idx;
    fx::lemma_tdiv_denominator(a * SCALE, SCALE as int, b);
    fx::lemma_tdiv_mag(a * SCALE, SCALE as int);
    vstd::arithmetic::div_mod::lemma_div_multiples_vanish(abs_i(a), SCALE as int);
    assert(abs_i(a * SCALE) == abs_i(a) * (SCALE as int)) by (nonlinear_arith);
    assert(abs_i(a) * (SCALE as int) == (SCALE as int) * abs_i(a)) by (nonlinear_arith);
    let q = sdiv_s(a, b);
    assert((3 * (SCALE as int)) * (3 * (SCALE as int)) <= (9 * (SCALE as int)) * (SCALE as int))
        by (nonlinear_arith);
    fx::lemma_smul_le(q, q, 3 * (SCALE as int), 3 * (SCALE as int), 9 * (SCALE as int));
    assert(q * q >= 0) by (nonlinear_arith);
    fx::lemma_tdiv_mag(q * q, SCALE as int);
}

} // verus!
