//! Rays: an origin and a direction, with the evaluator
//! `P(t) = origin + t * direction`, and the recursive radiance
//! integrator that drives the whole renderer.
use crate::fx;
use crate::fx::{is_floor_sqrt, sdiv_s, smul_s, tdiv, SCALE};
use crate::hittable::{lemma_list_hit_wf, list_hit_s, ray_wf, Hittable, HittableList, Obj, RAY_BOUND, T_LIMIT};
use crate::material::{color_wf, Material, Materials};
use crate::rng::Rng;
use crate::vec3::{
    lemma_mulv_le, lemma_norm2_nonneg, lemma_scale_le, lemma_unit_bounded, mul_add_ok, Color, Vec3,
    V3,
};
use vstd::prelude::*;

verus! {

pub type Point3 = Vec3;

/// Lower end of the parametric interval used by the integrator: a small
/// positive epsilon that suppresses self-intersection at a bounce's exit
/// point ("shadow acne").
pub const EPS_T: i64 = 66;

/// The mathematical value of a ray.
pub ghost struct RayS {
    pub origin: V3,
    pub direction: V3,
}

impl RayS {
    /// Position along the ray at parameter `t`.
    pub open spec fn at_s(self, t: int) -> V3 {
        self.direction.mul_add_s(t, self.origin)
    }
}

/// A half-line through `origin` along `direction`.  The direction is not
/// required to have unit length; the intersection arithmetic is
/// scale-invariant.
#[derive(Clone, Copy, Debug, PartialEq, Eq, Structural)]
pub struct Ray {
    pub origin: Point3,
    pub direction: Vec3,
}

impl View for Ray {
    type V = RayS;

    open spec fn view(&self) -> RayS {
        RayS { origin: self.origin@, direction: self.direction@ }
    }
}

impl Ray {
    pub fn new(origin: Point3, direction: Vec3) -> (r: Self)
        ensures
            r@ == (RayS { origin: origin@, direction: direction@ }),
    {
        Self { origin, direction }
    }

    /// Position along the ray at parameter `t`.
    pub fn at(&self, t: i64) -> (p: Point3)
        requires
            mul_add_ok(self@.direction, t as int, self@.origin),
        ensures
            p@ == self@.at_s(t as int),
    {
        self.direction.mul_add_vec(t, self.origin)
    }
}

/// The background gradient: vertical interpolation between white at the
/// horizon and sky blue at the zenith, by the unit direction's height.
pub open spec fn background_s(ray: RayS) -> V3 {
    let unit = ray.direction.unit_s();
    let t = smul_s(unit.y + SCALE, 32768);
    let white = V3 { x: SCALE as int, y: SCALE as int, z: SCALE as int };
    let sky = V3 { x: 32768, y: 45875, z: 65536 };
    white.mul_add_s(SCALE - t, sky.scale_s(t))
}

/// The background gradient of a ray that hits nothing.
pub fn background(r: &Ray) -> (c: Color)
    requires
        r@.direction.bounded(RAY_BOUND as int),
        r@.direction.norm2_raw() >= 1,
    ensures
        c@ == background_s(r@),
        color_wf(c@),
{
    let unit: Vec3 = r.direction.unit_vector();
    proof {
        assert((2 * (SCALE as int)) * 32768 <= (SCALE as int) * (SCALE as int))
            by (nonlinear_arith);
        fx::lemma_smul_le(unit@.y + SCALE, 32768, 2 * (SCALE as int), 32768, SCALE as int);
        assert((unit@.y + SCALE) * 32768 >= 0) by (nonlinear_arith)
            requires
                unit@.y + SCALE >= 0,
        ;
        fx::lemma_tdiv_mag((unit@.y + SCALE) * 32768, SCALE as int);
    }
    let t: i64 = fx::smul(unit.y() + SCALE, 32768);
    let white: Color = Color::new(SCALE, SCALE, SCALE);
    let sky: Color = Color::new(32768, 45875, 65536);
    proof {
        assert((SCALE as int) * (SCALE as int) <= (SCALE as int) * (SCALE as int));
        lemma_scale_le(sky@, t as int, SCALE as int, SCALE as int, SCALE as int);
        lemma_scale_le(white@, (SCALE - t) as int, SCALE as int, SCALE as int, SCALE as int);
        fx::lemma_smul_comm(SCALE as int, (SCALE - t) as int);
        fx::lemma_smul_unit((SCALE - t) as int, SCALE as int);
        fx::lemma_smul_comm(32768, t as int);
        fx::lemma_smul_comm(45875, t as int);
        fx::lemma_smul_comm(65536, t as int);
        fx::lemma_smul_unit(t as int, 32768);
        fx::lemma_smul_unit(t as int, 45875);
        fx::lemma_smul_unit(t as int, 65536);
    }
    white.mul_add_vec(SCALE - t, sky.scale(t))
}

/// The recursive radiance fold: black once the bounce budget or the ray
/// degenerates; otherwise the scattered radiance attenuated at the
/// nearest hit, or the background where nothing is hit.
pub open spec fn color_s(objs: Seq<Obj>, ray: RayS, depth: nat, s: u64) -> (V3, u64)
    decreases depth,
{
    let black = V3 { x: 0, y: 0, z: 0 };
    if depth == 0 {
        (black, s)
    } else if ray.direction.near_zero_s() {
        (black, s)
    } else {
        match list_hit_s(objs, ray, EPS_T as int, T_LIMIT as int) {
            Some(h) => {
                let sc = h.material.scatter_dispatch_s(ray, h, s);
                match sc.0 {
                    Some(p) => {
                        let rec = color_s(objs, p.0, (depth - 1) as nat, sc.1);
                        (p.1.mul_s(rec.0), rec.1)
                    },
                    None => (black, sc.1),
                }
            },
            None => (background_s(ray), s),
        }
    }
}

/// Energy non-amplification, one bounce at a time: attenuating a
/// radiance whose channels lie in the unit interval by an attenuation
/// color in the unit interval yields channels that exceed neither
/// factor, so a path of `k` bounces never exceeds the product of its
/// per-bounce attenuations, and never one.
pub proof fn lemma_attenuation_no_gain(att: V3, rec: V3)
    requires
        color_wf(att),
        color_wf(rec),
    ensures
        color_wf(att.mul_s(rec)),
        att.mul_s(rec).x <= att.x && att.mul_s(rec).x <= rec.x,
        att.mul_s(rec).y <= att.y && att.mul_s(rec).y <= rec.y,
        att.mul_s(rec).z <= att.z && att.mul_s(rec).z <= rec.z,
{
    fx::lemma_smul_unit(att.x, rec.x);
    fx::lemma_smul_unit(att.y, rec.y);
    fx::lemma_smul_unit(att.z, rec.z);
    fx::lemma_smul_comm(att.x, rec.x);
    fx::lemma_smul_comm(att.y, rec.y);
    fx::lemma_smul_comm(att.z, rec.z);
    fx::lemma_smul_unit(rec.x, att.x);
    fx::lemma_smul_unit(rec.y, att.y);
    fx::lemma_smul_unit(rec.z, att.z);
}

/// The background gradient is a valid color for every ray whose
/// direction does not vanish at the fixed-point resolution.
pub proof fn lemma_background_wf(ray: RayS)
    requires
        !ray.direction.near_zero_s(),
    ensures
        color_wf(background_s(ray)),
{
    lemma_norm2_nonneg(ray.direction);
    lemma_unit_bounded(ray.direction);
    let unit = ray.direction.unit_s();
    let t = smul_s(unit.y + SCALE, 32768);
    assert((2 * (SCALE as int)) * 32768 <= (SCALE as int) * (SCALE as int)) by (nonlinear_arith);
    fx::lemma_smul_le(unit.y + SCALE, 32768, 2 * (SCALE as int), 32768, SCALE as int);
    assert((unit.y + SCALE) * 32768 >= 0) by (nonlinear_arith)
        requires
            unit.y + SCALE >= 0,
    ;
    fx::lemma_tdiv_mag((unit.y + SCALE) * 32768, SCALE as int);
    fx::lemma_smul_comm(SCALE as int, (SCALE - t) as int);
    fx::lemma_smul_unit((SCALE - t) as int, SCALE as int);
    fx::lemma_smul_comm(32768, t as int);
    fx::lemma_smul_comm(45875, t as int);
    fx::lemma_smul_comm(65536, t as int);
    fx::lemma_smul_unit(t as int, 32768);
    fx::lemma_smul_unit(t as int, 45875);
    fx::lemma_smul_unit(t as int, 65536);
}

/// Energy non-amplification over a whole path: for any scene of
/// well-formed primitives, every channel of the integrated radiance
/// lies in the unit interval, at any bounce depth and from any sampler
/// state.  Each bounce multiplies by an attenuation in the unit
/// interval, so no path ever gains energy.
pub proof fn lemma_color_unit_interval(objs: Seq<Obj>, ray: RayS, depth: nat, s: u64)
    requires
        forall|i: int| 0 <= i < objs.len() ==> (#[trigger] objs[i]).obj_wf(),
    ensures
        color_wf(color_s(objs, ray, depth, s).0),
    decreases depth,
{
    if depth > 0 && !ray.direction.near_zero_s() {
        lemma_list_hit_wf(objs, ray, EPS_T as int, T_LIMIT as int);
        match list_hit_s(objs, ray, EPS_T as int, T_LIMIT as int) {
            Some(h) => {
                crate::material::lemma_scatter_attenuation_wf(h.material, ray, h, s);
                let sc = h.material.scatter_dispatch_s(ray, h, s);
                match sc.0 {
                    Some(p) => {
                        lemma_color_unit_interval(objs, p.0, (depth - 1) as nat, sc.1);
                        lemma_attenuation_no_gain(
                            p.1,
                            color_s(objs, p.0, (depth - 1) as nat, sc.1).0,
                        );
                    },
                    None => {},
                }
            },
            None => {
                lemma_background_wf(ray);
            },
        }
    }
}

/// A ray that hits nothing is colored by the background gradient alone,
/// whatever the sampler state, as long as any bounce budget remains.
pub proof fn lemma_color_of_miss(objs: Seq<Obj>, ray: RayS, depth: nat, s: u64)
    requires
        depth >= 1,
        !ray.direction.near_zero_s(),
        list_hit_s(objs, ray, EPS_T as int, T_LIMIT as int) is None,
    ensures
        color_s(objs, ray, depth, s).0 == background_s(ray),
        color_s(objs, ray, depth, s).1 == s,
{
}

/// Background determinism at the zenith: a ray pointing straight up
/// meets the background at exactly the sky color.
pub proof fn lemma_background_zenith(ray: RayS)
    requires
        ray.direction == (V3 { x: 0, y: SCALE as int, z: 0 }),
    ensures
        background_s(ray) == (V3 { x: 32768, y: 45875, z: 65536 }),
{
    lemma_unit_axis_y(ray.direction, SCALE as int);
    let t = smul_s(SCALE + SCALE, 32768);
    assert((2 * (SCALE as int)) * 32768 == 65536 * (SCALE as int)) by (nonlinear_arith);
    vstd::arithmetic::div_mod::lemma_div_multiples_vanish(65536, SCALE as int);
    fx::lemma_tdiv_mag((2 * (SCALE as int)) * 32768, SCALE as int);
    assert(t == SCALE as int);
    lemma_scale_by_one(V3 { x: 32768, y: 45875, z: 65536 });
    lemma_scale_by_zero(V3 { x: SCALE as int, y: SCALE as int, z: SCALE as int });
}

/// Background determinism at the horizon: a ray pointing straight down
/// meets the background at exactly white.
pub proof fn lemma_background_horizon(ray: RayS)
    requires
        ray.direction == (V3 { x: 0, y: -(SCALE as int), z: 0 }),
    ensures
        background_s(ray) == (V3 { x: SCALE as int, y: SCALE as int, z: SCALE as int }),
{
    lemma_unit_axis_y(ray.direction, -(SCALE as int));
    vstd::arithmetic::div_mod::lemma_div_of0(SCALE as int);
    assert(smul_s(-(SCALE as int) + SCALE, 32768) == 0);
    lemma_scale_by_one(V3 { x: SCALE as int, y: SCALE as int, z: SCALE as int });
    lemma_scale_by_zero(V3 { x: 32768, y: 45875, z: 65536 });
}

/// A vector along the vertical axis of length one normalizes to itself.
proof fn lemma_unit_axis_y(d: V3, y: int)
    requires
        d == (V3 { x: 0, y: y, z: 0 }),
        y == SCALE || y == -(SCALE as int),
    ensures
        d.unit_s() == d,
{
    assert(d.norm2_raw() == y * y);
    assert(y * y == 65536 * (SCALE as int)) by (nonlinear_arith)
        requires
            y == SCALE || y == -(SCALE as int),
    ;
    vstd::arithmetic::div_mod::lemma_div_multiples_vanish(65536, SCALE as int);
    fx::lemma_tdiv_mag(d.norm2_raw(), SCALE as int);
    assert(is_floor_sqrt(d.norm2_raw(), SCALE as int)) by (nonlinear_arith)
        requires
            d.norm2_raw() == 65536 * (SCALE as int),
    ;
    fx::lemma_sqrt_unique(d.norm2_raw(), SCALE as int);
    vstd::arithmetic::div_mod::lemma_div_of0(SCALE as int);
    fx::lemma_tdiv_neg(SCALE as int * SCALE, SCALE as int);
    vstd::arithmetic::div_mod::lemma_div_multiples_vanish(SCALE as int, SCALE as int);
    assert((SCALE as int) * (SCALE as int) == 65536 * (SCALE as int)) by (nonlinear_arith);
    assert(sdiv_s(y, SCALE as int) == y) by {
        if y == SCALE {
            assert(tdiv((SCALE as int) * SCALE, SCALE as int) == SCALE as int);
        } else {
            assert(y * SCALE == -((SCALE as int) * SCALE)) by (nonlinear_arith)
                requires
                    y == -(SCALE as int),
            ;
        }
    }
}

/// Scaling a unit-interval color by exactly one keeps it.
proof fn lemma_scale_by_one(c: V3)
    requires
        color_wf(c),
    ensures
        c.scale_s(SCALE as int) == c,
{
    lemma_smul_by_one(c.x);
    lemma_smul_by_one(c.y);
    lemma_smul_by_one(c.z);
}

/// Scaling by exactly zero gives the zero vector.
proof fn lemma_scale_by_zero(c: V3)
    ensures
        c.scale_s(0) == (V3 { x: 0, y: 0, z: 0 }),
{
    vstd::arithmetic::div_mod::lemma_div_of0(SCALE as int);
}

/// Multiplying a non-negative scalar by exactly one keeps it.
proof fn lemma_smul_by_one(c: int)
    requires
        0 <= c,
    ensures
        smul_s(c, SCALE as int) == c,
{
    assert(c * SCALE == (SCALE as int) * c) by (nonlinear_arith);
    vstd::arithmetic::div_mod::lemma_div_multiples_vanish(c, SCALE as int);
    fx::lemma_tdiv_mag(c * SCALE, SCALE as int);
    assert(c * SCALE >= 0) by (nonlinear_arith)
        requires
            c >= 0,
    ;
}

impl Ray {
    /// The radiance reaching the camera along this ray: recursively
    /// accumulate attenuations over at most `depth` scattering events.
    /// With no bounce budget left the result is exactly black, and every
    /// channel of the result stays within the unit interval.
    pub fn color(&self, world: &HittableList, depth: u8, rng: &mut Rng) -> (c: Color)
        requires
            world.scene_wf(),
            ray_wf(self@),
        ensures
            c@ == color_s(world.objects@, self@, depth as nat, old(rng).state).0,
            final(rng).state == color_s(world.objects@, self@, depth as nat, old(rng).state).1,
            color_wf(c@),
            depth == 0 ==> c@ == (V3 { x: 0, y: 0, z: 0 }),
        decreases depth,
    {
        if depth == 0 {
            return Color::new(0, 0, 0);
        }
        if self.direction.near_zero() {
            return Color::new(0, 0, 0);
        }
        proof {
            lemma_norm2_nonneg(self@.direction);
        }
        match world.hit(self, EPS_T, T_LIMIT) {
            Some(hit) => {
                let scattered = match hit.material {
                    Materials::Lambertian(l) => l.scatter(self, hit, rng),
                    Materials::Metal(m) => m.scatter(self, hit, rng),
                    Materials::Dielectric(d) => d.scatter(self, hit, rng),
                };
                match scattered {
                    Some((scattered_ray, attenuation)) => {
                        let rec: Color = scattered_ray.color(world, depth - 1, rng);
                        proof {
                            assert((SCALE as int) * (SCALE as int) <= (SCALE as int) * (
                            SCALE as int));
                            lemma_mulv_le(attenuation@, rec@, SCALE as int, SCALE as int,
                                SCALE as int);
                            fx::lemma_smul_unit(attenuation@.x, rec@.x);
                            fx::lemma_smul_unit(attenuation@.y, rec@.y);
                            fx::lemma_smul_unit(attenuation@.z, rec@.z);
                        }
                        attenuation.mul(rec)
                    },
                    None => Color::new(0, 0, 0),
                }
            },
            None => background(self),
        }
    }
}

} // verus!
