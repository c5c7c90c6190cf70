//! The camera: immutable viewport parameters derived once from the
//! viewing geometry, and the map from normalized image-plane coordinates
//! to world-space rays.
//!
//! The trigonometric half of the derivation (turning a field-of-view
//! angle into the tangent of its half) is a stateless transform of the
//! caller; the camera takes that tangent as a plain fixed-point scalar
//! and derives the basis vectors and viewport extents itself.
use crate::fx;
use crate::fx::{smul_s, SCALE};
use crate::hittable::{ray_wf, COORD_BOUND};
use crate::ray::{Point3, Ray, RayS};
use crate::vec3::{lemma_scale_le, Vec3, V3};
use vstd::prelude::*;

verus! {

/// Derived, immutable camera parameters.
pub struct Camera {
    pub origin: Vec3,
    pub lower_left_corner: Vec3,
    pub horizontal: Vec3,
    pub vertical: Vec3,
}

impl Camera {
    /// All four parameter vectors are within the scene bounds.
    pub open spec fn camera_wf(self) -> bool {
        self.origin@.bounded(COORD_BOUND as int) && self.lower_left_corner@.bounded(
            COORD_BOUND as int,
        ) && self.horizontal@.bounded(COORD_BOUND as int) && self.vertical@.bounded(
            COORD_BOUND as int,
        )
    }

    /// The viewport derivation: an orthonormal-style basis from the
    /// viewing direction and the up vector, scaled by the viewport
    /// extents, with the lower-left corner one focal unit ahead.
    pub open spec fn derive_s(lookfrom: V3, lookat: V3, vup: V3, tan_half_vfov: int, aspect: int) -> (
        V3,
        V3,
        V3,
        V3,
    ) {
        let viewport_height = 2 * tan_half_vfov;
        let viewport_width = smul_s(aspect, viewport_height);
        let w = lookfrom.sub_s(lookat).unit_s();
        let u = vup.cross_s(w).unit_s();
        let v = w.cross_s(u);
        let horizontal = u.scale_s(viewport_width);
        let vertical = v.scale_s(viewport_height);
        let lower_left_corner = lookfrom.sub_s(horizontal.div_scale_s(2 * SCALE)).sub_s(
            vertical.div_scale_s(2 * SCALE),
        ).sub_s(w);
        (lookfrom, lower_left_corner, horizontal, vertical)
    }

    /// Derive the camera from the viewing geometry.  `tan_half_vfov` is
    /// the tangent of half the vertical field of view, handed in as a
    /// fixed-point scalar by the collaborator that owns the angle.
    #[verifier::rlimit(60)]
    pub fn new(
        lookfrom: Point3,
        lookat: Point3,
        vup: Vec3,
        tan_half_vfov: i64,
        aspect_ratio: i64,
    ) -> (r: Self)
        requires
            lookfrom@.bounded(0x200_0000),
            lookat@.bounded(0x200_0000),
            vup@.bounded(4 * (SCALE as int)),
            0 < tan_half_vfov <= 8 * SCALE,
            0 < aspect_ratio <= 4 * SCALE,
            lookfrom@.sub_s(lookat@).norm2_raw() >= 1,
            vup@.cross_s(lookfrom@.sub_s(lookat@).unit_s()).norm2_raw() >= 1,
        ensures
            (r.origin@, r.lower_left_corner@, r.horizontal@, r.vertical@) == Self::derive_s(
                lookfrom@,
                lookat@,
                vup@,
                tan_half_vfov as int,
                aspect_ratio as int,
            ),
            r.camera_wf(),
    {
        let viewport_height: i64 = 2 * tan_half_vfov;
        proof {
            assert((4 * (SCALE as int)) * (16 * (SCALE as int)) <= (64 * (SCALE as int)) * (
            SCALE as int)) by (nonlinear_arith);
            fx::lemma_smul_le(
                aspect_ratio as int,
                viewport_height as int,
                4 * (SCALE as int),
                16 * (SCALE as int),
                64 * (SCALE as int),
            );
        }
        let viewport_width: i64 = fx::smul(aspect_ratio, viewport_height);
        let w: Vec3 = lookfrom.sub(lookat).unit_vector();
        proof {
            assert((4 * (SCALE as int)) * (SCALE as int) <= (4 * (SCALE as int)) * (SCALE as int));
            fx::lemma_smul_le(vup@.x, w@.y, 4 * (SCALE as int), SCALE as int, 4 * (SCALE as int));
            fx::lemma_smul_le(vup@.x, w@.z, 4 * (SCALE as int), SCALE as int, 4 * (SCALE as int));
            fx::lemma_smul_le(vup@.y, w@.x, 4 * (SCALE as int), SCALE as int, 4 * (SCALE as int));
            fx::lemma_smul_le(vup@.y, w@.z, 4 * (SCALE as int), SCALE as int, 4 * (SCALE as int));
            fx::lemma_smul_le(vup@.z, w@.x, 4 * (SCALE as int), SCALE as int, 4 * (SCALE as int));
            fx::lemma_smul_le(vup@.z, w@.y, 4 * (SCALE as int), SCALE as int, 4 * (SCALE as int));
        }
        let cu: Vec3 = vup.cross(w);
        let u: Vec3 = cu.unit_vector();
        proof {
            assert((SCALE as int) * (SCALE as int) <= (SCALE as int) * (SCALE as int));
            fx::lemma_smul_le(w@.x, u@.y, SCALE as int, SCALE as int, SCALE as int);
            fx::lemma_smul_le(w@.x, u@.z, SCALE as int, SCALE as int, SCALE as int);
            fx::lemma_smul_le(w@.y, u@.x, SCALE as int, SCALE as int, SCALE as int);
            fx::lemma_smul_le(w@.y, u@.z, SCALE as int, SCALE as int, SCALE as int);
            fx::lemma_smul_le(w@.z, u@.x, SCALE as int, SCALE as int, SCALE as int);
            fx::lemma_smul_le(w@.z, u@.y, SCALE as int, SCALE as int, SCALE as int);
        }
        let v: Vec3 = w.cross(u);
        proof {
            assert((SCALE as int) * (64 * (SCALE as int)) <= (64 * (SCALE as int)) * (
            SCALE as int)) by (nonlinear_arith);
            lemma_scale_le(u@, viewport_width as int, SCALE as int, 64 * (SCALE as int), 64 * (
            SCALE as int));
            assert((2 * (SCALE as int)) * (16 * (SCALE as int)) <= (32 * (SCALE as int)) * (
            SCALE as int)) by (nonlinear_arith);
            lemma_scale_le(v@, viewport_height as int, 2 * (SCALE as int), 16 * (SCALE as int), 32
                * (SCALE as int));
        }
        let horizontal: Vec3 = u.scale(viewport_width);
        let vertical: Vec3 = v.scale(viewport_height);
        proof {
            fx::lemma_sdiv_mag_le(horizontal@.x, 2 * (SCALE as int));
            fx::lemma_sdiv_mag_le(horizontal@.y, 2 * (SCALE as int));
            fx::lemma_sdiv_mag_le(horizontal@.z, 2 * (SCALE as int));
            fx::lemma_sdiv_mag_le(vertical@.x, 2 * (SCALE as int));
            fx::lemma_sdiv_mag_le(vertical@.y, 2 * (SCALE as int));
            fx::lemma_sdiv_mag_le(vertical@.z, 2 * (SCALE as int));
        }
        let lower_left_corner: Vec3 = lookfrom.sub(horizontal.div_scalar(2 * SCALE)).sub(
            vertical.div_scalar(2 * SCALE),
        ).sub(w);
        Self { origin: lookfrom, horizontal, vertical, lower_left_corner }
    }

    /// The ray of the normalized image-plane point `(s, t)`.
    pub open spec fn ger_ray_s(self, s: int, t: int) -> RayS {
        RayS {
            origin: self.origin@,
            direction: self.lower_left_corner@.add_s(self.horizontal@.scale_s(s)).add_s(
                self.vertical@.scale_s(t),
            ).sub_s(self.origin@),
        }
    }

    /// Map normalized image-plane coordinates `(s, t)`, each within the
    /// unit interval, to the world-space ray through that viewport
    /// point.  A pure function: no internal state changes.
    pub fn ger_ray(&self, s: i64, t: i64) -> (r: Ray)
        requires
            self.camera_wf(),
            0 <= s <= SCALE,
            0 <= t <= SCALE,
        ensures
            r@ == self.ger_ray_s(s as int, t as int),
            ray_wf(r@),
    {
        proof {
            assert((COORD_BOUND as int) * (SCALE as int) <= (COORD_BOUND as int) * (SCALE as int));
            lemma_scale_le(self.horizontal@, s as int, COORD_BOUND as int, SCALE as int,
                COORD_BOUND as int);
            lemma_scale_le(self.vertical@, t as int, COORD_BOUND as int, SCALE as int,
                COORD_BOUND as int);
        }
        Ray::new(
            self.origin,
            self.lower_left_corner.add(self.horizontal.scale(s)).add(self.vertical.scale(t)).sub(
                self.origin,
            ),
        )
    }
}

} // verus!
