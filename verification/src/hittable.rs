//! Hit records, the intersection interface, and the scene: an ordered
//! collection of primitives answering nearest-hit queries.
use crate::fx::SCALE;
use crate::material::Materials;
use crate::ray::{Ray, RayS};
use crate::sphere::Sphere;
use crate::vec3::{Vec3, V3};
use vstd::prelude::*;

verus! {

/// Bound on scene coordinates: sphere centers and radii.
pub const COORD_BOUND: i64 = 0x400_0000;

/// Bound on the coordinates of an accepted hit point.
pub const POINT_BOUND: i64 = 0x800_0000;

/// Bound on the coordinates of rays handed to intersection queries.
pub const RAY_BOUND: i64 = 0x2000_0000;

/// Bound on the parametric interval ends of intersection queries.
pub const T_LIMIT: i64 = 0x8000_0000;

/// A ray the intersection queries and the integrator accept.
pub open spec fn ray_wf(r: RayS) -> bool {
    r.origin.bounded(POINT_BOUND as int) && r.direction.bounded(RAY_BOUND as int)
}

/// The mathematical value of a hit record.
pub ghost struct HitS {
    pub point: V3,
    pub normal: V3,
    pub material: Materials,
    pub t: int,
    pub front_face: bool,
}

impl HitS {
    /// What every accepted hit record guarantees: the hit point and the
    /// corrected normal are bounded, and the normal does not vanish.
    pub open spec fn wf_s(self) -> bool {
        self.point.bounded(POINT_BOUND as int) && self.normal.bounded(2 * (SCALE as int))
            && self.normal.norm2_raw() >= 1 && self.material.wf_s() && self.t >= 0
    }

    /// Face correction: the stored normal points against the incoming
    /// ray, and `front_face` records which side was hit.
    pub open spec fn face_corrected(self, ray: RayS) -> HitS {
        let ff = ray.direction.dot_s(self.normal) < 0;
        HitS {
            normal: if ff {
                self.normal
            } else {
                self.normal.neg_s()
            },
            front_face: ff,
            ..self
        }
    }
}

/// Result of an intersection test: hit point, outward-corrected normal,
/// parametric distance, face orientation and the material at the hit.
#[derive(Clone, Copy, Debug, PartialEq, Eq, Structural)]
pub struct HitRecord {
    pub point: Vec3,
    pub normal: Vec3,
    pub material: Materials,
    pub t: i64,
    pub front_face: bool,
}

impl View for HitRecord {
    type V = HitS;

    open spec fn view(&self) -> HitS {
        HitS {
            point: self.point@,
            normal: self.normal@,
            material: self.material,
            t: self.t as int,
            front_face: self.front_face,
        }
    }
}

/// The fixed-point inner product with a negated vector is the negation
/// of the inner product.
pub proof fn lemma_dot_neg(a: V3, b: V3)
    ensures
        a.dot_s(b.neg_s()) == -a.dot_s(b),
{
    assert(a.dot_raw(b.neg_s()) == -a.dot_raw(b)) by (nonlinear_arith);
    crate::fx::lemma_tdiv_neg(a.dot_raw(b), SCALE as int);
}

impl HitRecord {
    /// A record before face correction; `front_face` starts out false.
    pub fn new(point: Vec3, normal: Vec3, t: i64, m: Materials) -> (r: Self)
        ensures
            r@ == (HitS {
                point: point@,
                normal: normal@,
                material: m,
                t: t as int,
                front_face: false,
            }),
    {
        Self { point, normal, t, front_face: false, material: m }
    }

    /// Store the outward-corrected normal: flip it when the incoming ray
    /// strikes the back face, so that it always points against the ray.
    pub fn set_face_normal(&mut self, r: &Ray)
        requires
            old(self)@.normal.bounded(2 * (SCALE as int)),
            r@.direction.bounded(RAY_BOUND as int),
        ensures
            final(self)@ == old(self)@.face_corrected(r@),
            r@.direction.dot_s(final(self)@.normal) <= 0,
    {
        proof {
            lemma_dot_neg(r@.direction, self@.normal);
        }
        self.front_face = r.direction.dot(self.normal) < 0;
        if !self.front_face {
            self.normal = self.normal.neg();
        }
    }
}

/// The intersection interface: a primitive (or a whole scene) answers
/// the nearest hit of a ray within a parametric interval.  `hit_s` is
/// the implementor's mathematical answer; `hit` computes exactly it.
pub trait Hittable {
    /// The mathematical intersection answer.
    spec fn hit_s(&self, ray: RayS, t_min: int, t_max: int) -> Option<HitS>;

    /// What the implementor requires of itself (bounds on its geometry).
    spec fn shape_wf(&self) -> bool;

    /// The nearest hit of `r` with parameter in `[t_min, t_max]`, or
    /// nothing.  Every returned record is well formed, lies in the
    /// interval, and its normal points against the ray.
    fn hit(&self, r: &Ray, t_min: i64, t_max: i64) -> (res: Option<HitRecord>)
        requires
            self.shape_wf(),
            ray_wf(r@),
            0 <= t_min <= t_max <= T_LIMIT,
        ensures
            match res {
                Some(h) => Some(h@) == self.hit_s(r@, t_min as int, t_max as int) && h@.wf_s()
                    && t_min <= h@.t <= t_max && r@.direction.dot_s(h@.normal) <= 0,
                None => self.hit_s(r@, t_min as int, t_max as int) is None,
            },
    ;
}

/// The closed set of primitives a scene can hold.
#[derive(Clone, Copy, Debug, PartialEq, Eq, Structural)]
pub enum Obj {
    Sphere(Sphere),
}

impl Obj {
    pub open spec fn obj_wf(self) -> bool {
        match self {
            Obj::Sphere(s) => s.shape_wf(),
        }
    }

    pub open spec fn obj_hit_s(self, ray: RayS, t_min: int, t_max: int) -> Option<HitS> {
        match self {
            Obj::Sphere(s) => s.hit_s(ray, t_min, t_max),
        }
    }

    /// Whether the primitive's geometry is within the accepted bounds.
    pub fn is_wf(&self) -> (r: bool)
        ensures
            r == self.obj_wf(),
    {
        match self {
            Obj::Sphere(s) => s.is_wf(),
        }
    }
}

/// An ordered collection of primitives; the order never changes the
/// nearest-hit answer, only the scan cost.
pub struct HittableList {
    pub objects: Vec<Obj>,
}

/// The nearest-hit fold over a prefix of the scene: primitives are
/// scanned in order, and each later hit must be strictly inside the
/// interval shrunk to the best parameter found so far.
pub open spec fn list_hit_s(objs: Seq<Obj>, ray: RayS, t_min: int, t_max: int) -> Option<HitS>
    decreases objs.len(),
{
    if objs.len() == 0 {
        None
    } else {
        let prefix = list_hit_s(objs.drop_last(), ray, t_min, t_max);
        let closest = match prefix {
            Some(h) => h.t,
            None => t_max,
        };
        match objs.last().obj_hit_s(ray, t_min, closest) {
            Some(h) => Some(h),
            None => prefix,
        }
    }
}

/// Every record that the nearest-hit fold produces over well-formed
/// primitives is well formed and lies inside the queried interval.
pub proof fn lemma_list_hit_wf(objs: Seq<Obj>, ray: RayS, t_min: int, t_max: int)
    requires
        forall|i: int| 0 <= i < objs.len() ==> (#[trigger] objs[i]).obj_wf(),
        t_min >= 0,
    ensures
        match list_hit_s(objs, ray, t_min, t_max) {
            Some(h) => h.wf_s() && t_min <= h.t <= t_max,
            None => true,
        },
    decreases objs.len(),
{
    if objs.len() > 0 {
        lemma_list_hit_wf(objs.drop_last(), ray, t_min, t_max);
        let prefix = list_hit_s(objs.drop_last(), ray, t_min, t_max);
        let closest = match prefix {
            Some(h) => h.t,
            None => t_max,
        };
        match objs.last() {
            Obj::Sphere(s) => {
                crate::sphere::lemma_sphere_hit_wf(
                    s.center@,
                    s.radius as int,
                    s.material,
                    ray,
                    t_min,
                    closest,
                );
            },
        }
    }
}

impl HittableList {
    /// An empty scene.
    pub fn new() -> (r: Self)
        ensures
            r.objects@ =~= Seq::<Obj>::empty(),
    {
        Self { objects: Vec::new() }
    }

    /// Append a primitive to the scene.
    pub fn add(&mut self, o: Obj)
        requires
            o.obj_wf(),
        ensures
            final(self).objects@ == old(self).objects@.push(o),
    {
        self.objects.push(o);
    }

    pub open spec fn scene_wf(self) -> bool {
        forall|i: int| 0 <= i < self.objects@.len() ==> (#[trigger] self.objects@[i]).obj_wf()
    }

    /// Whether every primitive of the scene is within the accepted
    /// bounds.
    pub fn is_wf(&self) -> (r: bool)
        ensures
            r == self.scene_wf(),
    {
        let mut i: usize = 0;
        while i < self.objects.len()
            invariant
                0 <= i <= self.objects@.len(),
                forall|j: int| 0 <= j < i ==> (#[trigger] self.objects@[j]).obj_wf(),
            decreases self.objects@.len() - i,
        {
            if !self.objects[i].is_wf() {
                return false;
            }
            i = i + 1;
        }
        true
    }
}

impl Hittable for HittableList {
    open spec fn hit_s(&self, ray: RayS, t_min: int, t_max: int) -> Option<HitS> {
        list_hit_s(self.objects@, ray, t_min, t_max)
    }

    open spec fn shape_wf(&self) -> bool {
        self.scene_wf()
    }

    /// Scan all primitives, shrinking the upper end of the interval to
    /// the closest parameter found so far, and return the closest hit.
    fn hit(&self, r: &Ray, t_min: i64, t_max: i64) -> (res: Option<HitRecord>) {
        let mut hit_record: Option<HitRecord> = None;
        let mut closest_so_far: i64 = t_max;
        let mut i: usize = 0;
        while i < self.objects.len()
            invariant
                0 <= i <= self.objects@.len(),
                self.scene_wf(),
                ray_wf(r@),
                0 <= t_min <= closest_so_far <= t_max <= T_LIMIT,
                match hit_record {
                    Some(h) => Some(h@) == list_hit_s(
                        self.objects@.take(i as int),
                        r@,
                        t_min as int,
                        t_max as int,
                    ) && h@.wf_s() && t_min <= h@.t <= t_max && h@.t == closest_so_far
                        && r@.direction.dot_s(h@.normal) <= 0,
                    None => list_hit_s(self.objects@.take(i as int), r@, t_min as int, t_max as int)
                        is None && closest_so_far == t_max,
                },
            decreases self.objects@.len() - i,
        {
            proof {
                assert(self.objects@.take(i + 1).drop_last() =~= self.objects@.take(i as int));
                assert(self.objects@.take(i + 1).last() == self.objects@[i as int]);
            }
            let possible_hit = match &self.objects[i] {
                Obj::Sphere(s) => s.hit(r, t_min, closest_so_far),
            };
            if let Some(hit) = possible_hit {
                closest_so_far = hit.t;
                hit_record = Some(hit);
            }
            i = i + 1;
        }
        proof {
            assert(self.objects@.take(self.objects@.len() as int) =~= self.objects@);
        }
        hit_record
    }
}

} // verus!
