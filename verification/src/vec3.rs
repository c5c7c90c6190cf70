//! Three-component fixed-point vectors, used for points, directions and
//! colors alike.
//!
//! The mathematical model of a vector is `V3`, a triple of unbounded
//! integers at the fixed-point scale of `fx::SCALE`.  Every executable
//! operation on `Vec3` returns exactly the vector that the matching `V3`
//! specification function describes.
use crate::fx;
use crate::fx::{
    abs_i, in64, is_floor_sqrt, ok_smul, sdiv_s, smul_s, sqrt_fx_s, sqrt_i, tdiv, SCALE,
};
use crate::rng::{next_state_s, range_from, unit_from, Rng};
use vstd::arithmetic::div_mod::{lemma_div_is_ordered, lemma_div_multiples_vanish};
use vstd::prelude::*;

verus! {

/// Components at or beyond this magnitude are not accepted by the
/// reductions (dot product, length): it keeps every intermediate sum
/// inside the machine integers.
pub const REDUCE_BOUND: i64 = 0x40_0000_0000;

/// The mathematical value of a vector: three integers at scale `SCALE`.
pub ghost struct V3 {
    pub x: int,
    pub y: int,
    pub z: int,
}

impl V3 {
    /// Every component is at most `m` in magnitude.
    pub open spec fn bounded(self, m: int) -> bool {
        abs_i(self.x) <= m && abs_i(self.y) <= m && abs_i(self.z) <= m
    }

    pub open spec fn add_s(self, o: V3) -> V3 {
        V3 { x: self.x + o.x, y: self.y + o.y, z: self.z + o.z }
    }

    pub open spec fn sub_s(self, o: V3) -> V3 {
        V3 { x: self.x - o.x, y: self.y - o.y, z: self.z - o.z }
    }

    pub open spec fn neg_s(self) -> V3 {
        V3 { x: -self.x, y: -self.y, z: -self.z }
    }

    /// Component-wise fixed-point product.
    pub open spec fn mul_s(self, o: V3) -> V3 {
        V3 { x: smul_s(self.x, o.x), y: smul_s(self.y, o.y), z: smul_s(self.z, o.z) }
    }

    /// Fixed-point product with a scalar.
    pub open spec fn scale_s(self, k: int) -> V3 {
        V3 { x: smul_s(self.x, k), y: smul_s(self.y, k), z: smul_s(self.z, k) }
    }

    /// Component-wise fixed-point quotient.
    pub open spec fn div_s(self, o: V3) -> V3 {
        V3 { x: sdiv_s(self.x, o.x), y: sdiv_s(self.y, o.y), z: sdiv_s(self.z, o.z) }
    }

    /// Fixed-point quotient by a scalar.
    pub open spec fn div_scale_s(self, k: int) -> V3 {
        V3 { x: sdiv_s(self.x, k), y: sdiv_s(self.y, k), z: sdiv_s(self.z, k) }
    }

    /// Exact (unscaled) inner product; carries scale `SCALE * SCALE`.
    pub open spec fn dot_raw(self, o: V3) -> int {
        self.x * o.x + self.y * o.y + self.z * o.z
    }

    /// Fixed-point inner product: the exact one, rescaled once.
    pub open spec fn dot_s(self, o: V3) -> int {
        tdiv(self.dot_raw(o), SCALE as int)
    }

    /// Exact (unscaled) squared length; carries scale `SCALE * SCALE`.
    pub open spec fn norm2_raw(self) -> int {
        self.dot_raw(self)
    }

    /// Fixed-point squared length.
    pub open spec fn len2_s(self) -> int {
        self.dot_s(self)
    }

    /// Fixed-point length: the floor root of the exact squared length
    /// keeps the scale, since that carries scale `SCALE * SCALE`.
    pub open spec fn len_s(self) -> int {
        sqrt_i(self.norm2_raw())
    }

    /// The vector rescaled to length one.
    pub open spec fn unit_s(self) -> V3 {
        self.div_scale_s(self.len_s())
    }

    pub open spec fn cross_s(self, o: V3) -> V3 {
        V3 {
            x: smul_s(self.y, o.z) - smul_s(self.z, o.y),
            y: smul_s(self.z, o.x) - smul_s(self.x, o.z),
            z: smul_s(self.x, o.y) - smul_s(self.y, o.x),
        }
    }

    pub open spec fn clamp1_s(c: int, lo: int, hi: int) -> int {
        if c < lo {
            lo
        } else if c > hi {
            hi
        } else {
            c
        }
    }

    pub open spec fn clamp_s(self, lo: int, hi: int) -> V3 {
        V3 {
            x: V3::clamp1_s(self.x, lo, hi),
            y: V3::clamp1_s(self.y, lo, hi),
            z: V3::clamp1_s(self.z, lo, hi),
        }
    }

    /// `self * k + b`, component-wise.
    pub open spec fn mul_add_s(self, k: int, b: V3) -> V3 {
        self.scale_s(k).add_s(b)
    }

    /// Component-wise fixed-point square root.
    pub open spec fn sqrt_comp_s(self) -> V3 {
        V3 { x: sqrt_fx_s(self.x), y: sqrt_fx_s(self.y), z: sqrt_fx_s(self.z) }
    }

    /// True when the vector vanishes at the fixed-point resolution.
    pub open spec fn near_zero_s(self) -> bool {
        self.x == 0 && self.y == 0 && self.z == 0
    }

    /// Mirror reflection about a normal: `v - 2 * dot(v, n) * n`.
    pub open spec fn reflect_s(self, n: V3) -> V3 {
        self.sub_s(n.scale_s(2 * self.dot_s(n)))
    }

    /// Snell refraction of `self` about `n` with index ratio `eta`.
    pub open spec fn refract_s(self, n: V3, eta: int) -> V3 {
        let cos_theta = {
            let d = self.neg_s().dot_s(n);
            if d > SCALE {
                SCALE as int
            } else {
                d
            }
        };
        let r_perp = self.add_s(n.scale_s(cos_theta)).scale_s(eta);
        let r_par = n.scale_s(sqrt_fx_s(abs_i(SCALE - r_perp.len2_s()))).neg_s();
        r_perp.add_s(r_par)
    }
}

/// A point, direction or color; the coordinates are fixed-point scalars.
#[derive(Clone, Copy, Debug, PartialEq, Eq, Structural)]
pub struct Vec3 {
    pub x: i64,
    pub y: i64,
    pub z: i64,
}

pub type Color = Vec3;

impl View for Vec3 {
    type V = V3;

    open spec fn view(&self) -> V3 {
        V3 { x: self.x as int, y: self.y as int, z: self.z as int }
    }
}

/// Both sums stay inside the machine integers.
pub open spec fn add_ok(a: V3, b: V3) -> bool {
    in64(a.x + b.x) && in64(a.y + b.y) && in64(a.z + b.z)
}

/// All three component products may be rescaled without overflow.
pub open spec fn mul_ok(a: V3, b: V3) -> bool {
    ok_smul(a.x, b.x) && ok_smul(a.y, b.y) && ok_smul(a.z, b.z)
}

/// All three products with the scalar may be rescaled without overflow.
pub open spec fn scale_ok(a: V3, k: int) -> bool {
    ok_smul(a.x, k) && ok_smul(a.y, k) && ok_smul(a.z, k)
}

/// One component-wise quotient is defined and stays in range.
pub open spec fn sdiv1_ok(p: int, q: int) -> bool {
    q != 0 && in64(sdiv_s(p, q))
}

/// The component-wise quotient is defined and stays in range.
pub open spec fn div_ok(a: V3, b: V3) -> bool {
    sdiv1_ok(a.x, b.x) && sdiv1_ok(a.y, b.y) && sdiv1_ok(a.z, b.z)
}

/// `a * k + b` stays in range component-wise.
pub open spec fn mul_add_ok(a: V3, k: int, b: V3) -> bool {
    scale_ok(a, k) && add_ok(a.scale_s(k), b)
}

/// Every product and difference of the cross product stays in range.
pub open spec fn cross_ok(a: V3, b: V3) -> bool {
    ok_smul(a.y, b.z) && ok_smul(a.z, b.y) && ok_smul(a.z, b.x) && ok_smul(a.x, b.z) && ok_smul(
        a.x,
        b.y,
    ) && ok_smul(a.y, b.x) && in64(smul_s(a.y, b.z) - smul_s(a.z, b.y)) && in64(
        smul_s(a.z, b.x) - smul_s(a.x, b.z),
    ) && in64(smul_s(a.x, b.y) - smul_s(a.y, b.x))
}

/// Magnitude bounds on two factors bound their product.
pub proof fn lemma_prod_bound(p: int, q: int, mp: int, mq: int)
    requires
        abs_i(p) <= mp,
        abs_i(q) <= mq,
    ensures
        -(mp * mq) <= p * q <= mp * mq,
{
    assert(-(mp * mq) <= p * q <= mp * mq) by (nonlinear_arith)
        requires
            abs_i(p) <= mp,
            abs_i(q) <= mq,
    ;
}

/// A square is never negative.
pub proof fn lemma_sq_nonneg(p: int)
    ensures
        p * p >= 0,
        p != 0 ==> p * p >= 1,
{
    assert(p * p >= 0 && (p != 0 ==> p * p >= 1)) by (nonlinear_arith);
}

/// The exact inner product of vectors bounded by `ma` and `mb` is bounded
/// by `3 * ma * mb`, and the fixed-point one by its rescaling.
pub proof fn lemma_dot_bound(a: V3, b: V3, ma: int, mb: int)
    requires
        a.bounded(ma),
        b.bounded(mb),
    ensures
        abs_i(a.dot_raw(b)) <= 3 * (ma * mb),
        abs_i(a.dot_s(b)) <= (3 * (ma * mb)) / (SCALE as int),
{
    lemma_prod_bound(a.x, b.x, ma, mb);
    lemma_prod_bound(a.y, b.y, ma, mb);
    lemma_prod_bound(a.z, b.z, ma, mb);
    fx::lemma_tdiv_mag(a.dot_raw(b), SCALE as int);
    lemma_div_is_ordered(abs_i(a.dot_raw(b)), 3 * (ma * mb), SCALE as int);
}

/// Every component's square is at most the exact squared length.
pub proof fn lemma_comp_sq_le_norm2(a: V3)
    ensures
        a.x * a.x <= a.norm2_raw(),
        a.y * a.y <= a.norm2_raw(),
        a.z * a.z <= a.norm2_raw(),
{
    lemma_sq_nonneg(a.x);
    lemma_sq_nonneg(a.y);
    lemma_sq_nonneg(a.z);
}

/// The squared length is never negative, and a vector with a non-zero
/// component has a positive exact squared length.
pub proof fn lemma_norm2_nonneg(a: V3)
    ensures
        a.norm2_raw() >= 0,
        a.len2_s() >= 0,
        !a.near_zero_s() ==> a.norm2_raw() >= 1,
        a.near_zero_s() ==> a.norm2_raw() == 0,
{
    lemma_sq_nonneg(a.x);
    lemma_sq_nonneg(a.y);
    lemma_sq_nonneg(a.z);
    fx::lemma_tdiv_mag(a.norm2_raw(), SCALE as int);
}

/// Each component of a unit vector is at most one: each component's
/// square is at most the exact squared length, so its magnitude is at
/// most the floor root, and dividing by that root cannot exceed `SCALE`.
pub proof fn lemma_unit_bounded(a: V3)
    requires
        a.norm2_raw() >= 1,
    ensures
        a.len_s() >= 1,
        a.unit_s().bounded(SCALE as int),
{
    fx::lemma_sqrt_exists(a.norm2_raw());
    let l = a.len_s();
    assert(l >= 1) by (nonlinear_arith)
        requires
            is_floor_sqrt(a.norm2_raw(), l),
            a.norm2_raw() >= 1,
    ;
    lemma_comp_sq_le_norm2(a);
    lemma_unit_comp(a.x, a.norm2_raw(), l);
    lemma_unit_comp(a.y, a.norm2_raw(), l);
    lemma_unit_comp(a.z, a.norm2_raw(), l);
}

/// One component of the unit-vector bound: if `c * c <= n` and `l` is the
/// floor root of `n`, then `|c| <= l`, hence `|c * SCALE / l| <= SCALE`.
proof fn lemma_unit_comp(c: int, n: int, l: int)
    requires
        is_floor_sqrt(n, l),
        l >= 1,
        c * c <= n,
    ensures
        abs_i(sdiv_s(c, l)) <= SCALE as int,
{
    assert(abs_i(c) <= l) by (nonlinear_arith)
        requires
            c * c <= n,
            n < (l + 1) * (l + 1),
            l >= 0,
    ;
    fx::lemma_tdiv_mag(c * SCALE, l);
    assert(abs_i(c * SCALE) <= l * SCALE) by (nonlinear_arith)
        requires
            abs_i(c) <= l,
    ;
    lemma_div_is_ordered(abs_i(c * SCALE), l * SCALE, l);
    lemma_div_multiples_vanish(SCALE as int, l);
    assert(l * SCALE == SCALE * l) by (nonlinear_arith);
}

/// A bound on a vector and on a scalar bound the scaled vector.
pub proof fn lemma_scale_le(a: V3, k: int, ma: int, mk: int, m: int)
    requires
        a.bounded(ma),
        abs_i(k) <= mk,
        ma * mk <= m * (SCALE as int),
        0 <= m <= i64::MAX,
    ensures
        scale_ok(a, k),
        a.scale_s(k).bounded(m),
{
    fx::lemma_smul_le(a.x, k, ma, mk, m);
    fx::lemma_smul_le(a.y, k, ma, mk, m);
    fx::lemma_smul_le(a.z, k, ma, mk, m);
}

/// Bounds on both vectors bound the component-wise product.
pub proof fn lemma_mulv_le(a: V3, b: V3, ma: int, mb: int, m: int)
    requires
        a.bounded(ma),
        b.bounded(mb),
        ma * mb <= m * (SCALE as int),
        0 <= m <= i64::MAX,
    ensures
        mul_ok(a, b),
        a.mul_s(b).bounded(m),
{
    fx::lemma_smul_le(a.x, b.x, ma, mb, m);
    fx::lemma_smul_le(a.y, b.y, ma, mb, m);
    fx::lemma_smul_le(a.z, b.z, ma, mb, m);
}

/// The fixed-point inner product of vectors bounded by `ma` and `mb` is
/// bounded by any `m` whose rescaling covers `3 * ma * mb`.
pub proof fn lemma_dot_le(a: V3, b: V3, ma: int, mb: int, m: int)
    requires
        a.bounded(ma),
        b.bounded(mb),
        3 * (ma * mb) <= m * (SCALE as int),
        0 <= m <= i64::MAX,
    ensures
        abs_i(a.dot_s(b)) <= m,
{
    lemma_prod_bound(a.x, b.x, ma, mb);
    lemma_prod_bound(a.y, b.y, ma, mb);
    lemma_prod_bound(a.z, b.z, ma, mb);
    fx::lemma_tdiv_mag(a.dot_raw(b), SCALE as int);
    lemma_div_is_ordered(abs_i(a.dot_raw(b)), m * (SCALE as int), SCALE as int);
    lemma_div_multiples_vanish(m, SCALE as int);
}

/// Three successive unit-interval draws, as vector components.
pub open spec fn rand_unit3_s(s: u64) -> (V3, u64) {
    let s1 = next_state_s(s);
    let s2 = next_state_s(s1);
    let s3 = next_state_s(s2);
    (V3 { x: unit_from(s), y: unit_from(s1), z: unit_from(s2) }, s3)
}

/// Three successive draws from `[lo, hi)`, as vector components.
pub open spec fn rand_range3_s(s: u64, lo: int, hi: int) -> (V3, u64) {
    let s1 = next_state_s(s);
    let s2 = next_state_s(s1);
    let s3 = next_state_s(s2);
    (V3 { x: range_from(s, lo, hi), y: range_from(s1, lo, hi), z: range_from(s2, lo, hi) }, s3)
}

/// Rejection sampling of the open unit disk in the `z = 0` plane: draw
/// until the squared length falls below one, with a deterministic centre
/// fallback once the tries run out.
pub open spec fn rand_disk_s(s: u64, tries: nat) -> (V3, u64)
    decreases tries,
{
    if tries == 0 {
        (V3 { x: 0, y: 0, z: 0 }, s)
    } else {
        let s1 = next_state_s(s);
        let s2 = next_state_s(s1);
        let p = V3 {
            x: range_from(s, -(SCALE as int), SCALE as int),
            y: range_from(s1, -(SCALE as int), SCALE as int),
            z: 0,
        };
        if p.len2_s() < SCALE {
            (p, s2)
        } else {
            rand_disk_s(s2, (tries - 1) as nat)
        }
    }
}

/// Number of rejection-sampling rounds before the deterministic
/// fallback.  A round is rejected with probability below one half, so
/// the fallback is, in practice, never taken.
pub const SAMPLE_TRIES: u64 = 16;

impl Vec3 {
    pub fn new(x: i64, y: i64, z: i64) -> (r: Self)
        ensures
            r@ == (V3 { x: x as int, y: y as int, z: z as int }),
    {
        Self { x, y, z }
    }

    /// A vector whose components are three unit-interval draws.
    pub fn random(rng: &mut Rng) -> (r: Self)
        ensures
            r@ == rand_unit3_s(old(rng).state).0,
            final(rng).state == rand_unit3_s(old(rng).state).1,
            0 <= r@.x < SCALE,
            0 <= r@.y < SCALE,
            0 <= r@.z < SCALE,
    {
        let x: i64 = rng.next_unit();
        let y: i64 = rng.next_unit();
        let z: i64 = rng.next_unit();
        Self { x, y, z }
    }

    /// A vector whose components are three draws from `[min, max)`.
    pub fn random_in_range(min: i64, max: i64, rng: &mut Rng) -> (r: Self)
        requires
            min < max,
            -0x1_0000_0000 <= min,
            max <= 0x1_0000_0000,
        ensures
            r@ == rand_range3_s(old(rng).state, min as int, max as int).0,
            final(rng).state == rand_range3_s(old(rng).state, min as int, max as int).1,
            min <= r@.x < max,
            min <= r@.y < max,
            min <= r@.z < max,
    {
        proof {
            assert((SCALE as int) * (SCALE as int) == 0x1_0000_0000) by (nonlinear_arith);
        }
        let x: i64 = rng.in_range(min, max);
        let y: i64 = rng.in_range(min, max);
        let z: i64 = rng.in_range(min, max);
        Self { x, y, z }
    }

    /// A draw from the open unit disk in the `z = 0` plane.
    pub fn random_in_unit_disk(rng: &mut Rng) -> (r: Self)
        ensures
            r@ == rand_disk_s(old(rng).state, SAMPLE_TRIES as nat).0,
            final(rng).state == rand_disk_s(old(rng).state, SAMPLE_TRIES as nat).1,
            r@.bounded(SCALE as int),
            r@.len2_s() < SCALE,
            r@.z == 0,
    {
        Self::disk_go(rng, SAMPLE_TRIES)
    }

    /// One rejection-sampling round for the unit disk.
    fn disk_go(rng: &mut Rng, tries: u64) -> (r: Self)
        ensures
            r@ == rand_disk_s(old(rng).state, tries as nat).0,
            final(rng).state == rand_disk_s(old(rng).state, tries as nat).1,
            r@.bounded(SCALE as int),
            r@.len2_s() < SCALE,
            r@.z == 0,
        decreases tries,
    {
        if tries == 0 {
            proof {
                fx::lemma_tdiv_mag(0, SCALE as int);
                vstd::arithmetic::div_mod::lemma_div_of0(SCALE as int);
            }
            Self { x: 0, y: 0, z: 0 }
        } else {
            proof {
                assert((SCALE as int) * (SCALE as int) == 0x1_0000_0000) by (nonlinear_arith);
            }
            let x: i64 = rng.in_range(-SCALE, SCALE);
            let y: i64 = rng.in_range(-SCALE, SCALE);
            let p: Vec3 = Self { x, y, z: 0 };
            if p.len_squared() < SCALE {
                p
            } else {
                Self::disk_go(rng, tries - 1)
            }
        }
    }

    #[inline]
    pub fn x(&self) -> (r: i64)
        ensures
            r == self@.x,
    {
        self.x
    }

    #[inline]
    pub fn y(&self) -> (r: i64)
        ensures
            r == self@.y,
    {
        self.y
    }

    #[inline]
    pub fn z(&self) -> (r: i64)
        ensures
            r == self@.z,
    {
        self.z
    }

    pub fn add(self, other: Self) -> (r: Self)
        requires
            add_ok(self@, other@),
        ensures
            r@ == self@.add_s(other@),
    {
        Self { x: self.x + other.x, y: self.y + other.y, z: self.z + other.z }
    }

    pub fn sub(self, other: Self) -> (r: Self)
        requires
            add_ok(self@, other@.neg_s()),
        ensures
            r@ == self@.sub_s(other@),
    {
        Self { x: self.x - other.x, y: self.y - other.y, z: self.z - other.z }
    }

    pub fn neg(self) -> (r: Self)
        requires
            in64(self@.x),
            in64(self@.y),
            in64(self@.z),
        ensures
            r@ == self@.neg_s(),
    {
        Self { x: -self.x, y: -self.y, z: -self.z }
    }

    /// Component-wise fixed-point product.
    pub fn mul(self, other: Self) -> (r: Self)
        requires
            mul_ok(self@, other@),
        ensures
            r@ == self@.mul_s(other@),
    {
        Self {
            x: fx::smul(self.x, other.x),
            y: fx::smul(self.y, other.y),
            z: fx::smul(self.z, other.z),
        }
    }

    /// Fixed-point product with a scalar.
    pub fn scale(self, k: i64) -> (r: Self)
        requires
            scale_ok(self@, k as int),
        ensures
            r@ == self@.scale_s(k as int),
    {
        Self { x: fx::smul(self.x, k), y: fx::smul(self.y, k), z: fx::smul(self.z, k) }
    }

    /// Component-wise fixed-point quotient.
    pub fn div(self, other: Self) -> (r: Self)
        requires
            div_ok(self@, other@),
        ensures
            r@ == self@.div_s(other@),
    {
        Self {
            x: fx::sdiv(self.x, other.x),
            y: fx::sdiv(self.y, other.y),
            z: fx::sdiv(self.z, other.z),
        }
    }

    /// Fixed-point quotient by a scalar.
    pub fn div_scalar(self, k: i64) -> (r: Self)
        requires
            sdiv1_ok(self@.x, k as int),
            sdiv1_ok(self@.y, k as int),
            sdiv1_ok(self@.z, k as int),
        ensures
            r@ == self@.div_scale_s(k as int),
    {
        Self { x: fx::sdiv(self.x, k), y: fx::sdiv(self.y, k), z: fx::sdiv(self.z, k) }
    }

    /// Fixed-point inner product.
    pub fn dot(&self, other: Vec3) -> (r: i64)
        requires
            self@.bounded(REDUCE_BOUND as int),
            other@.bounded(REDUCE_BOUND as int),
        ensures
            r == self@.dot_s(other@),
    {
        proof {
            lemma_prod_bound(self@.x, other@.x, REDUCE_BOUND as int, REDUCE_BOUND as int);
            lemma_prod_bound(self@.y, other@.y, REDUCE_BOUND as int, REDUCE_BOUND as int);
            lemma_prod_bound(self@.z, other@.z, REDUCE_BOUND as int, REDUCE_BOUND as int);
            lemma_dot_bound(self@, other@, REDUCE_BOUND as int, REDUCE_BOUND as int);
            fx::lemma_tdiv_mag(self@.dot_raw(other@), SCALE as int);
        }
        let p: i128 = (self.x as i128) * (other.x as i128) + (self.y as i128) * (other.y as i128)
            + (self.z as i128) * (other.z as i128);
        fx::rescale(p)
    }

    /// Cross product, in fixed-point arithmetic.
    pub fn cross(&self, other: Vec3) -> (r: Self)
        requires
            cross_ok(self@, other@),
        ensures
            r@ == self@.cross_s(other@),
    {
        let x: i64 = fx::smul(self.y, other.z) - fx::smul(self.z, other.y);
        let y: i64 = fx::smul(self.z, other.x) - fx::smul(self.x, other.z);
        let z: i64 = fx::smul(self.x, other.y) - fx::smul(self.y, other.x);
        Self { x, y, z }
    }

    /// Fixed-point squared length.
    pub fn len_squared(&self) -> (r: i64)
        requires
            self@.bounded(REDUCE_BOUND as int),
        ensures
            r == self@.len2_s(),
            r >= 0,
    {
        proof {
            lemma_norm2_nonneg(self@);
            fx::lemma_tdiv_mag(self@.norm2_raw(), SCALE as int);
        }
        self.dot(*self)
    }

    /// Fixed-point length.
    pub fn len(&self) -> (r: i64)
        requires
            self@.bounded(REDUCE_BOUND as int),
        ensures
            r == self@.len_s(),
            r >= 0,
    {
        proof {
            lemma_prod_bound(self@.x, self@.x, REDUCE_BOUND as int, REDUCE_BOUND as int);
            lemma_prod_bound(self@.y, self@.y, REDUCE_BOUND as int, REDUCE_BOUND as int);
            lemma_prod_bound(self@.z, self@.z, REDUCE_BOUND as int, REDUCE_BOUND as int);
            lemma_dot_bound(self@, self@, REDUCE_BOUND as int, REDUCE_BOUND as int);
            lemma_norm2_nonneg(self@);
        }
        let p: i128 = (self.x as i128) * (self.x as i128) + (self.y as i128) * (self.y as i128)
            + (self.z as i128) * (self.z as i128);
        let r: u64 = fx::isqrt(p as u128);
        proof {
            let n = self@.norm2_raw();
            assert(r as int <= 0x80_0000_0000i64) by (nonlinear_arith)
                requires
                    (r as int) * (r as int) <= n,
                    n <= 3 * ((REDUCE_BOUND as int) * (REDUCE_BOUND as int)),
                    r as int >= 0,
            ;
        }
        r as i64
    }

    /// The vector rescaled to length one.  The caller guarantees that the
    /// vector does not vanish at the fixed-point resolution.
    pub fn unit_vector(&self) -> (r: Self)
        requires
            self@.bounded(REDUCE_BOUND as int),
            self@.norm2_raw() >= 1,
        ensures
            r@ == self@.unit_s(),
            r@.bounded(SCALE as int),
    {
        proof {
            lemma_unit_bounded(self@);
            assert(self@.x * self@.x <= self@.norm2_raw() && self@.y * self@.y
                <= self@.norm2_raw() && self@.z * self@.z <= self@.norm2_raw())
                by (nonlinear_arith);
            fx::lemma_sqrt_exists(self@.norm2_raw());
            lemma_unit_comp(self@.x, self@.norm2_raw(), self@.len_s());
            lemma_unit_comp(self@.y, self@.norm2_raw(), self@.len_s());
            lemma_unit_comp(self@.z, self@.norm2_raw(), self@.len_s());
        }
        let l: i64 = self.len();
        self.div_scalar(l)
    }

    /// Clamp every component into `[min, max]`.
    pub fn clamp(&self, min: i64, max: i64) -> (r: Self)
        requires
            min <= max,
        ensures
            r@ == self@.clamp_s(min as int, max as int),
    {
        Self {
            x: clamp1(self.x, min, max),
            y: clamp1(self.y, min, max),
            z: clamp1(self.z, min, max),
        }
    }

    /// `(self * a) + b`, component-wise.
    pub fn mul_add_vec(&self, a: i64, b: Self) -> (r: Self)
        requires
            mul_add_ok(self@, a as int, b@),
        ensures
            r@ == self@.mul_add_s(a as int, b@),
    {
        self.scale(a).add(b)
    }

    /// Component-wise fixed-point square root.
    pub fn sqrt(&self) -> (r: Self)
        requires
            self@.x >= 0,
            self@.y >= 0,
            self@.z >= 0,
        ensures
            r@ == self@.sqrt_comp_s(),
    {
        Self { x: fx::sqrt_fx(self.x), y: fx::sqrt_fx(self.y), z: fx::sqrt_fx(self.z) }
    }

    /// Mirror reflection about a normal: `v - 2 * dot(v, n) * n`.
    pub fn reflect(&self, n: Vec3) -> (r: Vec3)
        requires
            self@.bounded(4 * (SCALE as int)),
            n@.bounded(4 * (SCALE as int)),
        ensures
            r@ == self@.reflect_s(n@),
            r@.bounded(400 * (SCALE as int)),
    {
        proof {
            assert(3 * ((4 * (SCALE as int)) * (4 * (SCALE as int))) <= (48 * (SCALE as int)) * (
            SCALE as int)) by (nonlinear_arith);
            lemma_dot_le(self@, n@, 4 * (SCALE as int), 4 * (SCALE as int), 48 * (SCALE as int));
            assert((4 * (SCALE as int)) * (96 * (SCALE as int)) <= (384 * (SCALE as int)) * (
            SCALE as int)) by (nonlinear_arith);
            lemma_scale_le(
                n@,
                2 * self@.dot_s(n@),
                4 * (SCALE as int),
                96 * (SCALE as int),
                384 * (SCALE as int),
            );
        }
        let d: i64 = self.dot(n);
        self.sub(n.scale(2 * d))
    }

    /// Snell refraction of `self` about `n` with index ratio
    /// `etai_over_etat` (a fixed-point scalar).
    pub fn refract(&self, n: Vec3, etai_over_etat: i64) -> (r: Vec3)
        requires
            self@.bounded(4 * (SCALE as int)),
            n@.bounded(4 * (SCALE as int)),
            0 < etai_over_etat <= 4 * (SCALE as int),
        ensures
            r@ == self@.refract_s(n@, etai_over_etat as int),
            r@.bounded(8192 * (SCALE as int)),
    {
        proof {
            assert(3 * ((4 * (SCALE as int)) * (4 * (SCALE as int))) <= (48 * (SCALE as int)) * (
            SCALE as int)) by (nonlinear_arith);
            lemma_dot_le(
                self@.neg_s(),
                n@,
                4 * (SCALE as int),
                4 * (SCALE as int),
                48 * (SCALE as int),
            );
        }
        let d: i64 = self.neg().dot(n);
        let cos_theta: i64 = if d > SCALE {
            SCALE
        } else {
            d
        };
        proof {
            assert((4 * (SCALE as int)) * (48 * (SCALE as int)) <= (192 * (SCALE as int)) * (
            SCALE as int)) by (nonlinear_arith);
            lemma_scale_le(
                n@,
                cos_theta as int,
                4 * (SCALE as int),
                48 * (SCALE as int),
                192 * (SCALE as int),
            );
            assert((196 * (SCALE as int)) * (4 * (SCALE as int)) <= (784 * (SCALE as int)) * (
            SCALE as int)) by (nonlinear_arith);
            lemma_scale_le(
                self@.add_s(n@.scale_s(cos_theta as int)),
                etai_over_etat as int,
                196 * (SCALE as int),
                4 * (SCALE as int),
                784 * (SCALE as int),
            );
        }
        let r_perp: Vec3 = self.add(n.scale(cos_theta)).scale(etai_over_etat);
        proof {
            assert(3 * ((784 * (SCALE as int)) * (784 * (SCALE as int))) <= (1843968 * (
            SCALE as int)) * (SCALE as int)) by (nonlinear_arith);
            lemma_dot_le(
                r_perp@,
                r_perp@,
                784 * (SCALE as int),
                784 * (SCALE as int),
                1843968 * (SCALE as int),
            );
            lemma_norm2_nonneg(r_perp@);
        }
        let l2: i64 = r_perp.len_squared();
        let k: i64 = if l2 > SCALE {
            l2 - SCALE
        } else {
            SCALE - l2
        };
        let s: i64 = fx::sqrt_fx(k);
        proof {
            assert((1843969 * (SCALE as int)) * (SCALE as int) <= (1358 * (SCALE as int)) * (1358
                * (SCALE as int))) by (nonlinear_arith);
            assert(k as int * (SCALE as int) <= (1843969 * (SCALE as int)) * (SCALE as int))
                by (nonlinear_arith)
                requires
                    0 <= k as int <= 1843969 * (SCALE as int),
            ;
            fx::lemma_sqrt_le(k as int * (SCALE as int), 1358 * (SCALE as int));
            assert((4 * (SCALE as int)) * (1358 * (SCALE as int)) <= (5432 * (SCALE as int)) * (
            SCALE as int)) by (nonlinear_arith);
            lemma_scale_le(
                n@,
                s as int,
                4 * (SCALE as int),
                1358 * (SCALE as int),
                5432 * (SCALE as int),
            );
        }
        let r_par: Vec3 = n.scale(s).neg();
        r_perp.add(r_par)
    }

    /// True when the vector vanishes at the fixed-point resolution.
    pub fn near_zero(&self) -> (r: bool)
        ensures
            r == self@.near_zero_s(),
    {
        self.x == 0 && self.y == 0 && self.z == 0
    }

    /// Whether every component is at most `m` in magnitude.
    pub fn bounded_by(&self, m: i64) -> (r: bool)
        requires
            m >= 0,
        ensures
            r == self@.bounded(m as int),
    {
        -m <= self.x && self.x <= m && -m <= self.y && self.y <= m && -m <= self.z && self.z <= m
    }
}

impl Default for Vec3 {
    /// The zero vector (black, as a color).
    fn default() -> (r: Self)
        ensures
            r@ == (V3 { x: 0, y: 0, z: 0 }),
    {
        Vec3 { x: 0, y: 0, z: 0 }
    }
}

/// A scalar draw from `[min, max)`: the uniform unit draw stretched
/// over the interval.
pub fn random_scalar(min: i64, max: i64, rng: &mut Rng) -> (r: i64)
    requires
        min < max,
        -0x1_0000_0000 <= min,
        max <= 0x1_0000_0000,
    ensures
        r == crate::rng::range_from(old(rng).state, min as int, max as int),
        final(rng).state == next_state_s(old(rng).state),
        min <= r < max,
{
    proof {
        assert((SCALE as int) * (SCALE as int) == 0x1_0000_0000) by (nonlinear_arith);
    }
    rng.in_range(min, max)
}

/// Clamp a scalar into `[min, max]`.
fn clamp1(c: i64, min: i64, max: i64) -> (r: i64)
    requires
        min <= max,
    ensures
        r == V3::clamp1_s(c as int, min as int, max as int),
{
    if c < min {
        min
    } else if c > max {
        max
    } else {
        c
    }
}

} // verus!
