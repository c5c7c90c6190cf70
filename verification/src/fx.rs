//! Fixed-point scalar arithmetic.
//!
//! An `i64` scalar carries the real value `x / SCALE`, so `SCALE` itself
//! stands for one.  Multiplication and division rescale their result and
//! round toward zero; square roots are exact integer floor square roots of
//! the rescaled radicand.  Every executable operation here is proved to
//! return exactly the value of its specification-level counterpart.
use vstd::arithmetic::div_mod::{
    lemma_div_is_ordered, lemma_div_is_ordered_by_denominator, lemma_div_nonincreasing,
    lemma_div_pos_is_pos,
};
use vstd::prelude::*;

verus! {

/// Number of fixed-point units that make up the real value one.
pub const SCALE: i64 = 65536;

/// Absolute value of a mathematical integer.
pub open spec fn abs_i(a: int) -> int {
    if a >= 0 {
        a
    } else {
        -a
    }
}

/// Truncating division (round toward zero), the rounding that the
/// executable arithmetic below performs.  Unspecified for `b == 0`.
pub open spec fn tdiv(a: int, b: int) -> int {
    if (a < 0) == (b < 0) {
        abs_i(a) / abs_i(b)
    } else {
        -(abs_i(a) / abs_i(b))
    }
}

/// Product of two fixed-point scalars, rescaled back by `SCALE`.
pub open spec fn smul_s(a: int, b: int) -> int {
    tdiv(a * b, SCALE as int)
}

/// Quotient of two fixed-point scalars, pre-scaled by `SCALE`.
pub open spec fn sdiv_s(a: int, b: int) -> int {
    tdiv(a * SCALE, b)
}

/// The value fits in an `i64` (the minimum is left out so that negation
/// is always safe).
pub open spec fn in64(v: int) -> bool {
    -(i64::MAX as int) <= v <= i64::MAX
}

/// The product may be rescaled by `SCALE` without leaving `i64`.
pub open spec fn ok_smul(p: int, q: int) -> bool {
    -65536 * (i64::MAX as int) <= p * q <= 65536 * (i64::MAX as int)
}

/// `r` is the floor square root of `n`.
pub open spec fn is_floor_sqrt(n: int, r: int) -> bool {
    0 <= r && r * r <= n && n < (r + 1) * (r + 1)
}

/// Floor square root of a non-negative integer.
pub open spec fn sqrt_i(n: int) -> int {
    choose|r: int| is_floor_sqrt(n, r)
}

/// Square root of a non-negative fixed-point scalar, as a fixed-point
/// scalar: the radicand is rescaled so that the root keeps the scale.
pub open spec fn sqrt_fx_s(x: int) -> int {
    sqrt_i(x * SCALE)
}

pub proof fn lemma_sqrt_exists(n: int)
    requires
        n >= 0,
    ensures
        is_floor_sqrt(n, sqrt_i(n)),
    decreases n,
{
    if n == 0 {
        assert(is_floor_sqrt(0, 0));
    } else {
        lemma_sqrt_exists(n - 1);
        let p = sqrt_i(n - 1);
        if (p + 1) * (p + 1) <= n {
            assert(n <= (p + 1) * (p + 1)) by (nonlinear_arith)
                requires
                    n - 1 < (p + 1) * (p + 1),
            ;
            assert(n < (p + 2) * (p + 2)) by (nonlinear_arith)
                requires
                    n == (p + 1) * (p + 1),
                    p >= 0,
            ;
            assert(is_floor_sqrt(n, p + 1));
        } else {
            assert(is_floor_sqrt(n, p));
        }
    }
}

pub proof fn lemma_sqrt_unique(n: int, r: int)
    requires
        is_floor_sqrt(n, r),
    ensures
        r == sqrt_i(n),
{
    lemma_sqrt_exists(n);
    let s = sqrt_i(n);
    assert(r == s) by (nonlinear_arith)
        requires
            0 <= r && r * r <= n && n < (r + 1) * (r + 1),
            0 <= s && s * s <= n && n < (s + 1) * (s + 1),
    ;
}

/// A floor root is bounded by any root of an upper bound of the radicand.
pub proof fn lemma_sqrt_le(n: int, m: int)
    requires
        0 <= n,
        n <= m * m,
        0 <= m,
    ensures
        sqrt_i(n) <= m,
{
    lemma_sqrt_exists(n);
    let r = sqrt_i(n);
    assert(r <= m) by (nonlinear_arith)
        requires
            0 <= r,
            r * r <= n,
            n <= m * m,
            0 <= m,
    ;
}

/// Magnitude and sign facts about truncating division.
pub proof fn lemma_tdiv_mag(a: int, b: int)
    requires
        b != 0,
    ensures
        abs_i(tdiv(a, b)) == abs_i(a) / abs_i(b),
        abs_i(tdiv(a, b)) <= abs_i(a),
        a >= 0 && b > 0 ==> tdiv(a, b) >= 0,
{
    lemma_div_pos_is_pos(abs_i(a), abs_i(b));
    lemma_div_nonincreasing(abs_i(a), abs_i(b));
}

/// Truncating division commutes with negation of either operand.
pub proof fn lemma_tdiv_neg(a: int, b: int)
    requires
        b != 0,
    ensures
        tdiv(-a, b) == -tdiv(a, b),
        tdiv(a, -b) == -tdiv(a, b),
{
    if a == 0 {
        vstd::arithmetic::div_mod::lemma_div_of0(abs_i(b));
    }
}

/// Division with a larger denominator of equal sign gives a result no
/// larger in magnitude.
pub proof fn lemma_tdiv_denominator(a: int, b: int, c: int)
    requires
        0 < b <= c,
    ensures
        abs_i(tdiv(a, c)) <= abs_i(tdiv(a, b)),
{
    lemma_tdiv_mag(a, b);
    lemma_tdiv_mag(a, c);
    lemma_div_is_ordered_by_denominator(abs_i(a), b, c);
}

/// Bounds on the magnitudes of the inputs bound the product and the
/// rescaled product; the rescaled bound is handed in directly so that
/// call sites can give a folded constant.
pub proof fn lemma_smul_le(a: int, b: int, ma: int, mb: int, m: int)
    requires
        abs_i(a) <= ma,
        abs_i(b) <= mb,
        ma * mb <= m * (SCALE as int),
        0 <= m <= i64::MAX,
    ensures
        ok_smul(a, b),
        abs_i(smul_s(a, b)) <= m,
{
    assert(-(ma * mb) <= a * b <= ma * mb) by (nonlinear_arith)
        requires
            abs_i(a) <= ma,
            abs_i(b) <= mb,
    ;
    lemma_tdiv_mag(a * b, SCALE as int);
    lemma_div_is_ordered(abs_i(a * b), m * (SCALE as int), SCALE as int);
    vstd::arithmetic::div_mod::lemma_div_multiples_vanish(m, SCALE as int);
}

/// Dividing by a scalar no smaller than one cannot grow the magnitude.
pub proof fn lemma_sdiv_mag_le(c: int, k: int)
    requires
        k >= SCALE,
    ensures
        abs_i(sdiv_s(c, k)) <= abs_i(c),
{
    lemma_tdiv_denominator(c * SCALE, SCALE as int, k);
    lemma_tdiv_mag(c * SCALE, SCALE as int);
    assert(abs_i(c * SCALE) == abs_i(c) * (SCALE as int)) by (nonlinear_arith);
    assert(abs_i(c) * (SCALE as int) == (SCALE as int) * abs_i(c)) by (nonlinear_arith);
    vstd::arithmetic::div_mod::lemma_div_multiples_vanish(abs_i(c), SCALE as int);
}

/// The rescaled product does not depend on the order of its factors.
pub proof fn lemma_smul_comm(a: int, b: int)
    ensures
        smul_s(a, b) == smul_s(b, a),
{
    assert(a * b == b * a) by (nonlinear_arith);
}

/// Multiplying by a scalar in the unit interval does not amplify:
/// the rescaled product stays between zero and either factor's bound.
pub proof fn lemma_smul_unit(a: int, b: int)
    requires
        0 <= a,
        0 <= b <= SCALE,
    ensures
        0 <= smul_s(a, b) <= a,
{
    lemma_tdiv_mag(a * b, SCALE as int);
    assert(a * b <= a * SCALE && 0 <= a * b) by (nonlinear_arith)
        requires
            0 <= a,
            0 <= b <= SCALE,
    ;
    lemma_div_is_ordered(a * b, a * SCALE, SCALE as int);
    vstd::arithmetic::div_mod::lemma_div_multiples_vanish(a, SCALE as int);
}

/// Fixed-point multiplication, exact truncated result.
pub fn smul(a: i64, b: i64) -> (r: i64)
    requires
        -65536 * (i64::MAX as int) <= a * b <= 65536 * (i64::MAX as int),
    ensures
        r == smul_s(a as int, b as int),
{
    proof {
        assert(i128::MIN < (a as int) * (b as int) < i128::MAX) by (nonlinear_arith)
            requires
                -(i64::MAX as int) - 1 <= a <= i64::MAX,
                -(i64::MAX as int) - 1 <= b <= i64::MAX,
        ;
        lemma_tdiv_mag((a as int) * (b as int), SCALE as int);
        lemma_div_is_ordered(abs_i((a as int) * (b as int)), 65536 * (i64::MAX as int),
            SCALE as int);
        vstd::arithmetic::div_mod::lemma_div_multiples_vanish(i64::MAX as int, SCALE as int);
    }
    let p: i128 = (a as i128) * (b as i128);
    if p >= 0 {
        ((p as u128) / 65536u128) as i64
    } else {
        let q: u128 = ((-p) as u128) / 65536u128;
        -(q as i64)
    }
}

/// Rescale an exact double-width product back by `SCALE`.
pub fn rescale(p: i128) -> (r: i64)
    requires
        in64(tdiv(p as int, SCALE as int)),
    ensures
        r == tdiv(p as int, SCALE as int),
{
    proof {
        lemma_tdiv_mag(p as int, SCALE as int);
        vstd::arithmetic::div_mod::lemma_fundamental_div_mod(abs_i(p as int), SCALE as int);
    }
    if p >= 0 {
        ((p as u128) / 65536u128) as i64
    } else {
        let q: u128 = ((-p) as u128) / 65536u128;
        -(q as i64)
    }
}

/// Fixed-point division, exact truncated result.
pub fn sdiv(a: i64, b: i64) -> (r: i64)
    requires
        b != 0,
        -(i64::MAX as int) <= sdiv_s(a as int, b as int) <= i64::MAX,
    ensures
        r == sdiv_s(a as int, b as int),
{
    proof {
        lemma_tdiv_mag((a as int) * (SCALE as int), b as int);
    }
    let n: i128 = (a as i128) * 65536;
    let na: u128 = if n >= 0 {
        n as u128
    } else {
        (-n) as u128
    };
    let da: u128 = if b >= 0 {
        b as u128
    } else {
        ((-(b as i128)) as u128)
    };
    let q: u128 = na / da;
    if (a < 0) == (b < 0) {
        q as i64
    } else {
        -(q as i64)
    }
}

/// Floor square root of an arbitrary 128-bit unsigned integer, by binary
/// search on the root.
pub fn isqrt(n: u128) -> (r: u64)
    ensures
        is_floor_sqrt(n as int, r as int),
        r == sqrt_i(n as int),
{
    let mut lo: u64 = 0;
    let mut hi: u64 = u64::MAX;
    proof {
        assert((n as int) < (u64::MAX as int + 1) * (u64::MAX as int + 1)) by (nonlinear_arith);
    }
    while lo < hi
        invariant
            lo <= hi,
            (lo as int) * (lo as int) <= n as int,
            (n as int) < (hi as int + 1) * (hi as int + 1),
        decreases hi - lo,
    {
        let half: u64 = (hi - lo) / 2;
        assert(half + 1 <= hi - lo);
        let mid: u64 = lo + half + 1;
        assert(lo < mid <= hi);
        proof {
            assert((mid as int) * (mid as int) <= u128::MAX) by (nonlinear_arith)
                requires
                    0 <= mid as int <= u64::MAX,
            ;
        }
        let m2: u128 = (mid as u128) * (mid as u128);
        if m2 <= n {
            lo = mid;
        } else {
            hi = mid - 1;
        }
    }
    proof {
        lemma_sqrt_unique(n as int, lo as int);
    }
    lo
}

/// Square root of a non-negative fixed-point scalar.
pub fn sqrt_fx(x: i64) -> (r: i64)
    requires
        0 <= x,
    ensures
        r == sqrt_fx_s(x as int),
        0 <= r,
{
    let n: u128 = (x as u128) * 65536;
    let r: u64 = isqrt(n);
    proof {
        lemma_sqrt_exists(n as int);
        assert((r as int) * (r as int) <= n as int);
        assert(n as int <= (i64::MAX as int) * (i64::MAX as int)) by (nonlinear_arith)
            requires
                n as int <= (i64::MAX as int) * 65536,
        ;
        assert(r as int <= i64::MAX as int) by (nonlinear_arith)
            requires
                (r as int) * (r as int) <= (i64::MAX as int) * (i64::MAX as int),
                r as int >= 0,
        ;
    }
    r as i64
}

} // verus!
