//! Saturating fixed-point scalar arithmetic.
//!
//! A scalar is an `i64` holding a Q35.28 fixed-point value: the rational
//! `v / FX_ONE`, with `FX_ONE == 2^28`. Every operation clamps its result
//! into `[-FX_MAX, FX_MAX]`, so the functions here are total and never
//! overflow; their results are stated exactly by the `spec_fx_*` functions.

use vstd::prelude::*;
use vstd::arithmetic::div_mod::{
    lemma_div_is_ordered, lemma_div_is_ordered_by_denominator, lemma_div_multiples_vanish,
    lemma_div_pos_is_pos,
};
use vstd::arithmetic::mul::{
    lemma_mul_inequality, lemma_mul_is_commutative, lemma_mul_nonnegative, lemma_mul_upper_bound,
};
use vstd::arithmetic::power2::{lemma_pow2_strictly_increases, lemma_pow2_unfold, pow2};

verus! {

/// The fixed-point representation of 1.0 (2^28).
pub const FX_ONE: i64 = 268435456;

/// Largest scalar magnitude: 2^62 - 1 fixed-point units.
pub const FX_MAX: i64 = 4611686018427387903;

/// Magnitude of `a`, as a mathematical integer.
pub open spec fn iabs(a: int) -> int {
    if a < 0 {
        -a
    } else {
        a
    }
}

/// Saturate a mathematical integer into the representable scalar range.
pub open spec fn spec_clamp(x: int) -> int {
    if x > FX_MAX {
        FX_MAX as int
    } else if x < -FX_MAX {
        -FX_MAX as int
    } else {
        x
    }
}

pub open spec fn fx_in_range(x: int) -> bool {
    -FX_MAX <= x <= FX_MAX
}

/// Saturating fixed-point sum.
pub open spec fn spec_fx_add(a: int, b: int) -> int {
    spec_clamp(a + b)
}

/// Saturating fixed-point difference.
pub open spec fn spec_fx_sub(a: int, b: int) -> int {
    spec_clamp(a - b)
}

/// Saturating fixed-point product: magnitudes are multiplied, rescaled by
/// `FX_ONE` rounding toward zero, and the sign is reapplied.
pub open spec fn spec_fx_mul(a: int, b: int) -> int {
    let m = (iabs(a) * iabs(b)) / (FX_ONE as int);
    if (a < 0) <==> (b < 0) {
        spec_clamp(m)
    } else {
        spec_clamp(-m)
    }
}

/// Saturating fixed-point quotient for a positive divisor, rounding toward
/// zero. Defined as 0 for a non-positive divisor so that the function is
/// total; executable callers require `b > 0`.
pub open spec fn spec_fx_div(a: int, b: int) -> int {
    if b <= 0 {
        0
    } else {
        let m = (iabs(a) * (FX_ONE as int)) / b;
        if a < 0 {
            spec_clamp(-m)
        } else {
            spec_clamp(m)
        }
    }
}

/// Clamp a wide intermediate into the scalar range.
fn clamp_i128(x: i128) -> (r: i64)
    ensures
        r as int == spec_clamp(x as int),
{
    if x > FX_MAX as i128 {
        FX_MAX
    } else if x < -(FX_MAX as i128) {
        -FX_MAX
    } else {
        x as i64
    }
}

/// Magnitude of a scalar, widened so that `i64::MIN` needs no special case.
fn abs_u128(a: i64) -> (r: u128)
    ensures
        r as int == iabs(a as int),
{
    if a < 0 {
        (-(a as i128)) as u128
    } else {
        a as u128
    }
}

/// Reapply a sign to a magnitude and clamp.
fn signed_clamp(neg: bool, m: u128) -> (r: i64)
    ensures
        r as int == if neg {
            spec_clamp(-(m as int))
        } else {
            spec_clamp(m as int)
        },
{
    if neg {
        if m > FX_MAX as u128 {
            -FX_MAX
        } else {
            -((m as i128) as i64)
        }
    } else {
        if m > FX_MAX as u128 {
            FX_MAX
        } else {
            m as i64
        }
    }
}

/// Saturating scalar addition.
pub fn fx_add(a: i64, b: i64) -> (r: i64)
    ensures
        r as int == spec_fx_add(a as int, b as int),
{
    clamp_i128(a as i128 + b as i128)
}

/// Saturating scalar subtraction.
pub fn fx_sub(a: i64, b: i64) -> (r: i64)
    ensures
        r as int == spec_fx_sub(a as int, b as int),
{
    clamp_i128(a as i128 - b as i128)
}

/// Saturating scalar multiplication (rescaled by `FX_ONE`).
pub fn fx_mul(a: i64, b: i64) -> (r: i64)
    ensures
        r as int == spec_fx_mul(a as int, b as int),
{
    let neg = (a < 0) != (b < 0);
    let pa = abs_u128(a);
    let pb = abs_u128(b);
    proof {
        assert(pa * pb <= 0x8000000000000000u128 * 0x8000000000000000u128) by (nonlinear_arith)
            requires
                pa <= 0x8000000000000000u128,
                pb <= 0x8000000000000000u128,
        ;
    }
    let m = (pa * pb) / (FX_ONE as u128);
    signed_clamp(neg, m)
}

/// ln 2 in fixed point, rounded down.
pub const FX_LN2: i64 = 186065279;

/// Exponentiation floor: arguments at or below -20.0 exponentiate to zero.
pub const FX_EXP_FLOOR: i64 = 5368709120;

/// Rescaled product of two non-negative scalars, without saturation.
pub open spec fn mulp(a: int, b: int) -> int {
    (a * b) / (FX_ONE as int)
}

/// `mulp` by a sub-unit scalar shrinks the other factor.
proof fn lemma_mulp_le(a: int, b: int)
    requires
        0 <= a <= FX_ONE as int,
        0 <= b,
    ensures
        0 <= mulp(a, b) <= b,
{
    lemma_mul_nonnegative(a, b);
    lemma_mul_inequality(a, FX_ONE as int, b);
    lemma_div_is_ordered(a * b, (FX_ONE as int) * b, FX_ONE as int);
    lemma_div_multiples_vanish(b, FX_ONE as int);
    lemma_div_pos_is_pos(a * b, FX_ONE as int);
}

/// Degree-10 alternating series for `e^(-r/FX_ONE) * FX_ONE`, valid on
/// `0 <= r <= FX_LN2`.
pub open spec fn spec_exp_unit(r: int) -> int {
    let t1 = r;
    let t2 = mulp(r, t1) / 2;
    let t3 = mulp(r, t2) / 3;
    let t4 = mulp(r, t3) / 4;
    let t5 = mulp(r, t4) / 5;
    let t6 = mulp(r, t5) / 6;
    let t7 = mulp(r, t6) / 7;
    let t8 = mulp(r, t7) / 8;
    let t9 = mulp(r, t8) / 9;
    let t10 = mulp(r, t9) / 10;
    (FX_ONE as int) - t1 + t2 - t3 + t4 - t5 + t6 - t7 + t8 - t9 + t10
}

/// One series term: `mulp(r, t) / k`.
fn exp_term(r: u64, t: u64, k: u64) -> (res: u64)
    requires
        r < FX_ONE as u64,
        t <= FX_ONE as u64,
        1 <= k,
    ensures
        res as int == mulp(r as int, t as int) / (k as int),
        res <= t,
{
    proof {
        lemma_mul_upper_bound(r as int, FX_ONE as int, t as int, FX_ONE as int);
        lemma_mulp_le(r as int, t as int);
        lemma_div_is_ordered_by_denominator(mulp(r as int, t as int), 1, k as int);
    }
    (r * t) / (FX_ONE as u64) / k
}

/// The unit-interval exponential series, matching `spec_exp_unit` exactly.
fn exp_unit(r: u64) -> (res: u64)
    requires
        r <= FX_LN2 as u64,
    ensures
        res as int == spec_exp_unit(r as int),
        res <= FX_ONE as u64,
{
    let t1: u64 = r;
    let t2 = exp_term(r, t1, 2);
    let t3 = exp_term(r, t2, 3);
    let t4 = exp_term(r, t3, 4);
    let t5 = exp_term(r, t4, 5);
    let t6 = exp_term(r, t5, 6);
    let t7 = exp_term(r, t6, 7);
    let t8 = exp_term(r, t7, 8);
    let t9 = exp_term(r, t8, 9);
    let t10 = exp_term(r, t9, 10);
    let s: i64 = FX_ONE - t1 as i64 + t2 as i64 - t3 as i64 + t4 as i64 - t5 as i64 + t6 as i64
        - t7 as i64 + t8 as i64 - t9 as i64 + t10 as i64;
    s as u64
}

/// Repeated halving, rounding toward negative infinity at each step.
pub open spec fn spec_halve(v: int, q: nat) -> int
    decreases q,
{
    if q == 0 {
        v
    } else {
        spec_halve(v, (q - 1) as nat) / 2
    }
}

/// `e^(x/FX_ONE) * FX_ONE` for non-positive `x`: range reduction by
/// `FX_LN2`, the unit series, then one halving per reduced octave.
pub open spec fn spec_fx_exp(x: int) -> int {
    if x >= 0 {
        FX_ONE as int
    } else if x <= -(FX_EXP_FLOOR as int) {
        0
    } else {
        spec_halve(spec_exp_unit((-x) % (FX_LN2 as int)), ((-x) / (FX_LN2 as int)) as nat)
    }
}

/// Scalar exponential of a non-positive argument.
pub fn fx_exp(x: i64) -> (res: i64)
    requires
        x <= 0,
    ensures
        res as int == spec_fx_exp(x as int),
        0 <= res <= FX_ONE,
{
    if x == 0 {
        return FX_ONE;
    }
    if x <= -FX_EXP_FLOOR {
        return 0;
    }
    let nx: u64 = (-(x as i128)) as u64;
    let q: u64 = nx / (FX_LN2 as u64);
    let r: u64 = nx % (FX_LN2 as u64);
    let e = exp_unit(r);
    let mut cur: u64 = e;
    let mut i: u64 = 0;
    while i < q
        invariant
            i <= q,
            cur as int == spec_halve(e as int, i as nat),
            cur <= FX_ONE as u64,
        decreases q - i,
    {
        cur = cur / 2;
        i = i + 1;
    }
    cur as i64
}

/// Exponential of the gap `x - m` for `x <= m`, however wide the gap.
pub fn fx_exp_diff(x: i64, m: i64) -> (res: i64)
    requires
        x <= m,
    ensures
        res as int == spec_fx_exp(x as int - m as int),
        0 <= res <= FX_ONE,
{
    let d: i128 = x as i128 - m as i128;
    if d <= -(FX_EXP_FLOOR as i128) {
        0
    } else {
        fx_exp(d as i64)
    }
}

/// One series term stays within its predecessor.
proof fn lemma_exp_term_le(r: int, t: int, k: int)
    requires
        0 <= r <= FX_ONE as int,
        0 <= t,
        1 <= k,
    ensures
        0 <= mulp(r, t) / k <= t,
{
    lemma_mulp_le(r, t);
    lemma_div_is_ordered_by_denominator(mulp(r, t), 1, k);
    lemma_div_pos_is_pos(mulp(r, t), k);
}

/// The unit series stays within `[0, FX_ONE]` on its domain.
pub proof fn lemma_exp_unit_range(r: int)
    requires
        0 <= r <= FX_LN2 as int,
    ensures
        0 <= spec_exp_unit(r) <= FX_ONE as int,
{
    let t1 = r;
    let t2 = mulp(r, t1) / 2;
    let t3 = mulp(r, t2) / 3;
    let t4 = mulp(r, t3) / 4;
    let t5 = mulp(r, t4) / 5;
    let t6 = mulp(r, t5) / 6;
    let t7 = mulp(r, t6) / 7;
    let t8 = mulp(r, t7) / 8;
    let t9 = mulp(r, t8) / 9;
    lemma_exp_term_le(r, t1, 2);
    lemma_exp_term_le(r, t2, 3);
    lemma_exp_term_le(r, t3, 4);
    lemma_exp_term_le(r, t4, 5);
    lemma_exp_term_le(r, t5, 6);
    lemma_exp_term_le(r, t6, 7);
    lemma_exp_term_le(r, t7, 8);
    lemma_exp_term_le(r, t8, 9);
    lemma_exp_term_le(r, t9, 10);
}

/// Halving keeps a non-negative value within its starting bound.
pub proof fn lemma_halve_range(v: int, q: nat)
    requires
        0 <= v,
    ensures
        0 <= spec_halve(v, q) <= v,
    decreases q,
{
    if q > 0 {
        lemma_halve_range(v, (q - 1) as nat);
        lemma_div_pos_is_pos(spec_halve(v, (q - 1) as nat), 2);
    }
}

/// The scalar exponential of a non-positive argument lies in `[0, FX_ONE]`
/// and is exactly `FX_ONE` at zero.
pub proof fn lemma_fx_exp_range(x: int)
    requires
        x <= 0,
    ensures
        0 <= spec_fx_exp(x) <= FX_ONE as int,
        x == 0 ==> spec_fx_exp(x) == FX_ONE as int,
{
    if x > -(FX_EXP_FLOOR as int) && x < 0 {
        let r = (-x) % (FX_LN2 as int);
        let q = (-x) / (FX_LN2 as int);
        lemma_div_pos_is_pos(-x, FX_LN2 as int);
        lemma_exp_unit_range(r);
        lemma_halve_range(spec_exp_unit(r), q as nat);
    }
}

/// Truncating division of a non-negative scalar by a positive count.
pub fn divn_nonneg(a: i64, n: u64) -> (r: i64)
    requires
        0 <= a,
        0 < n,
    ensures
        r as int == (a as int) / (n as int),
{
    ((a as u64) / n) as i64
}

/// Saturated magnitude of a scalar.
pub open spec fn spec_fx_abs(x: int) -> int {
    spec_clamp(iabs(x))
}

/// Scalar absolute value.
pub fn fx_abs(x: i64) -> (r: i64)
    ensures
        r as int == spec_fx_abs(x as int),
        0 <= r,
{
    if x > FX_MAX {
        FX_MAX
    } else if x >= 0 {
        x
    } else if x < -FX_MAX {
        FX_MAX
    } else {
        -x
    }
}

/// Division of a scalar by a positive count, rounding toward zero.
pub open spec fn spec_divn(a: int, n: int) -> int {
    if a >= 0 {
        a / n
    } else {
        -((-a) / n)
    }
}

/// Truncating division of any scalar by a positive count.
pub fn fx_divn(a: i64, n: u64) -> (r: i64)
    requires
        0 < n,
    ensures
        r as int == spec_divn(a as int, n as int),
{
    if a >= 0 {
        ((a as u64) / n) as i64
    } else {
        let m = ((-(a as i128)) as u128) / (n as u128);
        (-(m as i128)) as i64
    }
}

/// A scalar square is non-negative.
pub proof fn lemma_fx_square_nonneg(y: int)
    ensures
        0 <= spec_fx_mul(y, y),
{
    lemma_mul_nonnegative(iabs(y), iabs(y));
    lemma_div_pos_is_pos(iabs(y) * iabs(y), FX_ONE as int);
}

/// Logistic squashing `1/(1 + e^(-x))` in fixed point, computed from
/// `spec_fx_exp` on the non-positive side of the argument.
pub open spec fn spec_fx_sigmoid(x: int) -> int {
    if x >= 0 {
        spec_fx_div(FX_ONE as int, (FX_ONE as int) + spec_fx_exp(-x))
    } else {
        spec_fx_div(spec_fx_exp(x), (FX_ONE as int) + spec_fx_exp(x))
    }
}

/// Scalar logistic function.
pub fn fx_sigmoid(x: i64) -> (res: i64)
    ensures
        res as int == spec_fx_sigmoid(x as int),
        0 <= res <= FX_ONE,
{
    if x >= 0 {
        let e = fx_exp(-x);
        let res = fx_div(FX_ONE, FX_ONE + e);
        proof {
            lemma_div_is_ordered_by_denominator(
                (FX_ONE as int) * (FX_ONE as int),
                FX_ONE as int,
                (FX_ONE as int) + (e as int),
            );
            lemma_div_multiples_vanish(FX_ONE as int, FX_ONE as int);
            lemma_div_pos_is_pos((FX_ONE as int) * (FX_ONE as int), (FX_ONE as int) + (e as int));
        }
        res
    } else {
        let e = fx_exp(x);
        let res = fx_div(e, FX_ONE + e);
        proof {
            if e > 0 {
                lemma_div_is_ordered_by_denominator(
                    (e as int) * (FX_ONE as int),
                    FX_ONE as int,
                    (FX_ONE as int) + (e as int),
                );
                lemma_div_multiples_vanish(e as int, FX_ONE as int);
            }
            lemma_div_pos_is_pos((e as int) * (FX_ONE as int), (FX_ONE as int) + (e as int));
        }
        res
    }
}

/// SiLU activation `x * sigmoid(x)` in fixed point.
pub open spec fn spec_fx_silu(x: int) -> int {
    spec_fx_mul(x, spec_fx_sigmoid(x))
}

/// Scalar SiLU activation.
pub fn fx_silu(x: i64) -> (res: i64)
    ensures
        res as int == spec_fx_silu(x as int),
{
    let s = fx_sigmoid(x);
    fx_mul(x, s)
}

/// Half of `FX_ONE` (the scalar 0.5).
pub const FX_HALF: i64 = 134217728;

/// Pi / 2 in fixed point, rounded down.
pub const FX_HALF_PI: i64 = 421657428;

/// 2 * Pi in fixed point (exactly four quarter turns of `FX_HALF_PI`).
pub const FX_TWO_PI: i64 = 1686629712;

/// `mulp` under upper bounds on both factors.
proof fn lemma_mulp_upper(a: int, b: int, abound: int, bbound: int)
    requires
        0 <= a <= abound,
        0 <= b <= bbound,
    ensures
        0 <= mulp(a, b) <= (abound * bbound) / (FX_ONE as int),
{
    lemma_mul_upper_bound(a, abound, b, bbound);
    lemma_mul_nonnegative(a, b);
    lemma_div_is_ordered(a * b, abound * bbound, FX_ONE as int);
    lemma_div_pos_is_pos(a * b, FX_ONE as int);
}

/// A fraction `num * FX_ONE / den` with a denominator of at least one unit
/// never exceeds its numerator.
proof fn lemma_frac_le(num: int, den: int)
    requires
        0 <= num,
        FX_ONE as int <= den,
    ensures
        0 <= (num * (FX_ONE as int)) / den <= num,
{
    lemma_div_is_ordered_by_denominator(num * (FX_ONE as int), FX_ONE as int, den);
    lemma_mul_is_commutative(num, FX_ONE as int);
    lemma_div_multiples_vanish(num, FX_ONE as int);
    lemma_div_pos_is_pos(num * (FX_ONE as int), den);
}

/// Normalize a positive sub-unit scalar into `[FX_ONE/2, FX_ONE]` by
/// doubling; yields the normalized value and the number of doublings.
pub open spec fn spec_ln_reduce(m: int) -> (int, int)
    decreases (FX_ONE as int) - m,
        when 1 <= m <= FX_ONE as int
{
    if 1 <= m && m < FX_HALF as int {
        let p = spec_ln_reduce(2 * m);
        (p.0, p.1 + 1)
    } else {
        (m, 0)
    }
}

/// Natural logarithm of `u / FX_ONE` for `u` in `(0, FX_ONE]`: octave
/// reduction, then the odd series `ln m == 2 * atanh((m - 1)/(m + 1))`.
pub open spec fn spec_fx_ln(u: int) -> int {
    let m = spec_ln_reduce(u).0;
    let k = spec_ln_reduce(u).1;
    let d = (FX_ONE as int) - m;
    let p = (d * (FX_ONE as int)) / ((FX_ONE as int) + m);
    let p2 = mulp(p, p);
    let q3 = mulp(p2, p);
    let q5 = mulp(q3, p2);
    let q7 = mulp(q5, p2);
    let q9 = mulp(q7, p2);
    let lnm = 2 * (p + q3 / 3 + q5 / 5 + q7 / 7 + q9 / 9);
    spec_clamp(-(lnm + k * (FX_LN2 as int)))
}

/// The doubling loop behind `spec_ln_reduce`.
fn ln_reduce(u: u64) -> (res: (u64, u64))
    requires
        1 <= u <= FX_ONE as u64,
    ensures
        res.0 as int == spec_ln_reduce(u as int).0,
        res.1 as int == spec_ln_reduce(u as int).1,
        FX_HALF as u64 <= res.0 <= FX_ONE as u64,
{
    let mut m = u;
    let mut k: u64 = 0;
    proof {
        vstd::arithmetic::power2::lemma2_to64();
    }
    while m < FX_HALF as u64
        invariant
            1 <= m <= FX_ONE as u64,
            pow2(k as nat) <= m as int,
            k <= 28,
            spec_ln_reduce(u as int).0 == spec_ln_reduce(m as int).0,
            spec_ln_reduce(u as int).1 == spec_ln_reduce(m as int).1 + k,
        decreases (FX_ONE as u64) - m,
    {
        proof {
            vstd::arithmetic::power2::lemma2_to64();
            lemma_pow2_unfold((k + 1) as nat);
            if k > 28 {
                lemma_pow2_strictly_increases(28, k as nat);
            }
        }
        m = m * 2;
        k = k + 1;
    }
    (m, k)
}

/// Scalar natural logarithm of a positive value of at most one.
pub fn fx_ln(u: i64) -> (res: i64)
    requires
        1 <= u <= FX_ONE,
    ensures
        res as int == spec_fx_ln(u as int),
        res <= 0,
{
    let (m, k) = ln_reduce(u as u64);
    let d: u64 = FX_ONE as u64 - m;
    proof {
        lemma_frac_le(d as int, (FX_ONE as int) + (m as int));
        lemma_mul_upper_bound(d as int, FX_ONE as int, FX_ONE as int, FX_ONE as int);
    }
    let p: u64 = (d * (FX_ONE as u64)) / (FX_ONE as u64 + m);
    proof {
        lemma_mulp_upper(p as int, p as int, FX_ONE as int, FX_ONE as int);
    }
    let p2: u64 = (p * p) / (FX_ONE as u64);
    proof {
        lemma_mulp_upper(p2 as int, p as int, FX_ONE as int, FX_ONE as int);
    }
    let q3: u64 = (p2 * p) / (FX_ONE as u64);
    proof {
        lemma_mulp_upper(q3 as int, p2 as int, FX_ONE as int, FX_ONE as int);
    }
    let q5: u64 = (q3 * p2) / (FX_ONE as u64);
    proof {
        lemma_mulp_upper(q5 as int, p2 as int, FX_ONE as int, FX_ONE as int);
    }
    let q7: u64 = (q5 * p2) / (FX_ONE as u64);
    proof {
        lemma_mulp_upper(q7 as int, p2 as int, FX_ONE as int, FX_ONE as int);
    }
    let q9: u64 = (q7 * p2) / (FX_ONE as u64);
    let lnm: u64 = 2 * (p + q3 / 3 + q5 / 5 + q7 / 7 + q9 / 9);
    let total: i128 = lnm as i128 + (k as i128) * (FX_LN2 as i128);
    proof {
        lemma_mul_upper_bound(k as int, 0xffffffffffffffffint, FX_LN2 as int, FX_LN2 as int);
        lemma_mul_nonnegative(k as int, FX_LN2 as int);
    }
    clamp_i128(-total)
}

/// Even cosine series on one quarter turn, `0 <= r <= FX_HALF_PI`.
pub open spec fn spec_cos_quarter(r: int) -> int {
    let r2 = mulp(r, r);
    let r4 = mulp(r2, r2);
    let r6 = mulp(r4, r2);
    let r8 = mulp(r4, r4);
    (FX_ONE as int) - r2 / 2 + r4 / 24 - r6 / 720 + r8 / 40320
}

/// Cosine of an angle in `[0, FX_TWO_PI)`, by quadrant reduction onto the
/// quarter-turn series.
pub open spec fn spec_fx_cos(t: int) -> int {
    let q = t / (FX_HALF_PI as int);
    let r = t % (FX_HALF_PI as int);
    if q == 0 {
        spec_cos_quarter(r)
    } else if q == 1 {
        -spec_cos_quarter((FX_HALF_PI as int) - r)
    } else if q == 2 {
        -spec_cos_quarter(r)
    } else {
        spec_cos_quarter((FX_HALF_PI as int) - r)
    }
}

/// The quarter-turn series, matching `spec_cos_quarter` exactly.
fn cos_quarter(r: u64) -> (res: i64)
    requires
        r <= FX_HALF_PI as u64,
    ensures
        res as int == spec_cos_quarter(r as int),
        -FX_ONE <= res <= 2 * FX_ONE,
{
    proof {
        lemma_mulp_upper(r as int, r as int, FX_HALF_PI as int, FX_HALF_PI as int);
    }
    let r2: u64 = (r * r) / (FX_ONE as u64);
    proof {
        lemma_mulp_upper(r2 as int, r2 as int, 700000000int, 700000000int);
    }
    let r4: u64 = (r2 * r2) / (FX_ONE as u64);
    proof {
        lemma_mulp_upper(r4 as int, r2 as int, 1900000000int, 700000000int);
        lemma_mulp_upper(r4 as int, r4 as int, 1900000000int, 1900000000int);
    }
    let r6: u64 = (r4 * r2) / (FX_ONE as u64);
    let r8: u64 = (r4 * r4) / (FX_ONE as u64);
    FX_ONE - (r2 / 2) as i64 + (r4 / 24) as i64 - (r6 / 720) as i64 + (r8 / 40320) as i64
}

/// Scalar cosine of an angle within one full turn.
pub fn fx_cos(t: i64) -> (res: i64)
    requires
        0 <= t < FX_TWO_PI,
    ensures
        res as int == spec_fx_cos(t as int),
{
    let tu = t as u64;
    let q = tu / (FX_HALF_PI as u64);
    let r = tu % (FX_HALF_PI as u64);
    if q == 0 {
        cos_quarter(r)
    } else if q == 1 {
        -cos_quarter(FX_HALF_PI as u64 - r)
    } else if q == 2 {
        -cos_quarter(r)
    } else {
        cos_quarter(FX_HALF_PI as u64 - r)
    }
}

/// `r` is the integer square root of `n`.
pub open spec fn is_isqrt(n: int, r: int) -> bool {
    0 <= r && r * r <= n && n < (r + 1) * (r + 1)
}

/// The integer square root, as the unique root the predicate admits.
pub open spec fn spec_isqrt(n: int) -> int {
    choose|r: int| is_isqrt(n, r)
}

/// Any witness of `is_isqrt` is the integer square root.
pub proof fn lemma_isqrt_is(n: int, r: int)
    requires
        is_isqrt(n, r),
    ensures
        spec_isqrt(n) == r,
{
    let c = choose|r: int| is_isqrt(n, r);
    assert(is_isqrt(n, c));
    assert(c == r) by (nonlinear_arith)
        requires
            is_isqrt(n, c),
            is_isqrt(n, r),
    ;
}

/// Bisection for the integer square root of a wide unsigned value.
fn isqrt_u128(n: u128) -> (r: u128)
    requires
        n < 0x100000000000000000000000u128,
    ensures
        is_isqrt(n as int, r as int),
        r < 0x400000000000u128,
{
    let mut lo: u128 = 0;
    let mut hi: u128 = 0x400000000000;
    proof {
        assert(0x400000000000int * 0x400000000000int == 0x100000000000000000000000int)
            by (nonlinear_arith);
    }
    while lo + 1 < hi
        invariant
            (lo as int) * (lo as int) <= n as int,
            (n as int) < (hi as int) * (hi as int),
            lo < hi,
            hi <= 0x400000000000u128,
        decreases hi - lo,
    {
        let mid = lo + (hi - lo) / 2;
        proof {
            lemma_mul_upper_bound(mid as int, 0x400000000000int, mid as int, 0x400000000000int);
        }
        if mid * mid <= n {
            lo = mid;
        } else {
            hi = mid;
        }
    }
    lo
}

/// Scalar square root: the greatest `r` with `r * r <= v * FX_ONE`, i.e.
/// the fixed-point square root of `v / FX_ONE`, rounded down.
pub fn fx_sqrt(v: i64) -> (res: i64)
    requires
        0 <= v,
    ensures
        res as int == spec_isqrt((v as int) * (FX_ONE as int)),
        is_isqrt((v as int) * (FX_ONE as int), res as int),
        0 <= res,
{
    proof {
        lemma_mul_upper_bound(v as int, 0x7fffffffffffffffint, FX_ONE as int, FX_ONE as int);
        lemma_mul_nonnegative(v as int, FX_ONE as int);
    }
    let wide = (v as u128) * (FX_ONE as u128);
    let r = isqrt_u128(wide);
    proof {
        lemma_isqrt_is(wide as int, r as int);
    }
    r as i64
}

/// Saturating scalar division by a positive scalar.
pub fn fx_div(a: i64, b: i64) -> (r: i64)
    requires
        b > 0,
    ensures
        r as int == spec_fx_div(a as int, b as int),
{
    let pa = abs_u128(a);
    let m = (pa * (FX_ONE as u128)) / (b as u128);
    signed_clamp(a < 0, m)
}

} // verus!
