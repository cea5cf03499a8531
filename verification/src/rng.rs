//! Seedable pseudo-random scalars for weight initialization.
//!
//! Weight tensors are filled from a deterministic linear-congruential
//! generator threaded explicitly through construction, so that a fixed seed
//! yields reproducible weights. Fresh entropy for an unseeded model comes
//! from the `rand` crate through one trusted wrapper.

use vstd::prelude::*;
use vstd::arithmetic::mul::{lemma_mul_nonnegative, lemma_mul_upper_bound};
use crate::fixed::{
    fx_cos, fx_ln, fx_mul, fx_sqrt, fx_sub, spec_fx_cos, spec_fx_ln, spec_fx_mul, spec_fx_sub,
    spec_isqrt, FX_ONE, FX_TWO_PI,
};
use rand::Rng;

verus! {

/// Multiplier of the linear-congruential step.
pub const RNG_MUL: u64 = 6364136223846793005;

/// Increment of the linear-congruential step.
pub const RNG_INC: u64 = 1442695040888963407;

/// One linear-congruential step modulo 2^64.
pub open spec fn spec_rng_next(s: u64) -> int {
    ((RNG_MUL as int) * (s as int) + (RNG_INC as int)) % 0x10000000000000000int
}

/// A uniform draw in `[0, FX_ONE)`: the top 28 bits of the next state.
pub open spec fn spec_rng_unit(s: u64) -> int {
    spec_rng_next(s) / 0x1000000000int
}

/// A seedable linear-congruential pseudo-random generator.
pub struct Rng64 {
    pub state: u64,
}

impl Rng64 {
    /// Start a generator from a seed.
    pub fn new(seed: u64) -> (r: Rng64)
        ensures
            r.state == seed,
    {
        Rng64 { state: seed }
    }

    /// Advance the generator and return the new state.
    pub fn next_state(&mut self) -> (r: u64)
        ensures
            final(self).state as int == spec_rng_next(old(self).state),
            r == final(self).state,
    {
        proof {
            lemma_mul_upper_bound(
                RNG_MUL as int,
                RNG_MUL as int,
                self.state as int,
                0xffffffffffffffffint,
            );
            lemma_mul_nonnegative(RNG_MUL as int, self.state as int);
        }
        let wide: u128 = (RNG_MUL as u128) * (self.state as u128) + (RNG_INC as u128);
        let ns = (wide % 0x10000000000000000u128) as u64;
        self.state = ns;
        ns
    }

    /// Advance the generator and return a uniform scalar in `[0, FX_ONE)`.
    pub fn next_unit(&mut self) -> (r: i64)
        ensures
            final(self).state as int == spec_rng_next(old(self).state),
            r as int == spec_rng_unit(old(self).state),
            0 <= r < FX_ONE,
    {
        let s = self.next_state();
        (s / 0x1000000000u64) as i64
    }
}

/// One Box-Muller normal sample with standard deviation `std/FX_ONE`,
/// drawn from two consecutive uniform draws of the generator:
/// `std * sqrt(-2 ln u1) * cos(2 pi u2)`.
pub open spec fn spec_normal(s: u64, std: int) -> int {
    let u1 = spec_rng_unit(s) + 1;
    let u2 = spec_rng_unit(spec_rng_next(s) as u64);
    let l = spec_fx_ln(u1);
    let m2 = spec_fx_mul(2 * (FX_ONE as int), spec_fx_sub(0, l));
    let sq = spec_isqrt(m2 * (FX_ONE as int));
    let t = spec_fx_mul(FX_TWO_PI as int, u2);
    let t2 = if t >= FX_TWO_PI as int || t < 0 {
        (FX_TWO_PI as int) - 1
    } else {
        t
    };
    let c = spec_fx_cos(t2);
    spec_fx_mul(spec_fx_mul(sq, c), std)
}

/// The generator state after one normal sample (two uniform draws).
pub open spec fn spec_normal_state(s: u64) -> int {
    spec_rng_next((spec_rng_next(s)) as u64)
}

/// The generator state after `n` normal samples.
pub open spec fn spec_state_after(s: u64, n: nat) -> u64
    decreases n,
{
    if n == 0 {
        s
    } else {
        spec_normal_state(spec_state_after(s, (n - 1) as nat)) as u64
    }
}

/// The `n`-th normal sample drawn from a generator seeded with `s`.
pub open spec fn spec_nth_normal(s: u64, n: nat, std: int) -> int {
    spec_normal(spec_state_after(s, n), std)
}

/// Draw one normally distributed scalar via the Box-Muller transform.
pub fn normal_scalar(rng: &mut Rng64, std: i64) -> (r: i64)
    ensures
        r as int == spec_normal(old(rng).state, std as int),
        final(rng).state as int == spec_normal_state(old(rng).state),
{
    let ghost s0 = rng.state;
    let u1 = rng.next_unit() + 1;
    let u2 = rng.next_unit();
    let l = fx_ln(u1);
    let nl = fx_sub(0, l);
    let m2 = fx_mul(2 * FX_ONE, nl);
    proof {
        assert(m2 >= 0);
    }
    let sq = fx_sqrt(m2);
    let t = fx_mul(FX_TWO_PI, u2);
    let t2 = if t >= FX_TWO_PI || t < 0 {
        FX_TWO_PI - 1
    } else {
        t
    };
    let c = fx_cos(t2);
    let z = fx_mul(sq, c);
    fx_mul(z, std)
}

/// Relies on `rand::thread_rng` and `rand::Rng::gen::<u64>`: one draw from
/// the process-wide generator, used only to seed an unseeded model; nothing
/// is assumed of the value.
#[verifier::external_body]
pub(crate) fn entropy_seed() -> u64 {
    rand::thread_rng().gen()
}

} // verus!
