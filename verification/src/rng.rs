//! The deterministic pseudo-random generator that drives the parameter
//! walk: a 64-bit xorshift state update with a multiplicative output mix.
//! The state evolves as a pure function of its previous value, so a run
//! is bit-reproducible from its seed.

use vstd::arithmetic::div_mod::{lemma_div_is_ordered, lemma_div_pos_is_pos};
use vstd::arithmetic::mul::lemma_mul_upper_bound;
use vstd::prelude::*;

verus! {

/// The fixed generator seed used by a fresh animation.
pub const DEFAULT_SEED: u64 = 0x9e37_79b9_7f4a_7c15;

/// One xorshift step of the generator state: xor with the state shifted
/// right 12, then left 25, then right 27.
pub open spec fn rng_next_spec(x: u64) -> u64 {
    let a = x ^ (x >> 12u64);
    let b = a ^ (a << 25u64);
    b ^ (b >> 27u64)
}

/// The output word of a state: the state times a fixed odd constant,
/// wrapping on overflow.
pub open spec fn rng_mix_spec(x: u64) -> u64 {
    x.wrapping_mul(0x2545_f491_4f6c_dd1d)
}

/// The micro-unit sample in `[-1, 1)` determined by a state: the top 53
/// bits of the output word, scaled to `[0, 2)` and recentered.
pub open spec fn sample_spec(x: u64) -> int {
    ((rng_mix_spec(x) >> 11u64) as int) * 2_000_000 / 0x20_0000_0000_0000 - 1_000_000
}

/// Advances the generator state.
pub fn rng_next(x: u64) -> (r: u64)
    ensures
        r == rng_next_spec(x),
{
    let a: u64 = x ^ (x >> 12);
    let b: u64 = a ^ (a << 25);
    b ^ (b >> 27)
}

/// Draws the sample determined by a state.
pub fn rng_sample(x: u64) -> (s: i64)
    ensures
        s == sample_spec(x),
        -1_000_000 <= s < 1_000_000,
{
    let v: u64 = x.wrapping_mul(0x2545_f491_4f6c_dd1d);
    let u: u64 = v >> 11;
    proof {
        assert(v >> 11u64 <= 0x1f_ffff_ffff_ffffu64) by (bit_vector);
        lemma_mul_upper_bound(u as int, 0x1f_ffff_ffff_ffff, 2_000_000, 2_000_000);
        lemma_div_is_ordered(
            (u as int) * 2_000_000,
            0x1f_ffff_ffff_ffffint * 2_000_000,
            0x20_0000_0000_0000,
        );
        lemma_div_pos_is_pos((u as int) * 2_000_000, 0x20_0000_0000_0000);
    }
    let t: u128 = (u as u128) * 2_000_000 / 0x20_0000_0000_0000;
    (t as i64) - 1_000_000
}

} // verus!
