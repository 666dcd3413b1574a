//! Escape-time evaluation of the quadratic Julia iteration on a
//! fixed-point complex plane. A grid cell maps onto a viewport rectangle
//! three units wide and two units tall, and the iteration `z := z^2 + c`
//! runs until the squared magnitude leaves radius two or the cap is hit.

use crate::fixed::{absi, div_to_zero, lemma_dtz_bound, trunc_div_i128, SCALE};
use vstd::arithmetic::div_mod::{lemma_div_by_multiple, lemma_div_is_ordered, lemma_div_pos_is_pos};
use vstd::arithmetic::mul::{lemma_mul_inequality, lemma_mul_nonnegative, lemma_mul_upper_bound};
use vstd::prelude::*;

verus! {

/// A complex number with both parts in signed micro-units.
#[derive(Clone, Copy, Debug, PartialEq, Eq, Structural)]
pub struct Cpx {
    pub re: i64,
    pub im: i64,
}

/// Squared magnitude in raw micro-unit squares (scale `SCALE * SCALE`).
pub open spec fn norm_sqr_raw(z: Cpx) -> int {
    (z.re as int) * (z.re as int) + (z.im as int) * (z.im as int)
}

/// The escape test: squared magnitude beyond four whole units.
pub open spec fn escaped(z: Cpx) -> bool {
    norm_sqr_raw(z) > 4_000_000_000_000
}

/// Both parts no larger than the given magnitude.
pub open spec fn cpx_within(z: Cpx, m: int) -> bool {
    -m <= z.re <= m && -m <= z.im <= m
}

/// One quadratic step `z^2 + c` in fixed point.
pub open spec fn step_spec(c: Cpx, z: Cpx) -> Cpx {
    Cpx {
        re: (div_to_zero((z.re as int) * (z.re as int) - (z.im as int) * (z.im as int), SCALE as int)
            + c.re) as i64,
        im: (div_to_zero(2 * (z.re as int) * (z.im as int), SCALE as int) + c.im) as i64,
    }
}

/// Number of steps until the iteration escapes, stopping at the fuel
/// bound; a result equal to the fuel means the point never escaped.
pub open spec fn escape_spec(c: Cpx, z: Cpx, fuel: nat) -> nat
    decreases fuel,
{
    if escaped(z) || fuel == 0 {
        0
    } else {
        1 + escape_spec(c, step_spec(c, z), (fuel - 1) as nat)
    }
}

/// The escape count never exceeds the fuel.
pub proof fn lemma_escape_spec_le(c: Cpx, z: Cpx, fuel: nat)
    ensures
        escape_spec(c, z, fuel) <= fuel,
    decreases fuel,
{
    if !escaped(z) && fuel > 0 {
        lemma_escape_spec_le(c, step_spec(c, z), (fuel - 1) as nat);
    }
}

/// The `n`-th iterate of the quadratic step from a starting point.
pub open spec fn iterate_spec(c: Cpx, z: Cpx, n: nat) -> Cpx
    decreases n,
{
    if n == 0 {
        z
    } else {
        step_spec(c, iterate_spec(c, z, (n - 1) as nat))
    }
}

/// The escape count is the least iterate index at the escape threshold:
/// every earlier iterate is still bounded, and when the count falls
/// short of the fuel, the iterate it names has escaped.
pub proof fn lemma_escape_spec_least(c: Cpx, z: Cpx, fuel: nat)
    ensures
        forall|j: nat| j < escape_spec(c, z, fuel) ==> !escaped(#[trigger] iterate_spec(c, z, j)),
        escape_spec(c, z, fuel) < fuel ==> escaped(iterate_spec(c, z, escape_spec(c, z, fuel))),
    decreases fuel,
{
    let n = escape_spec(c, z, fuel);
    if escaped(z) || fuel == 0 {
        assert(n == 0);
    } else {
        lemma_escape_spec_least(c, step_spec(c, z), (fuel - 1) as nat);
        let m = escape_spec(c, step_spec(c, z), (fuel - 1) as nat);
        assert(n == m + 1);
        assert forall|j: nat| j < n implies !escaped(#[trigger] iterate_spec(c, z, j)) by {
            if j > 0 {
                lemma_iterate_shift(c, z, (j - 1) as nat);
            }
        }
        if n < fuel {
            lemma_iterate_shift(c, z, m);
        }
    }
}

/// Iterating once and then `n` times is iterating `n + 1` times.
proof fn lemma_iterate_shift(c: Cpx, z: Cpx, n: nat)
    ensures
        iterate_spec(c, step_spec(c, z), n) == iterate_spec(c, z, n + 1),
    decreases n,
{
    if n == 0 {
        assert(iterate_spec(c, z, 1) == step_spec(c, iterate_spec(c, z, 0)));
    } else {
        lemma_iterate_shift(c, z, (n - 1) as nat);
        assert(iterate_spec(c, step_spec(c, z), n) == step_spec(
            c,
            iterate_spec(c, step_spec(c, z), (n - 1) as nat),
        ));
        assert(iterate_spec(c, z, n + 1) == step_spec(c, iterate_spec(c, z, n)));
    }
}

/// The complex coordinate of grid cell `(x, y)`: the real part spans
/// `[-1.5, 1.5)` across the columns and the imaginary part `[-1, 1)`
/// down the rows.
pub open spec fn point_at_spec(x: int, y: int, width: int, height: int) -> Cpx
    recommends
        0 < width,
        0 < height,
{
    Cpx {
        re: (3_000_000 * x / width - 1_500_000) as i64,
        im: (2_000_000 * y / height - 1_000_000) as i64,
    }
}

/// Maps a grid cell to its viewport coordinate.
pub fn point_at(x: usize, y: usize, width: usize, height: usize) -> (z: Cpx)
    requires
        0 < width <= 100_000,
        0 < height <= 100_000,
        x < width,
        y < height,
    ensures
        z == point_at_spec(x as int, y as int, width as int, height as int),
        cpx_within(z, 1_500_000),
{
    proof {
        lemma_mul_upper_bound(3_000_000, 3_000_000, x as int, 100_000);
        lemma_mul_nonnegative(3_000_000, x as int);
        lemma_mul_inequality(x as int, width as int, 3_000_000);
        lemma_div_is_ordered(3_000_000 * (x as int), 3_000_000 * (width as int), width as int);
        lemma_div_by_multiple(3_000_000, width as int);
        lemma_div_pos_is_pos(3_000_000 * (x as int), width as int);
        lemma_mul_upper_bound(2_000_000, 2_000_000, y as int, 100_000);
        lemma_mul_nonnegative(2_000_000, y as int);
        lemma_mul_inequality(y as int, height as int, 2_000_000);
        lemma_div_is_ordered(2_000_000 * (y as int), 2_000_000 * (height as int), height as int);
        lemma_div_by_multiple(2_000_000, height as int);
        lemma_div_pos_is_pos(2_000_000 * (y as int), height as int);
    }
    let rq: u64 = 3_000_000 * (x as u64) / (width as u64);
    let iq: u64 = 2_000_000 * (y as u64) / (height as u64);
    Cpx { re: (rq as i64) - 1_500_000, im: (iq as i64) - 1_000_000 }
}

/// Counts quadratic iterations until escape, up to `max_iters`; interior
/// cells (never escaping) report exactly `max_iters`.
pub fn escape_count(c: Cpx, z0: Cpx, max_iters: u32) -> (n: u32)
    requires
        cpx_within(c, 10_000_000),
        cpx_within(z0, 10_000_000),
    ensures
        n == escape_spec(c, z0, max_iters as nat),
        n <= max_iters,
{
    let mut z = z0;
    let mut i: u32 = 0;
    proof {
        lemma_escape_spec_le(c, z0, max_iters as nat);
    }
    loop
        invariant
            i <= max_iters,
            cpx_within(c, 10_000_000),
            cpx_within(z, 20_000_000),
            escape_spec(c, z0, max_iters as nat) == i + escape_spec(
                c,
                z,
                (max_iters - i) as nat,
            ),
            escape_spec(c, z0, max_iters as nat) <= max_iters,
        decreases max_iters - i,
    {
        let zr: i128 = z.re as i128;
        let zi: i128 = z.im as i128;
        proof {
            assert(zr * zr <= 400_000_000_000_000 && zr * zr >= 0) by (nonlinear_arith)
                requires
                    -20_000_000 <= zr <= 20_000_000,
            ;
            assert(zi * zi <= 400_000_000_000_000 && zi * zi >= 0) by (nonlinear_arith)
                requires
                    -20_000_000 <= zi <= 20_000_000,
            ;
        }
        let nsq: i128 = zr * zr + zi * zi;
        if nsq > 4_000_000_000_000 {
            return i;
        }
        if i >= max_iters {
            return i;
        }
        proof {
            assert(-2_000_000 <= zr <= 2_000_000) by (nonlinear_arith)
                requires
                    zr * zr <= 4_000_000_000_000,
            ;
            assert(-2_000_000 <= zi <= 2_000_000) by (nonlinear_arith)
                requires
                    zi * zi <= 4_000_000_000_000,
            ;
            assert(-8_000_000_000_000 <= 2 * zr * zi <= 8_000_000_000_000) by (nonlinear_arith)
                requires
                    -2_000_000 <= zr <= 2_000_000,
                    -2_000_000 <= zi <= 2_000_000,
            ;
            assert(absi(zr * zr - zi * zi) <= 4_000_000_000_000);
            assert(absi(2 * zr * zi) <= 8_000_000_000_000);
            lemma_dtz_bound(zr * zr - zi * zi, SCALE as int, 4_000_000_000_000);
            lemma_dtz_bound(2 * zr * zi, SCALE as int, 8_000_000_000_000);
        }
        let qr: i128 = trunc_div_i128(zr * zr - zi * zi, 1_000_000);
        let qi: i128 = trunc_div_i128(2 * zr * zi, 1_000_000);
        proof {
            assert(4_000_000_000_000int / (SCALE as int) == 4_000_000);
            assert(8_000_000_000_000int / (SCALE as int) == 8_000_000);
            assert(-4_000_000 <= qr <= 4_000_000);
            assert(-8_000_000 <= qi <= 8_000_000);
        }
        let nr: i128 = qr + (c.re as i128);
        let ni: i128 = qi + (c.im as i128);
        z = Cpx { re: nr as i64, im: ni as i64 };
        i = i + 1;
    }
}

} // verus!
