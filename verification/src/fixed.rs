//! Fixed-point arithmetic in millionths (micro-units), together with the
//! rounding and square-root facts the rest of the crate builds on. Every
//! quantity of the animation pipeline is an integer count of micro-units,
//! so all results are exact and bit-reproducible.

use vstd::arithmetic::div_mod::{
    lemma_div_is_ordered, lemma_div_multiples_vanish, lemma_div_nonincreasing,
    lemma_div_pos_is_pos, lemma_fundamental_div_mod, lemma_mod_division_less_than_divisor,
};
use vstd::arithmetic::mul::{lemma_mul_inequality, lemma_mul_upper_bound};
use vstd::prelude::*;

verus! {

/// One whole unit in the fixed-point representation: values are stored
/// as signed counts of millionths.
pub const SCALE: i64 = 1_000_000;

/// Magnitude of an integer, kept in `int` so it composes with signed
/// arithmetic without coercions.
pub open spec fn absi(x: int) -> int {
    if x >= 0 {
        x
    } else {
        -x
    }
}

/// Division rounded toward zero, the rounding used by every scaled
/// product and quotient in this crate.
pub open spec fn div_to_zero(a: int, d: int) -> int
    recommends
        d > 0,
{
    if a >= 0 {
        a / d
    } else {
        -((-a) / d)
    }
}

/// Fixed-point product of two micro-unit values: the wide product scaled
/// back down, rounded toward zero.
pub open spec fn fx_mul(a: int, b: int) -> int {
    div_to_zero(a * b, SCALE as int)
}

/// The magnitude of a truncated quotient is the floor of the magnitude
/// quotient; in particular it never exceeds the dividend's magnitude.
pub proof fn lemma_dtz_absi(a: int, d: int)
    requires
        d > 0,
    ensures
        absi(div_to_zero(a, d)) == absi(a) / d,
        absi(div_to_zero(a, d)) * d <= absi(a),
{
    if a >= 0 {
        lemma_div_pos_is_pos(a, d);
    } else {
        lemma_div_pos_is_pos(-a, d);
    }
    lemma_fundamental_div_mod(absi(a), d);
    lemma_mod_division_less_than_divisor(absi(a), d);
}

/// Bounding a truncated quotient by bounding its dividend.
pub proof fn lemma_dtz_bound(a: int, d: int, m: int)
    requires
        d > 0,
        absi(a) <= m,
    ensures
        absi(div_to_zero(a, d)) <= m / d,
        absi(div_to_zero(a, d)) * d <= absi(a),
{
    lemma_dtz_absi(a, d);
    lemma_div_is_ordered(absi(a), m, d);
}

/// The magnitude of a product is the product of the magnitudes.
pub proof fn lemma_abs_mul(a: int, b: int)
    ensures
        absi(a * b) == absi(a) * absi(b),
{
    assert(absi(a * b) == absi(a) * absi(b)) by (nonlinear_arith);
}

/// A fixed-point product is bounded by the scaled product of magnitude
/// bounds on its factors.
pub proof fn lemma_fx_mul_bound(a: int, b: int, ma: int, mb: int)
    requires
        absi(a) <= ma,
        absi(b) <= mb,
    ensures
        absi(fx_mul(a, b)) <= ma * mb / (SCALE as int),
{
    lemma_abs_mul(a, b);
    lemma_mul_upper_bound(absi(a), ma, absi(b), mb);
    lemma_dtz_bound(a * b, SCALE as int, ma * mb);
}

/// Multiplying by a factor of at most one whole unit never increases
/// a value's magnitude.
pub proof fn lemma_fx_mul_contract(a: int, b: int)
    requires
        0 <= b <= SCALE,
    ensures
        absi(fx_mul(a, b)) <= absi(a),
{
    lemma_abs_mul(a, b);
    lemma_mul_inequality(absi(b), SCALE as int, absi(a));
    lemma_dtz_bound(a * b, SCALE as int, absi(a) * (SCALE as int));
    lemma_div_multiples_vanish(absi(a), SCALE as int);
}

/// Truncating division of a wide signed value by a positive divisor.
pub fn trunc_div_i128(a: i128, d: i128) -> (q: i128)
    requires
        d > 0,
        a > i128::MIN,
    ensures
        q == div_to_zero(a as int, d as int),
{
    if a >= 0 {
        let n: u128 = a as u128;
        let q: u128 = n / (d as u128);
        proof {
            lemma_div_nonincreasing(n as int, d as int);
        }
        q as i128
    } else {
        let n: u128 = (-a) as u128;
        let q: u128 = n / (d as u128);
        proof {
            lemma_div_nonincreasing(n as int, d as int);
        }
        -(q as i128)
    }
}

/// Fixed-point multiply on machine words; the wide product cannot
/// overflow for the magnitudes accepted here.
pub fn mul_fx(a: i64, b: i64) -> (r: i64)
    requires
        absi(a as int) <= 3_000_000_000_000,
        absi(b as int) <= 3_000_000_000_000,
    ensures
        r == fx_mul(a as int, b as int),
        absi(r as int) <= (absi(a as int)) * (absi(b as int)) / (SCALE as int),
{
    proof {
        lemma_abs_mul(a as int, b as int);
        lemma_mul_upper_bound(
            absi(a as int),
            3_000_000_000_000,
            absi(b as int),
            3_000_000_000_000,
        );
    }
    let p: i128 = (a as i128) * (b as i128);
    proof {
        lemma_dtz_bound(p as int, SCALE as int, 9_000_000_000_000_000_000_000_000);
        lemma_dtz_absi(p as int, SCALE as int);
        lemma_div_is_ordered(absi(p as int), 9_000_000_000_000_000_000_000_000, SCALE as int);
    }
    let q: i128 = trunc_div_i128(p, 1_000_000);
    q as i64
}

/// Halving rounded toward zero, as the velocity clamp uses.
pub fn half_to_zero(v: i64) -> (r: i64)
    requires
        v > i64::MIN,
    ensures
        r == div_to_zero(v as int, 2),
        absi(r as int) <= absi(v as int),
{
    proof {
        lemma_dtz_bound(v as int, 2, absi(v as int));
        lemma_div_nonincreasing(absi(v as int), 2);
    }
    if v >= 0 {
        ((v as u64) / 2) as i64
    } else {
        -((((-v) as u64) / 2) as i64)
    }
}

/// The integer square root: the largest integer whose square does not
/// exceed the argument.
pub open spec fn sqrt_floor(n: nat) -> nat
    decreases n,
{
    if n == 0 {
        0
    } else {
        let r = sqrt_floor((n - 1) as nat);
        if (r + 1) * (r + 1) <= n {
            r + 1
        } else {
            r
        }
    }
}

/// `sqrt_floor` is characterized by the two-sided square bound.
pub proof fn lemma_sqrt_floor(n: nat)
    ensures
        sqrt_floor(n) * sqrt_floor(n) <= n,
        n < (sqrt_floor(n) + 1) * (sqrt_floor(n) + 1),
    decreases n,
{
    let s = sqrt_floor(n);
    if n == 0 {
        assert(s == 0);
        assert(n < (s + 1) * (s + 1)) by (nonlinear_arith)
            requires
                n == 0,
                s == 0,
        ;
    } else {
        lemma_sqrt_floor((n - 1) as nat);
        let r = sqrt_floor((n - 1) as nat);
        assert(n - 1 < (r + 1) * (r + 1));
        if (r + 1) * (r + 1) <= n {
            assert(s == r + 1);
            assert(s * s <= n) by (nonlinear_arith)
                requires
                    s == r + 1,
                    (r + 1) * (r + 1) <= n,
            ;
            assert(n < (s + 1) * (s + 1)) by (nonlinear_arith)
                requires
                    s == r + 1,
                    n <= (r + 1) * (r + 1),
                    r >= 0,
            ;
        } else {
            assert(s == r);
            assert(s * s <= n) by (nonlinear_arith)
                requires
                    s == r,
                    r * r <= n - 1,
                    n >= 1,
            ;
            assert(n < (s + 1) * (s + 1)) by (nonlinear_arith)
                requires
                    s == r,
                    n < (r + 1) * (r + 1),
            ;
        }
    }
}

/// The two-sided square bound pins the root down uniquely.
pub proof fn lemma_sqrt_floor_unique(n: nat, r: nat)
    requires
        r * r <= n,
        n < (r + 1) * (r + 1),
    ensures
        r == sqrt_floor(n),
{
    lemma_sqrt_floor(n);
    let s = sqrt_floor(n);
    if r < s {
        assert(false) by (nonlinear_arith)
            requires
                r < s,
                s * s <= n,
                n < (r + 1) * (r + 1),
        ;
    }
    if s < r {
        assert(false) by (nonlinear_arith)
            requires
                s < r,
                r * r <= n,
                n < (s + 1) * (s + 1),
        ;
    }
}

/// A value bounded in square is bounded by the root: the workhorse for
/// reading componentwise bounds off a vector norm.
pub proof fn lemma_square_le_root(x: int, n: nat)
    requires
        x * x <= n,
    ensures
        absi(x) <= sqrt_floor(n),
{
    lemma_sqrt_floor(n);
    let r = sqrt_floor(n);
    if absi(x) > r {
        assert(false) by (nonlinear_arith)
            requires
                absi(x) >= r + 1,
                x * x <= n,
                n < (r + 1) * (r + 1),
                absi(x) == if x >= 0 { x } else { -x },
        ;
    }
}

/// Binary-search integer square root.
pub fn isqrt(n: u64) -> (r: u64)
    ensures
        r == sqrt_floor(n as nat),
        (r as int) * (r as int) <= n as int,
        (n as int) < (r as int + 1) * (r as int + 1),
{
    let mut lo: u64 = 0;
    let mut hi: u64 = 4_294_967_296;
    while hi - lo > 1
        invariant
            lo < hi,
            hi <= 4_294_967_296,
            (lo as int) * (lo as int) <= n as int,
            (n as int) < (hi as int) * (hi as int),
        decreases hi - lo,
    {
        let mid: u64 = lo + (hi - lo) / 2;
        proof {
            lemma_mul_upper_bound(mid as int, 4_294_967_296, mid as int, 4_294_967_296);
        }
        if (mid as u128) * (mid as u128) <= n as u128 {
            lo = mid;
        } else {
            hi = mid;
        }
    }
    proof {
        lemma_sqrt_floor_unique(n as nat, lo as nat);
    }
    lo
}

} // verus!
