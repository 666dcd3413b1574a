//! The damped random walk that wanders the Julia parameter around its
//! base value. Each tick draws a random acceleration, integrates a damped
//! velocity, pulls the offset softly back once it leaves the configured
//! radius, damps the outward velocity component, and clamps extreme
//! speeds. All state is explicit and every update is an exact function
//! of the previous state and the elapsed time.

use crate::fixed::{
    absi, div_to_zero, fx_mul, half_to_zero, isqrt, lemma_abs_mul, lemma_dtz_absi,
    lemma_fx_mul_bound, lemma_fx_mul_contract, mul_fx, sqrt_floor,
    lemma_square_le_root, trunc_div_i128, SCALE,
};
use crate::fractal::{cpx_within, Cpx};
use crate::rng::{rng_next, rng_next_spec, rng_sample, sample_spec};
use vstd::arithmetic::div_mod::{
    lemma_div_pos_is_pos, lemma_fundamental_div_mod, lemma_mod_division_less_than_divisor,
    lemma_multiply_divide_lt,
};
use vstd::arithmetic::mul::lemma_mul_nonnegative;
use vstd::prelude::*;

verus! {

/// Soft bound on the offset magnitude, in micro-units.
pub const RADIUS: i64 = 400_000;

/// Magnitude of the random acceleration, in micro-units.
pub const ACCEL_STRENGTH: i64 = 1_200_000;

/// Velocity damping rate, in micro-units per time-unit.
pub const DAMPING: i64 = 850_000;

/// Real part of the fixed base Julia parameter.
pub const BASE_RE: i64 = -800_000;

/// Imaginary part of the fixed base Julia parameter.
pub const BASE_IM: i64 = 156_000;

/// Longest elapsed time a single tick will integrate, in micro-units.
pub const DT_CLAMP: u64 = 100_000;

/// The animation state: parameter offset from the base value, its
/// velocity, and the generator state, all advanced once per frame.
#[derive(Clone, Copy, Debug, PartialEq, Eq, Structural)]
pub struct AnimationState {
    pub off_re: i64,
    pub off_im: i64,
    pub vel_re: i64,
    pub vel_im: i64,
    pub rng: u64,
}

/// The state invariant: the soft boundary keeps the offset within four
/// whole units per component and the clamp keeps the velocity within two.
pub open spec fn state_wf(s: AnimationState) -> bool {
    absi(s.off_re as int) <= 4_000_000 && absi(s.off_im as int) <= 4_000_000
        && absi(s.vel_re as int) <= 2_000_000 && absi(s.vel_im as int) <= 2_000_000
}

/// Elapsed time clamped so a long pause cannot slingshot the velocity.
pub open spec fn clamp_dt_spec(dt: u64) -> int {
    if dt > 100_000 {
        100_000
    } else {
        dt as int
    }
}

/// The soft boundary step: scale the offset toward the radius and damp
/// the outward component of the velocity.
pub open spec fn pull_spec(ox: int, oy: int, vx: int, vy: int, rlen: int) -> (int, int, int, int)
    recommends
        rlen > 400_000,
{
    let pull = (rlen - 400_000) * 1_000_000 / rlen;
    let fac = 1_000_000 - fx_mul(pull, 600_000);
    let ox2 = fx_mul(ox, fac);
    let oy2 = fx_mul(oy, fac);
    let doti = vx * ox2 + vy * oy2;
    let nsqi = ox2 * ox2 + oy2 * oy2;
    let dx = div_to_zero(ox2 * doti, 2 * (nsqi + 1));
    let dy = div_to_zero(oy2 * doti, 2 * (nsqi + 1));
    (ox2, oy2, vx - dx, vy - dy)
}

/// The final clamp: a velocity beyond twice the radius is halved.
pub open spec fn clamp_vel_spec(vx: int, vy: int) -> (int, int) {
    let vn = sqrt_floor((vx * vx + vy * vy) as nat) as int;
    if vn > 2 * (RADIUS as u64) {
        (div_to_zero(vx, 2), div_to_zero(vy, 2))
    } else {
        (vx, vy)
    }
}

/// One full animation tick: the next state and the effective Julia
/// parameter, as an exact function of the previous state and elapsed
/// time (micro-units).
pub open spec fn advance_spec(s: AnimationState, dt: u64) -> (AnimationState, Cpx) {
    let dtc = clamp_dt_spec(dt);
    let r1 = rng_next_spec(s.rng);
    let a1 = sample_spec(r1);
    let r2 = rng_next_spec(r1);
    let a2 = sample_spec(r2);
    let ax = fx_mul(a1, 1_200_000);
    let ay = fx_mul(a2, 1_200_000);
    let dfac = 1_000_000 - fx_mul(850_000, dtc);
    let vx1 = fx_mul(s.vel_re as int, dfac) + fx_mul(ax, dtc);
    let vy1 = fx_mul(s.vel_im as int, dfac) + fx_mul(ay, dtc);
    let ox1 = s.off_re + fx_mul(vx1, dtc);
    let oy1 = s.off_im + fx_mul(vy1, dtc);
    let rlen = sqrt_floor((ox1 * ox1 + oy1 * oy1) as nat) as int;
    let pulled = if rlen > 400_000 {
        pull_spec(ox1, oy1, vx1, vy1, rlen)
    } else {
        (ox1, oy1, vx1, vy1)
    };
    let clamped = clamp_vel_spec(pulled.2, pulled.3);
    let ns = AnimationState {
        off_re: pulled.0 as i64,
        off_im: pulled.1 as i64,
        vel_re: clamped.0 as i64,
        vel_im: clamped.1 as i64,
        rng: r2,
    };
    (ns, Cpx { re: (-800_000 + pulled.0) as i64, im: (156_000 + pulled.1) as i64 })
}

/// A fresh animation: zero offset and velocity, the given seed.
pub fn initialize(seed: u64) -> (s: AnimationState)
    ensures
        s.off_re == 0 && s.off_im == 0 && s.vel_re == 0 && s.vel_im == 0,
        s.rng == seed,
        state_wf(s),
{
    AnimationState { off_re: 0, off_im: 0, vel_re: 0, vel_im: 0, rng: seed }
}

/// Decides the state invariant, so an unverified caller can test it
/// before handing a state to `advance`.
pub fn state_well_formed(s: &AnimationState) -> (r: bool)
    ensures
        r == state_wf(*s),
{
    -4_000_000 <= s.off_re && s.off_re <= 4_000_000 && -4_000_000 <= s.off_im && s.off_im
        <= 4_000_000 && -2_000_000 <= s.vel_re && s.vel_re <= 2_000_000 && -2_000_000
        <= s.vel_im && s.vel_im <= 2_000_000
}

/// Determinism: the tick is a pure function, so identical states fed
/// identical elapsed times can never diverge, and a whole run is pinned
/// down by its seed and its sequence of elapsed times.
pub proof fn lemma_advance_deterministic(
    s1: AnimationState,
    s2: AnimationState,
    dt1: u64,
    dt2: u64,
)
    requires
        s1 == s2,
        dt1 == dt2,
    ensures
        advance_spec(s1, dt1) == advance_spec(s2, dt2),
{
}

/// Boundary contraction: once the offset has overshot the radius, the
/// soft pull-back never moves either component away from zero, so the
/// offset's magnitude can only shrink under it.
pub proof fn lemma_pull_contracts(ox: int, oy: int, vx: int, vy: int, rlen: int)
    requires
        rlen > 400_000,
    ensures
        absi(pull_spec(ox, oy, vx, vy, rlen).0) <= absi(ox),
        absi(pull_spec(ox, oy, vx, vy, rlen).1) <= absi(oy),
{
    let pull = (rlen - 400_000) * 1_000_000 / rlen;
    lemma_mul_nonnegative(rlen - 400_000, 1_000_000);
    lemma_div_pos_is_pos((rlen - 400_000) * 1_000_000, rlen);
    lemma_multiply_divide_lt((rlen - 400_000) * 1_000_000, rlen, 1_000_000);
    let facm = fx_mul(pull, 600_000);
    lemma_mul_nonnegative(pull, 600_000);
    lemma_div_pos_is_pos(pull * 600_000, SCALE as int);
    lemma_fx_mul_bound(pull, 600_000, 999_999, 600_000);
    let fac = 1_000_000 - facm;
    lemma_fx_mul_contract(ox, fac);
    lemma_fx_mul_contract(oy, fac);
}

/// The scaled-back offset stays within four whole units: the pull factor
/// shrinks with the overshoot fast enough to more than cancel it.
proof fn lemma_pull_offset_bound(rlen: int, pull: int, facm: int, fac: int, a1: int, a2: int)
    requires
        400_000 < rlen <= 5_960_000,
        pull == (rlen - 400_000) * 1_000_000 / rlen,
        facm == pull * 600_000 / 1_000_000,
        fac == 1_000_000 - facm,
        0 <= a1 <= rlen,
        0 <= a2,
        a2 * 1_000_000 <= a1 * fac,
    ensures
        a2 <= 4_000_000,
{
    lemma_mul_nonnegative(rlen - 400_000, 1_000_000);
    lemma_fundamental_div_mod((rlen - 400_000) * 1_000_000, rlen);
    lemma_mod_division_less_than_divisor((rlen - 400_000) * 1_000_000, rlen);
    lemma_div_pos_is_pos((rlen - 400_000) * 1_000_000, rlen);
    lemma_fundamental_div_mod(pull * 600_000, 1_000_000);
    lemma_mod_division_less_than_divisor(pull * 600_000, 1_000_000);
    lemma_mul_nonnegative(pull, 600_000);
    lemma_div_pos_is_pos(pull * 600_000, 1_000_000);
    assert(a2 <= 4_000_000) by (nonlinear_arith)
        requires
            400_000 < rlen <= 5_960_000,
            0 <= pull,
            (rlen - 400_000) * 1_000_000 - rlen < pull * rlen <= (rlen - 400_000) * 1_000_000,
            0 <= facm,
            pull * 600_000 - 1_000_000 < facm * 1_000_000 <= pull * 600_000,
            fac == 1_000_000 - facm,
            0 <= a1 <= rlen,
            0 <= a2,
            a2 * 1_000_000 <= a1 * fac,
    ;
}

/// Damping the outward velocity component moves the velocity by at most
/// half its own bound: the projection coefficient is at most one.
proof fn lemma_proj_delta_bound(vx: int, vy: int, ox: int, oy: int, dx: int)
    requires
        vx * vx + vy * vy <= 9_000_000_000_000,
        dx == div_to_zero(ox * (vx * ox + vy * oy), 2 * ((ox * ox + oy * oy) + 1)),
    ensures
        absi(dx) <= 1_500_000,
{
    let n = ox * ox + oy * oy;
    let dot = vx * ox + vy * oy;
    assert(n >= 0 && ox * ox <= n && vx * vx + vy * vy >= 0) by (nonlinear_arith)
        requires
            n == ox * ox + oy * oy,
    ;
    assert(dot * dot <= (vx * vx + vy * vy) * n) by (nonlinear_arith)
        requires
            n == ox * ox + oy * oy,
            dot == vx * ox + vy * oy,
    ;
    assert(dot * dot <= 9_000_000_000_000 * n) by (nonlinear_arith)
        requires
            dot * dot <= (vx * vx + vy * vy) * n,
            0 <= vx * vx + vy * vy <= 9_000_000_000_000,
            n >= 0,
    ;
    assert((ox * dot) * (ox * dot) <= 9_000_000_000_000 * (n * n)) by (nonlinear_arith)
        requires
            dot * dot <= 9_000_000_000_000 * n,
            ox * ox <= n,
            0 <= n,
    ;
    assert(absi(ox * dot) <= 3_000_000 * n) by (nonlinear_arith)
        requires
            (ox * dot) * (ox * dot) <= 9_000_000_000_000 * (n * n),
            n >= 0,
            absi(ox * dot) == if ox * dot >= 0 { ox * dot } else { -(ox * dot) },
    ;
    lemma_dtz_absi(ox * dot, 2 * (n + 1));
    assert(absi(dx) <= 1_500_000) by (nonlinear_arith)
        requires
            absi(dx) * (2 * (n + 1)) <= absi(ox * dot),
            absi(ox * dot) <= 3_000_000 * n,
            n >= 0,
            absi(dx) >= 0,
    ;
}

/// Advances the animation by one tick of `dt` micro-units, returning the
/// next state and the effective Julia parameter it implies. The result
/// is exactly `advance_spec`, the new state satisfies the invariant, and
/// the parameter stays within five whole units per component.
#[verifier::rlimit(100)]
#[verifier::spinoff_prover]
pub fn advance(s: AnimationState, dt: u64) -> (r: (AnimationState, Cpx))
    requires
        state_wf(s),
    ensures
        r == advance_spec(s, dt),
        state_wf(r.0),
        cpx_within(r.1, 5_000_000),
{
    let dtu: u64 = if dt > DT_CLAMP {
        DT_CLAMP
    } else {
        dt
    };
    let dtc: i64 = dtu as i64;
    let r1: u64 = rng_next(s.rng);
    let a1: i64 = rng_sample(r1);
    let r2: u64 = rng_next(r1);
    let a2: i64 = rng_sample(r2);
    let ax: i64 = mul_fx(a1, ACCEL_STRENGTH);
    let ay: i64 = mul_fx(a2, ACCEL_STRENGTH);
    proof {
        lemma_fx_mul_bound(a1 as int, 1_200_000, 1_000_000, 1_200_000);
        lemma_fx_mul_bound(a2 as int, 1_200_000, 1_000_000, 1_200_000);
        lemma_fx_mul_bound(850_000, dtc as int, 850_000, 100_000);
        lemma_mul_nonnegative(850_000, dtc as int);
        lemma_div_pos_is_pos(850_000 * (dtc as int), SCALE as int);
    }
    let dfacm: i64 = mul_fx(DAMPING, dtc);
    let dfac: i64 = 1_000_000 - dfacm;
    proof {
        lemma_fx_mul_contract(s.vel_re as int, dfac as int);
        lemma_fx_mul_contract(s.vel_im as int, dfac as int);
        lemma_fx_mul_bound(ax as int, dtc as int, 1_200_000, 100_000);
        lemma_fx_mul_bound(ay as int, dtc as int, 1_200_000, 100_000);
    }
    let vx1: i64 = mul_fx(s.vel_re, dfac) + mul_fx(ax, dtc);
    let vy1: i64 = mul_fx(s.vel_im, dfac) + mul_fx(ay, dtc);
    proof {
        lemma_fx_mul_bound(vx1 as int, dtc as int, 2_120_000, 100_000);
        lemma_fx_mul_bound(vy1 as int, dtc as int, 2_120_000, 100_000);
    }
    let ox1: i64 = s.off_re + mul_fx(vx1, dtc);
    let oy1: i64 = s.off_im + mul_fx(vy1, dtc);
    proof {
        assert(ox1 * ox1 <= 17_740_944_000_000 && ox1 * ox1 >= 0) by (nonlinear_arith)
            requires
                -4_212_000 <= ox1 <= 4_212_000,
        ;
        assert(oy1 * oy1 <= 17_740_944_000_000 && oy1 * oy1 >= 0) by (nonlinear_arith)
            requires
                -4_212_000 <= oy1 <= 4_212_000,
        ;
    }
    let nsq: u64 = ((ox1 as i128) * (ox1 as i128) + (oy1 as i128) * (oy1 as i128)) as u64;
    let rlen: u64 = isqrt(nsq);
    proof {
        assert(rlen <= 5_960_000) by (nonlinear_arith)
            requires
                (rlen as int) * (rlen as int) <= 35_481_888_000_000,
        ;
        lemma_square_le_root(ox1 as int, nsq as nat);
        lemma_square_le_root(oy1 as int, nsq as nat);
    }
    let ox2: i64;
    let oy2: i64;
    let vx2: i64;
    let vy2: i64;
    if rlen > RADIUS as u64 {
        let pull: u64 = (rlen - RADIUS as u64) * 1_000_000 / rlen;
        proof {
            lemma_multiply_divide_lt(((rlen - 400_000) * 1_000_000) as int, rlen as int, 1_000_000);
            lemma_div_pos_is_pos(((rlen - 400_000) * 1_000_000) as int, rlen as int);
        }
        let facm: i64 = mul_fx(pull as i64, 600_000);
        proof {
            lemma_fx_mul_bound(pull as int, 600_000, 999_999, 600_000);
            lemma_mul_nonnegative(pull as int, 600_000);
            lemma_div_pos_is_pos((pull as int) * 600_000, SCALE as int);
        }
        let fac: i64 = 1_000_000 - facm;
        proof {
            lemma_fx_mul_contract(ox1 as int, fac as int);
            lemma_fx_mul_contract(oy1 as int, fac as int);
        }
        ox2 = mul_fx(ox1, fac);
        oy2 = mul_fx(oy1, fac);
        proof {
            lemma_dtz_absi((ox1 as int) * (fac as int), SCALE as int);
            lemma_dtz_absi((oy1 as int) * (fac as int), SCALE as int);
            lemma_abs_mul(ox1 as int, fac as int);
            lemma_abs_mul(oy1 as int, fac as int);
            lemma_pull_offset_bound(
                rlen as int,
                pull as int,
                facm as int,
                fac as int,
                absi(ox1 as int),
                absi(ox2 as int),
            );
            lemma_pull_offset_bound(
                rlen as int,
                pull as int,
                facm as int,
                fac as int,
                absi(oy1 as int),
                absi(oy2 as int),
            );
            assert(ox2 * ox2 + oy2 * oy2 <= 35_481_888_000_000 && ox2 * ox2 >= 0 && oy2 * oy2
                >= 0) by (nonlinear_arith)
                requires
                    -4_212_000 <= ox2 <= 4_212_000,
                    -4_212_000 <= oy2 <= 4_212_000,
            ;
            assert(absi((vx1 as int) * (ox2 as int) + (vy1 as int) * (oy2 as int))
                <= 17_858_880_000_000) by (nonlinear_arith)
                requires
                    -2_120_000 <= vx1 <= 2_120_000,
                    -2_120_000 <= vy1 <= 2_120_000,
                    -4_212_000 <= ox2 <= 4_212_000,
                    -4_212_000 <= oy2 <= 4_212_000,
                    absi((vx1 as int) * (ox2 as int) + (vy1 as int) * (oy2 as int)) == if (
                    vx1 as int) * (ox2 as int) + (vy1 as int) * (oy2 as int) >= 0 {
                        (vx1 as int) * (ox2 as int) + (vy1 as int) * (oy2 as int)
                    } else {
                        -((vx1 as int) * (ox2 as int) + (vy1 as int) * (oy2 as int))
                    },
            ;
        }
        proof {
            assert(-9_000_000_000_000 <= (vx1 as int) * (ox2 as int) <= 9_000_000_000_000
                && -9_000_000_000_000 <= (vy1 as int) * (oy2 as int)
                <= 9_000_000_000_000) by (nonlinear_arith)
                requires
                    -2_120_000 <= vx1 <= 2_120_000,
                    -2_120_000 <= vy1 <= 2_120_000,
                    -4_212_000 <= ox2 <= 4_212_000,
                    -4_212_000 <= oy2 <= 4_212_000,
            ;
        }
        let doti: i128 = (vx1 as i128) * (ox2 as i128) + (vy1 as i128) * (oy2 as i128);
        let nsqi: i128 = (ox2 as i128) * (ox2 as i128) + (oy2 as i128) * (oy2 as i128);
        proof {
            assert(absi((ox2 as int) * (doti as int)) <= 76_000_000_000_000_000_000
                && absi((oy2 as int) * (doti as int)) <= 76_000_000_000_000_000_000) by (nonlinear_arith)
                requires
                    -4_212_000 <= ox2 <= 4_212_000,
                    -4_212_000 <= oy2 <= 4_212_000,
                    absi(doti as int) <= 17_858_880_000_000,
                    absi(doti as int) == if doti >= 0 { doti as int } else { -(doti as int) },
                    absi((ox2 as int) * (doti as int)) == if (ox2 as int) * (doti as int) >= 0 {
                        (ox2 as int) * (doti as int)
                    } else {
                        -((ox2 as int) * (doti as int))
                    },
                    absi((oy2 as int) * (doti as int)) == if (oy2 as int) * (doti as int) >= 0 {
                        (oy2 as int) * (doti as int)
                    } else {
                        -((oy2 as int) * (doti as int))
                    },
            ;
        }
        let dx: i128 = trunc_div_i128((ox2 as i128) * doti, 2 * (nsqi + 1));
        let dy: i128 = trunc_div_i128((oy2 as i128) * doti, 2 * (nsqi + 1));
        proof {
            assert((vx1 as int) * (vx1 as int) + (vy1 as int) * (vy1 as int)
                <= 9_000_000_000_000) by (nonlinear_arith)
                requires
                    -2_120_000 <= vx1 <= 2_120_000,
                    -2_120_000 <= vy1 <= 2_120_000,
            ;
            lemma_proj_delta_bound(vx1 as int, vy1 as int, ox2 as int, oy2 as int, dx as int);
            lemma_proj_delta_bound(vy1 as int, vx1 as int, oy2 as int, ox2 as int, dy as int);
        }
        vx2 = vx1 - (dx as i64);
        vy2 = vy1 - (dy as i64);
    } else {
        proof {
            lemma_square_le_root(ox1 as int, nsq as nat);
            lemma_square_le_root(oy1 as int, nsq as nat);
        }
        ox2 = ox1;
        oy2 = oy1;
        vx2 = vx1;
        vy2 = vy1;
    }
    proof {
        assert(vx2 * vx2 + vy2 * vy2 <= 26_208_800_000_000 && vx2 * vx2 >= 0 && vy2 * vy2
            >= 0) by (nonlinear_arith)
            requires
                -3_620_000 <= vx2 <= 3_620_000,
                -3_620_000 <= vy2 <= 3_620_000,
        ;
    }
    let vsq: u64 = ((vx2 as i128) * (vx2 as i128) + (vy2 as i128) * (vy2 as i128)) as u64;
    let vn: u64 = isqrt(vsq);
    let vx3: i64;
    let vy3: i64;
    if vn > 2 * (RADIUS as u64) {
        vx3 = half_to_zero(vx2);
        vy3 = half_to_zero(vy2);
    } else {
        proof {
            lemma_square_le_root(vx2 as int, vsq as nat);
            lemma_square_le_root(vy2 as int, vsq as nat);
        }
        vx3 = vx2;
        vy3 = vy2;
    }
    let ns = AnimationState { off_re: ox2, off_im: oy2, vel_re: vx3, vel_im: vy3, rng: r2 };
    let c = Cpx { re: BASE_RE + ox2, im: BASE_IM + oy2 };
    (ns, c)
}

} // verus!
