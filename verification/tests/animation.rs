use julia_anim::{advance, escape_count, initialize, point_at, rng_next, rng_sample, state_well_formed, AnimationState, Cpx, DEFAULT_SEED};

#[test]
fn rng_recipe_exact() {
    let s0: u64 = DEFAULT_SEED;
    assert_eq!(s0, 0x9e3779b97f4a7c15);
    let s1: u64 = rng_next(s0);
    assert_eq!(s1, 0x03f721dffe39b342);
    assert_eq!(rng_sample(s1), -894_419);
    let s2: u64 = rng_next(s1);
    assert_eq!(s2, 0x5830920757d41153);
    assert_eq!(rng_sample(s2), -337_760);
}

#[test]
fn rng_sample_stays_in_unit_interval() {
    let mut s: u64 = DEFAULT_SEED;
    for _ in 0..1000 {
        s = rng_next(s);
        let x = rng_sample(s);
        assert!((-1_000_000..1_000_000).contains(&x));
    }
}

#[test]
fn determinism_identical_runs_bit_identical() {
    let dts: [u64; 3] = [16_000, 16_000, 16_000];
    let mut a = initialize(DEFAULT_SEED);
    let mut b = initialize(DEFAULT_SEED);
    for dt in dts {
        let (na, ca) = advance(a, dt);
        let (nb, cb) = advance(b, dt);
        assert_eq!(na, nb);
        assert_eq!(ca, cb);
        a = na;
        b = nb;
    }
}

#[test]
fn advance_exact_trajectory() {
    let mut s = initialize(DEFAULT_SEED);
    let (s1, c1) = advance(s, 16_000);
    assert_eq!(
        s1,
        AnimationState {
            off_re: -274,
            off_im: -103,
            vel_re: -17_172,
            vel_im: -6_484,
            rng: 0x5830920757d41153,
        }
    );
    assert_eq!(c1, Cpx { re: -800_274, im: 155_897 });
    s = s1;
    let (s2, _) = advance(s, 16_000);
    let (s3, c3) = advance(s2, 16_000);
    assert_eq!(
        s3,
        AnimationState {
            off_re: -579,
            off_im: -246,
            vel_re: -8_222,
            vel_im: -2_202,
            rng: 0xc4a18a6a296864c6,
        }
    );
    assert_eq!(c3, Cpx { re: -800_579, im: 155_754 });
}

#[test]
fn boundary_contraction_pulls_offset_inward() {
    // Offset magnitude 0.5, radius 0.4: one zero-dt tick applies only the
    // soft pull-back, which contracts toward the radius without crossing it.
    let s = AnimationState {
        off_re: 500_000,
        off_im: 0,
        vel_re: 0,
        vel_im: 0,
        rng: DEFAULT_SEED,
    };
    let (n, c) = advance(s, 0);
    assert_eq!(n.off_re, 440_000);
    assert_eq!(n.off_im, 0);
    assert!(n.off_re < 500_000);
    assert!(n.off_re > 400_000);
    assert_eq!(c, Cpx { re: -360_000, im: 156_000 });
}

#[test]
fn long_pause_is_clamped() {
    // A huge dt behaves exactly like the 0.1 time-unit clamp value.
    let s = initialize(DEFAULT_SEED);
    let (a, ca) = advance(s, 100_000);
    let (b, cb) = advance(s, 7_000_000);
    assert_eq!(a, b);
    assert_eq!(ca, cb);
}

#[test]
fn states_stay_well_formed() {
    let mut s = initialize(DEFAULT_SEED);
    for _ in 0..200 {
        assert!(state_well_formed(&s));
        let (n, _) = advance(s, 16_000);
        s = n;
    }
    assert!(!state_well_formed(&AnimationState {
        off_re: 5_000_000,
        off_im: 0,
        vel_re: 0,
        vel_im: 0,
        rng: 0,
    }));
}

#[test]
fn escape_at_corner() {
    // The point starts outside radius two, so it escapes before any step.
    let c = Cpx { re: -800_000, im: 156_000 };
    let p = Cpx { re: 3_000_000, im: 0 };
    assert_eq!(escape_count(c, p, 120), 0);
}

#[test]
fn escape_interior_reaches_cap() {
    let c = Cpx { re: -800_000, im: 156_000 };
    let p = Cpx { re: 0, im: 0 };
    assert_eq!(escape_count(c, p, 120), 120);
}

#[test]
fn escape_after_one_step() {
    let c = Cpx { re: -800_000, im: 156_000 };
    let p = Cpx { re: 1_000_000, im: 1_000_000 };
    assert_eq!(escape_count(c, p, 120), 1);
}

#[test]
fn viewport_corners() {
    assert_eq!(point_at(0, 0, 80, 24), Cpx { re: -1_500_000, im: -1_000_000 });
    let z = point_at(79, 23, 80, 24);
    assert_eq!(z, Cpx { re: 3_000_000 * 79 / 80 - 1_500_000, im: 2_000_000 * 23 / 24 - 1_000_000 });
}
