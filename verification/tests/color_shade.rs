use julia_anim::{hsv_to_256, shade, shade_char_index};

#[test]
fn hsv_range() {
    for h in (0..360).step_by(90) {
        let c = hsv_to_256((h as u64) * 1_000_000, 900_000, 1_000_000);
        assert!((c..=255).contains(&c));
    }
}

#[test]
fn shade_density_progresses() {
    // Ensure later norm values don't map to an earlier index in the shade ramp
    let mut last_idx = 0usize;
    for i in 0..50 {
        let n: u64 = (i as u64) * 1_000_000 / 49;
        let idx: usize = shade_char_index(n);
        assert!(idx >= last_idx);
        last_idx = idx;
    }
}

#[test]
fn hsv_exact_cube_values() {
    assert_eq!(hsv_to_256(0, 900_000, 1_000_000), 203);
    assert_eq!(hsv_to_256(90_000_000, 900_000, 1_000_000), 155);
    assert_eq!(hsv_to_256(180_000_000, 900_000, 1_000_000), 87);
    assert_eq!(hsv_to_256(270_000_000, 900_000, 1_000_000), 135);
    assert_eq!(hsv_to_256(45_000_000, 900_000, 1_000_000), 221);
}

#[test]
fn hsv_cube_range_full_hue_sweep() {
    for h in 0..360 {
        let c = hsv_to_256((h as u64) * 1_000_000, 900_000, 1_000_000);
        assert!((16..=231).contains(&c));
    }
}

#[test]
fn hsv_grayscale_branch() {
    assert_eq!(hsv_to_256(0, 0, 1_000_000), 255);
    assert_eq!(hsv_to_256(123_000_000, 0, 500_000), 244);
    assert_eq!(hsv_to_256(0, 79_999, 0), 232);
    for v in [0u64, 250_000, 500_000, 750_000, 1_000_000] {
        let c = hsv_to_256(42_000_000, 0, v);
        assert!((232..=255).contains(&c));
    }
}

#[test]
fn hue_wraps_modulo_full_circle() {
    assert_eq!(
        hsv_to_256(360_000_000, 900_000, 1_000_000),
        hsv_to_256(0, 900_000, 1_000_000)
    );
    assert_eq!(
        hsv_to_256(450_000_000, 900_000, 1_000_000),
        hsv_to_256(90_000_000, 900_000, 1_000_000)
    );
}

#[test]
fn shade_exact_indices() {
    assert_eq!(shade_char_index(0), 0);
    assert_eq!(shade_char_index(29_469), 0);
    assert_eq!(shade_char_index(29_470), 1);
    assert_eq!(shade_char_index(500_000), 6);
    assert_eq!(shade_char_index(941_439), 9);
    assert_eq!(shade_char_index(941_440), 10);
    assert_eq!(shade_char_index(999_999), 10);
}

#[test]
fn shade_glyphs_match_ramp() {
    assert_eq!(shade(0), ' ');
    assert_eq!(shade(29_470), '.');
    assert_eq!(shade(500_000), '*');
    assert_eq!(shade(999_999), '█');
}
