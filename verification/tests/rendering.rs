use julia_anim::{pace_budget, render_frame, Cpx, FrameMetrics};

#[test]
fn uniform_row_emits_one_color_set() {
    // Every cell of this row escapes after one step with the same color,
    // so the run of ten glyphs carries a single color-set directive and a
    // single reset at the row end.
    let c = Cpx { re: 9_000_000, im: 0 };
    let (bytes, directives) = render_frame(c, 10, 1, 120);
    assert_eq!(bytes.as_slice(), b"\x1b[38;5;203m          \x1b[0m\n".as_slice());
    assert_eq!(directives, 2);
    let escapes: usize = bytes.iter().filter(|&&b| b == 0x1b).count();
    assert_eq!(escapes, 2);
}

#[test]
fn interior_cells_render_blank_after_reset() {
    // With parameter zero the right column never escapes: each row is one
    // colored glyph, a reset, then a bare blank.
    let c = Cpx { re: 0, im: 0 };
    let (bytes, directives) = render_frame(c, 2, 2, 50);
    assert_eq!(
        bytes.as_slice(),
        b"\x1b[38;5;203m \x1b[0m \n\x1b[38;5;203m \x1b[0m \n".as_slice()
    );
    assert_eq!(directives, 4);
}

#[test]
fn rows_end_with_line_breaks() {
    let c = Cpx { re: -800_000, im: 156_000 };
    let (bytes, _) = render_frame(c, 12, 5, 60);
    let breaks: usize = bytes.iter().filter(|&&b| b == b'\n').count();
    assert_eq!(breaks, 5);
    assert_eq!(*bytes.last().unwrap(), b'\n');
}

#[test]
fn run_length_never_beats_naive_emission() {
    // The compressed stream can never contain more color-set directives
    // than cells, which is what emitting a color before every glyph costs.
    let c = Cpx { re: -800_000, im: 156_000 };
    let (bytes, directives) = render_frame(c, 20, 10, 60);
    let sets: usize = bytes.windows(2).filter(|w| w == b"\x1b[").count();
    assert_eq!(sets as u64, directives);
    assert!(directives <= 20 * 10 + 10);
}

#[test]
fn degenerate_grids_render_cleanly() {
    let c = Cpx { re: -800_000, im: 156_000 };
    let (bytes, directives) = render_frame(c, 10, 0, 120);
    assert!(bytes.is_empty());
    assert_eq!(directives, 0);
    let (bytes, directives) = render_frame(c, 0, 3, 120);
    assert_eq!(bytes.as_slice(), b"\n\n\n".as_slice());
    assert_eq!(directives, 0);
}

#[test]
fn pacing_sleeps_only_the_remainder() {
    assert_eq!(pace_budget(10_000, 16_667), 6_667);
    assert_eq!(pace_budget(0, 16_667), 16_667);
}

#[test]
fn pacing_returns_zero_on_overrun() {
    assert_eq!(pace_budget(16_667, 16_667), 0);
    assert_eq!(pace_budget(20_000, 16_667), 0);
    assert_eq!(pace_budget(u64::MAX, 16_667), 0);
}

#[test]
fn metrics_smooth_toward_observation() {
    let mut m = FrameMetrics::new();
    assert_eq!(m.frame, 0);
    assert_eq!(m.fps_fx, 60_000_000);
    m.update(16_667);
    assert_eq!(m.frame, 1);
    assert_eq!(m.fps_fx, 59_999_820);
    m.update(0);
    assert_eq!(m.frame, 2);
    assert_eq!(m.fps_fx, (59_999_820u64 * 850_000 + 60_000_000 * 150_000) / 1_000_000);
}
