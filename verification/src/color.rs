//! Quantized color and shade mapping. A normalized escape value in
//! micro-units is mapped to a 256-color terminal palette index through the
//! hexagonal HSV decomposition, and to a density glyph through a fixed
//! eleven-step ramp with a gamma bias toward the darker characters.

use vstd::arithmetic::div_mod::{lemma_div_is_ordered, lemma_div_multiples_vanish};
use vstd::arithmetic::mul::{lemma_mul_inequality, lemma_mul_upper_bound};
use vstd::prelude::*;

verus! {

/// Grayscale ramp index for a value in `[0, 1]` micro-units: the value
/// scaled to 24 steps, rounded to nearest, capped at the last step.
pub open spec fn gray_level_spec(v: u64) -> int {
    let g = ((v as int) * 23 + 500_000) / 1_000_000;
    if g > 23 {
        23
    } else {
        g
    }
}

/// One color-cube channel quantized to six levels, rounding to nearest.
pub open spec fn quant5_spec(t: int) -> int {
    (t * 5 + 500_000) / 1_000_000
}

/// The 256-color palette index for hue `h` (micro-degrees, any magnitude),
/// saturation `s` and value `v` (micro-units in `[0, 1]`): the standard
/// hexagonal HSV decomposition, quantized onto the 6x6x6 color cube, with
/// near-zero saturation diverted to the 24-step grayscale ramp.
pub open spec fn hsv_index_spec(h: u64, s: u64, v: u64) -> int
    recommends
        s <= 1_000_000,
        v <= 1_000_000,
{
    if s < 80_000 {
        232 + gray_level_spec(v)
    } else {
        let hn = (h as int) % 360_000_000;
        let sector = hn / 60_000_000;
        let f = (hn % 60_000_000) / 60;
        let c = (v as int) * (s as int) / 1_000_000;
        let x = c * (if sector % 2 == 0 {
            f
        } else {
            1_000_000 - f
        }) / 1_000_000;
        let m = v - c;
        let rgb = if sector == 0 {
            (c, x, 0int)
        } else if sector == 1 {
            (x, c, 0int)
        } else if sector == 2 {
            (0int, c, x)
        } else if sector == 3 {
            (0int, x, c)
        } else if sector == 4 {
            (x, 0int, c)
        } else {
            (c, 0int, x)
        };
        16 + 36 * quant5_spec(rgb.0 + m) + 6 * quant5_spec(rgb.1 + m) + quant5_spec(rgb.2 + m)
    }
}

/// Maps hue, saturation and value (micro-units) to a 256-color index.
/// Saturated input lands in the 6x6x6 color cube, `[16, 231]`;
/// desaturated input lands on the grayscale ramp, `[232, 255]`.
pub fn hsv_to_256(h: u64, s: u64, v: u64) -> (idx: u8)
    requires
        s <= 1_000_000,
        v <= 1_000_000,
    ensures
        idx == hsv_index_spec(h, s, v),
        s < 80_000 ==> 232 <= idx <= 255,
        s >= 80_000 ==> 16 <= idx <= 231,
{
    if s < 80_000 {
        let g0: u64 = (v * 23 + 500_000) / 1_000_000;
        let g: u64 = if g0 > 23 {
            23
        } else {
            g0
        };
        return 232 + (g as u8);
    }
    let hn: u64 = h % 360_000_000;
    let sector: u64 = hn / 60_000_000;
    let f: u64 = (hn % 60_000_000) / 60;
    proof {
        lemma_div_is_ordered(hn as int, 359_999_999, 60_000_000);
        lemma_div_is_ordered((hn as int) % 60_000_000, 59_999_999, 60);
    }
    proof {
        lemma_mul_upper_bound(v as int, 1_000_000, s as int, 1_000_000);
    }
    let c: u64 = v * s / 1_000_000;
    proof {
        lemma_mul_inequality(s as int, 1_000_000, v as int);
        lemma_div_is_ordered((v as int) * (s as int), (v as int) * 1_000_000, 1_000_000);
        lemma_div_multiples_vanish(v as int, 1_000_000);
    }
    let w: u64 = if sector % 2 == 0 {
        f
    } else {
        1_000_000 - f
    };
    proof {
        lemma_mul_upper_bound(c as int, 1_000_000, w as int, 1_000_000);
    }
    let x: u64 = c * w / 1_000_000;
    proof {
        lemma_mul_inequality(w as int, 1_000_000, c as int);
        lemma_div_is_ordered((c as int) * (w as int), (c as int) * 1_000_000, 1_000_000);
        lemma_div_multiples_vanish(c as int, 1_000_000);
    }
    let m: u64 = v - c;
    let r1: u64;
    let g1: u64;
    let b1: u64;
    if sector == 0 {
        r1 = c;
        g1 = x;
        b1 = 0;
    } else if sector == 1 {
        r1 = x;
        g1 = c;
        b1 = 0;
    } else if sector == 2 {
        r1 = 0;
        g1 = c;
        b1 = x;
    } else if sector == 3 {
        r1 = 0;
        g1 = x;
        b1 = c;
    } else if sector == 4 {
        r1 = x;
        g1 = 0;
        b1 = c;
    } else {
        r1 = c;
        g1 = 0;
        b1 = x;
    }
    let ri: u64 = ((r1 + m) * 5 + 500_000) / 1_000_000;
    let gi: u64 = ((g1 + m) * 5 + 500_000) / 1_000_000;
    let bi: u64 = ((b1 + m) * 5 + 500_000) / 1_000_000;
    proof {
        lemma_div_is_ordered(((r1 + m) * 5 + 500_000) as int, 5_500_000, 1_000_000);
        lemma_div_is_ordered(((g1 + m) * 5 + 500_000) as int, 5_500_000, 1_000_000);
        lemma_div_is_ordered(((b1 + m) * 5 + 500_000) as int, 5_500_000, 1_000_000);
    }
    (16 + 36 * ri + 6 * gi + bi) as u8
}

/// The density index for a normalized escape value in `[0, 1)`
/// micro-units: the nearest integer to `norm` raised to the gamma
/// exponent 0.85 and scaled across the eleven-glyph ramp. Each bound
/// below is `((k - 1/2) / 10)` raised to `1/0.85`, in micro-units, so
/// comparing against them computes the rounded gamma curve exactly.
pub open spec fn shade_index_spec(norm: u64) -> int {
    if norm < 29_470 {
        0
    } else if norm < 107_324 {
        1
    } else if norm < 195_747 {
        2
    } else if norm < 290_810 {
        3
    } else if norm < 390_854 {
        4
    } else if norm < 494_931 {
        5
    } else if norm < 602_418 {
        6
    } else if norm < 712_875 {
        7
    } else if norm < 825_968 {
        8
    } else if norm < 941_440 {
        9
    } else {
        10
    }
}

/// The glyph at a given position of the density ramp, from blank to a
/// solid block.
pub open spec fn shade_char_spec(i: int) -> char {
    if i <= 0 {
        ' '
    } else if i == 1 {
        '.'
    } else if i == 2 {
        ':'
    } else if i == 3 {
        '-'
    } else if i == 4 {
        '='
    } else if i == 5 {
        '+'
    } else if i == 6 {
        '*'
    } else if i == 7 {
        'o'
    } else if i == 8 {
        'O'
    } else if i == 9 {
        '#'
    } else {
        '█'
    }
}

/// Position of a normalized escape value on the density ramp.
pub fn shade_char_index(norm: u64) -> (i: usize)
    ensures
        i == shade_index_spec(norm),
        i <= 10,
{
    if norm < 29_470 {
        0
    } else if norm < 107_324 {
        1
    } else if norm < 195_747 {
        2
    } else if norm < 290_810 {
        3
    } else if norm < 390_854 {
        4
    } else if norm < 494_931 {
        5
    } else if norm < 602_418 {
        6
    } else if norm < 712_875 {
        7
    } else if norm < 825_968 {
        8
    } else if norm < 941_440 {
        9
    } else {
        10
    }
}

/// Density glyph for a normalized escape value.
pub fn shade(norm: u64) -> (ch: char)
    ensures
        ch == shade_char_spec(shade_index_spec(norm)),
{
    let i: usize = shade_char_index(norm);
    if i == 0 {
        ' '
    } else if i == 1 {
        '.'
    } else if i == 2 {
        ':'
    } else if i == 3 {
        '-'
    } else if i == 4 {
        '='
    } else if i == 5 {
        '+'
    } else if i == 6 {
        '*'
    } else if i == 7 {
        'o'
    } else if i == 8 {
        'O'
    } else if i == 9 {
        '#'
    } else {
        '█'
    }
}

/// The density ramp is monotone: a larger normalized escape value never
/// maps to an earlier (lighter) glyph.
pub proof fn lemma_shade_monotone(a: u64, b: u64)
    requires
        a <= b,
    ensures
        shade_index_spec(a) <= shade_index_spec(b),
{
}

/// The palette split: saturated colors land in the 6x6x6 cube
/// `[16, 231]` and desaturated ones on the grayscale ramp `[232, 255]`,
/// for every hue.
pub proof fn lemma_hsv_range(h: u64, s: u64, v: u64)
    requires
        s <= 1_000_000,
        v <= 1_000_000,
    ensures
        s < 80_000 ==> 232 <= hsv_index_spec(h, s, v) <= 255,
        s >= 80_000 ==> 16 <= hsv_index_spec(h, s, v) <= 231,
{
    if s < 80_000 {
        lemma_div_is_ordered((v as int) * 23 + 500_000, 23_500_000, 1_000_000);
        vstd::arithmetic::div_mod::lemma_div_pos_is_pos((v as int) * 23 + 500_000, 1_000_000);
    } else {
        let hn = (h as int) % 360_000_000;
        let sector = hn / 60_000_000;
        let f = (hn % 60_000_000) / 60;
        let c = (v as int) * (s as int) / 1_000_000;
        let w = if sector % 2 == 0 {
            f
        } else {
            1_000_000 - f
        };
        let x = c * w / 1_000_000;
        vstd::arithmetic::div_mod::lemma_mod_division_less_than_divisor(h as int, 360_000_000);
        vstd::arithmetic::div_mod::lemma_mod_division_less_than_divisor(hn, 60_000_000);
        lemma_div_is_ordered(hn % 60_000_000, 59_999_999, 60);
        vstd::arithmetic::div_mod::lemma_div_pos_is_pos(hn % 60_000_000, 60);
        lemma_mul_upper_bound(v as int, 1_000_000, s as int, 1_000_000);
        vstd::arithmetic::mul::lemma_mul_nonnegative(v as int, s as int);
        vstd::arithmetic::div_mod::lemma_div_pos_is_pos((v as int) * (s as int), 1_000_000);
        lemma_mul_inequality(s as int, 1_000_000, v as int);
        lemma_div_is_ordered((v as int) * (s as int), (v as int) * 1_000_000, 1_000_000);
        lemma_div_multiples_vanish(v as int, 1_000_000);
        vstd::arithmetic::mul::lemma_mul_nonnegative(c, w);
        vstd::arithmetic::div_mod::lemma_div_pos_is_pos(c * w, 1_000_000);
        assert(c * w <= c * 1_000_000) by (nonlinear_arith)
            requires
                0 <= c,
                0 <= w <= 1_000_000,
        ;
        lemma_div_is_ordered(c * w, c * 1_000_000, 1_000_000);
        lemma_div_multiples_vanish(c, 1_000_000);
        assert(0 <= x <= c);
        let m = v - c;
        lemma_div_is_ordered((c + m) * 5 + 500_000, 5_500_000, 1_000_000);
        lemma_div_is_ordered((x + m) * 5 + 500_000, 5_500_000, 1_000_000);
        lemma_div_is_ordered((0 + m) * 5 + 500_000, 5_500_000, 1_000_000);
        vstd::arithmetic::div_mod::lemma_div_pos_is_pos((c + m) * 5 + 500_000, 1_000_000);
        vstd::arithmetic::div_mod::lemma_div_pos_is_pos((x + m) * 5 + 500_000, 1_000_000);
        vstd::arithmetic::div_mod::lemma_div_pos_is_pos((0 + m) * 5 + 500_000, 1_000_000);
    }
}

} // verus!
