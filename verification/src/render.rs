//! Frame rendering with run-length color compression. Cells are walked
//! in row-major order; a color-set directive is emitted only when a
//! cell's color differs from the one already active in the stream, and
//! a reset only at interior cells and row ends. The emitted byte stream
//! and the directive count are pinned down exactly, cell by cell.

use crate::color::{
    hsv_index_spec, hsv_to_256, lemma_hsv_range, shade_char_index, shade_index_spec,
};
use crate::fractal::{
    cpx_within, escape_count, escape_spec, lemma_escape_spec_le, point_at, point_at_spec, Cpx,
};
use vstd::arithmetic::div_mod::{lemma_div_pos_is_pos, lemma_multiply_divide_lt};
use vstd::arithmetic::mul::{lemma_mul_nonnegative, lemma_mul_upper_bound};
use vstd::prelude::*;

verus! {

/// Escape count of one grid cell.
pub open spec fn cell_iters(c: Cpx, x: int, y: int, w: int, h: int, mi: u32) -> nat {
    escape_spec(c, point_at_spec(x, y, w, h), mi as nat)
}

/// An interior cell never escaped within the iteration budget.
pub open spec fn cell_interior(c: Cpx, x: int, y: int, w: int, h: int, mi: u32) -> bool {
    cell_iters(c, x, y, w, h, mi) == mi as nat
}

/// Normalized escape value of an escaping cell, in micro-units.
pub open spec fn cell_norm(c: Cpx, x: int, y: int, w: int, h: int, mi: u32) -> int {
    (cell_iters(c, x, y, w, h, mi) as int) * 1_000_000 / (mi as int)
}

/// Palette index of an escaping cell: full hue sweep at fixed
/// saturation 0.9 and value 1.
pub open spec fn cell_color(c: Cpx, x: int, y: int, w: int, h: int, mi: u32) -> int {
    hsv_index_spec((cell_norm(c, x, y, w, h, mi) * 360) as u64, 900_000, 1_000_000)
}

/// Glyph bytes of an escaping cell (the solid block is three bytes of
/// UTF-8, every other ramp glyph one).
pub open spec fn glyph_bytes(i: int) -> Seq<u8> {
    if i <= 0 {
        seq![32u8]
    } else if i == 1 {
        seq![46u8]
    } else if i == 2 {
        seq![58u8]
    } else if i == 3 {
        seq![45u8]
    } else if i == 4 {
        seq![61u8]
    } else if i == 5 {
        seq![43u8]
    } else if i == 6 {
        seq![42u8]
    } else if i == 7 {
        seq![111u8]
    } else if i == 8 {
        seq![79u8]
    } else if i == 9 {
        seq![35u8]
    } else {
        seq![226u8, 150u8, 136u8]
    }
}

/// Glyph bytes of one cell.
pub open spec fn cell_glyph(c: Cpx, x: int, y: int, w: int, h: int, mi: u32) -> Seq<u8> {
    glyph_bytes(shade_index_spec(cell_norm(c, x, y, w, h, mi) as u64))
}

/// Decimal digits of a palette index, most significant first.
pub open spec fn dec_digits(n: int) -> Seq<u8>
    recommends
        0 <= n < 256,
{
    if n < 10 {
        seq![(48 + n) as u8]
    } else if n < 100 {
        seq![(48 + n / 10) as u8, (48 + n % 10) as u8]
    } else {
        seq![(48 + n / 100) as u8, (48 + (n / 10) % 10) as u8, (48 + n % 10) as u8]
    }
}

/// The 256-color foreground-select directive for a palette index.
pub open spec fn set_dir_bytes(color: int) -> Seq<u8> {
    seq![27u8, 91u8, 51u8, 56u8, 59u8, 53u8, 59u8] + dec_digits(color) + seq![109u8]
}

/// The full-attribute reset directive.
pub open spec fn reset_bytes() -> Seq<u8> {
    seq![27u8, 91u8, 48u8, 109u8]
}

/// The stream state after the first `x` cells of row `y`: emitted
/// bytes, color-set count, reset count, and the active color (negative
/// when none is active).
pub open spec fn row_state(c: Cpx, y: int, w: int, h: int, mi: u32, x: int) -> (
    Seq<u8>,
    nat,
    nat,
    int,
)
    decreases x,
{
    if x <= 0 {
        (Seq::<u8>::empty(), 0nat, 0nat, -1int)
    } else {
        let prev = row_state(c, y, w, h, mi, x - 1);
        let cx = x - 1;
        if cell_interior(c, cx, y, w, h, mi) {
            if prev.3 >= 0 {
                (prev.0 + reset_bytes() + seq![32u8], prev.1, prev.2 + 1, -1int)
            } else {
                (prev.0 + seq![32u8], prev.1, prev.2, -1int)
            }
        } else {
            let col = cell_color(c, cx, y, w, h, mi);
            let g = cell_glyph(c, cx, y, w, h, mi);
            if prev.3 == col {
                (prev.0 + g, prev.1, prev.2, col)
            } else {
                (prev.0 + set_dir_bytes(col) + g, prev.1 + 1, prev.2, col)
            }
        }
    }
}

/// One finished row: its cells, a trailing reset if a color is still
/// active, and the line break.
pub open spec fn row_bytes(c: Cpx, y: int, w: int, h: int, mi: u32) -> (Seq<u8>, nat, nat) {
    let st = row_state(c, y, w, h, mi, w);
    if st.3 >= 0 {
        (st.0 + reset_bytes() + seq![10u8], st.1, st.2 + 1)
    } else {
        (st.0 + seq![10u8], st.1, st.2)
    }
}

/// The stream after the first `y` full rows.
pub open spec fn frame_state(c: Cpx, w: int, h: int, mi: u32, y: int) -> (Seq<u8>, nat, nat)
    decreases y,
{
    if y <= 0 {
        (Seq::<u8>::empty(), 0nat, 0nat)
    } else {
        let prev = frame_state(c, w, h, mi, y - 1);
        let row = row_bytes(c, y - 1, w, h, mi);
        (prev.0 + row.0, prev.1 + row.1, prev.2 + row.2)
    }
}

/// The byte stream of a whole frame.
pub open spec fn frame_bytes(c: Cpx, w: int, h: int, mi: u32) -> Seq<u8> {
    frame_state(c, w, h, mi, h).0
}

/// Styling directives (color sets and resets) emitted for a whole frame.
pub open spec fn frame_directives(c: Cpx, w: int, h: int, mi: u32) -> nat {
    frame_state(c, w, h, mi, h).1 + frame_state(c, w, h, mi, h).2
}

/// Appends the reset directive.
fn push_reset(buf: &mut Vec<u8>)
    ensures
        final(buf)@ == old(buf)@ + reset_bytes(),
{
    buf.push(27);
    buf.push(91);
    buf.push(48);
    buf.push(109);
    proof {
        assert(buf@ =~= old(buf)@ + reset_bytes());
    }
}

/// Appends the color-set directive for a palette index.
fn push_set(buf: &mut Vec<u8>, color: u8)
    requires
        color >= 16,
    ensures
        final(buf)@ == old(buf)@ + set_dir_bytes(color as int),
{
    buf.push(27);
    buf.push(91);
    buf.push(51);
    buf.push(56);
    buf.push(59);
    buf.push(53);
    buf.push(59);
    if color >= 100 {
        buf.push(48 + color / 100);
        buf.push(48 + (color / 10) % 10);
        buf.push(48 + color % 10);
    } else {
        buf.push(48 + color / 10);
        buf.push(48 + color % 10);
    }
    buf.push(109);
    proof {
        assert(buf@ =~= old(buf)@ + set_dir_bytes(color as int));
    }
}

/// Appends the glyph at a ramp position.
fn push_glyph(buf: &mut Vec<u8>, i: usize)
    requires
        i <= 10,
    ensures
        final(buf)@ == old(buf)@ + glyph_bytes(i as int),
{
    if i == 0 {
        buf.push(32);
    } else if i == 1 {
        buf.push(46);
    } else if i == 2 {
        buf.push(58);
    } else if i == 3 {
        buf.push(45);
    } else if i == 4 {
        buf.push(61);
    } else if i == 5 {
        buf.push(43);
    } else if i == 6 {
        buf.push(42);
    } else if i == 7 {
        buf.push(111);
    } else if i == 8 {
        buf.push(79);
    } else if i == 9 {
        buf.push(35);
    } else {
        buf.push(226);
        buf.push(150);
        buf.push(136);
    }
    proof {
        assert(buf@ =~= old(buf)@ + glyph_bytes(i as int));
    }
}

/// Renders one frame: the exact byte stream of `frame_bytes` and the
/// number of styling directives it contains.
#[verifier::rlimit(100)]
#[verifier::spinoff_prover]
pub fn render_frame(c: Cpx, width: usize, height: usize, max_iters: u32) -> (out: (Vec<u8>, u64))
    requires
        cpx_within(c, 10_000_000),
        width <= 10_000,
        height <= 10_000,
        0 < max_iters <= 1_000_000,
    ensures
        out.0@ == frame_bytes(c, width as int, height as int, max_iters),
        out.1 == frame_directives(c, width as int, height as int, max_iters),
{
    let mut buf: Vec<u8> = Vec::new();
    let mut sets: u64 = 0;
    let mut resets: u64 = 0;
    let mut y: usize = 0;
    while y < height
        invariant
            cpx_within(c, 10_000_000),
            width <= 10_000,
            height <= 10_000,
            0 < max_iters <= 1_000_000,
            y <= height,
            buf@ == frame_state(c, width as int, height as int, max_iters, y as int).0,
            sets == frame_state(c, width as int, height as int, max_iters, y as int).1,
            resets == frame_state(c, width as int, height as int, max_iters, y as int).2,
            sets <= (y as int) * (width as int),
            resets <= (y as int) * (width as int) + y as int,
        decreases height - y,
    {
        let ghost fs = frame_state(c, width as int, height as int, max_iters, y as int);
        let mut x: usize = 0;
        let mut active: i32 = -1;
        while x < width
            invariant
                cpx_within(c, 10_000_000),
                width <= 10_000,
                height <= 10_000,
                0 < max_iters <= 1_000_000,
                y < height,
                x <= width,
                fs == frame_state(c, width as int, height as int, max_iters, y as int),
                buf@ == fs.0 + row_state(c, y as int, width as int, height as int, max_iters, x as int).0,
                sets == fs.1 + row_state(c, y as int, width as int, height as int, max_iters, x as int).1,
                resets == fs.2 + row_state(c, y as int, width as int, height as int, max_iters, x as int).2,
                active as int == row_state(c, y as int, width as int, height as int, max_iters, x as int).3,
                fs.1 <= (y as int) * (width as int),
                fs.2 <= (y as int) * (width as int) + y as int,
                row_state(c, y as int, width as int, height as int, max_iters, x as int).1 <= x as int,
                row_state(c, y as int, width as int, height as int, max_iters, x as int).2 <= x as int,
            decreases width - x,
        {
            proof {
                lemma_mul_upper_bound(y as int, 10_000, width as int, 10_000);
            }
            let z = point_at(x, y, width, height);
            let n: u32 = escape_count(c, z, max_iters);
            if n >= max_iters {
                if active >= 0 {
                    push_reset(&mut buf);
                    resets = resets + 1;
                    active = -1;
                }
                buf.push(32);
            } else {
                proof {
                    lemma_mul_nonnegative(n as int, 1_000_000);
                    lemma_div_pos_is_pos((n as int) * 1_000_000, max_iters as int);
                    lemma_multiply_divide_lt(
                        (n as int) * 1_000_000,
                        max_iters as int,
                        1_000_000,
                    );
                    assert((n as int) * 1_000_000 < (max_iters as int) * 1_000_000) by (nonlinear_arith)
                        requires
                            n < max_iters,
                    ;
                }
                let norm: u64 = (n as u64) * 1_000_000 / (max_iters as u64);
                let col: u8 = hsv_to_256(norm * 360, 900_000, 1_000_000);
                if active < 0 || active != col as i32 {
                    push_set(&mut buf, col);
                    sets = sets + 1;
                    active = col as i32;
                }
                let gi: usize = shade_char_index(norm);
                push_glyph(&mut buf, gi);
            }
            x = x + 1;
            proof {
                assert(buf@ =~= fs.0 + row_state(
                    c,
                    y as int,
                    width as int,
                    height as int,
                    max_iters,
                    x as int,
                ).0);
            }
        }
        proof {
            lemma_mul_upper_bound(y as int, 10_000, width as int, 10_000);
        }
        if active >= 0 {
            push_reset(&mut buf);
            resets = resets + 1;
        }
        buf.push(10);
        y = y + 1;
        proof {
            assert((y as int) * (width as int) == (y as int - 1) * (width as int) + (
            width as int)) by (nonlinear_arith);
            assert(buf@ =~= frame_state(c, width as int, height as int, max_iters, y as int).0);
        }
    }
    proof {
        lemma_mul_upper_bound(y as int, 10_000, width as int, 10_000);
    }
    (buf, sets + resets)
}

/// Run-length minimality for a uniform run: a row whose cells all escape
/// with one and the same color emits exactly one color-set directive,
/// however long the run is, and ends holding that color active.
pub proof fn lemma_uniform_row_single_set(
    c: Cpx,
    y: int,
    w: int,
    h: int,
    mi: u32,
    x: int,
    col: int,
)
    requires
        1 <= x,
        0 < mi <= 1_000_000,
        forall|i: int|
            0 <= i < x ==> !cell_interior(c, i, y, w, h, mi) && cell_color(c, i, y, w, h, mi)
                == col,
    ensures
        row_state(c, y, w, h, mi, x).1 == 1,
        row_state(c, y, w, h, mi, x).2 == 0,
        row_state(c, y, w, h, mi, x).3 == col,
    decreases x,
{
    lemma_cell_color_in_cube(c, x - 1, y, w, h, mi);
    if x == 1 {
        assert(row_state(c, y, w, h, mi, 0).3 == -1);
    } else {
        lemma_uniform_row_single_set(c, y, w, h, mi, x - 1, col);
    }
}

/// Run-length compression never loses to the naive strategy of emitting
/// a color before every glyph: a row of `x` cells carries at most `x`
/// color-set directives and at most `x` resets.
pub proof fn lemma_sets_at_most_cells(c: Cpx, y: int, w: int, h: int, mi: u32, x: int)
    requires
        0 <= x,
    ensures
        row_state(c, y, w, h, mi, x).1 <= x,
        row_state(c, y, w, h, mi, x).2 <= x,
    decreases x,
{
    if x > 0 {
        lemma_sets_at_most_cells(c, y, w, h, mi, x - 1);
    }
}

/// Every escaping cell's color lies in the 6x6x6 cube `[16, 231]`.
pub proof fn lemma_cell_color_in_cube(c: Cpx, x: int, y: int, w: int, h: int, mi: u32)
    requires
        0 < mi <= 1_000_000,
    ensures
        16 <= cell_color(c, x, y, w, h, mi) <= 231,
{
    let iters = cell_iters(c, x, y, w, h, mi) as int;
    lemma_escape_spec_le(c, point_at_spec(x, y, w, h), mi as nat);
    lemma_mul_nonnegative(iters, 1_000_000);
    lemma_div_pos_is_pos(iters * 1_000_000, mi as int);
    assert(iters * 1_000_000 <= (mi as int) * 1_000_000) by (nonlinear_arith)
        requires
            iters <= mi as int,
    ;
    vstd::arithmetic::div_mod::lemma_div_is_ordered(
        iters * 1_000_000,
        (mi as int) * 1_000_000,
        mi as int,
    );
    vstd::arithmetic::div_mod::lemma_div_multiples_vanish(1_000_000, mi as int);
    let norm = cell_norm(c, x, y, w, h, mi);
    assert(0 <= norm <= 1_000_000);
    lemma_hsv_range((norm * 360) as u64, 900_000, 1_000_000);
}

} // verus!
