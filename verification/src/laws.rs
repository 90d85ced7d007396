use vstd::prelude::*;

use vstd::arithmetic::div_mod::lemma_fundamental_div_mod;
use vstd::arithmetic::div_mod::lemma_fundamental_div_mod_converse;

use crate::cpu::Chip8;
use crate::cpu::Fault;
use crate::cpu::MachineState;
use crate::cpu::spec_cycle;
use crate::cpu::spec_draw;
use crate::cpu::spec_draw_row;
use crate::cpu::spec_execute;
use crate::cpu::spec_exec_instr;
use crate::cpu::spec_initial;
use crate::cpu::spec_load;
use crate::cpu::spec_run;
use crate::cpu::spec_step;
use crate::cpu::spec_tick;
use crate::cpu::sprite_bit;
use crate::decode::Instr;

verus! {

/// Add-immediate wraps modulo 256 and touches neither the flag register nor
/// any other register.
pub proof fn lemma_add_imm_wraps(s: MachineState, x: u8, nn: u8, rnd: u8)
    requires
        s.wf(),
        x < 16,
    ensures
        ({
            let r = spec_exec_instr(s, Instr::AddImm { x, nn }, rnd);
            &&& r is Ok
            &&& r->Ok_0.v[x as int] == (s.v[x as int] + nn) % 256
            &&& forall|k: int| 0 <= k < 16 && k != x ==> r->Ok_0.v[k] == s.v[k]
        }),
{
}

/// Register addition wraps modulo 256 and the flag register records the
/// carry: 1 exactly when the true sum exceeds 255.
pub proof fn lemma_add_reg_wraps(s: MachineState, x: u8, y: u8, rnd: u8)
    requires
        s.wf(),
        x < 15,
        y < 16,
    ensures
        ({
            let r = spec_exec_instr(s, Instr::AddReg { x, y }, rnd);
            &&& r is Ok
            &&& r->Ok_0.v[x as int] == (s.v[x as int] + s.v[y as int]) % 256
            &&& r->Ok_0.v[15] == (if s.v[x as int] + s.v[y as int] > 255 {
                1u8
            } else {
                0u8
            })
            &&& forall|k: int| 0 <= k < 16 && k != x && k != 15 ==> r->Ok_0.v[k] == s.v[k]
        }),
{
}

/// Register subtraction Vx - Vy wraps modulo 256 (Euclidean remainder) and
/// the flag register records the borrow inverted: 1 exactly when no borrow.
pub proof fn lemma_sub_reg_wraps(s: MachineState, x: u8, y: u8, rnd: u8)
    requires
        s.wf(),
        x < 15,
        y < 16,
    ensures
        ({
            let r = spec_exec_instr(s, Instr::SubReg { x, y }, rnd);
            &&& r is Ok
            &&& r->Ok_0.v[x as int] == (s.v[x as int] - s.v[y as int]) % 256
            &&& r->Ok_0.v[15] == (if s.v[x as int] >= s.v[y as int] {
                1u8
            } else {
                0u8
            })
            &&& forall|k: int| 0 <= k < 16 && k != x && k != 15 ==> r->Ok_0.v[k] == s.v[k]
        }),
{
}

/// Reversed subtraction Vy - Vx wraps modulo 256 and the flag register is 1
/// exactly when no borrow.
pub proof fn lemma_sub_rev_wraps(s: MachineState, x: u8, y: u8, rnd: u8)
    requires
        s.wf(),
        x < 15,
        y < 16,
    ensures
        ({
            let r = spec_exec_instr(s, Instr::SubRev { x, y }, rnd);
            &&& r is Ok
            &&& r->Ok_0.v[x as int] == (s.v[y as int] - s.v[x as int]) % 256
            &&& r->Ok_0.v[15] == (if s.v[y as int] >= s.v[x as int] {
                1u8
            } else {
                0u8
            })
            &&& forall|k: int| 0 <= k < 16 && k != x && k != 15 ==> r->Ok_0.v[k] == s.v[k]
        }),
{
}

/// The right shift halves Vx and captures its low bit in the flag register
/// before the shift.
pub proof fn lemma_shift_right(s: MachineState, x: u8, rnd: u8)
    requires
        s.wf(),
        x < 15,
    ensures
        ({
            let r = spec_exec_instr(s, Instr::ShiftRight { x }, rnd);
            &&& r is Ok
            &&& r->Ok_0.v[x as int] == s.v[x as int] / 2
            &&& r->Ok_0.v[15] == s.v[x as int] % 2
            &&& forall|k: int| 0 <= k < 16 && k != x && k != 15 ==> r->Ok_0.v[k] == s.v[k]
        }),
{
}

/// The left shift doubles Vx modulo 256 and captures its most significant
/// bit, as 1 or 0, in the flag register before the shift.
pub proof fn lemma_shift_left(s: MachineState, x: u8, rnd: u8)
    requires
        s.wf(),
        x < 15,
    ensures
        ({
            let r = spec_exec_instr(s, Instr::ShiftLeft { x }, rnd);
            &&& r is Ok
            &&& r->Ok_0.v[x as int] == (s.v[x as int] * 2) % 256
            &&& r->Ok_0.v[15] == (if s.v[x as int] >= 128 {
                1u8
            } else {
                0u8
            })
            &&& forall|k: int| 0 <= k < 16 && k != x && k != 15 ==> r->Ok_0.v[k] == s.v[k]
        }),
{
}

/// The copy and the three bitwise opcodes land in range by construction and
/// touch neither the flag register nor any other register.
pub proof fn lemma_alu_bitwise(s: MachineState, x: u8, y: u8, rnd: u8)
    requires
        s.wf(),
        x < 16,
        y < 16,
    ensures
        ({
            let r = spec_exec_instr(s, Instr::Copy { x, y }, rnd);
            &&& r is Ok
            &&& r->Ok_0.v[x as int] == s.v[y as int]
            &&& forall|k: int| 0 <= k < 16 && k != x ==> r->Ok_0.v[k] == s.v[k]
        }),
        ({
            let r = spec_exec_instr(s, Instr::Or { x, y }, rnd);
            &&& r is Ok
            &&& r->Ok_0.v[x as int] == (s.v[x as int] | s.v[y as int])
            &&& forall|k: int| 0 <= k < 16 && k != x ==> r->Ok_0.v[k] == s.v[k]
        }),
        ({
            let r = spec_exec_instr(s, Instr::And { x, y }, rnd);
            &&& r is Ok
            &&& r->Ok_0.v[x as int] == (s.v[x as int] & s.v[y as int])
            &&& forall|k: int| 0 <= k < 16 && k != x ==> r->Ok_0.v[k] == s.v[k]
        }),
        ({
            let r = spec_exec_instr(s, Instr::Xor { x, y }, rnd);
            &&& r is Ok
            &&& r->Ok_0.v[x as int] == (s.v[x as int] ^ s.v[y as int])
            &&& forall|k: int| 0 <= k < 16 && k != x ==> r->Ok_0.v[k] == s.v[k]
        }),
{
}

/// The clear-screen opcode leaves every one of the 2048 pixels off, and
/// nothing else changes but the program counter.
pub proof fn lemma_clear_screen_all_off(s: MachineState, rnd: u8)
    requires
        s.wf(),
    ensures
        ({
            let r = spec_exec_instr(s, Instr::ClearScreen, rnd);
            &&& r is Ok
            &&& forall|k: int| 0 <= k < 2048 ==> r->Ok_0.gfx[k] == 0
            &&& r->Ok_0.v == s.v
            &&& r->Ok_0.mem == s.mem
        }),
{
}

/// Toggling one cell and then toggling it again restores the buffer.
proof fn lemma_toggle_twice(g: Seq<u32>, p: int)
    requires
        0 <= p < g.len(),
    ensures
        ({
            let t = g.update(p, g[p] ^ 255);
            t.update(p, t[p] ^ 255) =~= g
        }),
{
    assert forall|v: u32| #[trigger] ((v ^ 255) ^ 255) == v by {
        assert(forall|v: u32| #[trigger] ((v ^ 255) ^ 255) == v) by (bit_vector);
    }
}

/// Toggles of two cells commute.
proof fn lemma_toggle_commute(g: Seq<u32>, a: int, b: int)
    requires
        0 <= a < g.len(),
        0 <= b < g.len(),
    ensures
        ({
            let ga = g.update(a, g[a] ^ 255);
            let gb = g.update(b, g[b] ^ 255);
            ga.update(b, ga[b] ^ 255) =~= gb.update(a, gb[a] ^ 255)
        }),
{
    if a == b {
        assert forall|v: u32| #[trigger] ((v ^ 255) ^ 255) == v by {
            assert(forall|v: u32| #[trigger] ((v ^ 255) ^ 255) == v) by (bit_vector);
        }
    }
}

/// Drawing a sprite row onto a buffer with one cell toggled gives the drawn
/// buffer with that cell toggled: a row is a chain of toggles, and toggles
/// commute.
proof fn lemma_row_toggle_commute(g: Seq<u32>, byte: u8, xc: int, yc: int, bits: int, p: int)
    requires
        g.len() == 2048,
        0 <= p < 2048,
    ensures
        ({
            let moved = spec_draw_row(g.update(p, g[p] ^ 255), byte, xc, yc, bits).0;
            let drawn = spec_draw_row(g, byte, xc, yc, bits).0;
            moved =~= drawn.update(p, drawn[p] ^ 255)
        }),
    decreases bits,
{
    if bits <= 0 {
    } else {
        lemma_row_toggle_commute(g, byte, xc, yc, bits - 1, p);
        let j = bits - 1;
        if sprite_bit(byte, j) {
            let drawn_prev = spec_draw_row(g, byte, xc, yc, bits - 1).0;
            let idx = crate::cpu::pix_index(xc + j, yc);
            lemma_row_len(g, byte, xc, yc, bits - 1);
            lemma_toggle_commute(drawn_prev, p, idx);
        }
    }
}

/// A sprite row keeps the buffer's length.
proof fn lemma_row_len(g: Seq<u32>, byte: u8, xc: int, yc: int, bits: int)
    requires
        g.len() == 2048,
    ensures
        spec_draw_row(g, byte, xc, yc, bits).0.len() == 2048,
    decreases bits,
{
    if bits <= 0 {
    } else {
        lemma_row_len(g, byte, xc, yc, bits - 1);
    }
}

/// Drawing the same sprite row twice restores the buffer: XOR is its own
/// inverse.
proof fn lemma_row_twice(g: Seq<u32>, byte: u8, xc: int, yc: int, bits: int)
    requires
        g.len() == 2048,
    ensures
        spec_draw_row(spec_draw_row(g, byte, xc, yc, bits).0, byte, xc, yc, bits).0 =~= g,
    decreases bits,
{
    if bits <= 0 {
    } else {
        lemma_row_twice(g, byte, xc, yc, bits - 1);
        let j = bits - 1;
        let prev = spec_draw_row(g, byte, xc, yc, bits - 1).0;
        lemma_row_len(g, byte, xc, yc, bits - 1);
        if sprite_bit(byte, j) {
            let idx = crate::cpu::pix_index(xc + j, yc);
            let once = spec_draw_row(g, byte, xc, yc, bits).0;
            assert(once == prev.update(idx, prev[idx] ^ 255));
            lemma_row_toggle_commute(prev, byte, xc, yc, bits - 1, idx);
            let back = spec_draw_row(once, byte, xc, yc, bits - 1).0;
            assert(back =~= g.update(idx, g[idx] ^ 255));
            lemma_toggle_twice(g, idx);
            assert(spec_draw_row(once, byte, xc, yc, bits).0 =~= g);
        }
    }
}

/// A whole sprite drawn onto a buffer with one cell toggled gives the drawn
/// buffer with that cell toggled.
proof fn lemma_draw_toggle_commute(
    g: Seq<u32>,
    mem: Seq<u8>,
    i: int,
    xc: int,
    yc: int,
    rows: int,
    p: int,
)
    requires
        g.len() == 2048,
        0 <= p < 2048,
    ensures
        ({
            let moved = spec_draw(g.update(p, g[p] ^ 255), mem, i, xc, yc, rows).0;
            let drawn = spec_draw(g, mem, i, xc, yc, rows).0;
            moved =~= drawn.update(p, drawn[p] ^ 255)
        }),
    decreases rows,
{
    if rows <= 0 {
    } else {
        lemma_draw_toggle_commute(g, mem, i, xc, yc, rows - 1, p);
        let r = rows - 1;
        let drawn_prev = spec_draw(g, mem, i, xc, yc, rows - 1).0;
        lemma_draw_len(g, mem, i, xc, yc, rows - 1);
        lemma_row_toggle_commute(drawn_prev, mem[i + r], xc, yc + r, 8, p);
    }
}

/// A whole sprite keeps the buffer's length.
proof fn lemma_draw_len(g: Seq<u32>, mem: Seq<u8>, i: int, xc: int, yc: int, rows: int)
    requires
        g.len() == 2048,
    ensures
        spec_draw(g, mem, i, xc, yc, rows).0.len() == 2048,
    decreases rows,
{
    if rows <= 0 {
    } else {
        lemma_draw_len(g, mem, i, xc, yc, rows - 1);
        lemma_row_len(
            spec_draw(g, mem, i, xc, yc, rows - 1).0,
            mem[i + rows - 1],
            xc,
            yc + rows - 1,
            8,
        );
    }
}

/// A whole sprite commutes with one sprite row drawn first.
proof fn lemma_draw_row_commute(
    g: Seq<u32>,
    mem: Seq<u8>,
    i: int,
    xc: int,
    yc: int,
    rows: int,
    byte: u8,
    xr: int,
    yr: int,
    bits: int,
)
    requires
        g.len() == 2048,
    ensures
        ({
            let a = spec_draw(spec_draw_row(g, byte, xr, yr, bits).0, mem, i, xc, yc, rows).0;
            let b = spec_draw_row(spec_draw(g, mem, i, xc, yc, rows).0, byte, xr, yr, bits).0;
            a =~= b
        }),
    decreases bits,
{
    if bits <= 0 {
    } else {
        lemma_draw_row_commute(g, mem, i, xc, yc, rows, byte, xr, yr, bits - 1);
        let j = bits - 1;
        if sprite_bit(byte, j) {
            let rp = spec_draw_row(g, byte, xr, yr, bits - 1).0;
            let idx = crate::cpu::pix_index(xr + j, yr);
            lemma_row_len(g, byte, xr, yr, bits - 1);
            lemma_draw_toggle_commute(rp, mem, i, xc, yc, rows, idx);
            lemma_draw_len(g, mem, i, xc, yc, rows);
        }
    }
}

/// Drawing the same sprite twice at the same coordinates restores the frame
/// buffer cell for cell: every toggled pixel is toggled back.
pub proof fn lemma_draw_twice_restores_gfx(
    g: Seq<u32>,
    mem: Seq<u8>,
    i: int,
    xc: int,
    yc: int,
    rows: int,
)
    requires
        g.len() == 2048,
    ensures
        spec_draw(spec_draw(g, mem, i, xc, yc, rows).0, mem, i, xc, yc, rows).0 =~= g,
    decreases rows,
{
    if rows <= 0 {
    } else {
        lemma_draw_twice_restores_gfx(g, mem, i, xc, yc, rows - 1);
        let r = rows - 1;
        let byte = mem[i + r];
        let dp = spec_draw(g, mem, i, xc, yc, rows - 1).0;
        let h = spec_draw(g, mem, i, xc, yc, rows).0;
        lemma_draw_len(g, mem, i, xc, yc, rows - 1);
        // the second pass over the first rows - 1 rows, started from h,
        // equals the last row drawn onto the restored buffer
        lemma_draw_row_commute(dp, mem, i, xc, yc, rows - 1, byte, xc, yc + r, 8);
        assert(spec_draw(h, mem, i, xc, yc, rows - 1).0 =~= spec_draw_row(
            spec_draw(dp, mem, i, xc, yc, rows - 1).0,
            byte,
            xc,
            yc + r,
            8,
        ).0);
        assert(spec_draw(dp, mem, i, xc, yc, rows - 1).0 =~= g);
        lemma_row_twice(g, byte, xc, yc + r, 8);
    }
}

/// The frame-buffer cell that bit column `j` of sprite row `r` targets when
/// the sprite is drawn at (xc, yc).
pub open spec fn sprite_cell(xc: int, yc: int, j: int, r: int) -> int {
    crate::cpu::pix_index(xc + j, yc + r)
}

/// Two integers less than 2048 apart have distinct remainders modulo 2048.
proof fn lemma_mod2048_neq(a: int, b: int)
    requires
        a < b < a + 2048,
    ensures
        a % 2048 != b % 2048,
{
    lemma_fundamental_div_mod(a, 2048);
    lemma_fundamental_div_mod(b, 2048);
    if a % 2048 == b % 2048 {
        assert(b - a == 2048 * (b / 2048 - a / 2048));
    }
}

/// Two different positions of one sprite (bit column j in 0..8, row r in
/// 0..16) land on different frame-buffer cells: the sprite is too small to
/// wrap onto itself.
proof fn lemma_pix_distinct(xc: int, yc: int, j1: int, r1: int, j2: int, r2: int)
    requires
        0 <= j1 < 8,
        0 <= j2 < 8,
        0 <= r1 < 16,
        0 <= r2 < 16,
        j1 != j2 || r1 != r2,
    ensures
        sprite_cell(xc, yc, j1, r1) != sprite_cell(xc, yc, j2, r2),
{
    let a = (xc + j1) + 64 * (yc + r1);
    let b = (xc + j2) + 64 * (yc + r2);
    assert(a - b == (j1 - j2) + 64 * (r1 - r2));
    if a < b {
        lemma_mod2048_neq(a, b);
    } else if b < a {
        lemma_mod2048_neq(b, a);
    }
}

/// A sprite row leaves every cell it does not target unchanged.
proof fn lemma_row_untouched(g: Seq<u32>, byte: u8, xc: int, yc: int, bits: int, p: int)
    requires
        g.len() == 2048,
        0 <= p < 2048,
        forall|j: int| 0 <= j < bits ==> #[trigger] sprite_cell(xc, yc, j, 0) != p,
    ensures
        spec_draw_row(g, byte, xc, yc, bits).0[p] == g[p],
    decreases bits,
{
    if bits <= 0 {
    } else {
        lemma_row_untouched(g, byte, xc, yc, bits - 1, p);
        lemma_row_len(g, byte, xc, yc, bits - 1);
        assert(sprite_cell(xc, yc, bits - 1, 0) == crate::cpu::pix_index(xc + (bits - 1), yc));
    }
}

/// A whole sprite leaves every cell it does not target unchanged.
proof fn lemma_draw_untouched(
    g: Seq<u32>,
    mem: Seq<u8>,
    i: int,
    xc: int,
    yc: int,
    rows: int,
    p: int,
)
    requires
        g.len() == 2048,
        0 <= p < 2048,
        forall|j: int, r: int|
            0 <= j < 8 && 0 <= r < rows ==> #[trigger] sprite_cell(xc, yc, j, r) != p,
    ensures
        spec_draw(g, mem, i, xc, yc, rows).0[p] == g[p],
    decreases rows,
{
    if rows <= 0 {
    } else {
        lemma_draw_untouched(g, mem, i, xc, yc, rows - 1, p);
        lemma_draw_len(g, mem, i, xc, yc, rows - 1);
        let prev = spec_draw(g, mem, i, xc, yc, rows - 1).0;
        assert forall|j: int| 0 <= j < 8 implies #[trigger] sprite_cell(
            xc,
            yc + rows - 1,
            j,
            0,
        ) != p by {
            assert(sprite_cell(xc, yc, j, rows - 1) != p);
            assert(sprite_cell(xc, yc + rows - 1, j, 0) == sprite_cell(xc, yc, j, rows - 1));
        }
        lemma_row_untouched(prev, mem[i + rows - 1], xc, yc + rows - 1, 8, p);
    }
}

/// Whether some bit of one sprite row, bits 0..`bits`, targets a lit cell
/// of `g`.
spec fn spec_row_overlap(g: Seq<u32>, byte: u8, xc: int, yc: int, bits: int) -> bool {
    exists|j: int|
        0 <= j < bits && sprite_bit(byte, j) && g[#[trigger] sprite_cell(xc, yc, j, 0)] != 0
}

/// Whether some set bit of the `rows`-row sprite at memory `i` targets a
/// lit cell of `g` when drawn at (xc, yc).
pub open spec fn spec_overlap(
    g: Seq<u32>,
    mem: Seq<u8>,
    i: int,
    xc: int,
    yc: int,
    rows: int,
) -> bool {
    exists|j: int, r: int|
        0 <= j < 8 && 0 <= r < rows && sprite_bit(mem[i + r], j) && g[#[trigger] sprite_cell(
            xc,
            yc,
            j,
            r,
        )] != 0
}

/// One row's fold reports a collision exactly when some set bit of the row
/// targets a cell that was lit before the row was drawn: the row's eight
/// cells are distinct, so no bit sees a cell the same row already toggled.
proof fn lemma_row_hit_iff(g: Seq<u32>, byte: u8, xc: int, yc: int, bits: int)
    requires
        g.len() == 2048,
        bits <= 8,
    ensures
        spec_draw_row(g, byte, xc, yc, bits).1 == spec_row_overlap(g, byte, xc, yc, bits),
    decreases bits,
{
    if bits <= 0 {
    } else {
        lemma_row_hit_iff(g, byte, xc, yc, bits - 1);
        let prev = spec_draw_row(g, byte, xc, yc, bits - 1);
        let j = bits - 1;
        let idx = sprite_cell(xc, yc, j, 0);
        assert forall|j2: int| 0 <= j2 < bits - 1 implies #[trigger] sprite_cell(xc, yc, j2, 0)
            != idx by {
            lemma_pix_distinct(xc, yc, j2, 0, j, 0);
        }
        lemma_row_untouched(g, byte, xc, yc, bits - 1, idx);
        if spec_draw_row(g, byte, xc, yc, bits).1 {
            if prev.1 {
                let jw = choose|jw: int|
                    0 <= jw < bits - 1 && sprite_bit(byte, jw) && g[#[trigger] sprite_cell(
                        xc,
                        yc,
                        jw,
                        0,
                    )] != 0;
                assert(spec_row_overlap(g, byte, xc, yc, bits));
            } else {
                assert(sprite_bit(byte, j) && g[idx] != 0);
                assert(spec_row_overlap(g, byte, xc, yc, bits));
            }
        }
        if spec_row_overlap(g, byte, xc, yc, bits) {
            let jw = choose|jw: int|
                0 <= jw < bits && sprite_bit(byte, jw) && g[#[trigger] sprite_cell(
                    xc,
                    yc,
                    jw,
                    0,
                )] != 0;
            if jw < bits - 1 {
                assert(spec_row_overlap(g, byte, xc, yc, bits - 1));
            } else {
                assert(jw == j);
            }
            assert(spec_draw_row(g, byte, xc, yc, bits).1);
        }
    }
}

/// The whole draw fold reports a collision exactly when some set bit of the
/// sprite targets a cell that was lit before the draw began: a sprite of at
/// most 16 rows never wraps onto itself, so no bit sees a cell the draw
/// already toggled.
proof fn lemma_draw_hit_iff(g: Seq<u32>, mem: Seq<u8>, i: int, xc: int, yc: int, rows: int)
    requires
        g.len() == 2048,
        rows <= 16,
    ensures
        spec_draw(g, mem, i, xc, yc, rows).1 == spec_overlap(g, mem, i, xc, yc, rows),
    decreases rows,
{
    if rows <= 0 {
    } else {
        lemma_draw_hit_iff(g, mem, i, xc, yc, rows - 1);
        let prev = spec_draw(g, mem, i, xc, yc, rows - 1);
        let r = rows - 1;
        let byte = mem[i + r];
        lemma_draw_len(g, mem, i, xc, yc, rows - 1);
        lemma_row_hit_iff(prev.0, byte, xc, yc + r, 8);
        // the cells of the last row still hold their pre-draw values
        assert forall|j: int| 0 <= j < 8 implies prev.0[#[trigger] sprite_cell(xc, yc + r, j, 0)]
            == g[sprite_cell(xc, yc, j, r)] by {
            let p = sprite_cell(xc, yc + r, j, 0);
            assert(p == sprite_cell(xc, yc, j, r));
            assert forall|j2: int, r2: int|
                0 <= j2 < 8 && 0 <= r2 < rows - 1 implies #[trigger] sprite_cell(xc, yc, j2, r2)
                != p by {
                lemma_pix_distinct(xc, yc, j2, r2, j, r);
            }
            lemma_draw_untouched(g, mem, i, xc, yc, rows - 1, p);
        }
        if spec_draw(g, mem, i, xc, yc, rows).1 {
            if prev.1 {
                let (jw, rw) = choose|jw: int, rw: int|
                    0 <= jw < 8 && 0 <= rw < rows - 1 && sprite_bit(mem[i + rw], jw) && g[
                        #[trigger] sprite_cell(xc, yc, jw, rw)
                    ] != 0;
                assert(spec_overlap(g, mem, i, xc, yc, rows));
            } else {
                let jw = choose|jw: int|
                    0 <= jw < 8 && sprite_bit(byte, jw) && prev.0[#[trigger] sprite_cell(
                        xc,
                        yc + r,
                        jw,
                        0,
                    )] != 0;
                assert(sprite_bit(mem[i + r], jw) && g[sprite_cell(xc, yc, jw, r)] != 0);
                assert(spec_overlap(g, mem, i, xc, yc, rows));
            }
        }
        if spec_overlap(g, mem, i, xc, yc, rows) {
            let (jw, rw) = choose|jw: int, rw: int|
                0 <= jw < 8 && 0 <= rw < rows && sprite_bit(mem[i + rw], jw) && g[
                    #[trigger] sprite_cell(xc, yc, jw, rw)
                ] != 0;
            if rw < rows - 1 {
                assert(spec_overlap(g, mem, i, xc, yc, rows - 1));
            } else {
                assert(prev.0[sprite_cell(xc, yc + r, jw, 0)] == g[sprite_cell(xc, yc, jw, rw)]);
                assert(spec_row_overlap(prev.0, byte, xc, yc + r, 8));
            }
            assert(spec_draw(g, mem, i, xc, yc, rows).1);
        }
    }
}

/// After one row is drawn, a cell the row targets holds its old value
/// toggled when the bit is set, and its old value when not.
proof fn lemma_row_value(g: Seq<u32>, byte: u8, xc: int, yc: int, bits: int, j: int)
    requires
        g.len() == 2048,
        0 <= j < bits <= 8,
    ensures
        ({
            let idx = sprite_cell(xc, yc, j, 0);
            spec_draw_row(g, byte, xc, yc, bits).0[idx] == if sprite_bit(byte, j) {
                g[idx] ^ 255
            } else {
                g[idx]
            }
        }),
    decreases bits,
{
    let idx = sprite_cell(xc, yc, j, 0);
    if j == bits - 1 {
        assert forall|j2: int| 0 <= j2 < bits - 1 implies #[trigger] sprite_cell(xc, yc, j2, 0)
            != idx by {
            lemma_pix_distinct(xc, yc, j2, 0, j, 0);
        }
        lemma_row_untouched(g, byte, xc, yc, bits - 1, idx);
        lemma_row_len(g, byte, xc, yc, bits - 1);
    } else {
        lemma_row_value(g, byte, xc, yc, bits - 1, j);
        lemma_pix_distinct(xc, yc, bits - 1, 0, j, 0);
        lemma_row_len(g, byte, xc, yc, bits - 1);
    }
}

/// After the whole sprite is drawn, a cell the sprite targets holds its old
/// value toggled when its bit is set, and its old value when not.
proof fn lemma_draw_value(
    g: Seq<u32>,
    mem: Seq<u8>,
    i: int,
    xc: int,
    yc: int,
    rows: int,
    j: int,
    r: int,
)
    requires
        g.len() == 2048,
        0 <= j < 8,
        0 <= r < rows <= 16,
    ensures
        ({
            let p = sprite_cell(xc, yc, j, r);
            spec_draw(g, mem, i, xc, yc, rows).0[p] == if sprite_bit(mem[i + r], j) {
                g[p] ^ 255
            } else {
                g[p]
            }
        }),
    decreases rows,
{
    let p = sprite_cell(xc, yc, j, r);
    let prev = spec_draw(g, mem, i, xc, yc, rows - 1);
    lemma_draw_len(g, mem, i, xc, yc, rows - 1);
    if r == rows - 1 {
        assert forall|j2: int, r2: int|
            0 <= j2 < 8 && 0 <= r2 < rows - 1 implies #[trigger] sprite_cell(xc, yc, j2, r2)
            != p by {
            lemma_pix_distinct(xc, yc, j2, r2, j, r);
        }
        lemma_draw_untouched(g, mem, i, xc, yc, rows - 1, p);
        assert(p == sprite_cell(xc, yc + r, j, 0));
        lemma_row_value(prev.0, mem[i + r], xc, yc + r, 8, j);
    } else {
        lemma_draw_value(g, mem, i, xc, yc, rows - 1, j, r);
        assert forall|j2: int| 0 <= j2 < 8 implies #[trigger] sprite_cell(
            xc,
            yc + rows - 1,
            j2,
            0,
        ) != p by {
            lemma_pix_distinct(xc, yc, j2, rows - 1, j, r);
            assert(sprite_cell(xc, yc + rows - 1, j2, 0) == sprite_cell(xc, yc, j2, rows - 1));
        }
        lemma_row_untouched(prev.0, mem[i + rows - 1], xc, yc + rows - 1, 8, p);
    }
}

/// The draw opcode executed twice with the same operands sets the flag
/// register on the second draw exactly when some set sprite bit targets a
/// cell that was off before the first draw: the first pass lit every such
/// cell, and the second finds it lit.
#[verifier::rlimit(60)]
pub proof fn lemma_second_draw_overlap(s: MachineState, x: u8, y: u8, n: u8, ra: u8, rb: u8)
    requires
        s.wf(),
        x < 16,
        y < 16,
        n < 16,
        n > 0 ==> s.i + n - 1 <= 0xFFF,
    ensures
        ({
            let v1 = s.v.update(15, 0u8);
            let xc = v1[x as int] as int;
            let yc = v1[y as int] as int;
            let r1 = spec_exec_instr(s, Instr::Draw { x, y, n }, ra);
            &&& r1 is Ok
            &&& {
                let r2 = spec_exec_instr(r1->Ok_0, Instr::Draw { x, y, n }, rb);
                &&& r2 is Ok
                &&& (r2->Ok_0.v[15] == 1u8 <==> exists|j: int, r: int|
                    0 <= j < 8 && 0 <= r < n && sprite_bit(s.mem[s.i + r], j) && s.gfx[
                        #[trigger] sprite_cell(xc, yc, j, r)
                    ] == 0)
            }
        }),
{
    let v1 = s.v.update(15, 0u8);
    let xc = v1[x as int] as int;
    let yc = v1[y as int] as int;
    let r1 = spec_exec_instr(s, Instr::Draw { x, y, n }, ra);
    let s1 = r1->Ok_0;
    assert(s1.v.update(15, 0u8) =~= v1);
    let r2 = spec_exec_instr(s1, Instr::Draw { x, y, n }, rb);
    lemma_draw_len(s.gfx, s.mem, s.i as int, xc, yc, n as int);
    lemma_draw_hit_iff(s1.gfx, s.mem, s.i as int, xc, yc, n as int);
    assert forall|v: u32| #[trigger] (v ^ 255) != 0 <==> v != 255 by {
        assert(forall|v: u32| #[trigger] (v ^ 255) != 0 <==> v != 255) by (bit_vector);
    }
    // a targeted cell of the once-drawn buffer is lit exactly when it
    // started off and its bit is set
    assert forall|j: int, r: int|
        0 <= j < 8 && 0 <= r < n && sprite_bit(s.mem[s.i as int + r], j) implies (s1.gfx[
        #[trigger] sprite_cell(xc, yc, j, r)
    ] != 0 <==> s.gfx[sprite_cell(xc, yc, j, r)] == 0) by {
        lemma_draw_value(s.gfx, s.mem, s.i as int, xc, yc, n as int, j, r);
        let p = sprite_cell(xc, yc, j, r);
        assert(s.gfx[p] == 0 || s.gfx[p] == 255);
    }
    if r2->Ok_0.v[15] == 1u8 {
        let (jw, rw) = choose|jw: int, rw: int|
            0 <= jw < 8 && 0 <= rw < n && sprite_bit(s.mem[s.i as int + rw], jw) && s1.gfx[
                #[trigger] sprite_cell(xc, yc, jw, rw)
            ] != 0;
        assert(s.gfx[sprite_cell(xc, yc, jw, rw)] == 0);
    }
    if exists|j: int, r: int|
        0 <= j < 8 && 0 <= r < n && sprite_bit(s.mem[s.i as int + r], j) && s.gfx[
            #[trigger] sprite_cell(xc, yc, j, r)
        ] == 0 {
        let (jw, rw) = choose|jw: int, rw: int|
            0 <= jw < 8 && 0 <= rw < n && sprite_bit(s.mem[s.i as int + rw], jw) && s.gfx[
                #[trigger] sprite_cell(xc, yc, jw, rw)
            ] == 0;
        assert(s1.gfx[sprite_cell(xc, yc, jw, rw)] != 0);
        assert(spec_overlap(s1.gfx, s.mem, s.i as int, xc, yc, n as int));
    }
}

/// The draw opcode executed twice with the same operands restores the frame
/// buffer to its pre-draw state, and the flag register after the second
/// draw reports exactly whether the second pass toggled a lit pixel.
#[verifier::rlimit(60)]
pub proof fn lemma_draw_twice(s: MachineState, x: u8, y: u8, n: u8, ra: u8, rb: u8)
    requires
        s.wf(),
        x < 16,
        y < 16,
        n < 16,
        n > 0 ==> s.i + n - 1 <= 0xFFF,
    ensures
        ({
            let r1 = spec_exec_instr(s, Instr::Draw { x, y, n }, ra);
            &&& r1 is Ok
            &&& {
                let s1 = r1->Ok_0;
                let r2 = spec_exec_instr(s1, Instr::Draw { x, y, n }, rb);
                let v1 = s.v.update(15, 0u8);
                let xc = v1[x as int] as int;
                let yc = v1[y as int] as int;
                &&& r2 is Ok
                &&& r2->Ok_0.gfx == s.gfx
                &&& (r2->Ok_0.v[15] == 1u8 <==> spec_draw(
                    s1.gfx,
                    s.mem,
                    s.i as int,
                    xc,
                    yc,
                    n as int,
                ).1)
            }
        }),
{
    let r1 = spec_exec_instr(s, Instr::Draw { x, y, n }, ra);
    let s1 = r1->Ok_0;
    let v1 = s.v.update(15, 0u8);
    let xc = v1[x as int] as int;
    let yc = v1[y as int] as int;
    assert(s1.v.update(15, 0u8) =~= v1);
    let r2 = spec_exec_instr(s1, Instr::Draw { x, y, n }, rb);
    lemma_draw_twice_restores_gfx(s.gfx, s.mem, s.i as int, xc, yc, n as int);
    assert(r2->Ok_0.gfx =~= s.gfx);
}

/// Call then immediate return: the program counter lands on the instruction
/// after the call and every other part of the state, the stack included, is
/// restored — for any starting counter in [0x200, 0xFFD] and any target
/// address.
#[verifier::rlimit(60)]
pub proof fn lemma_call_return_round_trip(s: MachineState, nnn: u16, ra: u8, rb: u8)
    requires
        s.wf(),
        s.stack.len() < 16,
        nnn < 0x1000,
        0x200 <= s.pc <= 0xFFD,
    ensures
        ({
            let r1 = spec_execute(s, (0x2000 + nnn) as u16, ra);
            &&& r1 is Ok
            &&& {
                let r2 = spec_execute(r1->Ok_0, 0x00EE, rb);
                &&& r2 is Ok
                &&& r2->Ok_0 == (MachineState { pc: (s.pc + 2) as u16, ..s })
            }
        }),
{
    let w = (0x2000 + nnn) as u16;
    lemma_fundamental_div_mod_converse(w as int, 0x1000, 2, nnn as int);
    let r1 = spec_execute(s, w, ra);
    let s1 = r1->Ok_0;
    assert(s1.stack.len() > 0);
    let r2 = spec_execute(s1, 0x00EE, rb);
    assert(s1.stack.last() == s.pc);
    assert(s1.stack.drop_last() =~= s.stack);
    assert(r2->Ok_0 =~= (MachineState { pc: (s.pc + 2) as u16, ..s }));
}

/// The skip-if-equal opcode advances the program counter by 4 from its
/// pre-instruction value when Vx equals the immediate (the skip plus the
/// auto-advance), by 2 when it does not, and touches nothing else — for
/// every counter inside the 4096-byte address space.
pub proof fn lemma_skip_eq_imm(s: MachineState, x: u8, nn: u8, rnd: u8)
    requires
        s.wf(),
        x < 16,
        s.pc <= 0xFFF,
    ensures
        ({
            let r = spec_exec_instr(s, Instr::SkipEqImm { x, nn }, rnd);
            &&& r is Ok
            &&& s.v[x as int] == nn ==> r->Ok_0 == (MachineState { pc: (s.pc + 4) as u16, ..s })
            &&& s.v[x as int] != nn ==> r->Ok_0 == (MachineState { pc: (s.pc + 2) as u16, ..s })
        }),
{
}

/// A machine spinning in the two-instruction program "clear screen, then
/// jump back to the origin": the counter stands at 0x200, every pixel is
/// off, and the program's four bytes sit at the origin.
pub open spec fn spec_clear_jump_inv(s: MachineState) -> bool {
    &&& s.wf()
    &&& s.pc == 0x200
    &&& forall|k: int| 0 <= k < 2048 ==> s.gfx[k] == 0
    &&& s.mem[0x200] == 0x00
    &&& s.mem[0x201] == 0xE0
    &&& s.mem[0x202] == 0x12
    &&& s.mem[0x203] == 0x00
}

/// A freshly built machine loaded with exactly the bytes of that program is
/// in the dark loop.
pub proof fn lemma_clear_jump_start()
    ensures
        spec_clear_jump_inv(
            MachineState {
                mem: spec_load(spec_initial().mem, seq![0x00u8, 0xE0, 0x12, 0x00]),
                ..spec_initial()
            },
        ),
{
}

/// In the dark loop, one step clears the already-dark screen and the next
/// jumps back: two steps return the machine to exactly its prior state.
proof fn lemma_clear_jump_two_steps(s: MachineState, r1: u8, r2: u8)
    requires
        spec_clear_jump_inv(s),
    ensures
        ({
            let m = spec_step(s, r1);
            &&& m is Ok
            &&& spec_step(m->Ok_0, r2) == Ok::<MachineState, Fault>(s)
        }),
{
    reveal(spec_step);
    assert(Chip8::spec_fetch(s) == 0x00E0);
    let m = spec_step(s, r1)->Ok_0;
    assert(m.gfx =~= s.gfx);
    assert(m =~= (MachineState { pc: 0x202, ..s }));
    assert(Chip8::spec_fetch(m) == 0x1200);
    assert(spec_step(m, r2)->Ok_0 =~= s);
}

/// Any even number of steps in the dark loop returns the machine to its
/// exact prior state.
proof fn lemma_clear_jump_run(s: MachineState, rs: Seq<u8>)
    requires
        spec_clear_jump_inv(s),
        rs.len() % 2 == 0,
    ensures
        spec_run(s, rs) == Ok::<MachineState, Fault>(s),
    decreases rs.len(),
{
    if rs.len() == 0 {
    } else {
        assert(rs.len() >= 2);
        lemma_clear_jump_two_steps(s, rs[0], rs[1]);
        let tail = rs.drop_first();
        assert(tail[0] == rs[1]);
        let m = spec_step(s, rs[0])->Ok_0;
        assert(spec_run(m, tail) == spec_run(s, tail.drop_first()));
        lemma_clear_jump_run(s, tail.drop_first());
    }
}

/// One full engine cycle in the dark loop: the ten steps land back on the
/// very same state and only the timers tick down, so the counter stands at
/// 0x200 and every pixel reads off at the cycle boundary — and the loop
/// state persists, closing the induction over any number of cycles.
pub proof fn lemma_clear_jump_cycle(s: MachineState, rs: Seq<u8>)
    requires
        spec_clear_jump_inv(s),
        rs.len() == 10,
    ensures
        spec_cycle(s, rs) == Ok::<MachineState, Fault>(spec_tick(s)),
        spec_clear_jump_inv(spec_tick(s)),
{
    lemma_clear_jump_run(s, rs);
}

} // verus!
