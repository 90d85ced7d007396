use vstd::prelude::*;

use vstd::arithmetic::div_mod::lemma_mod_add_multiples_vanish;
use vstd::arithmetic::div_mod::lemma_small_mod;

use crate::decode::Instr;
use crate::decode::decode;
use crate::decode::lemma_decode_valid;
use crate::decode::spec_decode;
use crate::keyboard::Keyboard;
use crate::video::Video;

verus! {

/// A fatal condition that halts the machine. No fault is recoverable inside
/// the engine; restarting is the host's business.
#[derive(Clone, Copy, PartialEq, Eq, Structural, Debug)]
pub enum Fault {
    /// The instruction word matches no known family or sub-opcode.
    UnknownOpcode { word: u16, pc: u16 },
    /// A call was made while the stack held its full 16 return addresses.
    StackOverflow { pc: u16 },
    /// A return was executed with an empty stack.
    StackUnderflow { pc: u16 },
    /// An instruction would touch memory outside [0, 0xFFF].
    MemoryBound { pc: u16 },
    /// A program image would run past the end of memory when loaded at 0x200.
    OversizeImage { len: usize },
}

/// The mathematical state of the machine: what every contract of the engine
/// speaks about.
#[verifier::ext_equal]
pub ghost struct MachineState {
    /// 4096 bytes of memory.
    pub mem: Seq<u8>,
    /// The sixteen 8-bit registers V0..VF.
    pub v: Seq<u8>,
    /// The 16-bit index register.
    pub i: u16,
    /// The 16-bit program counter.
    pub pc: u16,
    /// Return addresses, most recent last; at most 16 deep.
    pub stack: Seq<u16>,
    /// The delay timer.
    pub delay: u8,
    /// The sound timer.
    pub sound: u8,
    /// The 2048 frame-buffer cells.
    pub gfx: Seq<u32>,
    /// The latched key, if any.
    pub pressed: Option<u8>,
}

impl MachineState {
    /// Sizes are fixed, the stack respects its bound, and every frame-buffer
    /// cell is either 0 or 255.
    pub open spec fn wf(self) -> bool {
        &&& self.mem.len() == 4096
        &&& self.v.len() == 16
        &&& self.stack.len() <= 16
        &&& self.gfx.len() == 2048
        &&& forall|k: int| 0 <= k < 2048 ==> self.gfx[k] == 0 || self.gfx[k] == 255
    }
}

/// The CHIP-8 machine: memory, registers, program counter, call stack and
/// timers, together with the frame buffer and the input latch.
pub struct Chip8 {
    memory: Vec<u8>,
    v: Vec<u8>,
    i: u16,
    pc: u16,
    stack: Vec<u16>,
    delay_timer: u8,
    sound_timer: u8,
    pub video: Video,
    pub keyboard: Keyboard,
}

impl View for Chip8 {
    type V = MachineState;

    closed spec fn view(&self) -> MachineState {
        MachineState {
            mem: self.memory@,
            v: self.v@,
            i: self.i,
            pc: self.pc,
            stack: self.stack@,
            delay: self.delay_timer,
            sound: self.sound_timer,
            gfx: self.video@,
            pressed: self.keyboard.pressed,
        }
    }
}

/// The built-in hexadecimal font: 16 glyphs of 5 bytes each, glyphs 0-F in
/// order, resident at memory addresses 0x000-0x04F.
pub open spec fn spec_font() -> Seq<u8> {
    seq![
        0xF0u8, 0x90, 0x90, 0x90, 0xF0,  // 0
        0x20, 0x60, 0x20, 0x20, 0x70,  // 1
        0xF0, 0x10, 0xF0, 0x80, 0xF0,  // 2
        0xF0, 0x10, 0xF0, 0x10, 0xF0,  // 3
        0x90, 0x90, 0xF0, 0x10, 0x10,  // 4
        0xF0, 0x80, 0xF0, 0x10, 0xF0,  // 5
        0xF0, 0x80, 0xF0, 0x90, 0xF0,  // 6
        0xF0, 0x10, 0x20, 0x40, 0x40,  // 7
        0xF0, 0x90, 0xF0, 0x90, 0xF0,  // 8
        0xF0, 0x90, 0xF0, 0x10, 0xF0,  // 9
        0xF0, 0x90, 0xF0, 0x90, 0x90,  // A
        0xE0, 0x90, 0xE0, 0x90, 0xE0,  // B
        0xF0, 0x80, 0x80, 0x80, 0xF0,  // C
        0xE0, 0x90, 0x90, 0x90, 0xE0,  // D
        0xF0, 0x80, 0xF0, 0x80, 0xF0,  // E
        0xF0, 0x80, 0xF0, 0x80, 0x80,  // F
    ]
}

/// The state of a freshly built machine: font in low memory, everything else
/// zeroed, program counter at the 0x200 program origin.
pub open spec fn spec_initial() -> MachineState {
    MachineState {
        mem: Seq::new(4096, |k: int| if k < 80 { spec_font()[k] } else { 0u8 }),
        v: Seq::new(16, |k: int| 0u8),
        i: 0,
        pc: 0x200,
        stack: Seq::empty(),
        delay: 0,
        sound: 0,
        gfx: Seq::new(2048, |k: int| 0u32),
        pressed: None,
    }
}

/// Reduction of a mathematical integer to an 8-bit register value, the
/// modulo-256 wrap of every register arithmetic opcode.
pub open spec fn wrap8(n: int) -> u8 {
    (n % 0x100) as u8
}

/// Reduction to a 16-bit value, the wrap of program-counter and
/// index-register arithmetic.
pub open spec fn wrap16(n: int) -> u16 {
    (n % 0x10000) as u16
}

/// The program counter advanced by `k` bytes, wrapping at 16 bits.
pub open spec fn pc_plus(pc: u16, k: int) -> u16 {
    wrap16(pc + k)
}

/// Whether bit `j` of a sprite row byte is set, most significant bit first
/// (j = 0 is the leftmost pixel of the row).
pub open spec fn sprite_bit(byte: u8, j: int) -> bool {
    byte & (0x80u8 >> (j as u8)) != 0
}

/// The linear frame-buffer index of pixel (x, y), wrapping modulo the 2048
/// cells of the 64 x 32 grid.
pub open spec fn pix_index(x: int, y: int) -> int {
    (x + 64 * y) % 2048
}

/// One sprite row drawn onto the frame buffer: bits 0..`bits` of `byte` are
/// walked left to right, each set bit toggling its target cell. The second
/// component reports whether any toggled cell was on beforehand.
pub open spec fn spec_draw_row(gfx: Seq<u32>, byte: u8, xc: int, yc: int, bits: int) -> (Seq<
    u32,
>, bool)
    decreases bits,
{
    if bits <= 0 {
        (gfx, false)
    } else {
        let prev = spec_draw_row(gfx, byte, xc, yc, bits - 1);
        let j = bits - 1;
        if sprite_bit(byte, j) {
            let idx = pix_index(xc + j, yc);
            (prev.0.update(idx, prev.0[idx] ^ 255), prev.1 || prev.0[idx] != 0)
        } else {
            prev
        }
    }
}

/// A full sprite drawn onto the frame buffer: rows 0..`rows` are read from
/// memory at `i` upward and drawn top to bottom at (xc, yc) downward. The
/// second component is the collision flag: whether any toggled cell was on
/// before its toggle.
pub open spec fn spec_draw(gfx: Seq<u32>, mem: Seq<u8>, i: int, xc: int, yc: int, rows: int) -> (
    Seq<u32>,
    bool,
)
    decreases rows,
{
    if rows <= 0 {
        (gfx, false)
    } else {
        let prev = spec_draw(gfx, mem, i, xc, yc, rows - 1);
        let r = rows - 1;
        let row = spec_draw_row(prev.0, mem[i + r], xc, yc + r, 8);
        (row.0, prev.1 || row.1)
    }
}

/// The effect of one decoded instruction on the machine state. `rnd` is the
/// byte that the random opcode masks; every other instruction ignores it.
/// A faulting instruction leaves the state untouched.
pub open spec fn spec_exec_instr(s: MachineState, instr: Instr, rnd: u8) -> Result<
    MachineState,
    Fault,
> {
    match instr {
        Instr::ClearScreen => Ok(
            MachineState { gfx: Seq::new(2048, |k: int| 0u32), pc: pc_plus(s.pc, 2), ..s },
        ),
        Instr::Return => if s.stack.len() == 0 {
            Err(Fault::StackUnderflow { pc: s.pc })
        } else {
            Ok(MachineState { pc: pc_plus(s.stack.last(), 2), stack: s.stack.drop_last(), ..s })
        },
        Instr::Jump { nnn } => Ok(MachineState { pc: nnn, ..s }),
        Instr::Call { nnn } => if s.stack.len() >= 16 {
            Err(Fault::StackOverflow { pc: s.pc })
        } else {
            Ok(MachineState { stack: s.stack.push(s.pc), pc: nnn, ..s })
        },
        Instr::SkipEqImm { x, nn } => Ok(
            MachineState {
                pc: pc_plus(s.pc, if s.v[x as int] == nn { 4 } else { 2 }),
                ..s
            },
        ),
        Instr::SkipNeImm { x, nn } => Ok(
            MachineState {
                pc: pc_plus(s.pc, if s.v[x as int] != nn { 4 } else { 2 }),
                ..s
            },
        ),
        Instr::SkipEqReg { x, y } => Ok(
            MachineState {
                pc: pc_plus(s.pc, if s.v[x as int] == s.v[y as int] { 4 } else { 2 }),
                ..s
            },
        ),
        Instr::Nop => Ok(MachineState { pc: pc_plus(s.pc, 2), ..s }),
        Instr::LoadImm { x, nn } => Ok(
            MachineState { v: s.v.update(x as int, nn), pc: pc_plus(s.pc, 2), ..s },
        ),
        Instr::AddImm { x, nn } => Ok(
            MachineState {
                v: s.v.update(x as int, wrap8(s.v[x as int] + nn)),
                pc: pc_plus(s.pc, 2),
                ..s
            },
        ),
        Instr::Copy { x, y } => Ok(
            MachineState { v: s.v.update(x as int, s.v[y as int]), pc: pc_plus(s.pc, 2), ..s },
        ),
        Instr::Or { x, y } => Ok(
            MachineState {
                v: s.v.update(x as int, s.v[x as int] | s.v[y as int]),
                pc: pc_plus(s.pc, 2),
                ..s
            },
        ),
        Instr::And { x, y } => Ok(
            MachineState {
                v: s.v.update(x as int, s.v[x as int] & s.v[y as int]),
                pc: pc_plus(s.pc, 2),
                ..s
            },
        ),
        Instr::Xor { x, y } => Ok(
            MachineState {
                v: s.v.update(x as int, s.v[x as int] ^ s.v[y as int]),
                pc: pc_plus(s.pc, 2),
                ..s
            },
        ),
        Instr::AddReg { x, y } => {
            let sum = s.v[x as int] + s.v[y as int];
            Ok(
                MachineState {
                    v: s.v.update(15, if sum > 255 { 1u8 } else { 0u8 }).update(
                        x as int,
                        wrap8(sum),
                    ),
                    pc: pc_plus(s.pc, 2),
                    ..s
                },
            )
        },
        Instr::SubReg { x, y } => {
            let flag: u8 = if s.v[x as int] >= s.v[y as int] { 1 } else { 0 };
            Ok(
                MachineState {
                    v: s.v.update(15, flag).update(
                        x as int,
                        wrap8(s.v[x as int] - s.v[y as int]),
                    ),
                    pc: pc_plus(s.pc, 2),
                    ..s
                },
            )
        },
        Instr::ShiftRight { x } => {
            let v1 = s.v.update(15, (s.v[x as int] % 2) as u8);
            Ok(
                MachineState {
                    v: v1.update(x as int, (v1[x as int] / 2) as u8),
                    pc: pc_plus(s.pc, 2),
                    ..s
                },
            )
        },
        Instr::SubRev { x, y } => {
            let flag: u8 = if s.v[y as int] >= s.v[x as int] { 1 } else { 0 };
            Ok(
                MachineState {
                    v: s.v.update(15, flag).update(
                        x as int,
                        wrap8(s.v[y as int] - s.v[x as int]),
                    ),
                    pc: pc_plus(s.pc, 2),
                    ..s
                },
            )
        },
        Instr::ShiftLeft { x } => {
            let v1 = s.v.update(15, if s.v[x as int] >= 128 { 1u8 } else { 0u8 });
            Ok(
                MachineState {
                    v: v1.update(x as int, wrap8(v1[x as int] * 2)),
                    pc: pc_plus(s.pc, 2),
                    ..s
                },
            )
        },
        Instr::SkipNeReg { x, y } => Ok(
            MachineState {
                pc: pc_plus(s.pc, if s.v[x as int] != s.v[y as int] { 4 } else { 2 }),
                ..s
            },
        ),
        Instr::SetIndex { nnn } => Ok(MachineState { i: nnn, pc: pc_plus(s.pc, 2), ..s }),
        Instr::JumpIndexed { nnn } => Ok(MachineState { pc: wrap16(nnn + s.v[0]), ..s }),
        Instr::Random { x, nn } => Ok(
            MachineState { v: s.v.update(x as int, rnd & nn), pc: pc_plus(s.pc, 2), ..s },
        ),
        Instr::Draw { x, y, n } => {
            let v1 = s.v.update(15, 0u8);
            let xc = v1[x as int] as int;
            let yc = v1[y as int] as int;
            if n > 0 && s.i + n - 1 > 0xFFF {
                Err(Fault::MemoryBound { pc: s.pc })
            } else {
                let dr = spec_draw(s.gfx, s.mem, s.i as int, xc, yc, n as int);
                Ok(
                    MachineState {
                        gfx: dr.0,
                        v: s.v.update(15, if dr.1 { 1u8 } else { 0u8 }),
                        pc: pc_plus(s.pc, 2),
                        ..s
                    },
                )
            }
        },
        Instr::SkipKey { x } => if s.pressed == Some(s.v[x as int]) {
            Ok(MachineState { pc: pc_plus(s.pc, 4), pressed: None, ..s })
        } else {
            Ok(MachineState { pc: pc_plus(s.pc, 2), ..s })
        },
        Instr::SkipNoKey { x } => Ok(
            MachineState {
                pc: pc_plus(s.pc, if s.pressed != Some(s.v[x as int]) { 4 } else { 2 }),
                ..s
            },
        ),
        Instr::ReadDelay { x } => Ok(
            MachineState { v: s.v.update(x as int, s.delay), pc: pc_plus(s.pc, 2), ..s },
        ),
        Instr::SetDelay { x } => Ok(
            MachineState { delay: s.v[x as int], pc: pc_plus(s.pc, 2), ..s },
        ),
        Instr::SetSound { x } => Ok(
            MachineState { sound: s.v[x as int], pc: pc_plus(s.pc, 2), ..s },
        ),
        Instr::AddIndex { x } => Ok(
            MachineState { i: wrap16(s.i + s.v[x as int]), pc: pc_plus(s.pc, 2), ..s },
        ),
        Instr::FontAddr { x } => Ok(
            MachineState { i: (s.v[x as int] * 5) as u16, pc: pc_plus(s.pc, 2), ..s },
        ),
        Instr::Bcd { x } => if s.i + 2 > 0xFFF {
            Err(Fault::MemoryBound { pc: s.pc })
        } else {
            Ok(
                MachineState {
                    mem: s.mem.update(s.i as int, (s.v[x as int] / 100) as u8).update(
                        s.i + 1,
                        ((s.v[x as int] % 100) / 10) as u8,
                    ).update(s.i + 2, (s.v[x as int] % 10) as u8),
                    pc: pc_plus(s.pc, 2),
                    ..s
                },
            )
        },
        Instr::StoreRegs { x } => if s.i + x > 0xFFF {
            Err(Fault::MemoryBound { pc: s.pc })
        } else {
            Ok(
                MachineState {
                    mem: Seq::new(4096, |k: int|
                        if s.i <= k <= s.i + x {
                            s.v[k - s.i]
                        } else {
                            s.mem[k]
                        }),
                    pc: pc_plus(s.pc, 2),
                    ..s
                },
            )
        },
        Instr::LoadRegs { x } => if s.i + x > 0xFFF {
            Err(Fault::MemoryBound { pc: s.pc })
        } else {
            Ok(
                MachineState {
                    v: Seq::new(16, |k: int|
                        if k <= x {
                            s.mem[s.i + k]
                        } else {
                            s.v[k]
                        }),
                    pc: pc_plus(s.pc, 2),
                    ..s
                },
            )
        },
    }
}

/// The effect of one instruction word: decode, then execute; a word that
/// decodes to nothing is a fatal decode error reported with the word and the
/// program counter at which it was met.
pub open spec fn spec_execute(s: MachineState, w: u16, rnd: u8) -> Result<MachineState, Fault> {
    match spec_decode(w) {
        Some(instr) => spec_exec_instr(s, instr, rnd),
        None => Err(Fault::UnknownOpcode { word: w, pc: s.pc }),
    }
}

/// One fetch-decode-execute step: faults when the program counter leaves no
/// room for a two-byte fetch inside memory, else moves as `spec_execute` on
/// the fetched word.
#[verifier::opaque]
pub open spec fn spec_step(s: MachineState, rnd: u8) -> Result<MachineState, Fault> {
    if s.pc + 1 >= 4096 {
        Err(Fault::MemoryBound { pc: s.pc })
    } else {
        spec_execute(s, Chip8::spec_fetch(s), rnd)
    }
}

/// Both timers decremented by one, saturating at zero.
pub open spec fn spec_tick(s: MachineState) -> MachineState {
    MachineState {
        delay: if s.delay == 0 { 0u8 } else { (s.delay - 1) as u8 },
        sound: if s.sound == 0 { 0u8 } else { (s.sound - 1) as u8 },
        ..s
    }
}

/// A batch of steps, one per entry of `rs` (the random bytes the steps
/// consume, in order), stopping at the first fault.
pub open spec fn spec_run(s: MachineState, rs: Seq<u8>) -> Result<MachineState, Fault>
    decreases rs.len(),
{
    if rs.len() == 0 {
        Ok(s)
    } else {
        match spec_step(s, rs[0]) {
            Ok(s2) => spec_run(s2, rs.drop_first()),
            Err(f) => Err(f),
        }
    }
}

/// One engine cycle: a batch of steps, then — only if the whole batch ran —
/// one saturating decrement of both timers.
pub open spec fn spec_cycle(s: MachineState, rs: Seq<u8>) -> Result<MachineState, Fault> {
    match spec_run(s, rs) {
        Ok(m) => Ok(spec_tick(m)),
        Err(f) => Err(f),
    }
}

/// Running a batch extended by one step runs the batch, then the one step.
pub proof fn lemma_run_snoc(s: MachineState, rs: Seq<u8>, rnd: u8)
    ensures
        spec_run(s, rs.push(rnd)) == (match spec_run(s, rs) {
            Ok(m) => spec_step(m, rnd),
            Err(f) => Err(f),
        }),
    decreases rs.len(),
{
    if rs.len() == 0 {
        assert(rs.push(rnd)[0] == rnd);
        assert(rs.push(rnd).drop_first() =~= Seq::<u8>::empty());
        match spec_step(s, rnd) {
            Ok(s2) => {
                assert(spec_run(s2, Seq::<u8>::empty()) == Ok::<MachineState, Fault>(s2));
            },
            Err(f) => {},
        }
    } else {
        assert(rs.push(rnd)[0] == rs[0]);
        assert(rs.push(rnd).drop_first() =~= rs.drop_first().push(rnd));
        match spec_step(s, rs[0]) {
            Ok(s2) => {
                lemma_run_snoc(s2, rs.drop_first(), rnd);
            },
            Err(f) => {},
        }
    }
}

/// A batch that faults keeps faulting the same way however it is extended.
pub proof fn lemma_run_err_extend(s: MachineState, rs: Seq<u8>, ext: Seq<u8>)
    requires
        spec_run(s, rs) is Err,
    ensures
        spec_run(s, rs + ext) == spec_run(s, rs),
    decreases rs.len(),
{
    if rs.len() == 0 {
        assert(false);
    } else {
        assert((rs + ext)[0] == rs[0]);
        assert((rs + ext).drop_first() =~= rs.drop_first() + ext);
        match spec_step(s, rs[0]) {
            Ok(s2) => {
                lemma_run_err_extend(s2, rs.drop_first(), ext);
            },
            Err(f) => {},
        }
    }
}

/// A batch reaching `cur` whose next step faults makes some full ten-step
/// cycle fault the same way.
proof fn lemma_cycle_err(s0: MachineState, rs: Seq<u8>, rnd: u8, cur: MachineState, f: Fault)
    requires
        rs.len() < 10,
        spec_run(s0, rs) == Ok::<MachineState, Fault>(cur),
        spec_step(cur, rnd) == Err::<MachineState, Fault>(f),
    ensures
        exists|rs10: Seq<u8>|
            rs10.len() == 10 && spec_cycle(s0, rs10) == Err::<MachineState, Fault>(f),
{
    lemma_run_snoc(s0, rs, rnd);
    let rs_err = rs.push(rnd);
    let pad = Seq::new((10 - rs_err.len()) as nat, |q: int| 0u8);
    lemma_run_err_extend(s0, rs_err, pad);
    assert((rs_err + pad).len() == 10);
    assert(spec_cycle(s0, rs_err + pad) == Err::<MachineState, Fault>(f));
}

/// Memory after a program image is written verbatim at origin 0x200.
pub open spec fn spec_load(mem: Seq<u8>, image: Seq<u8>) -> Seq<u8> {
    Seq::new(4096, |k: int|
        if 0x200 <= k < 0x200 + image.len() {
            image[k - 0x200]
        } else {
            mem[k]
        })
}

/// 16-bit addition that wraps as `wrap16` states.
fn wrap_add16(a: u16, b: u16) -> (r: u16)
    ensures
        r == wrap16(a + b),
{
    let r = a.wrapping_add(b);
    proof {
        if a + b > 0xFFFF {
            lemma_mod_add_multiples_vanish(a + b - 0x10000, 0x10000);
            lemma_small_mod((a + b - 0x10000) as nat, 0x10000nat);
        } else {
            lemma_small_mod((a + b) as nat, 0x10000nat);
        }
    }
    r
}

/// 8-bit addition that wraps as `wrap8` states.
fn wrap_add8(a: u8, b: u8) -> (r: u8)
    ensures
        r == wrap8(a + b),
{
    let r = a.wrapping_add(b);
    proof {
        if a + b > 0xFF {
            lemma_mod_add_multiples_vanish(a + b - 0x100, 0x100);
            lemma_small_mod((a + b - 0x100) as nat, 0x100nat);
        } else {
            lemma_small_mod((a + b) as nat, 0x100nat);
        }
    }
    r
}

/// 8-bit subtraction that wraps as `wrap8` states (Euclidean remainder).
fn wrap_sub8(a: u8, b: u8) -> (r: u8)
    ensures
        r == wrap8(a - b),
{
    let r = a.wrapping_sub(b);
    proof {
        if a >= b {
            lemma_small_mod((a - b) as nat, 0x100nat);
        } else {
            lemma_mod_add_multiples_vanish(a - b, 0x100);
            lemma_small_mod((a - b + 0x100) as nat, 0x100nat);
        }
    }
    r
}

/// 8-bit doubling that wraps as `wrap8` states.
fn wrap_dbl8(a: u8) -> (r: u8)
    ensures
        r == wrap8(a * 2),
{
    let r = ((a as u16 * 2) % 0x100) as u8;
    proof {
        lemma_small_mod(((a * 2) % 0x100) as nat, 0x100nat);
    }
    r
}

/// Relies on `rand::random::<u8>()` from the rand crate for the random
/// opcode: a byte from the thread-local generator. Nothing is assumed of
/// the value drawn.
#[verifier::external_body]
fn random_byte() -> u8 {
    rand::random::<u8>()
}

/// Builds a vector of `n` copies of `value`.
fn filled_bytes(n: usize, value: u8) -> (v: Vec<u8>)
    ensures
        v@.len() == n,
        forall|k: int| 0 <= k < n ==> v@[k] == value,
{
    let mut v: Vec<u8> = Vec::new();
    while v.len() < n
        invariant
            v@.len() <= n,
            forall|k: int| 0 <= k < v@.len() ==> v@[k] == value,
        decreases n - v@.len(),
    {
        v.push(value);
    }
    v
}

/// The font table as an executable vector.
fn font_table() -> (f: Vec<u8>)
    ensures
        f@ == spec_font(),
{
    let glyphs: [u8; 80] = [
        0xF0, 0x90, 0x90, 0x90, 0xF0, 0x20, 0x60, 0x20, 0x20, 0x70, 0xF0, 0x10, 0xF0, 0x80, 0xF0,
        0xF0, 0x10, 0xF0, 0x10, 0xF0, 0x90, 0x90, 0xF0, 0x10, 0x10, 0xF0, 0x80, 0xF0, 0x10, 0xF0,
        0xF0, 0x80, 0xF0, 0x90, 0xF0, 0xF0, 0x10, 0x20, 0x40, 0x40, 0xF0, 0x90, 0xF0, 0x90, 0xF0,
        0xF0, 0x90, 0xF0, 0x10, 0xF0, 0xF0, 0x90, 0xF0, 0x90, 0x90, 0xE0, 0x90, 0xE0, 0x90, 0xE0,
        0xF0, 0x80, 0x80, 0x80, 0xF0, 0xE0, 0x90, 0x90, 0x90, 0xE0, 0xF0, 0x80, 0xF0, 0x80, 0xF0,
        0xF0, 0x80, 0xF0, 0x80, 0x80,
    ];
    let mut f: Vec<u8> = Vec::new();
    let mut idx: usize = 0;
    while idx < 80
        invariant
            idx <= 80,
            f@.len() == idx,
            forall|k: int| 0 <= k < idx ==> f@[k] == glyphs@[k],
            glyphs@ =~= spec_font(),
        decreases 80 - idx,
    {
        f.push(glyphs[idx]);
        idx += 1;
    }
    proof {
        assert(f@ =~= spec_font());
    }
    f
}

impl Chip8 {
    /// The machine's representation invariant.
    pub open spec fn wf(&self) -> bool {
        self@.wf()
    }

    /// Builds a machine in its initial state: the font in low memory, the
    /// program counter at 0x200, and everything else zeroed.
    pub fn new() -> (c: Chip8)
        ensures
            c.wf(),
            c@ == spec_initial(),
    {
        let mut memory = filled_bytes(4096, 0);
        let font = font_table();
        let mut idx: usize = 0;
        while idx < 80
            invariant
                idx <= 80,
                memory@.len() == 4096,
                font@ == spec_font(),
                forall|k: int| 0 <= k < idx ==> memory@[k] == spec_font()[k],
                forall|k: int| idx <= k < 4096 ==> memory@[k] == 0,
            decreases 80 - idx,
        {
            let b = font[idx];
            memory.set(idx, b);
            idx += 1;
        }
        let c = Chip8 {
            memory,
            v: filled_bytes(16, 0),
            i: 0,
            pc: 0x200,
            stack: Vec::new(),
            delay_timer: 0,
            sound_timer: 0,
            video: Video::new(),
            keyboard: Keyboard::new(),
        };
        proof {
            assert(c@.mem =~= spec_initial().mem);
            assert(c@.v =~= spec_initial().v);
            assert(c@.stack =~= spec_initial().stack);
            assert(c@.gfx =~= spec_initial().gfx);
            assert(c@ =~= spec_initial());
        }
        c
    }

    /// Copies a program image into memory starting at the fixed 0x200
    /// origin; an image that would run past the 4096-byte bound is rejected
    /// whole and the machine is left unchanged.
    pub fn load(&mut self, image: &Vec<u8>) -> (r: Result<(), Fault>)
        requires
            old(self).wf(),
        ensures
            final(self).wf(),
            match r {
                Ok(()) => image@.len() <= 3584 && final(self)@ == (MachineState {
                    mem: spec_load(old(self)@.mem, image@),
                    ..old(self)@
                }),
                Err(f) => {
                    &&& f == (Fault::OversizeImage { len: image@.len() as usize })
                    &&& image@.len() > 3584
                    &&& final(self)@ == old(self)@
                },
            },
    {
        if image.len() > 3584 {
            return Err(Fault::OversizeImage { len: image.len() });
        }
        let mut idx: usize = 0;
        while idx < image.len()
            invariant
                old(self).wf(),
                idx <= image@.len(),
                image@.len() <= 3584,
                self@ == (MachineState { mem: self@.mem, ..old(self)@ }),
                self@.mem.len() == 4096,
                forall|k: int| 0x200 <= k < 0x200 + idx ==> self@.mem[k] == image@[k - 0x200],
                forall|k: int|
                    0 <= k < 4096 && !(0x200 <= k < 0x200 + idx) ==> self@.mem[k] == old(
                        self,
                    )@.mem[k],
            decreases image@.len() - idx,
        {
            let b = image[idx];
            self.memory.set(0x200 + idx, b);
            idx += 1;
        }
        proof {
            assert(self@.mem =~= spec_load(old(self)@.mem, image@));
            assert(self@ =~= (MachineState { mem: spec_load(old(self)@.mem, image@), ..old(self)@ }));
        }
        Ok(())
    }

    /// The instruction word at the program counter: the byte at pc and the
    /// byte after it, combined big-endian.
    pub open spec fn spec_fetch(s: MachineState) -> u16 {
        (s.mem[s.pc as int] * 256 + s.mem[s.pc as int + 1]) as u16
    }

    /// Reads the two bytes at the program counter and combines them
    /// big-endian into one instruction word.
    pub fn fetch(&self) -> (word: u16)
        requires
            self.wf(),
            self@.pc + 1 < 4096,
        ensures
            word == Self::spec_fetch(self@),
            word == ((self@.mem[self@.pc as int] as u16) << 8) | (self@.mem[self@.pc as int
                + 1] as u16),
    {
        let hi = self.memory[self.pc as usize];
        let lo = self.memory[(self.pc + 1) as usize];
        let word = ((hi as u16) << 8) | (lo as u16);
        proof {
            assert(((hi as u16) << 8) | (lo as u16) == hi * 256 + lo) by (bit_vector);
        }
        word
    }

    /// Decodes and executes one instruction word; `rnd` is the byte that the
    /// random opcode masks, and every other opcode ignores it. The machine
    /// moves exactly as `spec_execute` states; a fault leaves it unchanged.
    pub fn execute_with(&mut self, instruction: u16, rnd: u8) -> (r: Result<(), Fault>)
        requires
            old(self).wf(),
        ensures
            final(self).wf(),
            match r {
                Ok(()) => spec_execute(old(self)@, instruction, rnd) == Ok::<
                    MachineState,
                    Fault,
                >(final(self)@),
                Err(f) => spec_execute(old(self)@, instruction, rnd) == Err::<
                    MachineState,
                    Fault,
                >(f) && final(self)@ == old(self)@,
            },
    {
        let instr = match decode(instruction) {
            Some(instr) => instr,
            None => {
                return Err(Fault::UnknownOpcode { word: instruction, pc: self.pc });
            },
        };
        proof {
            lemma_decode_valid(instruction);
        }
        let ghost target = spec_exec_instr(old(self)@, instr, rnd);
        match instr {
            Instr::ClearScreen => {
                self.video.clear_screen();
                self.pc = wrap_add16(self.pc, 2);
                proof {
                    assert(self@.gfx =~= target->Ok_0.gfx);
                    assert(self@ =~= target->Ok_0);
                }
                Ok(())
            },
            Instr::Return => {
                if self.stack.len() == 0 {
                    return Err(Fault::StackUnderflow { pc: self.pc });
                }
                let addr = self.stack.pop().unwrap();
                self.pc = wrap_add16(addr, 2);
                proof {
                    assert(self@ =~= target->Ok_0);
                }
                Ok(())
            },
            Instr::Jump { nnn } => {
                self.pc = nnn;
                proof {
                    assert(self@ =~= target->Ok_0);
                }
                Ok(())
            },
            Instr::Call { nnn } => {
                if self.stack.len() >= 16 {
                    return Err(Fault::StackOverflow { pc: self.pc });
                }
                self.stack.push(self.pc);
                self.pc = nnn;
                proof {
                    assert(self@ =~= target->Ok_0);
                }
                Ok(())
            },
            Instr::SkipEqImm { x, nn } => {
                let vx = self.v[x as usize];
                self.pc = wrap_add16(self.pc, if vx == nn { 4 } else { 2 });
                proof {
                    assert(self@ =~= target->Ok_0);
                }
                Ok(())
            },
            Instr::SkipNeImm { x, nn } => {
                let vx = self.v[x as usize];
                self.pc = wrap_add16(self.pc, if vx != nn { 4 } else { 2 });
                proof {
                    assert(self@ =~= target->Ok_0);
                }
                Ok(())
            },
            Instr::SkipEqReg { x, y } => {
                let vx = self.v[x as usize];
                let vy = self.v[y as usize];
                self.pc = wrap_add16(self.pc, if vx == vy { 4 } else { 2 });
                proof {
                    assert(self@ =~= target->Ok_0);
                }
                Ok(())
            },
            Instr::Nop => {
                self.pc = wrap_add16(self.pc, 2);
                proof {
                    assert(self@ =~= target->Ok_0);
                }
                Ok(())
            },
            Instr::LoadImm { x, nn } => {
                self.v.set(x as usize, nn);
                self.pc = wrap_add16(self.pc, 2);
                proof {
                    assert(self@.v =~= target->Ok_0.v);
                    assert(self@ =~= target->Ok_0);
                }
                Ok(())
            },
            Instr::AddImm { x, nn } => {
                let vx = self.v[x as usize];
                self.v.set(x as usize, wrap_add8(vx, nn));
                self.pc = wrap_add16(self.pc, 2);
                proof {
                    assert(self@.v =~= target->Ok_0.v);
                    assert(self@ =~= target->Ok_0);
                }
                Ok(())
            },
            Instr::Copy { x, y } => {
                let vy = self.v[y as usize];
                self.v.set(x as usize, vy);
                self.pc = wrap_add16(self.pc, 2);
                proof {
                    assert(self@.v =~= target->Ok_0.v);
                    assert(self@ =~= target->Ok_0);
                }
                Ok(())
            },
            Instr::Or { x, y } => {
                let vx = self.v[x as usize];
                let vy = self.v[y as usize];
                self.v.set(x as usize, vx | vy);
                self.pc = wrap_add16(self.pc, 2);
                proof {
                    assert(self@.v =~= target->Ok_0.v);
                    assert(self@ =~= target->Ok_0);
                }
                Ok(())
            },
            Instr::And { x, y } => {
                let vx = self.v[x as usize];
                let vy = self.v[y as usize];
                self.v.set(x as usize, vx & vy);
                self.pc = wrap_add16(self.pc, 2);
                proof {
                    assert(self@.v =~= target->Ok_0.v);
                    assert(self@ =~= target->Ok_0);
                }
                Ok(())
            },
            Instr::Xor { x, y } => {
                let vx = self.v[x as usize];
                let vy = self.v[y as usize];
                self.v.set(x as usize, vx ^ vy);
                self.pc = wrap_add16(self.pc, 2);
                proof {
                    assert(self@.v =~= target->Ok_0.v);
                    assert(self@ =~= target->Ok_0);
                }
                Ok(())
            },
            Instr::AddReg { x, y } => {
                let vx = self.v[x as usize];
                let vy = self.v[y as usize];
                let flag: u8 = if vx as u16 + vy as u16 > 255 {
                    1
                } else {
                    0
                };
                let wrapped = wrap_add8(vx, vy);
                self.v.set(15, flag);
                self.v.set(x as usize, wrapped);
                self.pc = wrap_add16(self.pc, 2);
                proof {
                    assert(self@.v =~= target->Ok_0.v);
                    assert(self@ =~= target->Ok_0);
                }
                Ok(())
            },
            Instr::SubReg { x, y } => {
                let vx = self.v[x as usize];
                let vy = self.v[y as usize];
                let flag: u8 = if vx >= vy {
                    1
                } else {
                    0
                };
                let wrapped = wrap_sub8(vx, vy);
                self.v.set(15, flag);
                self.v.set(x as usize, wrapped);
                self.pc = wrap_add16(self.pc, 2);
                proof {
                    assert(self@.v =~= target->Ok_0.v);
                    assert(self@ =~= target->Ok_0);
                }
                Ok(())
            },
            Instr::ShiftRight { x } => {
                let vx = self.v[x as usize];
                self.v.set(15, vx % 2);
                let cur = self.v[x as usize];
                self.v.set(x as usize, cur / 2);
                self.pc = wrap_add16(self.pc, 2);
                proof {
                    assert(self@.v =~= target->Ok_0.v);
                    assert(self@ =~= target->Ok_0);
                }
                Ok(())
            },
            Instr::SubRev { x, y } => {
                let vx = self.v[x as usize];
                let vy = self.v[y as usize];
                let flag: u8 = if vy >= vx {
                    1
                } else {
                    0
                };
                let wrapped = wrap_sub8(vy, vx);
                self.v.set(15, flag);
                self.v.set(x as usize, wrapped);
                self.pc = wrap_add16(self.pc, 2);
                proof {
                    assert(self@.v =~= target->Ok_0.v);
                    assert(self@ =~= target->Ok_0);
                }
                Ok(())
            },
            Instr::ShiftLeft { x } => {
                let vx = self.v[x as usize];
                self.v.set(15, if vx >= 128 {
                    1
                } else {
                    0
                });
                let cur = self.v[x as usize];
                self.v.set(x as usize, wrap_dbl8(cur));
                self.pc = wrap_add16(self.pc, 2);
                proof {
                    assert(self@.v =~= target->Ok_0.v);
                    assert(self@ =~= target->Ok_0);
                }
                Ok(())
            },
            Instr::SkipNeReg { x, y } => {
                let vx = self.v[x as usize];
                let vy = self.v[y as usize];
                self.pc = wrap_add16(self.pc, if vx != vy { 4 } else { 2 });
                proof {
                    assert(self@ =~= target->Ok_0);
                }
                Ok(())
            },
            Instr::SetIndex { nnn } => {
                self.i = nnn;
                self.pc = wrap_add16(self.pc, 2);
                proof {
                    assert(self@ =~= target->Ok_0);
                }
                Ok(())
            },
            Instr::JumpIndexed { nnn } => {
                let v0 = self.v[0];
                self.pc = wrap_add16(nnn, v0 as u16);
                proof {
                    assert(self@ =~= target->Ok_0);
                }
                Ok(())
            },
            Instr::Random { x, nn } => {
                self.v.set(x as usize, rnd & nn);
                self.pc = wrap_add16(self.pc, 2);
                proof {
                    assert(self@.v =~= target->Ok_0.v);
                    assert(self@ =~= target->Ok_0);
                }
                Ok(())
            },
            Instr::Draw { x, y, n } => {
                let r = self.exec_draw(x, y, n);
                proof {
                    assert(spec_exec_instr(old(self)@, instr, rnd) == spec_exec_instr(
                        old(self)@,
                        Instr::Draw { x, y, n },
                        0,
                    ));
                }
                r
            },
            Instr::SkipKey { x } => {
                let vx = self.v[x as usize];
                if self.keyboard.is_pressed(vx) {
                    self.pc = wrap_add16(self.pc, 4);
                    self.keyboard.clear();
                } else {
                    self.pc = wrap_add16(self.pc, 2);
                }
                proof {
                    assert(self@ =~= target->Ok_0);
                }
                Ok(())
            },
            Instr::SkipNoKey { x } => {
                let vx = self.v[x as usize];
                let hit = self.keyboard.is_pressed(vx);
                self.pc = wrap_add16(self.pc, if !hit { 4 } else { 2 });
                proof {
                    assert(self@ =~= target->Ok_0);
                }
                Ok(())
            },
            Instr::ReadDelay { x } => {
                let d = self.delay_timer;
                self.v.set(x as usize, d);
                self.pc = wrap_add16(self.pc, 2);
                proof {
                    assert(self@.v =~= target->Ok_0.v);
                    assert(self@ =~= target->Ok_0);
                }
                Ok(())
            },
            Instr::SetDelay { x } => {
                self.delay_timer = self.v[x as usize];
                self.pc = wrap_add16(self.pc, 2);
                proof {
                    assert(self@ =~= target->Ok_0);
                }
                Ok(())
            },
            Instr::SetSound { x } => {
                self.sound_timer = self.v[x as usize];
                self.pc = wrap_add16(self.pc, 2);
                proof {
                    assert(self@ =~= target->Ok_0);
                }
                Ok(())
            },
            Instr::AddIndex { x } => {
                let vx = self.v[x as usize];
                self.i = wrap_add16(self.i, vx as u16);
                self.pc = wrap_add16(self.pc, 2);
                proof {
                    assert(self@ =~= target->Ok_0);
                }
                Ok(())
            },
            Instr::FontAddr { x } => {
                let vx = self.v[x as usize];
                self.i = vx as u16 * 5;
                self.pc = wrap_add16(self.pc, 2);
                proof {
                    assert(self@ =~= target->Ok_0);
                }
                Ok(())
            },
            Instr::Bcd { x } => {
                if self.i > 0xFFF - 2 {
                    return Err(Fault::MemoryBound { pc: self.pc });
                }
                let vx = self.v[x as usize];
                let at = self.i as usize;
                self.memory.set(at, vx / 100);
                self.memory.set(at + 1, (vx % 100) / 10);
                self.memory.set(at + 2, vx % 10);
                self.pc = wrap_add16(self.pc, 2);
                proof {
                    assert(self@.mem =~= target->Ok_0.mem);
                    assert(self@ =~= target->Ok_0);
                }
                Ok(())
            },
            Instr::StoreRegs { x } => self.exec_store_regs(x),
            Instr::LoadRegs { x } => self.exec_load_regs(x),
        }
    }

    /// Decodes and executes one instruction word, drawing the byte for the
    /// random opcode from the host generator. Whatever byte came back, the
    /// machine moves as `spec_execute` states for some byte.
    pub fn execute(&mut self, instruction: u16) -> (r: Result<(), Fault>)
        requires
            old(self).wf(),
        ensures
            final(self).wf(),
            match r {
                Ok(()) => exists|rnd: u8|
                    spec_execute(old(self)@, instruction, rnd) == Ok::<MachineState, Fault>(
                        final(self)@,
                    ),
                Err(f) => final(self)@ == old(self)@ && exists|rnd: u8|
                    spec_execute(old(self)@, instruction, rnd) == Err::<MachineState, Fault>(f),
            },
    {
        let rnd = random_byte();
        self.execute_with(instruction, rnd)
    }

    /// One fetch-decode-execute step with `rnd` standing for the byte the
    /// random opcode masks: exactly `spec_step`.
    pub fn step_with(&mut self, rnd: u8) -> (r: Result<(), Fault>)
        requires
            old(self).wf(),
        ensures
            final(self).wf(),
            match r {
                Ok(()) => spec_step(old(self)@, rnd) == Ok::<MachineState, Fault>(final(self)@),
                Err(f) => spec_step(old(self)@, rnd) == Err::<MachineState, Fault>(f)
                    && final(self)@ == old(self)@,
            },
    {
        proof {
            reveal(spec_step);
        }
        if self.pc >= 0xFFF {
            return Err(Fault::MemoryBound { pc: self.pc });
        }
        let word = self.fetch();
        self.execute_with(word, rnd)
    }

    /// One engine cycle: ten fetch-decode-execute steps, then one saturating
    /// decrement of both timers. The first fault stops the batch, leaves the
    /// timers alone and reports the fault; `spec_cycle` says exactly what
    /// held of the batch either way, for some sequence of random bytes.
    #[verifier::rlimit(60)]
    pub fn cycle(&mut self) -> (r: Result<(), Fault>)
        requires
            old(self).wf(),
        ensures
            final(self).wf(),
            match r {
                Ok(()) => exists|rs: Seq<u8>|
                    rs.len() == 10 && spec_cycle(old(self)@, rs) == Ok::<MachineState, Fault>(
                        final(self)@,
                    ),
                Err(f) => {
                    &&& exists|rs: Seq<u8>|
                        rs.len() == 10 && spec_cycle(old(self)@, rs) == Err::<
                            MachineState,
                            Fault,
                        >(f)
                    &&& exists|rs: Seq<u8>|
                        rs.len() < 10 && spec_run(old(self)@, rs) == Ok::<MachineState, Fault>(
                            final(self)@,
                        )
                    &&& exists|rnd: u8|
                        spec_step(final(self)@, rnd) == Err::<MachineState, Fault>(f)
                },
            },
    {
        let ghost s0 = self@;
        let ghost mut rs: Seq<u8> = Seq::empty();
        let mut k: usize = 0;
        while k < 10
            invariant
                self.wf(),
                k <= 10,
                rs.len() == k,
                s0 == old(self)@,
                spec_run(s0, rs) == Ok::<MachineState, Fault>(self@),
            decreases 10 - k,
        {
            let rnd = random_byte();
            match self.step_with(rnd) {
                Ok(()) => {
                    proof {
                        lemma_run_snoc(s0, rs, rnd);
                        rs = rs.push(rnd);
                    }
                },
                Err(f) => {
                    proof {
                        lemma_cycle_err(s0, rs, rnd, self@, f);
                    }
                    return Err(f);
                },
            }
            k += 1;
        }
        let ghost before_tick = self@;
        self.delay_timer = self.delay_timer.saturating_sub(1);
        self.sound_timer = self.sound_timer.saturating_sub(1);
        proof {
            assert(self@ =~= spec_tick(before_tick));
        }
        Ok(())
    }

    /// The current program counter.
    pub fn program_counter(&self) -> (r: u16)
        ensures
            r == self@.pc,
    {
        self.pc
    }

    /// The current index register.
    pub fn index_register(&self) -> (r: u16)
        ensures
            r == self@.i,
    {
        self.i
    }

    /// The current value of register Vx.
    pub fn register(&self, x: u8) -> (r: u8)
        requires
            self.wf(),
            x < 16,
        ensures
            r == self@.v[x as int],
    {
        self.v[x as usize]
    }

    /// The byte at memory address `addr`.
    pub fn memory_at(&self, addr: u16) -> (r: u8)
        requires
            self.wf(),
            addr < 4096,
        ensures
            r == self@.mem[addr as int],
    {
        self.memory[addr as usize]
    }

    /// The current delay timer.
    pub fn delay(&self) -> (r: u8)
        ensures
            r == self@.delay,
    {
        self.delay_timer
    }

    /// The current sound timer.
    pub fn sound(&self) -> (r: u8)
        ensures
            r == self@.sound,
    {
        self.sound_timer
    }

    /// How many return addresses the call stack holds.
    pub fn stack_depth(&self) -> (r: usize)
        ensures
            r == self@.stack.len(),
    {
        self.stack.len()
    }

    /// Copies V0..=Vx into memory at the index register, as the register
    /// block store opcode demands; the index register itself is untouched.
    fn exec_store_regs(&mut self, x: u8) -> (r: Result<(), Fault>)
        requires
            old(self).wf(),
            x < 16,
        ensures
            final(self).wf(),
            match r {
                Ok(()) => spec_exec_instr(old(self)@, Instr::StoreRegs { x }, 0) == Ok::<
                    MachineState,
                    Fault,
                >(final(self)@),
                Err(f) => spec_exec_instr(old(self)@, Instr::StoreRegs { x }, 0) == Err::<
                    MachineState,
                    Fault,
                >(f) && final(self)@ == old(self)@,
            },
    {
        if self.i as usize + x as usize > 0xFFF {
            return Err(Fault::MemoryBound { pc: self.pc });
        }
        let base = self.i as usize;
        let mut idx: usize = 0;
        while idx <= x as usize
            invariant
                old(self).wf(),
                x < 16,
                base == old(self)@.i,
                base + x <= 0xFFF,
                idx <= x + 1,
                self@ == (MachineState { mem: self@.mem, ..old(self)@ }),
                self@.mem.len() == 4096,
                forall|k: int| base <= k < base + idx ==> self@.mem[k] == old(self)@.v[k - base],
                forall|k: int|
                    0 <= k < 4096 && !(base <= k < base + idx) ==> self@.mem[k] == old(
                        self,
                    )@.mem[k],
            decreases x + 1 - idx,
        {
            let b = self.v[idx];
            self.memory.set(base + idx, b);
            idx += 1;
        }
        self.pc = wrap_add16(self.pc, 2);
        proof {
            let target = spec_exec_instr(old(self)@, Instr::StoreRegs { x }, 0);
            assert(self@.mem =~= target->Ok_0.mem);
            assert(self@ =~= target->Ok_0);
        }
        Ok(())
    }

    /// Fills V0..=Vx from memory at the index register, as the register
    /// block load opcode demands; the index register itself is untouched.
    fn exec_load_regs(&mut self, x: u8) -> (r: Result<(), Fault>)
        requires
            old(self).wf(),
            x < 16,
        ensures
            final(self).wf(),
            match r {
                Ok(()) => spec_exec_instr(old(self)@, Instr::LoadRegs { x }, 0) == Ok::<
                    MachineState,
                    Fault,
                >(final(self)@),
                Err(f) => spec_exec_instr(old(self)@, Instr::LoadRegs { x }, 0) == Err::<
                    MachineState,
                    Fault,
                >(f) && final(self)@ == old(self)@,
            },
    {
        if self.i as usize + x as usize > 0xFFF {
            return Err(Fault::MemoryBound { pc: self.pc });
        }
        let base = self.i as usize;
        let mut idx: usize = 0;
        while idx <= x as usize
            invariant
                old(self).wf(),
                x < 16,
                base == old(self)@.i,
                base + x <= 0xFFF,
                idx <= x + 1,
                self@ == (MachineState { v: self@.v, ..old(self)@ }),
                self@.v.len() == 16,
                forall|k: int| 0 <= k < idx ==> self@.v[k] == old(self)@.mem[base + k],
                forall|k: int| idx <= k < 16 ==> self@.v[k] == old(self)@.v[k],
            decreases x + 1 - idx,
        {
            let b = self.memory[base + idx];
            self.v.set(idx, b);
            idx += 1;
        }
        self.pc = wrap_add16(self.pc, 2);
        proof {
            let target = spec_exec_instr(old(self)@, Instr::LoadRegs { x }, 0);
            assert(self@.v =~= target->Ok_0.v);
            assert(self@ =~= target->Ok_0);
        }
        Ok(())
    }

    /// Draws the n-row sprite at the index register to (Vx, Vy): the flag
    /// register is cleared, each set sprite bit toggles its pixel with
    /// wraparound, and the flag register ends 1 exactly when some toggled
    /// pixel was on beforehand.
    fn exec_draw(&mut self, x: u8, y: u8, n: u8) -> (r: Result<(), Fault>)
        requires
            old(self).wf(),
            x < 16,
            y < 16,
            n < 16,
        ensures
            final(self).wf(),
            match r {
                Ok(()) => spec_exec_instr(old(self)@, Instr::Draw { x, y, n }, 0) == Ok::<
                    MachineState,
                    Fault,
                >(final(self)@),
                Err(f) => spec_exec_instr(old(self)@, Instr::Draw { x, y, n }, 0) == Err::<
                    MachineState,
                    Fault,
                >(f) && final(self)@ == old(self)@,
            },
    {
        if n > 0 && self.i as usize + (n as usize - 1) > 0xFFF {
            return Err(Fault::MemoryBound { pc: self.pc });
        }
        self.v.set(15, 0);
        let xc = self.v[x as usize] as usize;
        let yc = self.v[y as usize] as usize;
        let base = self.i as usize;
        let ghost g0 = old(self)@.gfx;
        let ghost m0 = old(self)@.mem;
        let mut collision = false;
        let mut row: usize = 0;
        while row < n as usize
            invariant
                old(self).wf(),
                x < 16,
                y < 16,
                n < 16,
                row <= n,
                base == old(self)@.i,
                n > 0 ==> base + n - 1 <= 0xFFF,
                g0 == old(self)@.gfx,
                m0 == old(self)@.mem,
                xc == old(self)@.v.update(15, 0u8)[x as int],
                yc == old(self)@.v.update(15, 0u8)[y as int],
                self@ == (MachineState {
                    gfx: self@.gfx,
                    v: old(self)@.v.update(15, 0u8),
                    ..old(self)@
                }),
                self.video.wf(),
                self@.gfx == spec_draw(g0, m0, base as int, xc as int, yc as int, row as int).0,
                collision == spec_draw(g0, m0, base as int, xc as int, yc as int, row as int).1,
            decreases n - row,
        {
            let byte = self.memory[base + row];
            let ghost row_start_gfx = self@.gfx;
            let ghost row_start_hit = collision;
            let mut j: usize = 0;
            while j < 8
                invariant
                    j <= 8,
                    x < 16,
                    y < 16,
                    n < 16,
                    row < n,
                    base == old(self)@.i,
                    byte == m0[base + row],
                    xc == old(self)@.v.update(15, 0u8)[x as int],
                    yc == old(self)@.v.update(15, 0u8)[y as int],
                    xc <= 255,
                    yc <= 255,
                    self@ == (MachineState {
                        gfx: self@.gfx,
                        v: old(self)@.v.update(15, 0u8),
                        ..old(self)@
                    }),
                    self.video.wf(),
                    self@.gfx == spec_draw_row(
                        row_start_gfx,
                        byte,
                        xc as int,
                        yc + row,
                        j as int,
                    ).0,
                    collision == (row_start_hit || spec_draw_row(
                        row_start_gfx,
                        byte,
                        xc as int,
                        yc + row,
                        j as int,
                    ).1),
                    row_start_gfx.len() == 2048,
                decreases 8 - j,
            {
                if byte & (0x80u8 >> (j as u8)) != 0 {
                    let idx = self.video.get_index(xc + j, yc + row);
                    proof {
                        assert(idx == pix_index(xc + j, yc + row));
                    }
                    let pixel = self.video.get_pixel(idx);
                    if pixel != 0 {
                        collision = true;
                    }
                    self.video.xor(idx);
                    proof {
                        assert(self@.gfx =~= spec_draw_row(
                            row_start_gfx,
                            byte,
                            xc as int,
                            yc + row,
                            j + 1,
                        ).0);
                    }
                } else {
                    proof {
                        assert(!sprite_bit(byte, j as int));
                    }
                }
                j += 1;
            }
            proof {
                assert(self@.gfx =~= spec_draw(
                    g0,
                    m0,
                    base as int,
                    xc as int,
                    yc as int,
                    row + 1,
                ).0);
            }
            row += 1;
        }
        if collision {
            self.v.set(15, 1);
        }
        self.pc = wrap_add16(self.pc, 2);
        proof {
            let target = spec_exec_instr(old(self)@, Instr::Draw { x, y, n }, 0);
            assert(self@.v =~= target->Ok_0.v);
            assert(self@ =~= target->Ok_0);
        }
        Ok(())
    }
}

} // verus!
