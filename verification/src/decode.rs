use vstd::prelude::*;

verus! {

/// One decoded CHIP-8 instruction. The top nibble of the 16-bit word selects
/// the family; the remaining bits carry an address (`nnn`), an immediate byte
/// (`nn`), a nibble count (`n`) or register indices (`x`, `y`).
#[derive(Clone, Copy, PartialEq, Eq, Structural, Debug)]
pub enum Instr {
    /// 00E0: reset the frame buffer to all-off.
    ClearScreen,
    /// 00EE: pop the call stack into the program counter.
    Return,
    /// 1nnn: jump.
    Jump { nnn: u16 },
    /// 2nnn: call the subroutine at nnn.
    Call { nnn: u16 },
    /// 3xnn: skip the next instruction if Vx == nn.
    SkipEqImm { x: u8, nn: u8 },
    /// 4xnn: skip the next instruction if Vx != nn.
    SkipNeImm { x: u8, nn: u8 },
    /// 5xy0: skip the next instruction if Vx == Vy.
    SkipEqReg { x: u8, y: u8 },
    /// 5xyk / 9xyk with k != 0: ignored.
    Nop,
    /// 6xnn: Vx := nn.
    LoadImm { x: u8, nn: u8 },
    /// 7xnn: Vx := Vx + nn, wrapping, no flag.
    AddImm { x: u8, nn: u8 },
    /// 8xy0: Vx := Vy.
    Copy { x: u8, y: u8 },
    /// 8xy1: Vx := Vx | Vy.
    Or { x: u8, y: u8 },
    /// 8xy2: Vx := Vx & Vy.
    And { x: u8, y: u8 },
    /// 8xy3: Vx := Vx ^ Vy.
    Xor { x: u8, y: u8 },
    /// 8xy4: Vx := Vx + Vy wrapping, VF := carry.
    AddReg { x: u8, y: u8 },
    /// 8xy5: Vx := Vx - Vy wrapping, VF := 1 when no borrow.
    SubReg { x: u8, y: u8 },
    /// 8xy6: VF := Vx & 1, then Vx := Vx >> 1.
    ShiftRight { x: u8 },
    /// 8xy7: Vx := Vy - Vx wrapping, VF := 1 when no borrow.
    SubRev { x: u8, y: u8 },
    /// 8xyE: VF := the most significant bit of Vx (1 or 0), then
    /// Vx := Vx << 1 wrapping.
    ShiftLeft { x: u8 },
    /// 9xy0: skip the next instruction if Vx != Vy.
    SkipNeReg { x: u8, y: u8 },
    /// Annn: I := nnn.
    SetIndex { nnn: u16 },
    /// Bnnn: jump to nnn + V0, wrapping at 16 bits.
    JumpIndexed { nnn: u16 },
    /// Cxnn: Vx := random byte & nn.
    Random { x: u8, nn: u8 },
    /// Dxyn: draw the n-row sprite at memory I to (Vx, Vy).
    Draw { x: u8, y: u8, n: u8 },
    /// Ex9E: skip if the key in Vx is latched; a taken skip clears the latch.
    SkipKey { x: u8 },
    /// ExA1: skip if the key in Vx is not latched.
    SkipNoKey { x: u8 },
    /// Fx07: Vx := delay timer.
    ReadDelay { x: u8 },
    /// Fx15: delay timer := Vx.
    SetDelay { x: u8 },
    /// Fx18: sound timer := Vx.
    SetSound { x: u8 },
    /// Fx1E: I := I + Vx, wrapping at 16 bits, VF untouched.
    AddIndex { x: u8 },
    /// Fx29: I := Vx * 5, the address of the built-in glyph for Vx.
    FontAddr { x: u8 },
    /// Fx33: write the decimal digits of Vx to memory at I, I+1, I+2.
    Bcd { x: u8 },
    /// Fx55: copy V0..=Vx to memory starting at I.
    StoreRegs { x: u8 },
    /// Fx65: fill V0..=Vx from memory starting at I.
    LoadRegs { x: u8 },
}

/// Low 12 bits of an instruction word: a memory address.
pub open spec fn op_nnn(w: u16) -> u16 {
    (w % 0x1000) as u16
}

/// Low 8 bits: an immediate byte.
pub open spec fn op_nn(w: u16) -> u8 {
    (w % 0x100) as u8
}

/// Low 4 bits: a nibble count or sub-opcode.
pub open spec fn op_n(w: u16) -> u8 {
    (w % 0x10) as u8
}

/// Bits 8-11: the first register index.
pub open spec fn op_x(w: u16) -> u8 {
    ((w / 0x100) % 0x10) as u8
}

/// Bits 4-7: the second register index.
pub open spec fn op_y(w: u16) -> u8 {
    ((w / 0x10) % 0x10) as u8
}

/// Top 4 bits: the opcode family.
pub open spec fn op_family(w: u16) -> u16 {
    (w / 0x1000) as u16
}

/// Every operand field of a decoded instruction lies in its range: register
/// indices below 16, addresses below 0x1000, nibble counts below 16.
pub open spec fn instr_valid(instr: Instr) -> bool {
    match instr {
        Instr::ClearScreen => true,
        Instr::Return => true,
        Instr::Jump { nnn } => nnn < 0x1000,
        Instr::Call { nnn } => nnn < 0x1000,
        Instr::SkipEqImm { x, nn } => x < 16,
        Instr::SkipNeImm { x, nn } => x < 16,
        Instr::SkipEqReg { x, y } => x < 16 && y < 16,
        Instr::Nop => true,
        Instr::LoadImm { x, nn } => x < 16,
        Instr::AddImm { x, nn } => x < 16,
        Instr::Copy { x, y } => x < 16 && y < 16,
        Instr::Or { x, y } => x < 16 && y < 16,
        Instr::And { x, y } => x < 16 && y < 16,
        Instr::Xor { x, y } => x < 16 && y < 16,
        Instr::AddReg { x, y } => x < 16 && y < 16,
        Instr::SubReg { x, y } => x < 16 && y < 16,
        Instr::ShiftRight { x } => x < 16,
        Instr::SubRev { x, y } => x < 16 && y < 16,
        Instr::ShiftLeft { x } => x < 16,
        Instr::SkipNeReg { x, y } => x < 16 && y < 16,
        Instr::SetIndex { nnn } => nnn < 0x1000,
        Instr::JumpIndexed { nnn } => nnn < 0x1000,
        Instr::Random { x, nn } => x < 16,
        Instr::Draw { x, y, n } => x < 16 && y < 16 && n < 16,
        Instr::SkipKey { x } => x < 16,
        Instr::SkipNoKey { x } => x < 16,
        Instr::ReadDelay { x } => x < 16,
        Instr::SetDelay { x } => x < 16,
        Instr::SetSound { x } => x < 16,
        Instr::AddIndex { x } => x < 16,
        Instr::FontAddr { x } => x < 16,
        Instr::Bcd { x } => x < 16,
        Instr::StoreRegs { x } => x < 16,
        Instr::LoadRegs { x } => x < 16,
    }
}

/// The decode table: maps an instruction word to its instruction, or to
/// nothing when the word matches no known family or sub-opcode.
pub open spec fn spec_decode(w: u16) -> Option<Instr> {
    let nnn = op_nnn(w);
    let nn = op_nn(w);
    let n = op_n(w);
    let x = op_x(w);
    let y = op_y(w);
    if op_family(w) == 0x0 {
        if nnn == 0x0E0 {
            Some(Instr::ClearScreen)
        } else if nnn == 0x0EE {
            Some(Instr::Return)
        } else {
            None
        }
    } else if op_family(w) == 0x1 {
        Some(Instr::Jump { nnn })
    } else if op_family(w) == 0x2 {
        Some(Instr::Call { nnn })
    } else if op_family(w) == 0x3 {
        Some(Instr::SkipEqImm { x, nn })
    } else if op_family(w) == 0x4 {
        Some(Instr::SkipNeImm { x, nn })
    } else if op_family(w) == 0x5 {
        if n == 0x0 {
            Some(Instr::SkipEqReg { x, y })
        } else {
            Some(Instr::Nop)
        }
    } else if op_family(w) == 0x6 {
        Some(Instr::LoadImm { x, nn })
    } else if op_family(w) == 0x7 {
        Some(Instr::AddImm { x, nn })
    } else if op_family(w) == 0x8 {
        if n == 0x0 {
            Some(Instr::Copy { x, y })
        } else if n == 0x1 {
            Some(Instr::Or { x, y })
        } else if n == 0x2 {
            Some(Instr::And { x, y })
        } else if n == 0x3 {
            Some(Instr::Xor { x, y })
        } else if n == 0x4 {
            Some(Instr::AddReg { x, y })
        } else if n == 0x5 {
            Some(Instr::SubReg { x, y })
        } else if n == 0x6 {
            Some(Instr::ShiftRight { x })
        } else if n == 0x7 {
            Some(Instr::SubRev { x, y })
        } else if n == 0xE {
            Some(Instr::ShiftLeft { x })
        } else {
            None
        }
    } else if op_family(w) == 0x9 {
        if n == 0x0 {
            Some(Instr::SkipNeReg { x, y })
        } else {
            Some(Instr::Nop)
        }
    } else if op_family(w) == 0xA {
        Some(Instr::SetIndex { nnn })
    } else if op_family(w) == 0xB {
        Some(Instr::JumpIndexed { nnn })
    } else if op_family(w) == 0xC {
        Some(Instr::Random { x, nn })
    } else if op_family(w) == 0xD {
        Some(Instr::Draw { x, y, n })
    } else if op_family(w) == 0xE {
        if nn == 0x9E {
            Some(Instr::SkipKey { x })
        } else if nn == 0xA1 {
            Some(Instr::SkipNoKey { x })
        } else {
            None
        }
    } else {
        if nn == 0x07 {
            Some(Instr::ReadDelay { x })
        } else if nn == 0x15 {
            Some(Instr::SetDelay { x })
        } else if nn == 0x18 {
            Some(Instr::SetSound { x })
        } else if nn == 0x1E {
            Some(Instr::AddIndex { x })
        } else if nn == 0x29 {
            Some(Instr::FontAddr { x })
        } else if nn == 0x33 {
            Some(Instr::Bcd { x })
        } else if nn == 0x55 {
            Some(Instr::StoreRegs { x })
        } else if nn == 0x65 {
            Some(Instr::LoadRegs { x })
        } else {
            None
        }
    }
}

/// Every decoded instruction has operand fields in range.
pub proof fn lemma_decode_valid(w: u16)
    ensures
        spec_decode(w) matches Some(instr) ==> instr_valid(instr),
{
}

/// Splits an instruction word into its fields and selects the instruction,
/// exactly as `spec_decode` states; `None` is a fatal decode error.
pub fn decode(w: u16) -> (r: Option<Instr>)
    ensures
        r == spec_decode(w),
{
    let nnn: u16 = w % 0x1000;
    let nn: u8 = (w % 0x100) as u8;
    let n: u8 = (w % 0x10) as u8;
    let x: u8 = ((w / 0x100) % 0x10) as u8;
    let y: u8 = ((w / 0x10) % 0x10) as u8;
    match w / 0x1000 {
        0x0 => {
            if nnn == 0x0E0 {
                Some(Instr::ClearScreen)
            } else if nnn == 0x0EE {
                Some(Instr::Return)
            } else {
                None
            }
        },
        0x1 => Some(Instr::Jump { nnn }),
        0x2 => Some(Instr::Call { nnn }),
        0x3 => Some(Instr::SkipEqImm { x, nn }),
        0x4 => Some(Instr::SkipNeImm { x, nn }),
        0x5 => if n == 0x0 {
            Some(Instr::SkipEqReg { x, y })
        } else {
            Some(Instr::Nop)
        },
        0x6 => Some(Instr::LoadImm { x, nn }),
        0x7 => Some(Instr::AddImm { x, nn }),
        0x8 => {
            match n {
                0x0 => Some(Instr::Copy { x, y }),
                0x1 => Some(Instr::Or { x, y }),
                0x2 => Some(Instr::And { x, y }),
                0x3 => Some(Instr::Xor { x, y }),
                0x4 => Some(Instr::AddReg { x, y }),
                0x5 => Some(Instr::SubReg { x, y }),
                0x6 => Some(Instr::ShiftRight { x }),
                0x7 => Some(Instr::SubRev { x, y }),
                0xE => Some(Instr::ShiftLeft { x }),
                _ => None,
            }
        },
        0x9 => if n == 0x0 {
            Some(Instr::SkipNeReg { x, y })
        } else {
            Some(Instr::Nop)
        },
        0xA => Some(Instr::SetIndex { nnn }),
        0xB => Some(Instr::JumpIndexed { nnn }),
        0xC => Some(Instr::Random { x, nn }),
        0xD => Some(Instr::Draw { x, y, n }),
        0xE => {
            if nn == 0x9E {
                Some(Instr::SkipKey { x })
            } else if nn == 0xA1 {
                Some(Instr::SkipNoKey { x })
            } else {
                None
            }
        },
        _ => {
            match nn {
                0x07 => Some(Instr::ReadDelay { x }),
                0x15 => Some(Instr::SetDelay { x }),
                0x18 => Some(Instr::SetSound { x }),
                0x1E => Some(Instr::AddIndex { x }),
                0x29 => Some(Instr::FontAddr { x }),
                0x33 => Some(Instr::Bcd { x }),
                0x55 => Some(Instr::StoreRegs { x }),
                0x65 => Some(Instr::LoadRegs { x }),
                _ => None,
            }
        },
    }
}

} // verus!
