use vstd::prelude::*;

use crate::error::Error;

verus! {

/// One decoded 16-bit opcode. Register indices are 4-bit, immediates are the
/// `n` (4-bit), `kk` (8-bit) and `nnn` (12-bit) operand fields.
#[derive(Clone, Copy, Debug, PartialEq, Eq, Structural)]
pub enum Instruction {
    SYS(usize),
    CLS,
    RET,
    JP(usize),
    CALL(usize),
    SEVxKK(usize, u8),
    SNEVxKK(usize, u8),
    SEVxVy(usize, usize),
    LDVxKK(usize, u8),
    ADDVxKK(usize, u8),
    LDVxVy(usize, usize),
    OR(usize, usize),
    AND(usize, usize),
    XOR(usize, usize),
    ADD(usize, usize),
    SUB(usize, usize),
    SHR(usize, usize),
    SUBN(usize, usize),
    SHL(usize, usize),
    SNE(usize, usize),
    LDI(usize),
    JPV0(usize),
    RND(usize, u8),
    DRW(usize, usize, u8),
    SKP(usize),
    SKNP(usize),
    LDVxDT(usize),
    LDVxK(usize),
    LDDTVx(usize),
    LDSTVx(usize),
    ADDIVx(usize),
    LDFVx(usize),
    LDBVx(usize),
    LDIVx(usize),
    LDVxI(usize),
}

/// The unique decoding of a 16-bit word: the top nibble selects the group,
/// and groups 0x0, 0x8, 0xE and 0xF dispatch further on a secondary field.
/// `None` is the illegal-opcode outcome.
pub open spec fn spec_decode(opcode: u16) -> Option<Instruction> {
    let kind = ((opcode & 0xF000) >> 12) as u8;
    let x = ((opcode & 0x0F00) >> 8) as usize;
    let y = ((opcode & 0x00F0) >> 4) as usize;
    let n = (opcode & 0x000F) as u8;
    let kk = (opcode & 0x00FF) as u8;
    let nnn = (opcode & 0x0FFF) as usize;
    match kind {
        0x0 => match nnn {
            0x0E0 => Some(Instruction::CLS),
            0x0EE => Some(Instruction::RET),
            _ => Some(Instruction::SYS(nnn)),
        },
        0x1 => Some(Instruction::JP(nnn)),
        0x2 => Some(Instruction::CALL(nnn)),
        0x3 => Some(Instruction::SEVxKK(x, kk)),
        0x4 => Some(Instruction::SNEVxKK(x, kk)),
        0x5 => Some(Instruction::SEVxVy(x, y)),
        0x6 => Some(Instruction::LDVxKK(x, kk)),
        0x7 => Some(Instruction::ADDVxKK(x, kk)),
        0x8 => match n {
            0x0 => Some(Instruction::LDVxVy(x, y)),
            0x1 => Some(Instruction::OR(x, y)),
            0x2 => Some(Instruction::AND(x, y)),
            0x3 => Some(Instruction::XOR(x, y)),
            0x4 => Some(Instruction::ADD(x, y)),
            0x5 => Some(Instruction::SUB(x, y)),
            0x6 => Some(Instruction::SHR(x, y)),
            0x7 => Some(Instruction::SUBN(x, y)),
            0xE => Some(Instruction::SHL(x, y)),
            _ => None,
        },
        0x9 => Some(Instruction::SNE(x, y)),
        0xA => Some(Instruction::LDI(nnn)),
        0xB => Some(Instruction::JPV0(nnn)),
        0xC => Some(Instruction::RND(x, kk)),
        0xD => Some(Instruction::DRW(x, y, n)),
        0xE => match kk {
            0x9E => Some(Instruction::SKP(x)),
            0xA1 => Some(Instruction::SKNP(x)),
            _ => None,
        },
        0xF => match kk {
            0x07 => Some(Instruction::LDVxDT(x)),
            0x0A => Some(Instruction::LDVxK(x)),
            0x15 => Some(Instruction::LDDTVx(x)),
            0x18 => Some(Instruction::LDSTVx(x)),
            0x1E => Some(Instruction::ADDIVx(x)),
            0x29 => Some(Instruction::LDFVx(x)),
            0x33 => Some(Instruction::LDBVx(x)),
            0x55 => Some(Instruction::LDIVx(x)),
            0x65 => Some(Instruction::LDVxI(x)),
            _ => None,
        },
        _ => None,
    }
}

impl Instruction {
    /// Every operand fits its opcode field: register indices are below 16,
    /// addresses below 4096, and sprite heights below 16. Decoding only ever
    /// produces such instructions.
    pub open spec fn wf(self) -> bool {
        match self {
            Instruction::SYS(nnn) => nnn < 4096,
            Instruction::CLS => true,
            Instruction::RET => true,
            Instruction::JP(nnn) => nnn < 4096,
            Instruction::CALL(nnn) => nnn < 4096,
            Instruction::SEVxKK(x, _) => x < 16,
            Instruction::SNEVxKK(x, _) => x < 16,
            Instruction::SEVxVy(x, y) => x < 16 && y < 16,
            Instruction::LDVxKK(x, _) => x < 16,
            Instruction::ADDVxKK(x, _) => x < 16,
            Instruction::LDVxVy(x, y) => x < 16 && y < 16,
            Instruction::OR(x, y) => x < 16 && y < 16,
            Instruction::AND(x, y) => x < 16 && y < 16,
            Instruction::XOR(x, y) => x < 16 && y < 16,
            Instruction::ADD(x, y) => x < 16 && y < 16,
            Instruction::SUB(x, y) => x < 16 && y < 16,
            Instruction::SHR(x, y) => x < 16 && y < 16,
            Instruction::SUBN(x, y) => x < 16 && y < 16,
            Instruction::SHL(x, y) => x < 16 && y < 16,
            Instruction::SNE(x, y) => x < 16 && y < 16,
            Instruction::LDI(nnn) => nnn < 4096,
            Instruction::JPV0(nnn) => nnn < 4096,
            Instruction::RND(x, _) => x < 16,
            Instruction::DRW(x, y, n) => x < 16 && y < 16 && n < 16,
            Instruction::SKP(x) => x < 16,
            Instruction::SKNP(x) => x < 16,
            Instruction::LDVxDT(x) => x < 16,
            Instruction::LDVxK(x) => x < 16,
            Instruction::LDDTVx(x) => x < 16,
            Instruction::LDSTVx(x) => x < 16,
            Instruction::ADDIVx(x) => x < 16,
            Instruction::LDFVx(x) => x < 16,
            Instruction::LDBVx(x) => x < 16,
            Instruction::LDIVx(x) => x < 16,
            Instruction::LDVxI(x) => x < 16,
        }
    }

    /// Decoding is pure and total: every 16-bit word yields exactly the one
    /// instruction that `spec_decode` names, or the illegal-opcode error
    /// carrying the word itself.
    pub fn try_from(opcode: u16) -> (r: Result<Instruction, Error>)
        ensures
            r == match spec_decode(opcode) {
                Some(instruction) => Ok::<Instruction, Error>(instruction),
                None => Err::<Instruction, Error>(Error::IllegalOpcode { opcode }),
            },
            r matches Ok(instruction) ==> instruction.wf(),
    {
        let kind = ((opcode & 0xF000) >> 12) as u8;
        let x = ((opcode & 0x0F00) >> 8) as usize;
        let y = ((opcode & 0x00F0) >> 4) as usize;
        let n = (opcode & 0x000F) as u8;
        let kk = (opcode & 0x00FF) as u8;
        let nnn = (opcode & 0x0FFF) as usize;
        proof {
            assert((opcode & 0x0F00) >> 8 < 16 && (opcode & 0x00F0) >> 4 < 16 && (opcode & 0x000F)
                < 16 && (opcode & 0x0FFF) < 4096) by (bit_vector);
        }
        let decoded = match kind {
            0x0 => match nnn {
                0x0E0 => Instruction::CLS,
                0x0EE => Instruction::RET,
                _ => Instruction::SYS(nnn),
            },
            0x1 => Instruction::JP(nnn),
            0x2 => Instruction::CALL(nnn),
            0x3 => Instruction::SEVxKK(x, kk),
            0x4 => Instruction::SNEVxKK(x, kk),
            0x5 => Instruction::SEVxVy(x, y),
            0x6 => Instruction::LDVxKK(x, kk),
            0x7 => Instruction::ADDVxKK(x, kk),
            0x8 => match n {
                0x0 => Instruction::LDVxVy(x, y),
                0x1 => Instruction::OR(x, y),
                0x2 => Instruction::AND(x, y),
                0x3 => Instruction::XOR(x, y),
                0x4 => Instruction::ADD(x, y),
                0x5 => Instruction::SUB(x, y),
                0x6 => Instruction::SHR(x, y),
                0x7 => Instruction::SUBN(x, y),
                0xE => Instruction::SHL(x, y),
                _ => return Err(Error::IllegalOpcode { opcode }),
            },
            0x9 => Instruction::SNE(x, y),
            0xA => Instruction::LDI(nnn),
            0xB => Instruction::JPV0(nnn),
            0xC => Instruction::RND(x, kk),
            0xD => Instruction::DRW(x, y, n),
            0xE => match kk {
                0x9E => Instruction::SKP(x),
                0xA1 => Instruction::SKNP(x),
                _ => return Err(Error::IllegalOpcode { opcode }),
            },
            0xF => match kk {
                0x07 => Instruction::LDVxDT(x),
                0x0A => Instruction::LDVxK(x),
                0x15 => Instruction::LDDTVx(x),
                0x18 => Instruction::LDSTVx(x),
                0x1E => Instruction::ADDIVx(x),
                0x29 => Instruction::LDFVx(x),
                0x33 => Instruction::LDBVx(x),
                0x55 => Instruction::LDIVx(x),
                0x65 => Instruction::LDVxI(x),
                _ => return Err(Error::IllegalOpcode { opcode }),
            },
            _ => return Err(Error::IllegalOpcode { opcode }),
        };
        Ok(decoded)
    }
}

} // verus!
