//! Operation codes. Format 3/4 codes carry their addressing mode in the two low bits,
//! which are zero here; format 2 codes are whole bytes.
//!
//! `CLEAR` is encoded as 0x04 on this machine. `LDX` keeps the same code, but as a
//! format 3/4 instruction it is always assembled with a nonzero mode in the low bits,
//! so the machine never mistakes one for the other.

use vstd::prelude::*;

verus! {

pub const ADD: u8 = 0x18;

pub const ADDR: u8 = 0x90;

pub const AND: u8 = 0x40;

pub const CLEAR: u8 = 0x04;

pub const COMP: u8 = 0x28;

pub const COMPR: u8 = 0xA0;

pub const DIV: u8 = 0x24;

pub const DIVR: u8 = 0x9C;

pub const J: u8 = 0x3C;

pub const JEQ: u8 = 0x30;

pub const JGT: u8 = 0x34;

pub const JLT: u8 = 0x38;

pub const JSUB: u8 = 0x48;

pub const LDA: u8 = 0x00;

pub const LDB: u8 = 0x68;

pub const LDCH: u8 = 0x50;

pub const LDL: u8 = 0x08;

pub const LDS: u8 = 0x6C;

pub const LDT: u8 = 0x74;

pub const LDX: u8 = 0x04;

pub const MUL: u8 = 0x20;

pub const MULR: u8 = 0x98;

pub const OR: u8 = 0x44;

pub const RMO: u8 = 0xAC;

pub const RSUB: u8 = 0x4C;

pub const SHIFTL: u8 = 0xA4;

pub const SHIFTR: u8 = 0xA8;

pub const STA: u8 = 0x0C;

pub const STB: u8 = 0x78;

pub const STCH: u8 = 0x54;

pub const STL: u8 = 0x14;

pub const STS: u8 = 0x7C;

pub const STT: u8 = 0x84;

pub const STX: u8 = 0x10;

pub const SUB: u8 = 0x1C;

pub const SUBR: u8 = 0x94;

pub const TIX: u8 = 0x2C;

pub const TIXR: u8 = 0xB8;

} // verus!
