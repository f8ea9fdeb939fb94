//! Register numbers of the SIC/XE register file.

use vstd::prelude::*;

verus! {

pub const A: usize = 0;

pub const X: usize = 1;

pub const L: usize = 2;

pub const B: usize = 3;

pub const S: usize = 4;

pub const T: usize = 5;

/// The floating-point accumulator, the one 48-bit slot.
pub const F: usize = 6;

pub const PC: usize = 8;

pub const SW: usize = 9;

/// Number of slots in the register file (slot 7 is reserved).
pub const QUANTIDADE: usize = 10;

} // verus!
