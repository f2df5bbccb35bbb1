//! Bit positions in `mip`/`mie`.
use vstd::prelude::*;

verus! {

/// Supervisor software interrupt (bit 1).
pub const SSIP: u64 = 0x002;

/// Machine software interrupt (bit 3).
pub const MSIP: u64 = 0x008;

/// Supervisor timer interrupt (bit 5).
pub const STIP: u64 = 0x020;

/// Machine timer interrupt (bit 7).
pub const MTIP: u64 = 0x080;

/// Supervisor external interrupt (bit 9).
pub const SEIP: u64 = 0x200;

/// Machine external interrupt (bit 11).
pub const MEIP: u64 = 0x800;

} // verus!
