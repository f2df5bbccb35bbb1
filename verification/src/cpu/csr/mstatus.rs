//! `mstatus` bit fields.
use vstd::prelude::*;

verus! {

pub const SIE: u64 = 0x2;

pub const MIE: u64 = 0x8;

pub const SPIE: u64 = 0x20;

pub const UBE: u64 = 0x40;

pub const MPIE: u64 = 0x80;

pub const SPP: u64 = 0x100;

pub const MPP_MASK: u64 = 0x1800;

pub const MPP_SHIFT: u32 = 11;

pub const FS_MASK: u64 = 0x6000;

pub const FS_SHIFT: u32 = 13;

pub const XS_MASK: u64 = 0x1_8000;

pub const MPRV: u64 = 0x2_0000;

pub const SUM: u64 = 0x4_0000;

pub const MXR: u64 = 0x8_0000;

pub const TVM: u64 = 0x10_0000;

pub const TW: u64 = 0x20_0000;

pub const TSR: u64 = 0x40_0000;

pub const UXL_MASK: u64 = 0x3_0000_0000;

pub const SXL_MASK: u64 = 0xc_0000_0000;

pub const SD: u64 = 0x8000_0000_0000_0000;

/// UXL and SXL both read-only 2 (RV64).
pub const XL_64: u64 = 0xa_0000_0000;

/// Bits software may modify via mstatus writes.
pub const WRITE_MASK: u64 = SIE | MIE | SPIE | MPIE | SPP | MPP_MASK | FS_MASK | MPRV | SUM | MXR
    | TVM | TW | TSR;

/// sstatus view (subset visible/writable from S-mode).
pub const SSTATUS_MASK: u64 = SIE | SPIE | SPP | FS_MASK | XS_MASK | SUM | MXR | UXL_MASK | SD;

pub const SSTATUS_WRITE_MASK: u64 = SIE | SPIE | SPP | FS_MASK | SUM | MXR;

} // verus!
