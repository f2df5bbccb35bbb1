//! `menvcfg` bit fields.
use vstd::prelude::*;

verus! {

pub const FIOM: u64 = 0x1;

pub const ADUE: u64 = 0x2000_0000_0000_0000;

pub const STCE: u64 = 0x8000_0000_0000_0000;

} // verus!
