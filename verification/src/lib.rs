//! A RISC-V (RV64GC) machine core: the hart, its memory system, and the
//! devices of a QEMU `virt`-style board, each with a machine-checked contract.
use vstd::prelude::*;

pub mod bus;
pub mod cpu;
pub mod devices;
pub mod le;
pub mod mmu;
pub mod ram;
pub mod snapshot;
pub mod trap;

verus! {

} // verus!
