//! Single RV64GC hart: registers, privilege state, fetch/step, traps.
use vstd::prelude::*;

pub mod alu;
pub mod assembly;
pub mod bitmanip;
pub mod coherence;
pub mod csr;
pub mod decode;
pub mod decode_cache;
pub mod execute;
pub mod fpu;
pub mod memory;
pub mod state;
pub mod step;
pub mod traps;

use crate::mmu::{Mmu, MmuState};
use csr::{mstatus, CsrFile};
use decode_cache::{CacheState, DecodeCache};

pub use decode_cache::DecodeCacheStats;
pub use step::StepResult;

verus! {

/// One-entry memo of the last instruction-fetch translation.
///
/// The block cache is keyed on physical addresses, so every block entry has to
/// translate the PC. This makes the repeat case a three-word comparison
/// instead of four CSR reads and a TLB probe.
///
/// Fetch permission depends only on `satp`, the privilege mode, and the PTEs:
/// `mstatus.MXR` and `mstatus.SUM` apply to loads and stores, never to
/// fetches. So the tag needs the virtual page, the mode, and the MMU flush
/// generation, which every `satp` write and `SFENCE.VMA` bumps. This memo is
/// therefore exactly as strong as the TLB it shortcuts: a page-table edit that
/// is not followed by an `SFENCE.VMA` is not guaranteed to be visible to
/// either.
#[derive(Clone, Copy)]
pub struct FetchTranslation {
    pub vpn: u64,
    pub pa_base: u64,
    pub mode: Mode,
    pub mmu_generation: u64,
}

/// Privilege modes.
#[derive(Debug, Clone, Copy, PartialEq, Eq, PartialOrd, Structural)]
pub enum Mode {
    User,
    Supervisor,
    Machine,
}

/// The mode a two-bit field selects. Fails closed: only 1 and 3 select
/// elevated privilege, so the reserved encoding 2 can never grant Machine
/// privilege or bypass translation.
pub open spec fn mode_of(v: u64) -> Mode {
    if v == 1 {
        Mode::Supervisor
    } else if v == 3 {
        Mode::Machine
    } else {
        Mode::User
    }
}

impl Mode {
    /// The two-bit encoding, which orders the modes by privilege.
    pub open spec fn level(self) -> u16 {
        match self {
            Mode::User => 0,
            Mode::Supervisor => 1,
            Mode::Machine => 3,
        }
    }

    /// The two-bit encoding of a mode.
    pub fn rank(self) -> (r: u16)
        ensures
            r == self.level(),
    {
        match self {
            Mode::User => 0,
            Mode::Supervisor => 1,
            Mode::Machine => 3,
        }
    }

    pub fn from_bits(v: u64) -> (r: Mode)
        ensures
            r == mode_of(v),
    {
        // Fail closed: only 1 and 3 select elevated privilege. The reserved
        // MPP/SPP encoding 2 (and anything unexpected) maps to User so a bad
        // value can never grant Machine privilege / bypass translation.
        match v {
            1 => Mode::Supervisor,
            3 => Mode::Machine,
            _ => Mode::User,
        }
    }
}

pub struct Cpu {
    pub regs: [u64; 32],
    /// FP registers; f32 values are NaN-boxed (upper 32 bits all-ones).
    pub fregs: [u64; 32],
    pub pc: u64,
    /// Set to pc+len before execute; jumps/branches overwrite it.
    pub next_pc: u64,
    pub mode: Mode,
    pub csr: CsrFile,
    pub mmu: Mmu,
    pub decode_cache: DecodeCache,
    pub fetch_translation: Option<FetchTranslation>,
    /// LR/SC reservation (physical address), cleared by stores/traps/SC.
    pub reservation: Option<u64>,
    /// Halted in WFI waiting for an interrupt.
    pub wfi: bool,
}

/// What a [`Cpu`] holds.
#[verifier::ext_equal]
pub struct CpuState {
    pub regs: Seq<u64>,
    pub fregs: Seq<u64>,
    pub pc: u64,
    pub next_pc: u64,
    pub mode: Mode,
    pub csr: CsrFile,
    pub mmu: MmuState,
    pub cache: CacheState,
    pub fetch_translation: Option<FetchTranslation>,
    pub reservation: Option<u64>,
    pub wfi: bool,
}

impl View for Cpu {
    type V = CpuState;

    open spec fn view(&self) -> CpuState {
        CpuState {
            regs: self.regs@,
            fregs: self.fregs@,
            pc: self.pc,
            next_pc: self.next_pc,
            mode: self.mode,
            csr: self.csr,
            mmu: self.mmu@,
            cache: self.decode_cache@,
            fetch_translation: self.fetch_translation,
            reservation: self.reservation,
            wfi: self.wfi,
        }
    }
}

impl CpuState {
    pub open spec fn wf(self) -> bool {
        &&& self.regs.len() == 32
        &&& self.fregs.len() == 32
        &&& self.mmu.wf()
        &&& self.cache.wf()
        &&& match self.fetch_translation {
            Some(memo) => memo.pa_base % 0x1000 == 0,
            None => true,
        }
    }

    /// The state with an integer register written; x0 ignores writes.
    pub open spec fn with_reg(self, r: usize, v: u64) -> CpuState {
        if r == 0 {
            self
        } else {
            CpuState { regs: self.regs.update(r as int, v), ..self }
        }
    }

    pub open spec fn status(self, bit: u64) -> bool {
        self.csr.word(csr::MSTATUS) & bit != 0
    }

    /// Effective privilege for data accesses (honors mstatus.MPRV).
    pub open spec fn data_mode(self) -> Mode {
        if self.status(mstatus::MPRV) {
            mode_of((self.csr.loaded(csr::MSTATUS) / 0x800 % 4) as u64)
        } else {
            self.mode
        }
    }
}

impl CpuState {
    /// The hart out of reset: machine mode at address 0, everything else
    /// cleared.
    pub open spec fn at_reset(self) -> bool {
        &&& self.regs == Seq::new(32, |i: int| 0u64)
        &&& self.fregs == Seq::new(32, |i: int| 0u64)
        &&& self.pc == 0
        &&& self.next_pc == 0
        &&& self.mode == Mode::Machine
        &&& self.csr.at_reset()
        &&& self.mmu == MmuState::fresh()
        &&& self.cache.at_reset()
        &&& self.fetch_translation is None
        &&& self.reservation is None
        &&& !self.wfi
    }
}

impl Cpu {
    pub fn new() -> (r: Self)
        ensures
            r@.wf(),
            r@.at_reset(),
    {
        let r = Cpu {
            regs: [0; 32],
            fregs: [0; 32],
            pc: 0,
            next_pc: 0,
            mode: Mode::Machine,
            csr: CsrFile::new(),
            mmu: Mmu::new(),
            decode_cache: DecodeCache::new(),
            fetch_translation: None,
            reservation: None,
            wfi: false,
        };
        assert(r.regs@ =~= Seq::new(32, |i: int| 0u64));
        assert(r.fregs@ =~= Seq::new(32, |i: int| 0u64));
        r
    }

    pub fn reg(&self, r: usize) -> (v: u64)
        requires
            r < 32,
        ensures
            v == self@.regs[r as int],
    {
        self.regs[r]
    }

    pub fn set_reg(&mut self, r: usize, v: u64)
        requires
            r < 32,
        ensures
            final(self)@ == old(self)@.with_reg(r, v),
    {
        if r != 0 {
            self.regs[r] = v;
        }
    }

    /// Effective privilege for data accesses (honors mstatus.MPRV).
    pub fn data_mode(&self) -> (r: Mode)
        ensures
            r == self@.data_mode(),
    {
        if self.csr.mstatus_field(mstatus::MPRV) {
            let mpp: u64 = self.csr.load_raw(csr::MSTATUS) / 0x800 % 4;
            Mode::from_bits(mpp)
        } else {
            self.mode
        }
    }

    /// Cumulative decoded-block cache hit/miss counts. Flushes leave the
    /// counters intact.
    pub fn decode_cache_stats(&self) -> (r: DecodeCacheStats)
        ensures
            r == self@.cache.stats,
    {
        self.decode_cache.stats()
    }

    pub fn flush_decode_cache(&mut self)
        requires
            old(self)@.wf(),
        ensures
            final(self)@.wf(),
            final(self)@ == (CpuState { cache: old(self)@.cache.flushed(), ..old(self)@ }),
    {
        self.decode_cache.flush();
    }
}

impl Default for Cpu {
    fn default() -> (r: Self)
        ensures
            r@.wf(),
            r@.at_reset(),
    {
        Self::new()
    }
}

} // verus!
