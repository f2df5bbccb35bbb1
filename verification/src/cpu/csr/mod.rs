//! CSR file: storage plus the access rules (privilege, WARL masks, views).
//!
//! `read`/`write` implement architectural access (used by CSR instructions)
//! and return `Err(())` for accesses that must raise illegal-instruction;
//! the caller maps that onto `Exception::IllegalInstruction(raw)`.
//! `load_raw`/`store_raw` bypass checks for internal trap machinery.
use vstd::array::spec_array_update;
use vstd::prelude::*;

use super::Mode;
use crate::snapshot::{
    and_bool, and_end, and_section, and_u32, and_u64, and_u64s, enc_bool, enc_section, enc_u32,
    enc_u64, enc_u64s, lemma_enc_u64s_len, lemma_read_bool, lemma_read_section, lemma_read_u32, lemma_read_u64,
    lemma_read_u64s, start, Reader, RestoreError, Writer,
};
use crate::trap::irq;

pub mod menvcfg;
pub mod mstatus;

verus! {

// User FP CSRs

pub const FFLAGS: u16 = 0x001;

pub const FRM: u16 = 0x002;

pub const FCSR: u16 = 0x003;
// User counters

pub const CYCLE: u16 = 0xC00;

pub const TIME: u16 = 0xC01;

pub const INSTRET: u16 = 0xC02;
// Supervisor

pub const SSTATUS: u16 = 0x100;

pub const SIE: u16 = 0x104;

pub const STVEC: u16 = 0x105;

pub const SCOUNTEREN: u16 = 0x106;

pub const SENVCFG: u16 = 0x10A;

pub const SSCRATCH: u16 = 0x140;

pub const SEPC: u16 = 0x141;

pub const SCAUSE: u16 = 0x142;

pub const STVAL: u16 = 0x143;

pub const SIP: u16 = 0x144;

pub const STIMECMP: u16 = 0x14D;

pub const SATP: u16 = 0x180;
// Machine

pub const MSTATUS: u16 = 0x300;

pub const MISA: u16 = 0x301;

pub const MEDELEG: u16 = 0x302;

pub const MIDELEG: u16 = 0x303;

pub const MIE: u16 = 0x304;

pub const MTVEC: u16 = 0x305;

pub const MCOUNTEREN: u16 = 0x306;

pub const MENVCFG: u16 = 0x30A;

pub const MCOUNTINHIBIT: u16 = 0x320;

pub const MSCRATCH: u16 = 0x340;

pub const MEPC: u16 = 0x341;

pub const MCAUSE: u16 = 0x342;

pub const MTVAL: u16 = 0x343;

pub const MIP: u16 = 0x344;

pub const PMPCFG0: u16 = 0x3A0;

pub const PMPADDR0: u16 = 0x3B0;

pub const MCYCLE: u16 = 0xB00;

pub const MINSTRET: u16 = 0xB02;

pub const MVENDORID: u16 = 0xF11;

pub const MARCHID: u16 = 0xF12;

pub const MIMPID: u16 = 0xF13;

pub const MHARTID: u16 = 0xF14;

pub const MCONFIGPTR: u16 = 0xF15;
// Debug trigger CSRs

pub const TSELECT: u16 = 0x7A0;

pub const TDATA1: u16 = 0x7A1;

pub const TDATA2: u16 = 0x7A2;

pub const TDATA3: u16 = 0x7A3;

pub const TINFO: u16 = 0x7A4;

/// FS field values
pub const FS_OFF: u64 = 0;

pub const FS_INITIAL: u64 = 1;

pub const FS_CLEAN: u64 = 2;

pub const FS_DIRTY: u64 = 3;

pub const MIP_WRITE_MASK: u64 = irq::SSIP | irq::STIP | irq::SEIP;

pub const SIP_WRITE_MASK: u64 = irq::SSIP;

pub const MIE_MASK: u64 = irq::SSIP | irq::MSIP | irq::STIP | irq::MTIP | irq::SEIP | irq::MEIP;

pub const MIDELEG_MASK: u64 = 0x222;

// The C extension makes instruction-address-misaligned impossible, and
// ECALL-from-M is never delegatable. Page-fault causes 12, 13, and 15 are.
pub const MEDELEG_MASK: u64 = 0xC_B3FE;

pub const COUNTER_ENABLE_MASK: u64 = 0x7;

/// Cycle and retired-instruction counters.
pub const MCOUNTINHIBIT_MASK: u64 = 0x5;

pub const MENVCFG_MASK: u64 = menvcfg::STCE | menvcfg::ADUE | menvcfg::FIOM;

/// FIOM.
pub const SENVCFG_MASK: u64 = 1;

/// RV64 with the extensions A, C, D, F, I, M and the modes S and U.
pub const MISA_VALUE: u64 = 0x8000_0000_0014_112D;

pub struct CsrFile {
    pub regs: Box<[u64; 4096]>,
    /// Pending bits driven by devices rather than by CSR writes.
    pub device_mip: u64,
    /// Whether the storage-only PMP registers exist.
    pub legacy_pmp_stubs: bool,
    pub cycle: u64,
    pub instret: u64,
}

/// `val` in the bits of `mask`, `old` elsewhere.
pub open spec fn merged(old_val: u64, val: u64, mask: u64) -> u64 {
    (old_val & !mask) | (val & mask)
}

/// `mstatus` with SD derived from FS.
pub open spec fn mstatus_seen(stored: u64) -> u64 {
    if stored & mstatus::FS_MASK == mstatus::FS_MASK {
        stored | mstatus::SD
    } else {
        stored & !mstatus::SD
    }
}

/// `mstatus` after a write of the bits in `mask`: MPP keeps its value where 2
/// was written, UXL and SXL stay 2.
pub open spec fn mstatus_after(stored: u64, val: u64, mask: u64) -> u64 {
    let taken = merged(stored, val, mask);
    let legal = if mask & mstatus::MPP_MASK != 0 && (taken & mstatus::MPP_MASK)
        >> mstatus::MPP_SHIFT == 2 {
        (taken & !mstatus::MPP_MASK) | (stored & mstatus::MPP_MASK)
    } else {
        taken
    };
    (legal & !(mstatus::UXL_MASK | mstatus::SXL_MASK)) | mstatus::XL_64
}

/// Debug trigger registers, hardwired to zero.
pub open spec fn is_trigger(addr: u16) -> bool {
    addr == TSELECT || addr == TDATA1 || addr == TDATA2 || addr == TDATA3 || addr == TINFO
}

/// The identification registers, whose writes are ignored.
pub open spec fn is_identification(addr: u16) -> bool {
    addr == MISA || addr == MVENDORID || addr == MARCHID || addr == MIMPID || addr == MHARTID
        || addr == MCONFIGPTR
}

impl CsrFile {
    /// The stored word behind a CSR number.
    pub open spec fn word(self, addr: u16) -> u64 {
        self.regs@[addr as int]
    }

    /// The file with one stored word replaced.
    pub open spec fn with_word(self, addr: u16, val: u64) -> CsrFile {
        CsrFile { regs: Box::new(spec_array_update(*self.regs, addr as int, val)), ..self }
    }

    pub open spec fn stce(self) -> bool {
        self.word(MENVCFG) & menvcfg::STCE != 0
    }

    /// `mip`: the software bits, without STIP when `stimecmp` drives it, and
    /// the device-driven ones.
    pub open spec fn mip(self) -> u64 {
        (if self.stce() {
            self.word(MIP) & !irq::STIP
        } else {
            self.word(MIP)
        }) | self.device_mip
    }

    /// The value a CSR reads as, leaving permission aside.
    pub open spec fn loaded(self, addr: u16) -> u64 {
        if addr == MCYCLE || addr == CYCLE {
            self.cycle
        } else if addr == MINSTRET || addr == INSTRET {
            self.instret
        } else if is_trigger(addr) {
            0
        } else if addr == MSTATUS {
            mstatus_seen(self.word(MSTATUS))
        } else if addr == SSTATUS {
            mstatus_seen(self.word(MSTATUS)) & mstatus::SSTATUS_MASK
        } else if addr == MIP {
            self.mip()
        } else if addr == SIE {
            self.word(MIE) & self.word(MIDELEG)
        } else if addr == SIP {
            self.mip() & self.word(MIDELEG)
        } else if addr == FFLAGS {
            self.word(FCSR) & 0x1F
        } else if addr == FRM {
            (self.word(FCSR) >> 5) & 7
        } else {
            self.word(addr)
        }
    }

    pub open spec fn with_mip(self, val: u64) -> CsrFile {
        let writable = if self.stce() {
            MIP_WRITE_MASK & !irq::STIP
        } else {
            MIP_WRITE_MASK
        };
        self.with_word(MIP, merged(self.word(MIP), val, writable))
    }

    pub open spec fn with_sip(self, val: u64) -> CsrFile {
        self.with_word(
            MIP,
            merged(self.word(MIP), val, SIP_WRITE_MASK & self.word(MIDELEG)),
        )
    }

    pub open spec fn with_sie(self, val: u64) -> CsrFile {
        let delegated = self.word(MIDELEG);
        self.with_word(MIE, (self.word(MIE) & !delegated) | (val & delegated & MIE_MASK))
    }

    pub open spec fn with_fflags(self, val: u64) -> CsrFile {
        self.with_word(FCSR, (self.word(FCSR) & !0x1F) | (val & 0x1F))
    }

    pub open spec fn with_frm(self, val: u64) -> CsrFile {
        self.with_word(FCSR, (self.word(FCSR) & !0xE0) | ((val & 7) << 5))
    }

    pub open spec fn with_mstatus(self, val: u64, mask: u64) -> CsrFile {
        self.with_word(MSTATUS, mstatus_after(self.word(MSTATUS), val, mask))
    }

    pub open spec fn with_fs_dirty(self) -> CsrFile {
        self.with_word(MSTATUS, self.word(MSTATUS) | mstatus::FS_MASK)
    }

    /// The file after the trap machinery stores to a CSR.
    pub open spec fn stored(self, addr: u16, val: u64) -> CsrFile {
        if addr == MSTATUS {
            self.with_mstatus(val, mstatus::WRITE_MASK)
        } else if addr == SSTATUS {
            self.with_mstatus(val, mstatus::SSTATUS_WRITE_MASK)
        } else if addr == MCYCLE || addr == CYCLE {
            CsrFile { cycle: val, ..self }
        } else if addr == MINSTRET || addr == INSTRET {
            CsrFile { instret: val, ..self }
        } else if is_trigger(addr) {
            self
        } else if addr == MIP {
            self.with_mip(val)
        } else if addr == SIP {
            self.with_sip(val)
        } else if addr == SIE {
            self.with_sie(val)
        } else if addr == FFLAGS {
            self.with_fflags(val)
        } else if addr == FRM {
            self.with_frm(val)
        } else {
            self.with_word(addr, val)
        }
    }

    /// The bits of `val` a plainly masked CSR keeps, if `addr` is one.
    pub open spec fn write_mask(addr: u16) -> Option<u64> {
        if addr == MIE {
            Some(MIE_MASK)
        } else if addr == MEDELEG {
            Some(MEDELEG_MASK)
        } else if addr == MIDELEG {
            Some(MIDELEG_MASK)
        } else if addr == MCOUNTEREN || addr == SCOUNTEREN {
            Some(COUNTER_ENABLE_MASK)
        } else if addr == MCOUNTINHIBIT {
            Some(MCOUNTINHIBIT_MASK)
        } else if addr == MENVCFG {
            Some(MENVCFG_MASK)
        } else if addr == SENVCFG {
            Some(SENVCFG_MASK)
        } else if addr == MEPC || addr == SEPC {
            Some(!1)
        } else {
            None
        }
    }

    /// The file after a permitted CSR-instruction write.
    pub open spec fn written(self, addr: u16, val: u64) -> CsrFile {
        if is_identification(addr) || is_trigger(addr) {
            self
        } else if addr == MSTATUS {
            self.with_mstatus(val, mstatus::WRITE_MASK)
        } else if addr == SSTATUS {
            self.with_mstatus(val, mstatus::SSTATUS_WRITE_MASK)
        } else if addr == MIP {
            self.with_mip(val)
        } else if addr == SIP {
            self.with_sip(val)
        } else if addr == SIE {
            self.with_sie(val)
        } else if addr == MTVEC || addr == STVEC {
            // The mode field takes 0 (direct) or 1 (vectored).
            self.with_word(
                addr,
                if val & 3 > 1 {
                    val & !3
                } else {
                    val
                },
            )
        } else if addr == SATP {
            // Bare (0) and Sv39 (8) are the only modes; others change nothing.
            if val >> 60 == 0 || val >> 60 == 8 {
                self.with_word(SATP, val)
            } else {
                self
            }
        } else if addr == FFLAGS {
            self.with_fflags(val).with_fs_dirty()
        } else if addr == FRM {
            self.with_frm(val).with_fs_dirty()
        } else if addr == FCSR {
            self.with_word(FCSR, val & 0xFF).with_fs_dirty()
        } else if addr == MCYCLE {
            CsrFile { cycle: val, ..self }
        } else if addr == MINSTRET {
            CsrFile { instret: val, ..self }
        } else {
            match Self::write_mask(addr) {
                Some(mask) => self.with_word(addr, val & mask),
                None => self.with_word(addr, val),
            }
        }
    }

    /// Whether this build has the CSR at all.
    pub open spec fn implemented(self, addr: u16) -> bool {
        ||| self.legacy_pmp_stubs && (addr == PMPCFG0 || addr == PMPADDR0)
        ||| addr == FFLAGS || addr == FRM || addr == FCSR
        ||| addr == CYCLE || addr == TIME || addr == INSTRET
        ||| addr == SSTATUS || addr == SIE || addr == STVEC || addr == SCOUNTEREN || addr == SENVCFG
        ||| addr == SSCRATCH || addr == SEPC || addr == SCAUSE || addr == STVAL || addr == SIP
        ||| addr == STIMECMP || addr == SATP
        ||| addr == MSTATUS || addr == MISA || addr == MEDELEG || addr == MIDELEG || addr == MIE
        ||| addr == MTVEC || addr == MCOUNTEREN || addr == MENVCFG || addr == MCOUNTINHIBIT
        ||| addr == MSCRATCH || addr == MEPC || addr == MCAUSE || addr == MTVAL || addr == MIP
        ||| addr == MVENDORID || addr == MARCHID || addr == MIMPID || addr == MHARTID
        ||| addr == MCONFIGPTR || is_trigger(addr) || addr == MCYCLE || addr == MINSTRET
    }

    pub open spec fn fs_field(self) -> u64 {
        (self.word(MSTATUS) & mstatus::FS_MASK) >> mstatus::FS_SHIFT
    }

    /// The bit of a user counter in `mcounteren`/`scounteren`.
    pub open spec fn counter_bit(addr: u16) -> u64 {
        if addr == CYCLE {
            1
        } else if addr == TIME {
            2
        } else {
            4
        }
    }

    /// Whether a CSR instruction in `mode` may read, or write, the CSR.
    pub open spec fn accessible(self, addr: u16, mode: Mode, is_write: bool) -> bool {
        &&& self.implemented(addr)
        // The privilege it takes is encoded in bits 9:8.
        &&& mode.level() >= (addr / 0x100) % 4
        // Read-only where bits 11:10 are both set.
        &&& is_write ==> (addr / 0x400) % 4 != 3
        // TVM: S-mode access to satp traps.
        &&& addr == SATP && mode == Mode::Supervisor ==> self.word(MSTATUS) & mstatus::TVM == 0
        // Sstc grants S-mode access only when both machine-level gates are open.
        &&& addr == STIMECMP && mode != Mode::Machine ==> self.stce() && self.word(MCOUNTEREN) & 2
            != 0
        // FP CSRs are illegal when FS is Off.
        &&& addr == FFLAGS || addr == FRM || addr == FCSR ==> self.fs_field() != FS_OFF
        // User counters are gated by mcounteren, and in U-mode by scounteren too.
        &&& addr == CYCLE || addr == TIME || addr == INSTRET ==> {
            &&& mode != Mode::Machine ==> self.word(MCOUNTEREN) & Self::counter_bit(addr) != 0
            &&& mode == Mode::User ==> self.word(SCOUNTEREN) & Self::counter_bit(addr) != 0
        }
    }

    /// Every register zero, but for `misa`, the fixed fields of `mstatus` and
    /// a timer that never fires.
    pub open spec fn at_reset(self) -> bool {
        &&& forall|i: int|
            0 <= i < 4096 ==> #[trigger] self.regs@[i] == (if i == MISA {
                MISA_VALUE
            } else if i == MSTATUS {
                mstatus::XL_64
            } else if i == STIMECMP {
                u64::MAX
            } else {
                0
            })
        &&& self.device_mip == 0
        &&& !self.legacy_pmp_stubs
        &&& self.cycle == 0
        &&& self.instret == 0
    }

    pub fn new() -> (r: Self)
        ensures
            r.at_reset(),
    {
        let mut regs: Box<[u64; 4096]> = Box::new([0u64; 4096]);
        regs[0x301] = MISA_VALUE;
        // UXL/SXL are read-only 2 (RV64); keep them present in the stored value.
        regs[0x300] = mstatus::XL_64;
        regs[0x14D] = u64::MAX;
        Self { regs, device_mip: 0, legacy_pmp_stubs: false, cycle: 0, instret: 0 }
    }

    /// Expose storage-only PMP CSRs for compatibility system profiles.
    ///
    /// The default profile has zero PMP entries, so these CSRs trap. Legacy
    /// riscv-tests and xv6's machine-mode startup assume PMP is present and
    /// have no architectural way to skip their PMP setup.
    pub fn enable_pmp_stubs(&mut self)
        ensures
            *final(self) == (CsrFile { legacy_pmp_stubs: true, ..*old(self) }),
    {
        self.legacy_pmp_stubs = true;
    }

    fn get(&self, addr: u16) -> (r: u64)
        requires
            addr < 4096,
        ensures
            r == self.word(addr),
    {
        self.regs[addr as usize]
    }

    fn put(&mut self, addr: u16, val: u64)
        requires
            addr < 4096,
        ensures
            *final(self) == old(self).with_word(addr, val),
    {
        self.regs[addr as usize] = val;
    }

    /// Unchecked read of the stored value (trap machinery / devices sync).
    pub fn load_raw(&self, addr: u16) -> (r: u64)
        requires
            addr < 4096,
        ensures
            r == self.loaded(addr),
    {
        match addr {
            MCYCLE | CYCLE => self.cycle,
            MINSTRET | INSTRET => self.instret,
            TSELECT | TDATA1 | TDATA2 | TDATA3 | TINFO => 0,
            MSTATUS => self.mstatus_read(),
            SSTATUS => self.mstatus_read() & mstatus::SSTATUS_MASK,
            MIP => self.mip_value(),
            SIE => self.get(MIE) & self.get(MIDELEG),
            SIP => self.mip_value() & self.get(MIDELEG),
            FFLAGS => self.get(FCSR) & 0x1F,
            FRM => (self.get(FCSR) >> 5) & 7,
            _ => self.get(addr),
        }
    }

    /// Unchecked write (trap machinery). Applies field coercions but no
    /// privilege/legality checks and no FS side effects.
    pub fn store_raw(&mut self, addr: u16, val: u64)
        requires
            addr < 4096,
        ensures
            *final(self) == old(self).stored(addr, val),
    {
        match addr {
            MSTATUS => self.mstatus_write(val, mstatus::WRITE_MASK),
            SSTATUS => self.mstatus_write(val, mstatus::SSTATUS_WRITE_MASK),
            MCYCLE | CYCLE => self.cycle = val,
            MINSTRET | INSTRET => self.instret = val,
            TSELECT | TDATA1 | TDATA2 | TDATA3 | TINFO => {},
            MIP => self.write_mip(val),
            SIP => self.write_sip(val),
            SIE => self.write_sie(val),
            FFLAGS => {
                let f: u64 = self.get(FCSR);
                self.put(FCSR, (f & !0x1F) | (val & 0x1F));
            },
            FRM => {
                let f: u64 = self.get(FCSR);
                self.put(FCSR, (f & !0xE0) | ((val & 7) << 5));
            },
            _ => self.put(addr, val),
        }
    }

    /// Replace the device-driven subset of `mip` without disturbing pending
    /// bits written by software through the CSR.
    pub fn set_device_mip(&mut self, mask: u64, pending: u64)
        ensures
            *final(self) == (CsrFile {
                device_mip: merged(old(self).device_mip, pending, mask),
                ..*old(self)
            }),
    {
        self.device_mip = (self.device_mip & !mask) | (pending & mask);
    }

    fn mip_value(&self) -> (r: u64)
        ensures
            r == self.mip(),
    {
        let stored: u64 = self.get(MIP);
        let software: u64 = if self.stce_enabled() {
            stored & !irq::STIP
        } else {
            stored
        };
        software | self.device_mip
    }

    pub fn stce_enabled(&self) -> (r: bool)
        ensures
            r == self.stce(),
    {
        self.get(MENVCFG) & menvcfg::STCE != 0
    }

    pub fn adue_enabled(&self) -> (r: bool)
        ensures
            r == (self.word(MENVCFG) & menvcfg::ADUE != 0),
    {
        self.get(MENVCFG) & menvcfg::ADUE != 0
    }

    fn write_mip(&mut self, val: u64)
        ensures
            *final(self) == old(self).with_mip(val),
    {
        let writable: u64 = if self.stce_enabled() {
            MIP_WRITE_MASK & !irq::STIP
        } else {
            MIP_WRITE_MASK
        };
        let stored: u64 = self.get(MIP);
        self.put(MIP, (stored & !writable) | (val & writable));
    }

    fn write_sip(&mut self, val: u64)
        ensures
            *final(self) == old(self).with_sip(val),
    {
        let writable: u64 = SIP_WRITE_MASK & self.get(MIDELEG);
        let stored: u64 = self.get(MIP);
        self.put(MIP, (stored & !writable) | (val & writable));
    }

    fn write_sie(&mut self, val: u64)
        ensures
            *final(self) == old(self).with_sie(val),
    {
        let delegated: u64 = self.get(MIDELEG);
        let stored: u64 = self.get(MIE);
        self.put(MIE, (stored & !delegated) | (val & delegated & MIE_MASK));
    }

    fn mstatus_read(&self) -> (r: u64)
        ensures
            r == mstatus_seen(self.word(MSTATUS)),
    {
        let v: u64 = self.get(MSTATUS);
        if (v & mstatus::FS_MASK) == mstatus::FS_MASK {
            v | mstatus::SD
        } else {
            v & !mstatus::SD
        }
    }

    fn mstatus_write(&mut self, val: u64, mask: u64)
        ensures
            *final(self) == old(self).with_mstatus(val, mask),
    {
        let stored: u64 = self.get(MSTATUS);
        let mut new: u64 = (stored & !mask) | (val & mask);
        // MPP is WARL {0,1,3}: coerce 2 -> previous value.
        if mask & mstatus::MPP_MASK != 0 {
            let mpp: u64 = (new & mstatus::MPP_MASK) >> mstatus::MPP_SHIFT;
            if mpp == 2 {
                new = (new & !mstatus::MPP_MASK) | (stored & mstatus::MPP_MASK);
            }
        }
        // UXL/SXL read-only 2.
        new = (new & !(mstatus::UXL_MASK | mstatus::SXL_MASK)) | mstatus::XL_64;
        self.put(MSTATUS, new);
    }

    pub fn fs(&self) -> (r: u64)
        ensures
            r == self.fs_field(),
    {
        (self.get(MSTATUS) & mstatus::FS_MASK) >> mstatus::FS_SHIFT
    }

    pub fn set_fs_dirty(&mut self)
        ensures
            *final(self) == old(self).with_fs_dirty(),
    {
        let stored: u64 = self.get(MSTATUS);
        self.put(MSTATUS, stored | mstatus::FS_MASK);  // 3 = Dirty
    }

    pub fn mstatus_field(&self, bit: u64) -> (r: bool)
        ensures
            r == (self.word(MSTATUS) & bit != 0),
    {
        self.get(MSTATUS) & bit != 0
    }

    /// Checked CSR read for CSR instructions. `mtime` backs the TIME CSR.
    pub fn read(&self, addr: u16, mode: Mode, mtime: u64) -> (r: Result<u64, ()>)
        ensures
            r == (if !self.accessible(addr, mode, false) {
                Err(())
            } else if addr == TIME {
                Ok(mtime)
            } else {
                Ok(self.loaded(addr))
            }),
    {
        if !self.check_access(addr, mode, false) {
            return Err(());
        }
        if addr == TIME {
            Ok(mtime)
        } else {
            Ok(self.load_raw(addr))
        }
    }

    /// Checked CSR write for CSR instructions.
    pub fn write(&mut self, addr: u16, val: u64, mode: Mode) -> (r: Result<(), ()>)
        ensures
            r is Ok <==> old(self).accessible(addr, mode, true),
            r is Ok ==> *final(self) == old(self).written(addr, val),
            r is Err ==> *final(self) == *old(self),
    {
        if !self.check_access(addr, mode, true) {
            return Err(());
        }
        match addr {
            MISA | MVENDORID | MARCHID | MIMPID | MHARTID | MCONFIGPTR => {},  // WARL ignore
            // No triggers are implemented: the selector and data bank are
            // hardwired to zero so software can discover that.
            TSELECT | TDATA1 | TDATA2 | TDATA3 | TINFO => {},
            MSTATUS => self.mstatus_write(val, mstatus::WRITE_MASK),
            SSTATUS => self.mstatus_write(val, mstatus::SSTATUS_WRITE_MASK),
            MIP => self.write_mip(val),
            SIP => self.write_sip(val),
            MIE => self.put(MIE, val & MIE_MASK),
            SIE => self.write_sie(val),
            MEDELEG => self.put(MEDELEG, val & MEDELEG_MASK),
            MIDELEG => self.put(MIDELEG, val & MIDELEG_MASK),
            MCOUNTEREN => self.put(MCOUNTEREN, val & COUNTER_ENABLE_MASK),
            SCOUNTEREN => self.put(SCOUNTEREN, val & COUNTER_ENABLE_MASK),
            MCOUNTINHIBIT => self.put(MCOUNTINHIBIT, val & MCOUNTINHIBIT_MASK),
            MENVCFG => self.put(MENVCFG, val & MENVCFG_MASK),
            SENVCFG => self.put(SENVCFG, val & SENVCFG_MASK),
            MTVEC | STVEC => {
                // mode field WARL: 0 (direct) or 1 (vectored).
                let mode_bits: u64 = val & 3;
                let coerced: u64 = if mode_bits > 1 {
                    val & !3
                } else {
                    val
                };
                self.put(addr, coerced);
            },
            MEPC | SEPC => self.put(addr, val & !1),
            SATP => {
                // Mode WARL: only Bare (0) and Sv39 (8); other writes ignored entirely.
                let m: u64 = val >> 60;
                if m == 0 || m == 8 {
                    // RV64 Sv39's MODE, 16-bit ASID, and 44-bit PPN occupy
                    // the entire CSR, so every bit is writable.
                    self.put(SATP, val);
                }
            },
            FFLAGS => {
                let f: u64 = self.get(FCSR);
                self.put(FCSR, (f & !0x1F) | (val & 0x1F));
                self.set_fs_dirty();
            },
            FRM => {
                let f: u64 = self.get(FCSR);
                self.put(FCSR, (f & !0xE0) | ((val & 7) << 5));
                self.set_fs_dirty();
            },
            FCSR => {
                self.put(FCSR, val & 0xFF);
                self.set_fs_dirty();
            },
            MCYCLE => self.cycle = val,
            MINSTRET => self.instret = val,
            _ => self.put(addr, val),
        }
        Ok(())
    }

    fn check_access(&self, addr: u16, mode: Mode, is_write: bool) -> (r: bool)
        ensures
            r == self.accessible(addr, mode, is_write),
            r ==> addr < 4096,
    {
        proof {
            lemma_address_fields(addr);
        }
        // Privilege encoded in addr bits 9:8.
        let required: u16 = (addr >> 8) & 3;
        if mode.rank() < required {
            return false;
        }
        // Read-only region: top two bits == 0b11.
        if is_write && (addr >> 10) & 3 == 3 {
            return false;
        }
        // TVM: S-mode access to satp traps.
        if addr == SATP && mode == Mode::Supervisor && self.mstatus_field(mstatus::TVM) {
            return false;
        }
        // Sstc grants S-mode access only when both machine-level gates are
        // open. M-mode is always permitted; U-mode already failed the
        // privilege check encoded in the CSR address.
        if addr == STIMECMP && mode != Mode::Machine && (!self.stce_enabled() || self.get(
            MCOUNTEREN,
        ) & 2 == 0) {
            return false;
        }
        // FP CSRs are illegal when FS is Off.
        if (addr == FFLAGS || addr == FRM || addr == FCSR) && self.fs() == FS_OFF {
            return false;
        }
        // User counters gated by mcounteren/scounteren.
        if addr == CYCLE || addr == TIME || addr == INSTRET {
            let bit: u64 = 1u64 << (addr - CYCLE);
            if mode != Mode::Machine && self.get(MCOUNTEREN) & bit == 0 {
                return false;
            }
            if mode == Mode::User && self.get(SCOUNTEREN) & bit == 0 {
                return false;
            }
        }
        self.is_implemented(addr)
    }

    fn is_implemented(&self, addr: u16) -> (r: bool)
        ensures
            r == self.implemented(addr),
    {
        if self.legacy_pmp_stubs && (addr == PMPCFG0 || addr == PMPADDR0) {
            return true;
        }
        match addr {
            FFLAGS | FRM | FCSR | CYCLE | TIME | INSTRET => true,
            SSTATUS | SIE | STVEC | SCOUNTEREN | SENVCFG | SSCRATCH | SEPC | SCAUSE | STVAL => true,
            SIP | STIMECMP | SATP => true,
            MSTATUS | MISA | MEDELEG | MIDELEG | MIE | MTVEC | MCOUNTEREN | MENVCFG => true,
            MCOUNTINHIBIT | MSCRATCH | MEPC | MCAUSE | MTVAL | MIP => true,
            MVENDORID | MARCHID | MIMPID | MHARTID | MCONFIGPTR => true,
            TSELECT | TDATA1 | TDATA2 | TDATA3 | TINFO => true,
            MCYCLE | MINSTRET => true,
            _ => false,
        }
    }
}

proof fn lemma_address_fields(addr: u16)
    by (bit_vector)
    ensures
        (addr >> 8) & 3 == (addr / 0x100) % 4,
        (addr >> 10) & 3 == (addr / 0x400) % 4,
        1u64 << 0u16 == 1,
        1u64 << 1u16 == 2,
        1u64 << 2u16 == 4,
{
}

impl Default for CsrFile {
    fn default() -> (r: Self)
        ensures
            r.at_reset(),
    {
        Self::new()
    }
}

// ---------------------------------------------------------------------------
// State snapshot
// ---------------------------------------------------------------------------

pub const SNAPSHOT_VERSION: u16 = 1;

impl CsrFile {
    /// The snapshot payload: the whole 4096-entry file plus the state that is
    /// not stored in it.
    pub open spec fn encoding(self) -> Seq<u8> {
        enc_u32(4096) + enc_u64s(self.regs@) + enc_u64(self.device_mip) + enc_bool(
            self.legacy_pmp_stubs,
        ) + enc_u64(self.cycle) + enc_u64(self.instret)
    }

    /// The words, the device-driven `mip` levels, whether the compatibility
    /// PMP bank is exposed, and the two counters held by a payload.
    pub open spec fn decoded(payload: Seq<u8>) -> Result<
        (((((), Seq<u64>), u64), bool), u64, u64),
        RestoreError,
    > {
        match and_u32(start(payload)) {
            Err(e) => Err(e),
            Ok(((_, count), rest)) => if count != 4096 {
                Err(RestoreError::CsrSlots { found: count })
            } else {
                match and_end(
                    and_u64(and_u64(and_bool(and_u64(and_u64s(start(rest), 4096))))),
                ) {
                    Err(e) => Err(e),
                    Ok(((a, cycle), instret)) => Ok((a, cycle, instret)),
                }
            },
        }
    }

    /// Serialize the whole 4096-entry file plus the state that is not stored
    /// in it: the device-driven `mip` levels, whether the compatibility PMP
    /// bank is exposed, and the two counters that live outside `regs`.
    ///
    /// The file is written whole rather than as a list of the CSRs this build
    /// implements, so adding a CSR does not silently change what a snapshot
    /// means. Most of it is zero, and the container is compressed.
    pub fn snapshot(&self, out: &mut Writer)
        ensures
            final(out)@ == old(out)@ + enc_section(SNAPSHOT_VERSION, self.encoding()),
    {
        let mut w = Writer::new();
        w.u32(4096);
        w.u64s(self.regs.as_slice());
        w.u64(self.device_mip);
        w.bool(self.legacy_pmp_stubs);
        w.u64(self.cycle);
        w.u64(self.instret);
        proof {
            lemma_encoding_len(*self);
        }
        out.section(SNAPSHOT_VERSION, &w);
    }

    /// Take the state back from a snapshot section. Data that does not parse
    /// leaves the file as it was.
    pub fn restore(&mut self, input: &mut Reader<'_>) -> (r: Result<(), RestoreError>)
        requires
            old(input).wf(),
        ensures
            final(input).wf(),
            match and_section(start(old(input).rest()), SNAPSHOT_VERSION) {
                Err(e) => r == Err::<(), RestoreError>(e) && *final(self) == *old(self),
                Ok(((_, payload), rest)) => final(input).rest() == rest && match Self::decoded(
                    payload,
                ) {
                    Err(e) => r == Err::<(), RestoreError>(e) && *final(self) == *old(self),
                    Ok(((((_, regs), device), stubs), cycle, instret)) => r is Ok
                        && final(self).regs@ == regs && final(self).device_mip == device
                        && final(self).legacy_pmp_stubs == stubs && final(self).cycle == cycle
                        && final(self).instret == instret,
                },
            },
    {
        let mut section = input.section(SNAPSHOT_VERSION)?;
        let count: u32 = section.u32()?;
        if count != 4096 {
            return Err(RestoreError::CsrSlots { found: count });
        }
        let words = section.u64s(4096)?;
        let device_mip: u64 = section.u64()?;
        let legacy_pmp_stubs: bool = section.bool()?;
        let cycle: u64 = section.u64()?;
        let instret: u64 = section.u64()?;
        section.finish()?;
        let mut i: usize = 0;
        while i < 4096
            invariant
                i <= 4096,
                words@.len() == 4096,
                forall|k: int| 0 <= k < i ==> self.regs@[k] == words@[k],
            decreases 4096 - i,
        {
            self.regs[i] = words[i];
            i = i + 1;
        }
        assert(self.regs@ =~= words@);
        self.device_mip = device_mip;
        self.legacy_pmp_stubs = legacy_pmp_stubs;
        self.cycle = cycle;
        self.instret = instret;
        Ok(())
    }
}

proof fn lemma_encoding_len(csr: CsrFile)
    ensures
        csr.encoding().len() == 32797,
{
    lemma_enc_u64s_len(csr.regs@);
    crate::le::lemma_le_bytes_len(4096, 4);
    crate::le::lemma_le_bytes_len(csr.device_mip as nat, 8);
    crate::le::lemma_le_bytes_len(csr.cycle as nat, 8);
    crate::le::lemma_le_bytes_len(csr.instret as nat, 8);
}

/// A snapshot holds the whole file: reading one back gives the state it was
/// taken from.
pub proof fn law_snapshot_round_trip(csr: CsrFile, tail: Seq<u8>)
    ensures
        and_section(start(enc_section(SNAPSHOT_VERSION, csr.encoding()) + tail), SNAPSHOT_VERSION)
            == crate::snapshot::Parsed::<((), Seq<u8>)>::Ok((((), csr.encoding()), tail)),
        CsrFile::decoded(csr.encoding()) == Ok::<_, RestoreError>(
            (
                ((((), csr.regs@), csr.device_mip), csr.legacy_pmp_stubs),
                csr.cycle,
                csr.instret,
            ),
        ),
{
    lemma_encoding_len(csr);
    lemma_read_section((), SNAPSHOT_VERSION, csr.encoding(), tail);
    let t4 = Seq::<u8>::empty();
    let t3 = enc_u64(csr.instret) + t4;
    let t2 = enc_u64(csr.cycle) + t3;
    let t1 = enc_bool(csr.legacy_pmp_stubs) + t2;
    let t0 = enc_u64(csr.device_mip) + t1;
    let t = enc_u64s(csr.regs@) + t0;
    assert(csr.encoding() =~= enc_u32(4096) + t);
    lemma_read_u32((), 4096, t);
    lemma_read_u64s((), csr.regs@, t0);
    let a0 = ((), csr.regs@);
    lemma_read_u64(a0, csr.device_mip, t1);
    let a1 = (a0, csr.device_mip);
    lemma_read_bool(a1, csr.legacy_pmp_stubs, t2);
    let a2 = (a1, csr.legacy_pmp_stubs);
    lemma_read_u64(a2, csr.cycle, t3);
    lemma_read_u64((a2, csr.cycle), csr.instret, t4);
}

// ---------------------------------------------------------------------------
// Laws
// ---------------------------------------------------------------------------

impl CsrFile {
    /// `mstatus` holds only legal values: MPP is not 2, UXL and SXL are 2.
    pub open spec fn legal(self) -> bool {
        &&& (self.word(MSTATUS) & mstatus::MPP_MASK) >> mstatus::MPP_SHIFT != 2
        &&& self.word(MSTATUS) & (mstatus::UXL_MASK | mstatus::SXL_MASK) == mstatus::XL_64
    }
}

proof fn lemma_legal(stored: u64, val: u64, mask: u64)
    by (bit_vector)
    requires
        mask == mstatus::WRITE_MASK || mask == mstatus::SSTATUS_WRITE_MASK,
        (stored & mstatus::MPP_MASK) >> mstatus::MPP_SHIFT != 2,
        stored & (mstatus::UXL_MASK | mstatus::SXL_MASK) == mstatus::XL_64,
    ensures
        (mstatus_after(stored, val, mask) & mstatus::MPP_MASK) >> mstatus::MPP_SHIFT != 2,
        mstatus_after(stored, val, mask) & (mstatus::UXL_MASK | mstatus::SXL_MASK)
            == mstatus::XL_64,
        ((stored | mstatus::FS_MASK) & mstatus::MPP_MASK) >> mstatus::MPP_SHIFT != 2,
        (stored | mstatus::FS_MASK) & (mstatus::UXL_MASK | mstatus::SXL_MASK) == mstatus::XL_64,
        mstatus_after(stored, val, mstatus::SSTATUS_WRITE_MASK) & !mstatus::SSTATUS_WRITE_MASK
            == stored & !mstatus::SSTATUS_WRITE_MASK,
        mstatus_after(stored, val, mstatus::SSTATUS_WRITE_MASK) & mstatus::SSTATUS_WRITE_MASK
            == val & mstatus::SSTATUS_WRITE_MASK,
        mstatus_after(stored, val, mstatus::WRITE_MASK) & !0x7e_79aau64 == stored & !0x7e_79aau64,
        mstatus_after(stored, val, mstatus::WRITE_MASK) & 0x7e_61aa == val & 0x7e_61aa,
        val & 0x1800 != 0x1000 ==> mstatus_after(stored, val, mstatus::WRITE_MASK) & 0x1800 == val
            & 0x1800,
        val & 0x1800 == 0x1000 ==> mstatus_after(stored, val, mstatus::WRITE_MASK) & 0x1800
            == stored & 0x1800,
        mstatus_after(stored, val, mstatus::SSTATUS_WRITE_MASK) & 0xc_6122 == val & 0xc_6122,
        mstatus_after(stored, val, mstatus::SSTATUS_WRITE_MASK) & !0xc_6122u64 == stored
            & !0xc_6122u64,
        (mstatus_seen(stored) & 0x8000_0000_0000_0000 != 0) == (stored & 0x6000 == 0x6000),
        mstatus_seen(stored) & 0x7fff_ffff_ffff_ffff == stored & 0x7fff_ffff_ffff_ffff,
        (mstatus_seen(stored) & mstatus::SSTATUS_MASK) & !0x8000_0003_000d_e122u64 == 0,
        (mstatus_seen(stored) & mstatus::SSTATUS_MASK) & 0x3_000d_e122 == stored & 0x3_000d_e122,
{
}

/// The pieces of masked words.
proof fn lemma_masks(w: u64, v: u64, m: u64)
    by (bit_vector)
    ensures
        ((w & !m) | (v & m)) & m == v & m,
        ((w & !m) | (v & m)) & !m == w & !m,
        (v & m) & !m == 0,
        (v & m) & m == v & m,
        v & !1u64 == v - v % 2,
        v & 3 == v % 4,
        v & !3u64 == v - v % 4,
        v >> 60u64 == v / 0x1000_0000_0000_0000,
        ((w & !0x1fu64) | (v & 0x1f)) & 0x1f == v & 0x1f,
        (((w & !0x1fu64) | (v & 0x1f)) >> 5u64) & 7 == (w >> 5u64) & 7,
        ((w & !0xe0u64) | ((v & 7) << 5u64)) & 0x1f == w & 0x1f,
        (((w & !0xe0u64) | ((v & 7) << 5u64)) >> 5u64) & 7 == v & 7,
        (v & 0xff) & 0x1f == v & 0x1f,
        ((v & 0xff) >> 5u64) & 7 == (v >> 5u64) & 7,
        v & 7 == v % 8,
        v & 0x1f == v % 32,
        v & 0xff == v % 256,
        (w | 0x6000) & 0x6000 == 0x6000,
        (w | 0x6000) & !0x6000u64 == w & !0x6000u64,
        ((w & !m) | (v & m & 0xaaa)) & m & 0xaaa == v & m & 0xaaa,
        ((w & !m) | (v & m & 0xaaa)) & !m == w & !m,
        0x2u64 | 0x8 | 0x20 | 0x80 | 0x200 | 0x800 == 0xaaa,
        0x8000_0000_0000_0000u64 | 0x2000_0000_0000_0000 | 0x1 == 0xa000_0000_0000_0001,
        v & 1 == v % 2,
        0x2u64 | 0x20 | 0x200 == 0x222,
        0x222u64 & !0x20u64 == 0x202,
        ((w & !0x20u64) | v) & v == v,
        (w | v) & v == v,
        ((w & 0x6000) >> 13u32 != 0) == (w & 0x6000 != 0),
{
}

/// No write, by an instruction or by the trap machinery, makes `mstatus`
/// illegal: MPP never becomes the reserved mode, and the register width stays.
pub proof fn law_status_stays_legal(file: CsrFile, addr: u16, val: u64)
    requires
        file.legal(),
        addr < 4096,
    ensures
        file.written(addr, val).legal(),
        file.stored(addr, val).legal(),
        file.with_fs_dirty().legal(),
{
    lemma_legal(file.word(MSTATUS), val, mstatus::WRITE_MASK);
    lemma_legal(file.word(MSTATUS), val, mstatus::SSTATUS_WRITE_MASK);
}

/// `sstatus` is a window on `mstatus`: a write through it takes effect in its
/// own bits and leaves the rest, and `sie` and `sip` show the delegated bits of
/// `mie` and `mip`.
pub proof fn law_supervisor_views(file: CsrFile, val: u64)
    requires
        file.legal(),
    ensures
        file.loaded(SSTATUS) == file.loaded(MSTATUS) & mstatus::SSTATUS_MASK,
        file.written(SSTATUS, val).word(MSTATUS) & !mstatus::SSTATUS_WRITE_MASK == file.word(
            MSTATUS,
        ) & !mstatus::SSTATUS_WRITE_MASK,
        file.written(SSTATUS, val).word(MSTATUS) & mstatus::SSTATUS_WRITE_MASK == val
            & mstatus::SSTATUS_WRITE_MASK,
        file.loaded(SIE) == file.loaded(MIE) & file.loaded(MIDELEG),
        file.loaded(SIP) == file.loaded(MIP) & file.loaded(MIDELEG),
{
    lemma_legal(file.word(MSTATUS), val, mstatus::SSTATUS_WRITE_MASK);
}

/// A CSR instruction in a lower mode reaches no more than one in a higher.
pub proof fn law_access_grows_with_privilege(file: CsrFile, addr: u16, is_write: bool)
    ensures
        file.accessible(addr, Mode::User, is_write) ==> file.accessible(
            addr,
            Mode::Supervisor,
            is_write,
        ),
        file.accessible(addr, Mode::Supervisor, is_write) ==> file.accessible(
            addr,
            Mode::Machine,
            is_write,
        ),
        file.accessible(addr, Mode::User, true) ==> file.accessible(addr, Mode::User, false),
{
}

/// A write to mstatus takes every writable bit, MPP unless the reserved mode
/// is asked for, and no other bit. SD shows whether FS is dirty. sstatus shows
/// and takes only the supervisor's bits.
pub proof fn law_status_writes(file: CsrFile, val: u64)
    requires
        file.legal(),
    ensures
        ({
            let before = file.word(MSTATUS);
            let after = file.written(MSTATUS, val).word(MSTATUS);
            let through = file.written(SSTATUS, val).word(MSTATUS);
            &&& after & !0x7e_79aau64 == before & !0x7e_79aau64
            &&& after & 0x7e_61aa == val & 0x7e_61aa
            &&& after & 0x1800 == if val & 0x1800 == 0x1000 {
                before & 0x1800
            } else {
                val & 0x1800
            }
            &&& through & 0xc_6122 == val & 0xc_6122
            &&& through & !0xc_6122u64 == before & !0xc_6122u64
            &&& (file.loaded(MSTATUS) & 0x8000_0000_0000_0000 != 0) == (before & 0x6000 == 0x6000)
            &&& file.loaded(MSTATUS) & 0x7fff_ffff_ffff_ffff == before & 0x7fff_ffff_ffff_ffff
            &&& file.loaded(SSTATUS) & !0x8000_0003_000d_e122u64 == 0
            &&& file.loaded(SSTATUS) & 0x3_000d_e122 == before & 0x3_000d_e122
        }),
{
    lemma_legal(file.word(MSTATUS), val, mstatus::WRITE_MASK);
    lemma_legal(file.word(MSTATUS), val, mstatus::SSTATUS_WRITE_MASK);
}

/// A CSR without special bits reads back what was written; a masked one keeps
/// the bits it has; the exception program counters stay even; a trap vector
/// keeps a mode it has and falls back to direct.
pub proof fn law_writes_read_back(file: CsrFile, val: u64)
    ensures
        file.written(MSCRATCH, val).loaded(MSCRATCH) == val,
        file.written(SSCRATCH, val).loaded(SSCRATCH) == val,
        file.written(MCAUSE, val).loaded(MCAUSE) == val,
        file.written(SCAUSE, val).loaded(SCAUSE) == val,
        file.written(MTVAL, val).loaded(MTVAL) == val,
        file.written(STVAL, val).loaded(STVAL) == val,
        file.written(STIMECMP, val).loaded(STIMECMP) == val,
        file.written(MCYCLE, val).loaded(CYCLE) == val,
        file.written(MINSTRET, val).loaded(INSTRET) == val,
        file.written(MEPC, val).loaded(MEPC) == val - val % 2,
        file.written(SEPC, val).loaded(SEPC) == val - val % 2,
        file.written(MTVEC, val).loaded(MTVEC) == if val % 4 <= 1 {
            val as int
        } else {
            val - val % 4
        },
        file.written(STVEC, val).loaded(STVEC) == if val % 4 <= 1 {
            val as int
        } else {
            val - val % 4
        },
        file.written(MIE, val).loaded(MIE) == val & 0xaaa,
        file.written(MIDELEG, val).loaded(MIDELEG) == val & 0x222,
        file.written(MEDELEG, val).loaded(MEDELEG) == val & 0xc_b3fe,
        file.written(MCOUNTEREN, val).loaded(MCOUNTEREN) == val % 8,
        file.written(SCOUNTEREN, val).loaded(SCOUNTEREN) == val % 8,
        file.written(MCOUNTINHIBIT, val).loaded(MCOUNTINHIBIT) == val & 5,
        file.written(MENVCFG, val).loaded(MENVCFG) == val & 0xa000_0000_0000_0001,
        file.written(SENVCFG, val).loaded(SENVCFG) == val % 2,
        file.written(MISA, val).loaded(MISA) == file.loaded(MISA),
        file.written(MHARTID, val).loaded(MHARTID) == file.loaded(MHARTID),
        file.written(SATP, val).loaded(SATP) == if val / 0x1000_0000_0000_0000 == 0 || val
            / 0x1000_0000_0000_0000 == 8 {
            val
        } else {
            file.loaded(SATP)
        },
{
    lemma_masks(0, val, 0);
}

/// The flags and the rounding mode are parts of fcsr: each is written without
/// the other, and any write makes the floating-point state dirty.
pub proof fn law_float_status_parts(file: CsrFile, val: u64)
    ensures
        file.written(FFLAGS, val).loaded(FFLAGS) == val % 32,
        file.written(FFLAGS, val).loaded(FRM) == file.loaded(FRM),
        file.written(FRM, val).loaded(FRM) == val % 8,
        file.written(FRM, val).loaded(FFLAGS) == file.loaded(FFLAGS),
        file.written(FCSR, val).loaded(FCSR) == val % 256,
        file.written(FCSR, val).loaded(FFLAGS) == val % 32,
        file.written(FFLAGS, val).word(MSTATUS) & 0x6000 == 0x6000,
        file.written(FRM, val).word(MSTATUS) & 0x6000 == 0x6000,
        file.written(FCSR, val).word(MSTATUS) & 0x6000 == 0x6000,
        file.written(FCSR, val).word(MSTATUS) & !0x6000u64 == file.word(MSTATUS) & !0x6000u64,
{
    lemma_masks(file.word(FCSR), val, 0);
    lemma_masks(file.word(MSTATUS), val, 0);
}

/// Software sets in mip the supervisor's bits alone, and not STIP while
/// stimecmp drives it; through sip only SSIP, and only delegated. sie takes
/// the delegated bits and leaves the others of mie. Bits that devices drive
/// show in mip whatever software writes.
pub proof fn law_interrupt_registers(file: CsrFile, val: u64)
    ensures
        !file.stce() ==> file.written(MIP, val).word(MIP) & 0x222 == val & 0x222,
        file.stce() ==> file.written(MIP, val).word(MIP) & 0x202 == val & 0x202,
        !file.stce() ==> file.written(MIP, val).word(MIP) & !0x222u64 == file.word(MIP)
            & !0x222u64,
        file.stce() ==> file.written(MIP, val).word(MIP) & !0x202u64 == file.word(MIP)
            & !0x202u64,
        file.written(SIP, val).word(MIP) & !(0x2u64 & file.word(MIDELEG)) == file.word(MIP)
            & !(0x2u64 & file.word(MIDELEG)),
        file.written(SIP, val).word(MIP) & (0x2u64 & file.word(MIDELEG)) == val & (0x2u64
            & file.word(MIDELEG)),
        file.written(SIE, val).word(MIE) & !file.word(MIDELEG) == file.word(MIE)
            & !file.word(MIDELEG),
        file.written(SIE, val).word(MIE) & file.word(MIDELEG) & 0xaaa == val & file.word(MIDELEG)
            & 0xaaa,
        file.loaded(MIP) & file.device_mip == file.device_mip,
        file.written(MIP, val).device_mip == file.device_mip,
{
    lemma_masks(file.word(MIP), val, 0x222);
    lemma_masks(file.word(MIP), val, 0x202);
    lemma_masks(file.word(MIP), val, 0x2 & file.word(MIDELEG));
    lemma_masks(file.word(MIE), val, file.word(MIDELEG));
    lemma_masks(file.word(MIP), file.device_mip, 0);
}

/// A write to one CSR leaves the others: those that share no register with
/// it read as before.
pub proof fn law_writes_leave_the_rest(file: CsrFile, addr: u16, val: u64, other: u16)
    requires
        addr < 4096,
        other < 4096,
        other != addr,
        other == MSCRATCH || other == SSCRATCH || other == MEPC || other == SEPC || other == MCAUSE
            || other == SCAUSE || other == MTVAL || other == STVAL || other == SATP || other
            == MTVEC || other == STVEC || other == MEDELEG || other == MIDELEG || other
            == STIMECMP || other == MENVCFG || other == MCOUNTEREN,
    ensures
        file.written(addr, val).loaded(other) == file.loaded(other),
        file.stored(addr, val).loaded(other) == file.loaded(other),
{
}

/// Bits 9..8 of a CSR's number are the privilege it takes; bits 11..10 both
/// set make it read-only.
pub proof fn law_numbers_carry_privilege(file: CsrFile, addr: u16, mode: Mode, is_write: bool)
    ensures
        mode == Mode::User && addr / 0x100 % 4 != 0 ==> !file.accessible(addr, mode, is_write),
        mode == Mode::Supervisor && addr / 0x100 % 4 > 1 ==> !file.accessible(
            addr,
            mode,
            is_write,
        ),
        addr >= 0xc00 ==> !file.accessible(addr, mode, true),
        mode == Mode::Machine && file.implemented(addr) && !is_write && addr != FFLAGS && addr
            != FRM && addr != FCSR ==> file.accessible(addr, mode, is_write),
        mode == Mode::Machine && file.implemented(addr) && is_write && addr < 0xc00 && addr
            != FFLAGS && addr != FRM && addr != FCSR ==> file.accessible(addr, mode, is_write),
{
}

/// The gates: satp is closed to supervisor mode while TVM (bit 20) is set;
/// stimecmp is open to it while STCE and the time bit of mcounteren are set;
/// the floating-point CSRs are closed in every mode while FS is off; cycle,
/// time and instret are open below machine mode by their bits of mcounteren,
/// and in user mode of scounteren too.
pub proof fn law_gated_access(file: CsrFile, mode: Mode, bit: u16)
    requires
        bit < 3,
    ensures
        file.accessible(SATP, Mode::Supervisor, true) == (file.word(MSTATUS) & 0x10_0000 == 0),
        file.accessible(SATP, Mode::Supervisor, false) == (file.word(MSTATUS) & 0x10_0000 == 0),
        file.accessible(STIMECMP, Mode::Supervisor, true) == (file.word(MENVCFG)
            & 0x8000_0000_0000_0000 != 0 && file.word(MCOUNTEREN) & 2 != 0),
        file.accessible(FCSR, mode, true) == (file.word(MSTATUS) & 0x6000 != 0),
        file.accessible(FFLAGS, mode, false) == (file.word(MSTATUS) & 0x6000 != 0),
        file.accessible(FRM, mode, true) == (file.word(MSTATUS) & 0x6000 != 0),
        ({
            let addr = (0xc00 + bit) as u16;
            let mask = if bit == 0 {
                1u64
            } else if bit == 1 {
                2
            } else {
                4
            };
            &&& file.accessible(addr, Mode::Machine, false)
            &&& file.accessible(addr, Mode::Supervisor, false) == (file.word(MCOUNTEREN) & mask
                != 0)
            &&& file.accessible(addr, Mode::User, false) == (file.word(MCOUNTEREN) & mask != 0
                && file.word(SCOUNTEREN) & mask != 0)
        }),
{
    lemma_masks(file.word(MSTATUS), 0, 0);
}

} // verus!
