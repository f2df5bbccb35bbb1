//! Trap entry and return, and the choice of interrupt to take.
use vstd::prelude::*;

use super::csr::{self, mstatus, mstatus_after, mstatus_seen};
use super::{mode_of, Cpu, CpuState, Mode};
use crate::trap::{irq, Exception, Interrupt};

verus! {

/// Where a trap vector sends a trap: interrupts of a vectored table each have
/// their own slot.
pub open spec fn vector_target(tvec: u64, cause: u64, is_interrupt: bool) -> u64 {
    let base = (tvec - tvec % 4) as u64;
    if tvec % 4 == 1 && is_interrupt {
        base.wrapping_add(4u64.wrapping_mul((cause % 0x8000_0000_0000_0000) as u64))
    } else {
        base
    }
}

/// `mstatus` after a trap into supervisor mode: SPIE = SIE; SIE = 0; SPP =
/// current mode.
pub open spec fn supervisor_entry(status: u64, mode: Mode) -> u64 {
    (status & !(mstatus::SPIE | mstatus::SIE | mstatus::SPP)) | (if status & mstatus::SIE != 0 {
        mstatus::SPIE
    } else {
        0
    }) | (if mode == Mode::Supervisor {
        mstatus::SPP
    } else {
        0
    })
}

/// `mstatus` after a trap into machine mode: MPIE = MIE; MIE = 0; MPP =
/// current mode.
pub open spec fn machine_entry(status: u64, mode: Mode) -> u64 {
    (status & !(mstatus::MPIE | mstatus::MIE | mstatus::MPP_MASK)) | (if status & mstatus::MIE
        != 0 {
        mstatus::MPIE
    } else {
        0
    }) | (match mode {
        Mode::User => 0,
        Mode::Supervisor => 0x800,
        Mode::Machine => 0x1800,
    })
}

/// `mstatus` after `sret`: SIE = SPIE; SPIE = 1; SPP = user; MPRV = 0.
pub open spec fn supervisor_return(status: u64) -> u64 {
    ((status & !(mstatus::SIE | mstatus::SPP)) | (if status & mstatus::SPIE != 0 {
        mstatus::SIE
    } else {
        0
    }) | mstatus::SPIE) & !mstatus::MPRV
}

/// `mstatus` after `mret` to `mode`: MIE = MPIE; MPIE = 1; MPP = user; MPRV
/// = 0 when leaving machine mode.
pub open spec fn machine_return(status: u64, mode: Mode) -> u64 {
    let s = (status & !(mstatus::MIE | mstatus::MPP_MASK)) | (if status & mstatus::MPIE != 0 {
        mstatus::MIE
    } else {
        0
    }) | mstatus::MPIE;
    if mode == Mode::Machine {
        s
    } else {
        s & !mstatus::MPRV
    }
}

/// The first of the machine-level priority order that is pending.
pub open spec fn machine_choice(pending: u64) -> Option<Interrupt> {
    if pending & irq::MEIP != 0 {
        Some(Interrupt::MachineExternal)
    } else if pending & irq::MSIP != 0 {
        Some(Interrupt::MachineSoftware)
    } else if pending & irq::MTIP != 0 {
        Some(Interrupt::MachineTimer)
    } else {
        supervisor_choice(pending)
    }
}

pub open spec fn supervisor_choice(pending: u64) -> Option<Interrupt> {
    if pending & irq::SEIP != 0 {
        Some(Interrupt::SupervisorExternal)
    } else if pending & irq::SSIP != 0 {
        Some(Interrupt::SupervisorSoftware)
    } else if pending & irq::STIP != 0 {
        Some(Interrupt::SupervisorTimer)
    } else {
        None
    }
}

impl CpuState {
    /// Pending and enabled interrupts, whatever the global enables say.
    pub open spec fn raised(self) -> u64 {
        self.csr.loaded(csr::MIP) & self.csr.loaded(csr::MIE)
    }

    /// Highest-priority pending+enabled interrupt, honoring delegation and
    /// per-mode global enables. Priority: MEI, MSI, MTI, SEI, SSI, STI.
    pub open spec fn next_interrupt(self) -> Option<Interrupt> {
        let deleg = self.csr.loaded(csr::MIDELEG);
        let machine = self.raised() & !deleg;
        let supervisor = self.raised() & deleg;
        let m_enabled = self.mode != Mode::Machine || self.status(mstatus::MIE);
        let s_enabled = self.mode == Mode::User || (self.mode == Mode::Supervisor && self.status(
            mstatus::SIE,
        ));
        if m_enabled && machine_choice(machine) is Some {
            machine_choice(machine)
        } else if s_enabled {
            supervisor_choice(supervisor)
        } else {
            None
        }
    }

    /// The hart after trap entry.
    pub open spec fn trapped(
        self,
        cause: u64,
        tval: u64,
        epc: u64,
        to_s: bool,
        is_interrupt: bool,
    ) -> CpuState {
        let status = self.csr.loaded(csr::MSTATUS);
        if to_s {
            let file = self.csr.stored(csr::SEPC, epc).stored(csr::SCAUSE, cause).stored(
                csr::STVAL,
                tval,
            ).stored(csr::MSTATUS, supervisor_entry(status, self.mode));
            CpuState {
                csr: file,
                mode: Mode::Supervisor,
                pc: vector_target(file.loaded(csr::STVEC), cause, is_interrupt),
                ..self
            }
        } else {
            let file = self.csr.stored(csr::MEPC, epc).stored(csr::MCAUSE, cause).stored(
                csr::MTVAL,
                tval,
            ).stored(csr::MSTATUS, machine_entry(status, self.mode));
            CpuState {
                csr: file,
                mode: Mode::Machine,
                pc: vector_target(file.loaded(csr::MTVEC), cause, is_interrupt),
                ..self
            }
        }
    }

    /// Whether an exception goes to supervisor mode.
    pub open spec fn delegates(self, e: Exception) -> bool {
        self.mode != Mode::Machine && (self.csr.loaded(csr::MEDELEG) >> e.code()) & 1 == 1
    }

    pub open spec fn excepted(self, e: Exception) -> CpuState {
        (CpuState { reservation: None, ..self }).trapped(
            e.code(),
            e.value(),
            self.pc,
            self.delegates(e),
            false,
        )
    }

    pub open spec fn interrupted(self, i: Interrupt) -> CpuState {
        (CpuState { wfi: false, reservation: None, ..self }).trapped(
            i.code(),
            0,
            self.pc,
            self.mode != Mode::Machine && self.csr.loaded(csr::MIDELEG) & i.mask() != 0,
            true,
        )
    }

    pub open spec fn may_sret(self) -> bool {
        self.mode == Mode::Machine || (self.mode == Mode::Supervisor && !self.status(mstatus::TSR))
    }

    pub open spec fn sret_done(self) -> CpuState {
        let status = self.csr.loaded(csr::MSTATUS);
        let file = self.csr.stored(csr::MSTATUS, supervisor_return(status));
        CpuState {
            csr: file,
            mode: if status & mstatus::SPP != 0 {
                Mode::Supervisor
            } else {
                Mode::User
            },
            next_pc: file.loaded(csr::SEPC),
            ..self
        }
    }

    pub open spec fn mret_done(self) -> CpuState {
        let status = self.csr.loaded(csr::MSTATUS);
        let mode = mode_of((status / 0x800 % 4) as u64);
        let file = self.csr.stored(csr::MSTATUS, machine_return(status, mode));
        CpuState { csr: file, mode, next_pc: file.loaded(csr::MEPC), ..self }
    }
}

impl Cpu {
    /// Highest-priority pending+enabled interrupt, honoring delegation and
    /// per-mode global enables. Priority: MEI, MSI, MTI, SEI, SSI, STI.
    pub fn pending_interrupt(&self) -> (r: Option<Interrupt>)
        ensures
            r == self@.next_interrupt(),
    {
        let pending: u64 = self.csr.load_raw(csr::MIP) & self.csr.load_raw(csr::MIE);
        let mideleg: u64 = self.csr.load_raw(csr::MIDELEG);
        let m_enabled = self.mode != Mode::Machine || self.csr.mstatus_field(mstatus::MIE);
        let m_pending: u64 = pending & !mideleg;
        if m_enabled {
            if m_pending & irq::MEIP != 0 {
                return Some(Interrupt::MachineExternal);
            }
            if m_pending & irq::MSIP != 0 {
                return Some(Interrupt::MachineSoftware);
            }
            if m_pending & irq::MTIP != 0 {
                return Some(Interrupt::MachineTimer);
            }
            let s = first_supervisor(m_pending);
            if s.is_some() {
                return s;
            }
        }
        let s_enabled = self.mode == Mode::User || (self.mode == Mode::Supervisor
            && self.csr.mstatus_field(mstatus::SIE));
        if s_enabled {
            return first_supervisor(pending & mideleg);
        }
        None
    }

    pub fn take_exception(&mut self, e: Exception)
        ensures
            final(self)@ == old(self)@.excepted(e),
    {
        self.reservation = None;
        let cause: u64 = e.cause();
        let deleg: u64 = self.csr.load_raw(csr::MEDELEG);
        let to_s = self.mode != Mode::Machine && (deleg >> cause) & 1 == 1;
        self.enter_trap(cause, e.tval(), self.pc, to_s, false);
    }

    pub fn take_interrupt(&mut self, i: Interrupt)
        ensures
            final(self)@ == old(self)@.interrupted(i),
    {
        self.wfi = false;
        self.reservation = None;
        let deleg: u64 = self.csr.load_raw(csr::MIDELEG);
        let to_s = self.mode != Mode::Machine && (deleg & i.bit()) != 0;
        self.enter_trap(i.cause(), 0, self.pc, to_s, true);
    }

    fn enter_trap(&mut self, cause: u64, tval: u64, epc: u64, to_s: bool, is_interrupt: bool)
        ensures
            final(self)@ == old(self)@.trapped(cause, tval, epc, to_s, is_interrupt),
    {
        let status: u64 = self.csr.load_raw(csr::MSTATUS);
        if to_s {
            self.csr.store_raw(csr::SEPC, epc);
            self.csr.store_raw(csr::SCAUSE, cause);
            self.csr.store_raw(csr::STVAL, tval);
            // SPIE = SIE; SIE = 0; SPP = current mode.
            let spie: u64 = if status & mstatus::SIE != 0 {
                mstatus::SPIE
            } else {
                0
            };
            let spp: u64 = if self.mode == Mode::Supervisor {
                mstatus::SPP
            } else {
                0
            };
            self.force_mstatus(
                (status & !(mstatus::SPIE | mstatus::SIE | mstatus::SPP)) | spie | spp,
            );
            self.mode = Mode::Supervisor;
            self.pc = self.tvec_target(self.csr.load_raw(csr::STVEC), cause, is_interrupt);
        } else {
            self.csr.store_raw(csr::MEPC, epc);
            self.csr.store_raw(csr::MCAUSE, cause);
            self.csr.store_raw(csr::MTVAL, tval);
            let mpie: u64 = if status & mstatus::MIE != 0 {
                mstatus::MPIE
            } else {
                0
            };
            let mpp: u64 = match self.mode {
                Mode::User => 0,
                Mode::Supervisor => 0x800,
                Mode::Machine => 0x1800,
            };
            self.force_mstatus(
                (status & !(mstatus::MPIE | mstatus::MIE | mstatus::MPP_MASK)) | mpie | mpp,
            );
            self.mode = Mode::Machine;
            self.pc = self.tvec_target(self.csr.load_raw(csr::MTVEC), cause, is_interrupt);
        }
    }

    pub fn tvec_target(&self, tvec: u64, cause: u64, is_interrupt: bool) -> (r: u64)
        ensures
            r == vector_target(tvec, cause, is_interrupt),
    {
        let base: u64 = tvec - tvec % 4;
        if tvec % 4 == 1 && is_interrupt {
            base.wrapping_add(4u64.wrapping_mul(cause % 0x8000_0000_0000_0000))
        } else {
            base
        }
    }

    /// Write mstatus bypassing the CSR-instruction write mask (trap machinery
    /// owns fields like MPP/SPP unconditionally).
    fn force_mstatus(&mut self, val: u64)
        ensures
            final(self)@ == (CpuState {
                csr: old(self)@.csr.stored(csr::MSTATUS, val),
                ..old(self)@
            }),
    {
        self.csr.store_raw(csr::MSTATUS, val);
        // Only real modes are stored, so MPP is never 2 and the WARL coercion
        // in mstatus_write is harmless.
    }

    pub fn sret(&mut self) -> (r: Result<(), Exception>)
        ensures
            if old(self)@.may_sret() {
                r is Ok && final(self)@ == old(self)@.sret_done()
            } else {
                r == Err::<(), Exception>(Exception::IllegalInstruction(0)) && final(self)@ == old(
                    self,
                )@
            },
    {
        if self.mode == Mode::User || (self.mode == Mode::Supervisor && self.csr.mstatus_field(
            mstatus::TSR,
        )) {
            return Err(Exception::IllegalInstruction(0));
        }
        let status: u64 = self.csr.load_raw(csr::MSTATUS);
        let sie: u64 = if status & mstatus::SPIE != 0 {
            mstatus::SIE
        } else {
            0
        };
        self.force_mstatus(
            ((status & !(mstatus::SIE | mstatus::SPP)) | sie | mstatus::SPIE) & !mstatus::MPRV,
        );
        self.mode = if status & mstatus::SPP != 0 {
            Mode::Supervisor
        } else {
            Mode::User
        };
        self.next_pc = self.csr.load_raw(csr::SEPC);
        Ok(())
    }

    pub fn mret(&mut self) -> (r: Result<(), Exception>)
        ensures
            if old(self)@.mode == Mode::Machine {
                r is Ok && final(self)@ == old(self)@.mret_done()
            } else {
                r == Err::<(), Exception>(Exception::IllegalInstruction(0)) && final(self)@ == old(
                    self,
                )@
            },
    {
        if self.mode != Mode::Machine {
            return Err(Exception::IllegalInstruction(0));
        }
        let status: u64 = self.csr.load_raw(csr::MSTATUS);
        let mie: u64 = if status & mstatus::MPIE != 0 {
            mstatus::MIE
        } else {
            0
        };
        let new_mode = Mode::from_bits(status / 0x800 % 4);
        let mut s: u64 = (status & !(mstatus::MIE | mstatus::MPP_MASK)) | mie | mstatus::MPIE;
        if new_mode != Mode::Machine {
            s = s & !mstatus::MPRV;
        }
        self.force_mstatus(s);
        self.mode = new_mode;
        self.next_pc = self.csr.load_raw(csr::MEPC);
        Ok(())
    }
}

fn first_supervisor(pending: u64) -> (r: Option<Interrupt>)
    ensures
        r == supervisor_choice(pending),
{
    if pending & irq::SEIP != 0 {
        Some(Interrupt::SupervisorExternal)
    } else if pending & irq::SSIP != 0 {
        Some(Interrupt::SupervisorSoftware)
    } else if pending & irq::STIP != 0 {
        Some(Interrupt::SupervisorTimer)
    } else {
        None
    }
}

// ---------------------------------------------------------------------------
// Laws
// ---------------------------------------------------------------------------

proof fn lemma_machine_entry(word: u64, level: u64)
    by (bit_vector)
    requires
        level == 0 || level == 1 || level == 3,
    ensures
        ({
            let status = mstatus_seen(word);
            let entered = (status & !(mstatus::MPIE | mstatus::MIE | mstatus::MPP_MASK)) | (if status
                & mstatus::MIE != 0 {
                mstatus::MPIE
            } else {
                0
            }) | (level << 11u64);
            let after = mstatus_after(word, entered, mstatus::WRITE_MASK);
            let seen = mstatus_seen(after);
            let left = (seen & !(mstatus::MIE | mstatus::MPP_MASK)) | (if seen & mstatus::MPIE
                != 0 {
                mstatus::MIE
            } else {
                0
            }) | mstatus::MPIE;
            let back = mstatus_after(after, left, mstatus::WRITE_MASK);
            let lowered = mstatus_after(after, left & !mstatus::MPRV, mstatus::WRITE_MASK);
            &&& after & mstatus::MIE == 0
            &&& (after & mstatus::MPIE != 0) == (word & mstatus::MIE != 0)
            &&& seen / 0x800 % 4 == level
            &&& (back & mstatus::MIE != 0) == (word & mstatus::MIE != 0)
            &&& (lowered & mstatus::MIE != 0) == (word & mstatus::MIE != 0)
            &&& lowered & mstatus::MPRV == 0
            &&& after & !0xf_0000_1888u64 == word & !0xf_0000_1888u64
        }),
        ({
            let seen = mstatus_seen(word);
            let left = (seen & !(mstatus::MIE | mstatus::MPP_MASK)) | (if seen & mstatus::MPIE
                != 0 {
                mstatus::MIE
            } else {
                0
            }) | mstatus::MPIE;
            let back = mstatus_after(word, left, mstatus::WRITE_MASK);
            let lowered = mstatus_after(word, left & !mstatus::MPRV, mstatus::WRITE_MASK);
            &&& (back & 0x8 != 0) == (word & 0x80 != 0)
            &&& back & 0x80 != 0
            &&& back & 0x1800 == 0
            &&& back & !0xf_0000_1888u64 == word & !0xf_0000_1888u64
            &&& lowered & !0xf_0002_1888u64 == word & !0xf_0002_1888u64
            &&& back & !0xf_0002_1888u64 == word & !0xf_0002_1888u64
            &&& (lowered & 0x8 != 0) == (word & 0x80 != 0)
            &&& lowered & 0x80 != 0
            &&& lowered & 0x1800 == 0
            &&& lowered & 0x2_0000 == 0
            &&& (seen / 0x800 % 4 == 0) == (word & 0x1800 == 0)
            &&& (seen / 0x800 % 4 == 1) == (word & 0x1800 == 0x800)
            &&& (seen / 0x800 % 4 == 3) == (word & 0x1800 == 0x1800)
        }),
        level << 11u64 == (if level == 0 {
            0
        } else if level == 1 {
            0x800
        } else {
            0x1800u64
        }),
{
}

proof fn lemma_supervisor_entry(word: u64, from_s: bool)
    by (bit_vector)
    ensures
        ({
            let status = mstatus_seen(word);
            let entered = (status & !(mstatus::SPIE | mstatus::SIE | mstatus::SPP)) | (if status
                & mstatus::SIE != 0 {
                mstatus::SPIE
            } else {
                0
            }) | (if from_s {
                mstatus::SPP
            } else {
                0
            });
            let after = mstatus_after(word, entered, mstatus::WRITE_MASK);
            let seen = mstatus_seen(after);
            let left = ((seen & !(mstatus::SIE | mstatus::SPP)) | (if seen & mstatus::SPIE != 0 {
                mstatus::SIE
            } else {
                0
            }) | mstatus::SPIE) & !mstatus::MPRV;
            let back = mstatus_after(after, left, mstatus::WRITE_MASK);
            &&& after & mstatus::SIE == 0
            &&& (after & mstatus::SPIE != 0) == (word & mstatus::SIE != 0)
            &&& (seen & mstatus::SPP != 0) == from_s
            &&& (back & mstatus::SIE != 0) == (word & mstatus::SIE != 0)
            &&& back & mstatus::MPRV == 0
            &&& after & mstatus::MIE == word & mstatus::MIE
            &&& after & !0xf_0000_0122u64 == word & !0xf_0000_0122u64
        }),
        ({
            let seen = mstatus_seen(word);
            let left = ((seen & !(mstatus::SIE | mstatus::SPP)) | (if seen & mstatus::SPIE != 0 {
                mstatus::SIE
            } else {
                0
            }) | mstatus::SPIE) & !mstatus::MPRV;
            let back = mstatus_after(word, left, mstatus::WRITE_MASK);
            &&& (back & 0x2 != 0) == (word & 0x20 != 0)
            &&& back & 0x20 != 0
            &&& back & 0x100 == 0
            &&& back & 0x2_0000 == 0
            &&& back & !0xf_0002_0122u64 == word & !0xf_0002_0122u64
            &&& (seen & 0x100 != 0) == (word & 0x100 != 0)
        }),
{
}

/// A trap to machine mode records where it came from, saves the interrupt
/// enable and closes it; the registers stay.
pub proof fn law_machine_trap_entry(
    c: CpuState,
    cause: u64,
    tval: u64,
    epc: u64,
    is_interrupt: bool,
)
    ensures
        ({
            let t = c.trapped(cause, tval, epc, false, is_interrupt);
            &&& t.mode == Mode::Machine
            &&& t.csr.loaded(csr::MEPC) == epc
            &&& t.csr.loaded(csr::MCAUSE) == cause
            &&& t.csr.loaded(csr::MTVAL) == tval
            &&& mode_of((t.csr.loaded(csr::MSTATUS) / 0x800 % 4) as u64) == c.mode
            &&& t.status(mstatus::MPIE) == c.status(mstatus::MIE)
            &&& !t.status(mstatus::MIE)
            &&& t.regs == c.regs
            &&& t.fregs == c.fregs
        }),
{
    lemma_machine_entry(c.csr.word(csr::MSTATUS), c.mode.level() as u64);
}

/// A trap to supervisor mode records where it came from, saves the interrupt
/// enable and closes it; the registers stay. From user or supervisor mode, the
/// only ones it is taken from.
pub proof fn law_supervisor_trap_entry(
    c: CpuState,
    cause: u64,
    tval: u64,
    epc: u64,
    is_interrupt: bool,
)
    requires
        c.mode != Mode::Machine,
    ensures
        ({
            let t = c.trapped(cause, tval, epc, true, is_interrupt);
            &&& t.mode == Mode::Supervisor
            &&& t.csr.loaded(csr::SEPC) == epc
            &&& t.csr.loaded(csr::SCAUSE) == cause
            &&& t.csr.loaded(csr::STVAL) == tval
            &&& (t.csr.loaded(csr::MSTATUS) & mstatus::SPP != 0) == (c.mode == Mode::Supervisor)
            &&& t.status(mstatus::SPIE) == c.status(mstatus::SIE)
            &&& !t.status(mstatus::SIE)
            &&& t.status(mstatus::MIE) == c.status(mstatus::MIE)
            &&& t.regs == c.regs
            &&& t.fregs == c.fregs
        }),
{
    lemma_supervisor_entry(c.csr.word(csr::MSTATUS), c.mode == Mode::Supervisor);
}

/// `mret` right after a trap to machine mode goes back to the mode and the
/// address trapped from, with the interrupt enable as it was; below machine
/// mode MPRV is cleared.
pub proof fn law_mret_undoes_trap_entry(
    c: CpuState,
    cause: u64,
    tval: u64,
    epc: u64,
    is_interrupt: bool,
)
    ensures
        ({
            let back = c.trapped(cause, tval, epc, false, is_interrupt).mret_done();
            &&& back.mode == c.mode
            &&& back.next_pc == epc
            &&& back.status(mstatus::MIE) == c.status(mstatus::MIE)
            &&& c.mode != Mode::Machine ==> !back.status(mstatus::MPRV)
            &&& back.regs == c.regs
        }),
{
    lemma_machine_entry(c.csr.word(csr::MSTATUS), c.mode.level() as u64);
}

/// `sret` right after a trap to supervisor mode goes back to the mode and the
/// address trapped from, with the interrupt enable as it was and MPRV cleared.
pub proof fn law_sret_undoes_trap_entry(
    c: CpuState,
    cause: u64,
    tval: u64,
    epc: u64,
    is_interrupt: bool,
)
    requires
        c.mode != Mode::Machine,
    ensures
        ({
            let back = c.trapped(cause, tval, epc, true, is_interrupt).sret_done();
            &&& back.mode == c.mode
            &&& back.next_pc == epc
            &&& back.status(mstatus::SIE) == c.status(mstatus::SIE)
            &&& !back.status(mstatus::MPRV)
            &&& back.regs == c.regs
        }),
{
    lemma_supervisor_entry(c.csr.word(csr::MSTATUS), c.mode == Mode::Supervisor);
}

/// A trap never lowers the privilege, and traps from machine mode stay in it.
pub proof fn law_traps_never_lower_privilege(c: CpuState, e: Exception, i: Interrupt)
    ensures
        c.excepted(e).mode.level() >= c.mode.level(),
        c.interrupted(i).mode.level() >= c.mode.level(),
        c.excepted(e).mode != Mode::User,
        c.interrupted(i).mode != Mode::User,
{
}

/// Which of the two masked words holds an interrupt's bit.
proof fn lemma_masked(a: u64, b: u64, d: u64, bit: u64)
    by (bit_vector)
    requires
        bit == 0x2 || bit == 0x8 || bit == 0x20 || bit == 0x80 || bit == 0x200 || bit == 0x800,
    ensures
        ((a & b & !d) & bit != 0) == (a & bit != 0 && b & bit != 0 && d & bit == 0),
        ((a & b & d) & bit != 0) == (a & bit != 0 && b & bit != 0 && d & bit != 0),
        ((a & b) & bit != 0) == (a & bit != 0 && b & bit != 0),
        a & bit != 0 && b & bit != 0 ==> a & b != 0,
        1u64 << 1u64 == 0x2,
        1u64 << 3u64 == 0x8,
        1u64 << 5u64 == 0x20,
        1u64 << 7u64 == 0x80,
        1u64 << 9u64 == 0x200,
        1u64 << 11u64 == 0x800,
        (d == 0x2 || d == 0x20 || d == 0x200) && d & bit != 0 ==> d == bit,
{
}

proof fn lemma_all_masked(a: u64, b: u64, d: u64)
    ensures
        forall|i: Interrupt|
            ((a & b & !d) & (#[trigger] i.mask()) != 0) == (a & i.mask() != 0 && b & i.mask() != 0
                && d & i.mask() == 0),
        forall|i: Interrupt|
            ((a & b & d) & (#[trigger] i.mask()) != 0) == (a & i.mask() != 0 && b & i.mask() != 0
                && d & i.mask() != 0),
{
    lemma_masked(a, b, d, 0x2);
    lemma_masked(a, b, d, 0x8);
    lemma_masked(a, b, d, 0x20);
    lemma_masked(a, b, d, 0x80);
    lemma_masked(a, b, d, 0x200);
    lemma_masked(a, b, d, 0x800);
    assert(forall|i: Interrupt|
        #![trigger i.mask()]
        i.mask() == 0x2 || i.mask() == 0x8 || i.mask() == 0x20 || i.mask() == 0x80 || i.mask()
            == 0x200 || i.mask() == 0x800);
}

/// An interrupt that is chosen is pending and enabled, and none is chosen
/// where nothing is pending and enabled.
pub proof fn law_chosen_interrupt_is_raised(c: CpuState)
    ensures
        c.next_interrupt() is Some ==> c.csr.loaded(csr::MIP) & c.next_interrupt()->Some_0.mask()
            != 0 && c.csr.loaded(csr::MIE) & c.next_interrupt()->Some_0.mask() != 0,
        c.raised() == 0 ==> c.next_interrupt() is None,
{
    let deleg = c.csr.loaded(csr::MIDELEG);
    let (mip, mie) = (c.csr.loaded(csr::MIP), c.csr.loaded(csr::MIE));
    if c.next_interrupt() is Some {
        lemma_masked(mip, mie, deleg, c.next_interrupt()->Some_0.mask());
    }
}

/// An interrupt that is pending in mip and enabled in mie is answered, by
/// itself or by another, wherever its destination lets it in. One left to
/// machine mode is let in below machine mode whatever MIE holds, and in
/// machine mode while MIE is set. A supervisor interrupt that is delegated is
/// let in in user mode whatever SIE holds, in supervisor mode while SIE is
/// set, and in machine mode never.
pub proof fn law_takeable_interrupt_is_answered(c: CpuState, number: u64)
    requires
        number == 1 || number == 3 || number == 5 || number == 7 || number == 9 || number == 11,
        c.csr.loaded(csr::MIP) & (1u64 << number) != 0,
        c.csr.loaded(csr::MIE) & (1u64 << number) != 0,
        if c.csr.loaded(csr::MIDELEG) & (1u64 << number) == 0 {
            c.mode != Mode::Machine || c.csr.word(csr::MSTATUS) & 0x8 != 0
        } else {
            (number == 1 || number == 5 || number == 9) && (c.mode == Mode::User || (c.mode
                == Mode::Supervisor && c.csr.word(csr::MSTATUS) & 0x2 != 0))
        },
    ensures
        c.next_interrupt() is Some,
{
    lemma_masked(0, 0, 0, 2);
    lemma_all_masked(
        c.csr.loaded(csr::MIP),
        c.csr.loaded(csr::MIE),
        c.csr.loaded(csr::MIDELEG),
    );
    let i = numbered(number);
    assert(i.mask() == 1u64 << number);
    assert(Interrupt::SupervisorExternal.mask() == 0x200);
    assert(Interrupt::SupervisorSoftware.mask() == 0x2);
    assert(Interrupt::SupervisorTimer.mask() == 0x20);
}

/// The interrupt of a number.
spec fn numbered(number: u64) -> Interrupt {
    if number == 1 {
        Interrupt::SupervisorSoftware
    } else if number == 3 {
        Interrupt::MachineSoftware
    } else if number == 5 {
        Interrupt::SupervisorTimer
    } else if number == 7 {
        Interrupt::MachineTimer
    } else if number == 9 {
        Interrupt::SupervisorExternal
    } else {
        Interrupt::MachineExternal
    }
}

/// In user mode a delegated supervisor interrupt that is pending and enabled
/// always interrupts, whatever SIE holds.
pub proof fn law_user_mode_takes_delegated_interrupts(c: CpuState, bit: u64)
    requires
        c.mode == Mode::User,
        bit == 0x2 || bit == 0x20 || bit == 0x200,
        c.csr.loaded(csr::MIP) & bit != 0,
        c.csr.loaded(csr::MIE) & bit != 0,
        c.csr.loaded(csr::MIDELEG) & bit != 0,
    ensures
        c.next_interrupt() is Some,
        c.csr.loaded(csr::MIP) & c.csr.loaded(csr::MIE) == bit ==> c.next_interrupt() == Some(
            if bit == 0x2 {
                Interrupt::SupervisorSoftware
            } else if bit == 0x20 {
                Interrupt::SupervisorTimer
            } else {
                Interrupt::SupervisorExternal
            },
        ),
{
    lemma_masked(0, 0, 0, 2);
    law_takeable_interrupt_is_answered(
        c,
        if bit == 0x2 {
            1
        } else if bit == 0x20 {
            5
        } else {
            9
        },
    );
    if c.csr.loaded(csr::MIP) & c.csr.loaded(csr::MIE) == bit {
        law_answered_interrupt_is_takeable(c);
        let j = c.next_interrupt()->Some_0;
        lemma_masked(c.csr.loaded(csr::MIP), c.csr.loaded(csr::MIE), bit, j.mask());
    }
}

/// The interrupt answered is pending, enabled, and let in by its destination:
/// a delegated one never in machine mode, nor in supervisor mode while SIE is
/// clear; one left to machine mode not in machine mode while MIE is clear.
pub proof fn law_answered_interrupt_is_takeable(c: CpuState)
    requires
        c.next_interrupt() is Some,
    ensures
        ({
            let bit = c.next_interrupt()->Some_0.mask();
            &&& c.csr.loaded(csr::MIP) & bit != 0
            &&& c.csr.loaded(csr::MIE) & bit != 0
            &&& if c.csr.loaded(csr::MIDELEG) & bit == 0 {
                c.mode == Mode::Machine ==> c.csr.word(csr::MSTATUS) & 0x8 != 0
            } else {
                &&& c.mode != Mode::Machine
                &&& c.mode == Mode::Supervisor ==> c.csr.word(csr::MSTATUS) & 0x2 != 0
            }
        }),
{
    lemma_all_masked(
        c.csr.loaded(csr::MIP),
        c.csr.loaded(csr::MIE),
        c.csr.loaded(csr::MIDELEG),
    );
}

/// Of the interrupts that could be answered, those left to machine mode go
/// before the delegated ones; within a destination the order is external,
/// software, timer, the machine's own before the supervisor's.
pub proof fn law_interrupt_priority(c: CpuState, i: Interrupt, rival: Interrupt)
    requires
        c.next_interrupt() == Some(i),
        c.csr.loaded(csr::MIP) & rival.mask() != 0,
        c.csr.loaded(csr::MIE) & rival.mask() != 0,
        c.csr.loaded(csr::MIDELEG) & rival.mask() == 0 ==> c.mode != Mode::Machine || c.csr.word(
            csr::MSTATUS,
        ) & 0x8 != 0,
        rival != i,
    ensures
        c.csr.loaded(csr::MIDELEG) & rival.mask() == 0 ==> c.csr.loaded(csr::MIDELEG) & i.mask()
            == 0,
        rival == Interrupt::MachineExternal ==> c.csr.loaded(csr::MIDELEG) & 0x800 != 0,
        rival == Interrupt::MachineSoftware && c.csr.loaded(csr::MIDELEG) & 0x8 == 0 ==> i
            == Interrupt::MachineExternal,
        rival == Interrupt::MachineTimer && c.csr.loaded(csr::MIDELEG) & 0x80 == 0 ==> i
            == Interrupt::MachineExternal || i == Interrupt::MachineSoftware,
        (c.csr.loaded(csr::MIDELEG) & rival.mask() == 0) == (c.csr.loaded(csr::MIDELEG) & i.mask()
            == 0) ==> {
            &&& rival == Interrupt::SupervisorExternal ==> i == Interrupt::MachineExternal || i
                == Interrupt::MachineSoftware || i == Interrupt::MachineTimer
            &&& rival == Interrupt::SupervisorSoftware ==> i != Interrupt::SupervisorTimer
        },
{
    lemma_all_masked(
        c.csr.loaded(csr::MIP),
        c.csr.loaded(csr::MIE),
        c.csr.loaded(csr::MIDELEG),
    );
    assert(rival.mask() != 0 && i.mask() != 0);
}

/// The cause of an interrupt is bit 63 over its number, and its number is that
/// of its bit in mip and mie.
pub proof fn law_interrupt_numbers(i: Interrupt)
    ensures
        i.code() >= 0x8000_0000_0000_0000,
        i.mask() == 1u64 << ((i.code() - 0x8000_0000_0000_0000) as u64),
{
    lemma_masked(0, 0, 0, 2);
}

/// An exception goes to supervisor mode exactly from below machine mode with
/// its medeleg bit set. It enters at the base of the trap vector of its
/// destination, vectored or not, and records the pc, its cause and its value
/// there alone.
pub proof fn law_exception_destination(c: CpuState, e: Exception)
    ensures
        ({
            let t = c.excepted(e);
            if c.mode != Mode::Machine && (c.csr.loaded(csr::MEDELEG) >> e.code()) & 1 == 1 {
                &&& t.mode == Mode::Supervisor
                &&& t.csr.loaded(csr::SEPC) == c.pc
                &&& t.csr.loaded(csr::SCAUSE) == e.code()
                &&& t.csr.loaded(csr::STVAL) == e.value()
                &&& t.pc % 4 == 0
                &&& t.pc <= c.csr.loaded(csr::STVEC) < t.pc + 4
                &&& t.csr.loaded(csr::MEPC) == c.csr.loaded(csr::MEPC)
                &&& t.csr.loaded(csr::MCAUSE) == c.csr.loaded(csr::MCAUSE)
                &&& t.csr.loaded(csr::MTVAL) == c.csr.loaded(csr::MTVAL)
            } else {
                &&& t.mode == Mode::Machine
                &&& t.csr.loaded(csr::MEPC) == c.pc
                &&& t.csr.loaded(csr::MCAUSE) == e.code()
                &&& t.csr.loaded(csr::MTVAL) == e.value()
                &&& t.pc % 4 == 0
                &&& t.pc <= c.csr.loaded(csr::MTVEC) < t.pc + 4
                &&& t.csr.loaded(csr::SEPC) == c.csr.loaded(csr::SEPC)
                &&& t.csr.loaded(csr::SCAUSE) == c.csr.loaded(csr::SCAUSE)
                &&& t.csr.loaded(csr::STVAL) == c.csr.loaded(csr::STVAL)
            }
        }),
{
}

/// An interrupt goes to supervisor mode exactly from below machine mode with
/// its mideleg bit set. A direct vector sends it to the base, a vectored one
/// to the slot of its number.
pub proof fn law_interrupt_destination(c: CpuState, i: Interrupt)
    ensures
        ({
            let t = c.interrupted(i);
            let to_s = c.mode != Mode::Machine && c.csr.loaded(csr::MIDELEG) & i.mask() != 0;
            let tvec = if to_s {
                c.csr.loaded(csr::STVEC)
            } else {
                c.csr.loaded(csr::MTVEC)
            };
            &&& t.mode == if to_s {
                Mode::Supervisor
            } else {
                Mode::Machine
            }
            &&& to_s ==> t.csr.loaded(csr::SEPC) == c.pc && t.csr.loaded(csr::SCAUSE) == i.code()
                && t.csr.loaded(csr::STVAL) == 0
            &&& !to_s ==> t.csr.loaded(csr::MEPC) == c.pc && t.csr.loaded(csr::MCAUSE) == i.code()
                && t.csr.loaded(csr::MTVAL) == 0
            &&& tvec % 4 == 0 ==> t.pc == tvec
            &&& tvec % 4 == 1 && tvec < 0xffff_ffff_ffff_0000 ==> t.pc == tvec - 1 + 4 * (i.code()
                - 0x8000_0000_0000_0000)
            &&& t.regs == c.regs && t.fregs == c.fregs && t.mmu == c.mmu
        }),
{
}

/// A trap changes of mstatus only the previous-enable, enable and
/// previous-mode fields of its destination; the fixed UXL and SXL aside.
pub proof fn law_traps_keep_the_rest_of_status(
    c: CpuState,
    cause: u64,
    tval: u64,
    epc: u64,
    is_interrupt: bool,
)
    ensures
        c.trapped(cause, tval, epc, false, is_interrupt).csr.word(csr::MSTATUS)
            & !0xf_0000_1888u64 == c.csr.word(csr::MSTATUS) & !0xf_0000_1888u64,
        c.mode != Mode::Machine ==> c.trapped(cause, tval, epc, true, is_interrupt).csr.word(
            csr::MSTATUS,
        ) & !0xf_0000_0122u64 == c.csr.word(csr::MSTATUS) & !0xf_0000_0122u64,
{
    lemma_machine_entry(c.csr.word(csr::MSTATUS), c.mode.level() as u64);
    lemma_supervisor_entry(c.csr.word(csr::MSTATUS), c.mode == Mode::Supervisor);
}

/// `mret` goes to mepc in the mode that MPP names, the reserved value naming
/// user mode. The enable takes the saved one, which is set; MPP names user
/// mode; MPRV is cleared unless the mode is machine. Nothing else changes.
pub proof fn law_mret(c: CpuState)
    ensures
        ({
            let t = c.mret_done();
            let before = c.csr.word(csr::MSTATUS);
            let after = t.csr.word(csr::MSTATUS);
            &&& t.next_pc == c.csr.loaded(csr::MEPC)
            &&& (t.mode == Mode::Machine) == (before & 0x1800 == 0x1800)
            &&& (t.mode == Mode::Supervisor) == (before & 0x1800 == 0x800)
            &&& (after & 0x8 != 0) == (before & 0x80 != 0)
            &&& after & 0x80 != 0
            &&& after & 0x1800 == 0
            &&& t.mode != Mode::Machine ==> after & 0x2_0000 == 0
            &&& t.mode == Mode::Machine ==> after & !0xf_0000_1888u64 == before
                & !0xf_0000_1888u64
            &&& after & !0xf_0002_1888u64 == before & !0xf_0002_1888u64
            &&& t.regs == c.regs && t.pc == c.pc && t.mmu == c.mmu
        }),
{
    lemma_machine_entry(c.csr.word(csr::MSTATUS), 0);
}

/// `sret` goes to sepc in the mode that SPP names. The enable takes the saved
/// one, which is set; SPP names user mode; MPRV is cleared. Nothing else
/// changes.
pub proof fn law_sret(c: CpuState)
    ensures
        ({
            let t = c.sret_done();
            let before = c.csr.word(csr::MSTATUS);
            let after = t.csr.word(csr::MSTATUS);
            &&& t.next_pc == c.csr.loaded(csr::SEPC)
            &&& t.mode == if before & 0x100 != 0 {
                Mode::Supervisor
            } else {
                Mode::User
            }
            &&& (after & 0x2 != 0) == (before & 0x20 != 0)
            &&& after & 0x20 != 0
            &&& after & 0x100 == 0
            &&& after & 0x2_0000 == 0
            &&& after & !0xf_0002_0122u64 == before & !0xf_0002_0122u64
            &&& t.regs == c.regs && t.pc == c.pc && t.mmu == c.mmu
        }),
{
    lemma_supervisor_entry(c.csr.word(csr::MSTATUS), false);
}

/// `sret` needs supervisor mode with TSR clear, or machine mode.
pub proof fn law_sret_needs_privilege(c: CpuState)
    ensures
        c.may_sret() <==> c.mode == Mode::Machine || (c.mode == Mode::Supervisor && c.csr.word(
            csr::MSTATUS,
        ) & 0x40_0000 == 0),
{
}

/// Every trap ends a load-reserved/store-conditional sequence.
pub proof fn law_traps_clear_the_reservation(c: CpuState, e: Exception, i: Interrupt)
    ensures
        c.excepted(e).reservation is None,
        c.interrupted(i).reservation is None,
        !c.interrupted(i).wfi,
{
}

} // verus!
