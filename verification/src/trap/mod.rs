//! Trap causes: synchronous exceptions and interrupts.
use vstd::prelude::*;

pub mod irq;

verus! {

/// A synchronous exception, with the value it leaves in `mtval`/`stval`.
#[derive(Debug, Clone, Copy, PartialEq, Eq, Structural)]
pub enum Exception {
    InstructionAddressMisaligned(u64),
    InstructionAccessFault(u64),
    IllegalInstruction(u64),
    Breakpoint(u64),
    LoadAccessFault(u64),
    StoreAccessFault(u64),
    EnvironmentCallFromU,
    EnvironmentCallFromS,
    EnvironmentCallFromM,
    InstructionPageFault(u64),
    LoadPageFault(u64),
    StorePageFault(u64),
}

impl Exception {
    /// The architectural cause code.
    pub open spec fn code(self) -> u64 {
        match self {
            Exception::InstructionAddressMisaligned(_) => 0,
            Exception::InstructionAccessFault(_) => 1,
            Exception::IllegalInstruction(_) => 2,
            Exception::Breakpoint(_) => 3,
            Exception::LoadAccessFault(_) => 5,
            Exception::StoreAccessFault(_) => 7,
            Exception::EnvironmentCallFromU => 8,
            Exception::EnvironmentCallFromS => 9,
            Exception::EnvironmentCallFromM => 11,
            Exception::InstructionPageFault(_) => 12,
            Exception::LoadPageFault(_) => 13,
            Exception::StorePageFault(_) => 15,
        }
    }

    /// The trap value: the faulting address or instruction, zero for a call.
    pub open spec fn value(self) -> u64 {
        match self {
            Exception::InstructionAddressMisaligned(v)
            | Exception::InstructionAccessFault(v)
            | Exception::IllegalInstruction(v)
            | Exception::Breakpoint(v)
            | Exception::LoadAccessFault(v)
            | Exception::StoreAccessFault(v)
            | Exception::InstructionPageFault(v)
            | Exception::LoadPageFault(v)
            | Exception::StorePageFault(v) => v,
            _ => 0,
        }
    }

    pub fn cause(&self) -> (r: u64)
        ensures
            r == self.code(),
            r < 16,
    {
        match *self {
            Exception::InstructionAddressMisaligned(_) => 0,
            Exception::InstructionAccessFault(_) => 1,
            Exception::IllegalInstruction(_) => 2,
            Exception::Breakpoint(_) => 3,
            Exception::LoadAccessFault(_) => 5,
            Exception::StoreAccessFault(_) => 7,
            Exception::EnvironmentCallFromU => 8,
            Exception::EnvironmentCallFromS => 9,
            Exception::EnvironmentCallFromM => 11,
            Exception::InstructionPageFault(_) => 12,
            Exception::LoadPageFault(_) => 13,
            Exception::StorePageFault(_) => 15,
        }
    }

    pub fn tval(&self) -> (r: u64)
        ensures
            r == self.value(),
    {
        match *self {
            Exception::InstructionAddressMisaligned(v)
            | Exception::InstructionAccessFault(v)
            | Exception::IllegalInstruction(v)
            | Exception::Breakpoint(v)
            | Exception::LoadAccessFault(v)
            | Exception::StoreAccessFault(v)
            | Exception::InstructionPageFault(v)
            | Exception::LoadPageFault(v)
            | Exception::StorePageFault(v) => v,
            _ => 0,
        }
    }
}

#[derive(Debug, Clone, Copy, PartialEq, Eq, Structural)]
pub enum Interrupt {
    SupervisorSoftware,
    MachineSoftware,
    SupervisorTimer,
    MachineTimer,
    SupervisorExternal,
    MachineExternal,
}

impl Interrupt {
    /// Its bit in `mip`/`mie`.
    pub open spec fn mask(self) -> u64 {
        match self {
            Interrupt::SupervisorSoftware => irq::SSIP,
            Interrupt::MachineSoftware => irq::MSIP,
            Interrupt::SupervisorTimer => irq::STIP,
            Interrupt::MachineTimer => irq::MTIP,
            Interrupt::SupervisorExternal => irq::SEIP,
            Interrupt::MachineExternal => irq::MEIP,
        }
    }

    /// The cause register value: bit 63 over the interrupt number.
    pub open spec fn code(self) -> u64 {
        match self {
            Interrupt::SupervisorSoftware => 0x8000_0000_0000_0001,
            Interrupt::MachineSoftware => 0x8000_0000_0000_0003,
            Interrupt::SupervisorTimer => 0x8000_0000_0000_0005,
            Interrupt::MachineTimer => 0x8000_0000_0000_0007,
            Interrupt::SupervisorExternal => 0x8000_0000_0000_0009,
            Interrupt::MachineExternal => 0x8000_0000_0000_000b,
        }
    }

    pub fn bit(&self) -> (r: u64)
        ensures
            r == self.mask(),
    {
        match *self {
            Interrupt::SupervisorSoftware => irq::SSIP,
            Interrupt::MachineSoftware => irq::MSIP,
            Interrupt::SupervisorTimer => irq::STIP,
            Interrupt::MachineTimer => irq::MTIP,
            Interrupt::SupervisorExternal => irq::SEIP,
            Interrupt::MachineExternal => irq::MEIP,
        }
    }

    pub fn cause(&self) -> (r: u64)
        ensures
            r == self.code(),
    {
        match *self {
            Interrupt::SupervisorSoftware => 0x8000_0000_0000_0001,
            Interrupt::MachineSoftware => 0x8000_0000_0000_0003,
            Interrupt::SupervisorTimer => 0x8000_0000_0000_0005,
            Interrupt::MachineTimer => 0x8000_0000_0000_0007,
            Interrupt::SupervisorExternal => 0x8000_0000_0000_0009,
            Interrupt::MachineExternal => 0x8000_0000_0000_000b,
        }
    }
}

} // verus!
