//! Integer/system/atomic execution. FP ops are delegated to [`super::fpu`].
//!
//! Conventions:
//! - `cpu.next_pc` is already `pc + len`; jumps/branches overwrite it.
//!   `sret`/`mret` also set it. `cpu.pc` must not be modified here.
//! - Register writes go through `cpu.set_reg` (x0 protected).
//! - Any fault returns `Err(Exception)`; the caller handles trap entry, and
//!   in that case `next_pc` is discarded (pc stays at the faulting instr).
//! - `raw` is the raw instruction (for IllegalInstruction tval).
use vstd::prelude::*;

use super::alu::{
    alu32, alu32_value, alu64, alu64_value, amo_bytes, amo_result, amo_size, amo_value, extend32,
    low, offset, s64, w64,
};
use super::bitmanip::{
    bit_imm, bit_imm_value, bit_rr, bit_rr_value, bit_unary, bit_unary_value, sext32,
};
use super::csr::{self, mstatus};
use super::decode::{
    operands_in_range, signed, AmoOp, AmoWidth, BranchCond, CsrOp, FpOp, FpSize, LoadKind, Op,
    StoreKind,
};
use super::{fpu, Cpu, CpuState, Mode};
use crate::bus::{Bus, BusState};
use crate::mmu::AccessType;
use crate::trap::Exception;

verus! {

pub open spec fn illegal(raw: u32) -> Result<(), Exception> {
    Err(Exception::IllegalInstruction(raw as u64))
}

/// Whether a branch is taken.
pub open spec fn taken(cond: BranchCond, a: u64, b: u64) -> bool {
    match cond {
        BranchCond::Eq => a == b,
        BranchCond::Ne => a != b,
        BranchCond::Lt => s64(a) < s64(b),
        BranchCond::Ge => s64(a) >= s64(b),
        BranchCond::Ltu => a < b,
        BranchCond::Geu => a >= b,
    }
}

pub open spec fn load_bytes(kind: LoadKind) -> u8 {
    match kind {
        LoadKind::B | LoadKind::Bu => 1,
        LoadKind::H | LoadKind::Hu => 2,
        LoadKind::W | LoadKind::Wu => 4,
        LoadKind::D => 8,
    }
}

/// The register a loaded value leaves.
pub open spec fn load_register(kind: LoadKind, v: u64) -> u64 {
    match kind {
        LoadKind::B => w64(signed((v % 0x100) as int, 0x80)),
        LoadKind::H => w64(signed((v % 0x1_0000) as int, 0x8000)),
        LoadKind::W => sext32(low(v)),
        LoadKind::D | LoadKind::Bu | LoadKind::Hu | LoadKind::Wu => v,
    }
}

pub open spec fn store_bytes(kind: StoreKind) -> u8 {
    match kind {
        StoreKind::B => 1,
        StoreKind::H => 2,
        StoreKind::W => 4,
        StoreKind::D => 8,
    }
}

/// The register a loaded word or doubleword leaves in an atomic.
pub open spec fn amo_register(width: AmoWidth, v: u64) -> u64 {
    match width {
        AmoWidth::W => sext32(low(v)),
        AmoWidth::D => v,
    }
}

impl CpuState {
    pub open spec fn x(self, r: usize) -> u64 {
        self.regs[r as int]
    }

    /// The hart after a CSR takes a value: a change of `satp` flushes the TLB.
    pub open spec fn csr_set(self, addr: u16, val: u64) -> CpuState {
        let file = self.csr.written(addr, val);
        CpuState {
            csr: file,
            mmu: if addr == csr::SATP && file.loaded(csr::SATP) != self.csr.loaded(csr::SATP) {
                self.mmu.flushed()
            } else {
                self.mmu
            },
            ..self
        }
    }

    /// A CSR instruction. `csrrw` to x0 does not read; `csrrs`/`csrrc` of x0
    /// or zero do not write.
    pub open spec fn csr_executed(
        self,
        raw: u32,
        kind: CsrOp,
        rd: usize,
        rs1: usize,
        addr: u16,
        mtime: u64,
    ) -> (Result<(), Exception>, CpuState) {
        let src = match kind {
            CsrOp::Rw | CsrOp::Rs | CsrOp::Rc => self.x(rs1),
            CsrOp::Rwi | CsrOp::Rsi | CsrOp::Rci => rs1 as u64,
        };
        let swaps = kind == CsrOp::Rw || kind == CsrOp::Rwi;
        let sets = kind == CsrOp::Rs || kind == CsrOp::Rsi;
        let reads = !swaps || rd != 0;
        let writes = swaps || rs1 != 0;
        let before = if addr == csr::TIME {
            mtime
        } else {
            self.csr.loaded(addr)
        };
        if (reads && !self.csr.accessible(addr, self.mode, false)) || (writes
            && !self.csr.accessible(addr, self.mode, true)) {
            (illegal(raw), self)
        } else {
            let after = if swaps {
                src
            } else if sets {
                before | src
            } else {
                before & !src
            };
            let c = if writes {
                self.csr_set(addr, after)
            } else {
                self
            };
            (
                Ok(()),
                if reads {
                    c.with_reg(rd, before)
                } else {
                    c
                },
            )
        }
    }

    /// A load.
    pub open spec fn load_executed(self, b: BusState, kind: LoadKind, rd: usize, va: u64) -> (
        Result<(), Exception>,
        CpuState,
        BusState,
    ) {
        let (r, c, b2) = self.loaded(b, va, load_bytes(kind));
        match r {
            Err(e) => (Err(e), c, b2),
            Ok(v) => (Ok(()), c.with_reg(rd, load_register(kind, v)), b2),
        }
    }

    /// A load-reserved: what it reads, it reserves.
    pub open spec fn lr_executed(self, b: BusState, width: AmoWidth, rd: usize, va: u64) -> (
        Result<(), Exception>,
        CpuState,
        BusState,
    ) {
        let (r, c, b1) = self.amo_translated(b, va, amo_bytes(width), false);
        match r {
            Err(e) => (Err(e), c, b1),
            Ok(pa) => match b1.seen(pa, amo_bytes(width)) {
                Err(_) => (Err(Exception::LoadAccessFault(va)), c, b1.after_read(pa)),
                Ok(v) => (
                    Ok(()),
                    CpuState {
                        reservation: Some(pa),
                        ..c.with_reg(rd, amo_register(width, v))
                    },
                    b1.after_read(pa),
                ),
            },
        }
    }

    /// What a store-conditional may do. It writes only where the reservation
    /// stands, and clears it once the address is found to be writable.
    pub open spec fn may_sc(
        self,
        b: BusState,
        width: AmoWidth,
        rd: usize,
        va: u64,
        val: u64,
        post: CpuState,
        b2: BusState,
        result: Result<(), Exception>,
    ) -> bool {
        let size = amo_bytes(width);
        let fault = Err::<(), Exception>(Exception::StoreAccessFault(va));
        let (r, c, b1) = self.amo_translated(b, va, size, true);
        let cleared = CpuState { reservation: None, ..c };
        match r {
            Err(e) => result == Err::<(), Exception>(e) && post == c && b2 == b1,
            Ok(pa) => if !b1.writable(pa, size as int) {
                result == fault && post == c && b2 == b1
            } else if self.reservation != Some(pa) {
                result is Ok && post == cleared.with_reg(rd, 1) && b2 == b1
            } else {
                b1.may_write(pa, val, size, b2) && if b1.accepts(pa, val, size) {
                    result is Ok && post == cleared.with_reg(rd, 0)
                } else {
                    result == fault && post == cleared
                }
            },
        }
    }

    /// What a read-modify-write may do. It clears the reservation and leaves
    /// the value read.
    pub open spec fn may_amo(
        self,
        b: BusState,
        op: AmoOp,
        width: AmoWidth,
        rd: usize,
        va: u64,
        src: u64,
        post: CpuState,
        b2: BusState,
        result: Result<(), Exception>,
    ) -> bool {
        let size = amo_bytes(width);
        let fault = Err::<(), Exception>(Exception::StoreAccessFault(va));
        let (r, c, b1) = CpuState { reservation: None, ..self }.amo_translated(b, va, size, true);
        match r {
            Err(e) => result == Err::<(), Exception>(e) && post == c && b2 == b1,
            Ok(pa) => match b1.seen(pa, size) {
                Err(_) => result == fault && post == c && b2 == b1.after_read(pa),
                Ok(v) => {
                    let new = amo_value(op, width, v, src);
                    let b3 = b1.after_read(pa);
                    b3.may_write(pa, new, size, b2) && if b3.accepts(pa, new, size) {
                        result is Ok && post == c.with_reg(rd, amo_register(width, v))
                    } else {
                        result == fault && post == c
                    }
                },
            },
        }
    }

    /// Whether WFI or SFENCE.VMA may run: never in user mode, and in
    /// supervisor mode only while `bit` of mstatus is clear.
    pub open spec fn may_manage(self, bit: u64) -> bool {
        self.mode == Mode::Machine || (self.mode == Mode::Supervisor && !self.status(bit))
    }

    /// An instruction that touches neither memory nor a device: the result and
    /// the hart afterwards.
    pub open spec fn computed(self, mtime: u64, raw: u32, op: Op) -> (
        Result<(), Exception>,
        CpuState,
    ) {
        match op {
            Op::Lui { rd, imm } => (Ok(()), self.with_reg(rd, w64(imm as int))),
            Op::Auipc { rd, imm } => (Ok(()), self.with_reg(rd, w64(self.pc + imm))),
            Op::Jal { rd, imm } => (
                Ok(()),
                CpuState { next_pc: w64(self.pc + imm), ..self }.with_reg(rd, self.next_pc),
            ),
            Op::Jalr { rd, rs1, imm } => {
                let target = w64(self.x(rs1) + imm);
                (
                    Ok(()),
                    CpuState { next_pc: (target - target % 2) as u64, ..self }.with_reg(
                        rd,
                        self.next_pc,
                    ),
                )
            },
            Op::Branch { cond, rs1, rs2, imm } => (
                Ok(()),
                if taken(cond, self.x(rs1), self.x(rs2)) {
                    CpuState { next_pc: w64(self.pc + imm), ..self }
                } else {
                    self
                },
            ),
            Op::OpImm { kind, rd, rs1, imm } => (
                Ok(()),
                self.with_reg(rd, alu64_value(kind, self.x(rs1), w64(imm as int))),
            ),
            Op::OpImm32 { kind, rd, rs1, imm } => (
                Ok(()),
                self.with_reg(rd, alu32_value(kind, self.x(rs1), w64(imm as int))),
            ),
            Op::OpReg { kind, rd, rs1, rs2 } => (
                Ok(()),
                self.with_reg(rd, alu64_value(kind, self.x(rs1), self.x(rs2))),
            ),
            Op::OpReg32 { kind, rd, rs1, rs2 } => (
                Ok(()),
                self.with_reg(rd, alu32_value(kind, self.x(rs1), self.x(rs2))),
            ),
            Op::Bit { kind, rd, rs1, rs2 } => (
                Ok(()),
                self.with_reg(rd, bit_rr_value(kind, self.x(rs1), self.x(rs2))),
            ),
            Op::BitUnary { kind, rd, rs1 } => (
                Ok(()),
                self.with_reg(rd, bit_unary_value(kind, self.x(rs1))),
            ),
            Op::BitImm { kind, rd, rs1, imm } => (
                Ok(()),
                self.with_reg(rd, bit_imm_value(kind, self.x(rs1), imm)),
            ),
            Op::Fence => (Ok(()), self),
            Op::FenceI => (Ok(()), CpuState { cache: self.cache.flushed(), ..self }),
            Op::Ecall => (
                Err(
                    match self.mode {
                        Mode::User => Exception::EnvironmentCallFromU,
                        Mode::Supervisor => Exception::EnvironmentCallFromS,
                        Mode::Machine => Exception::EnvironmentCallFromM,
                    },
                ),
                self,
            ),
            Op::Ebreak => (Err(Exception::Breakpoint(self.pc)), self),
            Op::Csr { kind, rd, rs1, csr } => self.csr_executed(raw, kind, rd, rs1, csr, mtime),
            Op::Mret => if self.mode == Mode::Machine {
                (Ok(()), self.mret_done())
            } else {
                (illegal(raw), self)
            },
            Op::Sret => if self.may_sret() {
                (Ok(()), self.sret_done())
            } else {
                (illegal(raw), self)
            },
            Op::Wfi => if self.may_manage(mstatus::TW) {
                (Ok(()), CpuState { wfi: true, ..self })
            } else {
                (illegal(raw), self)
            },
            // Every specific fence flushes everything.
            Op::SfenceVma { .. } => if self.may_manage(mstatus::TVM) {
                (Ok(()), CpuState { mmu: self.mmu.flushed(), ..self })
            } else {
                (illegal(raw), self)
            },
            _ => (Ok(()), self),
        }
    }

    /// What one instruction may do. Everything is determined but what a store
    /// does inside the device it reaches.
    pub open spec fn may_execute(
        self,
        b: BusState,
        raw: u32,
        op: Op,
        post: CpuState,
        b2: BusState,
        r: Result<(), Exception>,
    ) -> bool {
        match op {
            Op::Load { kind, rd, rs1, imm } => (r, post, b2) == self.load_executed(
                b,
                kind,
                rd,
                w64(self.x(rs1) + imm),
            ),
            Op::Store { kind, rs1, rs2, imm } => self.may_store(
                b,
                w64(self.x(rs1) + imm),
                self.x(rs2),
                store_bytes(kind),
                post,
                b2,
                r,
            ),
            Op::Lr { width, rd, rs1 } => (r, post, b2) == self.lr_executed(
                b,
                width,
                rd,
                self.x(rs1),
            ),
            Op::Sc { width, rd, rs1, rs2 } => self.may_sc(
                b,
                width,
                rd,
                self.x(rs1),
                self.x(rs2),
                post,
                b2,
                r,
            ),
            Op::Amo { op, width, rd, rs1, rs2 } => self.may_amo(
                b,
                op,
                width,
                rd,
                self.x(rs1),
                self.x(rs2),
                post,
                b2,
                r,
            ),
            Op::FpLoad { .. } | Op::FpStore { .. } | Op::Fp { .. } => self.may_execute_fp(
                b,
                raw,
                op,
                post,
                b2,
                r,
            ),
            _ => (r, post) == self.computed(b.clint.mtime, raw, op) && b2 == b,
        }
    }
}

fn load_size(kind: LoadKind) -> (r: u8)
    ensures
        r == load_bytes(kind),
{
    match kind {
        LoadKind::B | LoadKind::Bu => 1,
        LoadKind::H | LoadKind::Hu => 2,
        LoadKind::W | LoadKind::Wu => 4,
        LoadKind::D => 8,
    }
}

fn extend_load(kind: LoadKind, v: u64) -> (r: u64)
    ensures
        r == load_register(kind, v),
{
    match kind {
        LoadKind::B => {
            let byte: u64 = v % 0x100;
            if byte >= 0x80 {
                0xffff_ffff_ffff_ff00 + byte
            } else {
                byte
            }
        },
        LoadKind::H => {
            let half: u64 = v % 0x1_0000;
            if half >= 0x8000 {
                0xffff_ffff_ffff_0000 + half
            } else {
                half
            }
        },
        LoadKind::W => extend32((v % 0x1_0000_0000) as u32),
        LoadKind::D | LoadKind::Bu | LoadKind::Hu | LoadKind::Wu => v,
    }
}

fn store_size(kind: StoreKind) -> (r: u8)
    ensures
        r == store_bytes(kind),
{
    match kind {
        StoreKind::B => 1,
        StoreKind::H => 2,
        StoreKind::W => 4,
        StoreKind::D => 8,
    }
}

fn extend_amo(width: AmoWidth, v: u64) -> (r: u64)
    ensures
        r == amo_register(width, v),
{
    match width {
        AmoWidth::W => extend32((v % 0x1_0000_0000) as u32),
        AmoWidth::D => v,
    }
}

/// `a < b` on registers read as two's-complement numbers.
fn signed_less(a: u64, b: u64) -> (r: bool)
    ensures
        r == (s64(a) < s64(b)),
{
    match (a >= 0x8000_0000_0000_0000, b >= 0x8000_0000_0000_0000) {
        (true, false) => true,
        (false, true) => false,
        _ => a < b,
    }
}

fn branch_taken(cond: BranchCond, a: u64, b: u64) -> (r: bool)
    ensures
        r == taken(cond, a, b),
{
    match cond {
        BranchCond::Eq => a == b,
        BranchCond::Ne => a != b,
        BranchCond::Lt => signed_less(a, b),
        BranchCond::Ge => !signed_less(a, b),
        BranchCond::Ltu => a < b,
        BranchCond::Geu => a >= b,
    }
}

pub fn execute(cpu: &mut Cpu, bus: &mut Bus, raw: u32, op: &Op) -> (r: Result<(), Exception>)
    requires
        old(cpu)@.wf(),
        old(bus).wf(),
        operands_in_range(*op),
    ensures
        final(cpu)@.wf(),
        final(bus).wf(),
        final(bus)@.ram.bytes.len() == old(bus)@.ram.bytes.len(),
        old(cpu)@.may_execute(old(bus)@, raw, *op, final(cpu)@, final(bus)@, r),
{
    match *op {
        Op::Load { kind, rd, rs1, imm } => {
            let addr: u64 = offset(cpu.reg(rs1), imm);
            let v: u64 = cpu.load(bus, addr, load_size(kind))?;
            cpu.set_reg(rd, extend_load(kind, v));
            Ok(())
        },
        Op::Store { kind, rs1, rs2, imm } => {
            let addr: u64 = offset(cpu.reg(rs1), imm);
            let val: u64 = cpu.reg(rs2);
            cpu.store(bus, addr, val, store_size(kind))
        },
        Op::Lr { width, rd, rs1 } => exec_lr(cpu, bus, width, rd, rs1),
        Op::Sc { width, rd, rs1, rs2 } => exec_sc(cpu, bus, width, rd, rs1, rs2),
        Op::Amo { op, width, rd, rs1, rs2 } => exec_amo(cpu, bus, op, width, rd, rs1, rs2),
        Op::FpLoad { .. } | Op::FpStore { .. } | Op::Fp { .. } => fpu::execute(cpu, bus, raw, op),
        _ => exec_computed(cpu, bus.clint.mtime, raw, op),
    }
}

/// The instructions that touch neither memory nor a device.
fn exec_computed(cpu: &mut Cpu, mtime: u64, raw: u32, op: &Op) -> (r: Result<(), Exception>)
    requires
        old(cpu)@.wf(),
        operands_in_range(*op),
    ensures
        final(cpu)@.wf(),
        (r, final(cpu)@) == old(cpu)@.computed(mtime, raw, *op),
{
    match *op {
        Op::Lui { rd, imm } => cpu.set_reg(rd, offset(0, imm)),
        Op::Auipc { rd, imm } => {
            let v: u64 = offset(cpu.pc, imm);
            cpu.set_reg(rd, v);
        },
        Op::Jal { rd, imm } => {
            let link: u64 = cpu.next_pc;  // pc + len, before overwrite
            cpu.next_pc = offset(cpu.pc, imm);
            cpu.set_reg(rd, link);
        },
        Op::Jalr { rd, rs1, imm } => {
            let link: u64 = cpu.next_pc;  // pc + len, before overwrite
            let target: u64 = offset(cpu.reg(rs1), imm);
            cpu.next_pc = target - target % 2;
            cpu.set_reg(rd, link);
        },
        Op::Branch { cond, rs1, rs2, imm } => {
            if branch_taken(cond, cpu.reg(rs1), cpu.reg(rs2)) {
                cpu.next_pc = offset(cpu.pc, imm);
            }
        },
        Op::OpImm { kind, rd, rs1, imm } => {
            let v: u64 = alu64(kind, cpu.reg(rs1), offset(0, imm));
            cpu.set_reg(rd, v);
        },
        Op::OpImm32 { kind, rd, rs1, imm } => {
            let v: u64 = alu32(kind, cpu.reg(rs1), offset(0, imm));
            cpu.set_reg(rd, v);
        },
        Op::OpReg { kind, rd, rs1, rs2 } => {
            let v: u64 = alu64(kind, cpu.reg(rs1), cpu.reg(rs2));
            cpu.set_reg(rd, v);
        },
        Op::OpReg32 { kind, rd, rs1, rs2 } => {
            let v: u64 = alu32(kind, cpu.reg(rs1), cpu.reg(rs2));
            cpu.set_reg(rd, v);
        },
        Op::Bit { kind, rd, rs1, rs2 } => {
            let v: u64 = bit_rr(kind, cpu.reg(rs1), cpu.reg(rs2));
            cpu.set_reg(rd, v);
        },
        Op::BitUnary { kind, rd, rs1 } => {
            let v: u64 = bit_unary(kind, cpu.reg(rs1));
            cpu.set_reg(rd, v);
        },
        Op::BitImm { kind, rd, rs1, imm } => {
            let v: u64 = bit_imm(kind, cpu.reg(rs1), imm);
            cpu.set_reg(rd, v);
        },
        Op::Fence => {},
        Op::FenceI => cpu.flush_decode_cache(),
        Op::Ecall => {
            return Err(
                match cpu.mode {
                    Mode::User => Exception::EnvironmentCallFromU,
                    Mode::Supervisor => Exception::EnvironmentCallFromS,
                    Mode::Machine => Exception::EnvironmentCallFromM,
                },
            );
        },
        Op::Ebreak => return Err(Exception::Breakpoint(cpu.pc)),
        Op::Csr { kind, rd, rs1, csr } => return exec_csr(cpu, mtime, raw, kind, rd, rs1, csr),
        Op::Mret => {
            if cpu.mret().is_err() {
                return Err(Exception::IllegalInstruction(raw as u64));
            }
        },
        Op::Sret => {
            if cpu.sret().is_err() {
                return Err(Exception::IllegalInstruction(raw as u64));
            }
        },
        Op::Wfi => {
            if cpu.mode == Mode::User || (cpu.mode == Mode::Supervisor && cpu.csr.mstatus_field(
                mstatus::TW,
            )) {
                return Err(Exception::IllegalInstruction(raw as u64));
            }
            cpu.wfi = true;
        },
        Op::SfenceVma { .. } => {
            if cpu.mode == Mode::User || (cpu.mode == Mode::Supervisor && cpu.csr.mstatus_field(
                mstatus::TVM,
            )) {
                return Err(Exception::IllegalInstruction(raw as u64));
            }
            // Conservative: ignore rs1/rs2 specificity, flush everything.
            // TLB only: SFENCE.VMA orders page-table writes, not stores to
            // instruction memory. FENCE.I is the ordering point for those, and
            // plain stores to a code page are caught by its write generation.
            cpu.mmu.flush_all();
        },
        _ => {},
    }
    Ok(())
}

/// Write a CSR the mode may write, flushing the TLB where `satp` changes.
fn set_csr(cpu: &mut Cpu, addr: u16, val: u64) -> (r: bool)
    requires
        old(cpu)@.wf(),
    ensures
        final(cpu)@.wf(),
        r == old(cpu)@.csr.accessible(addr, old(cpu)@.mode, true),
        final(cpu)@ == (if r {
            old(cpu)@.csr_set(addr, val)
        } else {
            old(cpu)@
        }),
{
    // Compare the raw satp before/after: a masked, permission-checked read
    // could miss or invent a mapping change.
    let before: u64 = cpu.csr.load_raw(csr::SATP);
    if cpu.csr.write(addr, val, cpu.mode).is_err() {
        return false;
    }
    if addr == csr::SATP {
        if before != cpu.csr.load_raw(csr::SATP) {
            // Only the TLB: decoded blocks are keyed on physical address, so a
            // new address space cannot make them stale.
            cpu.mmu.flush_all();
        }
    }
    true
}

fn exec_csr(
    cpu: &mut Cpu,
    mtime: u64,
    raw: u32,
    kind: CsrOp,
    rd: usize,
    rs1: usize,
    addr: u16,
) -> (r: Result<(), Exception>)
    requires
        old(cpu)@.wf(),
        rd < 32,
        rs1 < 32,
    ensures
        final(cpu)@.wf(),
        (r, final(cpu)@) == old(cpu)@.csr_executed(raw, kind, rd, rs1, addr, mtime),
{
    // For *I forms `rs1` holds the 5-bit zimm.
    let src: u64 = match kind {
        CsrOp::Rw | CsrOp::Rs | CsrOp::Rc => cpu.reg(rs1),
        CsrOp::Rwi | CsrOp::Rsi | CsrOp::Rci => rs1 as u64,
    };
    match kind {
        CsrOp::Rw | CsrOp::Rwi => {
            // rd == x0: no read at all, so no read side effects and no
            // read permission check; the write still happens.
            if rd == 0 {
                if !set_csr(cpu, addr, src) {
                    return Err(Exception::IllegalInstruction(raw as u64));
                }
                return Ok(());
            }
            let before: u64 = match cpu.csr.read(addr, cpu.mode, mtime) {
                Ok(v) => v,
                Err(_) => return Err(Exception::IllegalInstruction(raw as u64)),
            };
            if !set_csr(cpu, addr, src) {
                return Err(Exception::IllegalInstruction(raw as u64));
            }
            cpu.set_reg(rd, before);
        },
        CsrOp::Rs | CsrOp::Rsi | CsrOp::Rc | CsrOp::Rci => {
            let before: u64 = match cpu.csr.read(addr, cpu.mode, mtime) {
                Ok(v) => v,
                Err(_) => return Err(Exception::IllegalInstruction(raw as u64)),
            };
            // rs1 == x0 / zimm == 0: read-only access, no write (so
            // read-only CSRs are readable via csrrs/csrrc).
            if rs1 != 0 {
                let after: u64 = match kind {
                    CsrOp::Rs | CsrOp::Rsi => before | src,
                    _ => before & !src,
                };
                if !set_csr(cpu, addr, after) {
                    return Err(Exception::IllegalInstruction(raw as u64));
                }
            }
            cpu.set_reg(rd, before);
        },
    }
    Ok(())
}

fn exec_lr(cpu: &mut Cpu, bus: &mut Bus, width: AmoWidth, rd: usize, rs1: usize) -> (r: Result<
    (),
    Exception,
>)
    requires
        old(cpu)@.wf(),
        old(bus).wf(),
        rd < 32,
        rs1 < 32,
    ensures
        final(cpu)@.wf(),
        final(bus).wf(),
        final(bus)@.ram.bytes.len() == old(bus)@.ram.bytes.len(),
        (r, final(cpu)@, final(bus)@) == old(cpu)@.lr_executed(
            old(bus)@,
            width,
            rd,
            old(cpu)@.x(rs1),
        ),
{
    let addr: u64 = cpu.reg(rs1);
    let size: u8 = amo_size(width);
    let pa: u64 = cpu.translate_amo(bus, addr, size, false)?;
    let v: u64 = match bus.read(pa, size) {
        Ok(v) => v,
        Err(_) => return Err(Exception::LoadAccessFault(addr)),
    };
    cpu.set_reg(rd, extend_amo(width, v));
    cpu.reservation = Some(pa);
    Ok(())
}

fn exec_sc(
    cpu: &mut Cpu,
    bus: &mut Bus,
    width: AmoWidth,
    rd: usize,
    rs1: usize,
    rs2: usize,
) -> (r: Result<(), Exception>)
    requires
        old(cpu)@.wf(),
        old(bus).wf(),
        rd < 32,
        rs1 < 32,
        rs2 < 32,
    ensures
        final(cpu)@.wf(),
        final(bus).wf(),
        final(bus)@.ram.bytes.len() == old(bus)@.ram.bytes.len(),
        old(cpu)@.may_sc(
            old(bus)@,
            width,
            rd,
            old(cpu)@.x(rs1),
            old(cpu)@.x(rs2),
            final(cpu)@,
            final(bus)@,
            r,
        ),
{
    let addr: u64 = cpu.reg(rs1);
    let size: u8 = amo_size(width);
    let val: u64 = cpu.reg(rs2);
    // Capture before translate/store paths can clear it.
    let saved = cpu.reservation;
    let pa: u64 = cpu.translate_amo(bus, addr, size, true)?;
    if !bus.write_accessible(pa, size) {
        return Err(Exception::StoreAccessFault(addr));
    }
    // SC always clears the reservation, success or failure.
    cpu.reservation = None;
    let holds = match saved {
        Some(reserved) => reserved == pa,
        None => false,
    };
    if holds {
        if bus.write(pa, val, size).is_err() {
            return Err(Exception::StoreAccessFault(addr));
        }
        cpu.set_reg(rd, 0);
    } else {
        cpu.set_reg(rd, 1);
    }
    Ok(())
}

fn exec_amo(
    cpu: &mut Cpu,
    bus: &mut Bus,
    op: AmoOp,
    width: AmoWidth,
    rd: usize,
    rs1: usize,
    rs2: usize,
) -> (r: Result<(), Exception>)
    requires
        old(cpu)@.wf(),
        old(bus).wf(),
        rd < 32,
        rs1 < 32,
        rs2 < 32,
    ensures
        final(cpu)@.wf(),
        final(bus).wf(),
        final(bus)@.ram.bytes.len() == old(bus)@.ram.bytes.len(),
        old(cpu)@.may_amo(
            old(bus)@,
            op,
            width,
            rd,
            old(cpu)@.x(rs1),
            old(cpu)@.x(rs2),
            final(cpu)@,
            final(bus)@,
            r,
        ),
{
    let addr: u64 = cpu.reg(rs1);
    let size: u8 = amo_size(width);
    let src: u64 = cpu.reg(rs2);
    // AMOs are stores and must clear any LR reservation;
    // translate_amo does not do it.
    cpu.reservation = None;
    let pa: u64 = cpu.translate_amo(bus, addr, size, true)?;
    let before: u64 = match bus.read(pa, size) {
        Ok(v) => v,
        Err(_) => return Err(Exception::StoreAccessFault(addr)),
    };
    let new: u64 = amo_result(op, width, before, src);
    if bus.write(pa, new, size).is_err() {
        return Err(Exception::StoreAccessFault(addr));
    }
    cpu.set_reg(rd, extend_amo(width, before));
    Ok(())
}

// ---------------------------------------------------------------------------
// Laws
// ---------------------------------------------------------------------------

/// Translating the bytes of an access changes nothing but the TLB.
proof fn lemma_bytes_translated(
    c: CpuState,
    b: BusState,
    va: u64,
    n: nat,
    acc: AccessType,
    mode: Mode,
)
    ensures
        c.bytes_translated(b, va, n, acc, mode).1 == (CpuState {
            mmu: c.bytes_translated(b, va, n, acc, mode).1.mmu,
            ..c
        }),
    decreases n,
{
    if n > 0 {
        lemma_bytes_translated(c, b, va, (n - 1) as nat, acc, mode);
    }
}

proof fn lemma_load_frame(c: CpuState, b: BusState, va: u64, size: u8)
    ensures
        c.loaded(b, va, size).1.pc == c.pc,
        c.loaded(b, va, size).1.cache == c.cache,
        c.loaded(b, va, size).1.regs == c.regs,
{
    lemma_bytes_translated(c, b, va, size as nat, AccessType::Load, c.data_mode());
}

proof fn lemma_store_frame(
    c: CpuState,
    b: BusState,
    va: u64,
    val: u64,
    size: u8,
    post: CpuState,
    b2: BusState,
    r: Result<(), Exception>,
)
    requires
        c.may_store(b, va, val, size, post, b2, r),
    ensures
        post.pc == c.pc,
        post.cache == c.cache,
        post.regs == c.regs,
        post.reservation is None,
{
    let c0 = CpuState { reservation: None, ..c };
    lemma_bytes_translated(c0, b, va, size as nat, AccessType::Store, c.data_mode());
}

proof fn lemma_atomic_frame(
    c: CpuState,
    b: BusState,
    raw: u32,
    op: Op,
    post: CpuState,
    b2: BusState,
    r: Result<(), Exception>,
)
    requires
        c.may_execute(b, raw, op, post, b2, r),
        op is Lr || op is Sc || op is Amo,
    ensures
        post.pc == c.pc,
        post.cache == c.cache,
        op is Amo ==> post.reservation is None,
{
}

proof fn lemma_computed_frame(c: CpuState, mtime: u64, raw: u32, op: Op)
    ensures
        c.computed(mtime, raw, op).1.pc == c.pc,
        c.computed(mtime, raw, op).1.cache == (if op is FenceI {
            c.cache.flushed()
        } else {
            c.cache
        }),
{
}

proof fn lemma_moved_frame(
    c: CpuState,
    op: FpOp,
    sz: FpSize,
    rd: usize,
    rs1: usize,
    rs2: usize,
)
    ensures
        c.fp_moved(op, sz, rd, rs1, rs2).pc == c.pc,
        c.fp_moved(op, sz, rd, rs1, rs2).cache == c.cache,
{
}

proof fn lemma_rounded_frame(
    c: CpuState,
    op: FpOp,
    sz: FpSize,
    rd: usize,
    rs1: usize,
    rs2: usize,
    rs3: usize,
    round: fpu::softfloat::Rounding,
)
    ensures
        c.fp_rounded(op, sz, rd, rs1, rs2, rs3, round).pc == c.pc,
        c.fp_rounded(op, sz, rd, rs1, rs2, rs3, round).cache == c.cache,
{
}

#[verifier::spinoff_prover]
#[verifier::rlimit(50)]
proof fn lemma_fp_frame(
    c: CpuState,
    b: BusState,
    raw: u32,
    op: Op,
    post: CpuState,
    b2: BusState,
    r: Result<(), Exception>,
)
    requires
        c.may_execute_fp(b, raw, op, post, b2, r),
    ensures
        post.pc == c.pc,
        post.cache == c.cache,
{
    match op {
        Op::FpLoad { sz, frd, rs1, imm } => {
            lemma_load_frame(c, b, w64(c.x(rs1) + imm), 4);
            lemma_load_frame(c, b, w64(c.x(rs1) + imm), 8);
        },
        Op::FpStore { sz, rs1, frs2, imm } => {
            if c.csr.fs_field() != csr::FS_OFF {
                let (va, v) = (w64(c.x(rs1) + imm), c.fregs[frs2 as int]);
                match sz {
                    FpSize::S => lemma_store_frame(c, b, va, low(v) as u64, 4, post, b2, r),
                    FpSize::D => lemma_store_frame(c, b, va, v, 8, post, b2, r),
                }
            }
        },
        Op::Fp { op, sz, rd, rs1, rs2, rs3, rm } => {
            lemma_moved_frame(c, op, sz, rd, rs1, rs2);
            if c.direction(rm) is Some {
                lemma_rounded_frame(c, op, sz, rd, rs1, rs2, rs3, c.direction(rm)->Some_0);
            }
        },
        _ => {},
    }
}

/// An instruction leaves the pc to the step that runs it, so that a fault
/// finds the address of the instruction there. Of the block cache it can only
/// flush all, and only FENCE.I does.
pub proof fn law_execution_keeps_pc(
    c: CpuState,
    b: BusState,
    raw: u32,
    op: Op,
    post: CpuState,
    b2: BusState,
    r: Result<(), Exception>,
)
    requires
        c.may_execute(b, raw, op, post, b2, r),
    ensures
        post.pc == c.pc,
        post.cache == (if op is FenceI {
            c.cache.flushed()
        } else {
            c.cache
        }),
{
    match op {
        Op::Load { kind, rd, rs1, imm } => {
            lemma_load_frame(c, b, w64(c.x(rs1) + imm), load_bytes(kind));
        },
        Op::Store { kind, rs1, rs2, imm } => {
            lemma_store_frame(
                c,
                b,
                w64(c.x(rs1) + imm),
                c.x(rs2),
                store_bytes(kind),
                post,
                b2,
                r,
            );
        },
        Op::Lr { .. } | Op::Sc { .. } | Op::Amo { .. } => {
            lemma_atomic_frame(c, b, raw, op, post, b2, r);
        },
        Op::FpLoad { .. } | Op::FpStore { .. } | Op::Fp { .. } => {
            lemma_fp_frame(c, b, raw, op, post, b2, r);
        },
        _ => {
            lemma_computed_frame(c, b.clint.mtime, raw, op);
        },
    }
}

/// The register file keeps its size and x0.
pub open spec fn keeps_x0(c: CpuState, post: CpuState) -> bool {
    post.regs.len() == c.regs.len() && post.regs[0] == c.regs[0]
}

/// Instructions that give a register a value, and do nothing else.
spec fn only_writes_register(op: Op) -> bool {
    op is OpImm || op is OpImm32 || op is OpReg || op is OpReg32 || op is Bit || op is BitUnary
        || op is BitImm
}

proof fn lemma_register_x0(c: CpuState, mtime: u64, raw: u32, op: Op)
    requires
        c.regs.len() == 32,
        operands_in_range(op),
        only_writes_register(op),
    ensures
        keeps_x0(c, c.computed(mtime, raw, op).1),
{
}

proof fn lemma_csr_x0(
    c: CpuState,
    raw: u32,
    kind: CsrOp,
    rd: usize,
    rs1: usize,
    addr: u16,
    mtime: u64,
)
    requires
        c.regs.len() == 32,
        rd < 32,
    ensures
        keeps_x0(c, c.csr_executed(raw, kind, rd, rs1, addr, mtime).1),
{
}

proof fn lemma_computed_x0(c: CpuState, mtime: u64, raw: u32, op: Op)
    requires
        c.regs.len() == 32,
        operands_in_range(op),
    ensures
        keeps_x0(c, c.computed(mtime, raw, op).1),
{
    if only_writes_register(op) {
        lemma_register_x0(c, mtime, raw, op);
    } else {
        match op {
            Op::Csr { kind, rd, rs1, csr } => {
                lemma_csr_x0(c, raw, kind, rd, rs1, csr, mtime);
            },
            _ => {},
        }
    }
}

proof fn lemma_atomic_x0(
    c: CpuState,
    b: BusState,
    raw: u32,
    op: Op,
    post: CpuState,
    b2: BusState,
    r: Result<(), Exception>,
)
    requires
        c.regs.len() == 32,
        operands_in_range(op),
        c.may_execute(b, raw, op, post, b2, r),
        op is Lr || op is Sc || op is Amo,
    ensures
        keeps_x0(c, post),
{
}

proof fn lemma_moved_x0(
    c: CpuState,
    op: FpOp,
    sz: FpSize,
    rd: usize,
    rs1: usize,
    rs2: usize,
)
    requires
        c.regs.len() == 32,
        rd < 32,
    ensures
        keeps_x0(c, c.fp_moved(op, sz, rd, rs1, rs2)),
{
}

proof fn lemma_rounded_x0(
    c: CpuState,
    op: FpOp,
    sz: FpSize,
    rd: usize,
    rs1: usize,
    rs2: usize,
    rs3: usize,
    round: fpu::softfloat::Rounding,
)
    requires
        c.regs.len() == 32,
        rd < 32,
    ensures
        keeps_x0(c, c.fp_rounded(op, sz, rd, rs1, rs2, rs3, round)),
{
}

/// However an instruction ends, x0 is what it was.
pub proof fn law_execution_keeps_x0(
    c: CpuState,
    b: BusState,
    raw: u32,
    op: Op,
    post: CpuState,
    b2: BusState,
    r: Result<(), Exception>,
)
    requires
        c.regs.len() == 32,
        operands_in_range(op),
        c.may_execute(b, raw, op, post, b2, r),
    ensures
        post.regs.len() == 32,
        post.regs[0] == c.regs[0],
{
    match op {
        Op::Load { kind, rd, rs1, imm } => {
            lemma_load_frame(c, b, w64(c.x(rs1) + imm), load_bytes(kind));
        },
        Op::Store { kind, rs1, rs2, imm } => {
            let va = w64(c.x(rs1) + imm);
            lemma_store_frame(c, b, va, c.x(rs2), store_bytes(kind), post, b2, r);
        },
        Op::Lr { .. } | Op::Sc { .. } | Op::Amo { .. } => {
            lemma_atomic_x0(c, b, raw, op, post, b2, r);
        },
        Op::FpLoad { sz, frd, rs1, imm } => {
            lemma_load_frame(c, b, w64(c.x(rs1) + imm), 4);
            lemma_load_frame(c, b, w64(c.x(rs1) + imm), 8);
        },
        Op::FpStore { sz, rs1, frs2, imm } => {
            if c.csr.fs_field() != csr::FS_OFF {
                let (va, v) = (w64(c.x(rs1) + imm), c.fregs[frs2 as int]);
                match sz {
                    FpSize::S => lemma_store_frame(c, b, va, low(v) as u64, 4, post, b2, r),
                    FpSize::D => lemma_store_frame(c, b, va, v, 8, post, b2, r),
                }
            }
        },
        Op::Fp { op, sz, rd, rs1, rs2, rs3, rm } => {
            lemma_moved_x0(c, op, sz, rd, rs1, rs2);
            if c.direction(rm) is Some {
                lemma_rounded_x0(c, op, sz, rd, rs1, rs2, rs3, c.direction(rm)->Some_0);
            }
        },
        _ => {
            lemma_computed_x0(c, b.clint.mtime, raw, op);
        },
    }
}

/// A store or a read-modify-write ends the reservation, whether it succeeds
/// or faults.
pub proof fn law_stores_end_the_reservation(
    c: CpuState,
    b: BusState,
    raw: u32,
    op: Op,
    post: CpuState,
    b2: BusState,
    r: Result<(), Exception>,
)
    requires
        c.may_execute(b, raw, op, post, b2, r),
        op is Store || op is Amo,
    ensures
        post.reservation is None,
{
    match op {
        Op::Store { kind, rs1, rs2, imm } => {
            lemma_store_frame(
                c,
                b,
                w64(c.x(rs1) + imm),
                c.x(rs2),
                store_bytes(kind),
                post,
                b2,
                r,
            );
        },
        _ => {
            lemma_atomic_frame(c, b, raw, op, post, b2, r);
        },
    }
}

/// A store-conditional without a reservation at its address writes nothing: it
/// faults, or it reports failure and ends the reservation.
pub proof fn law_unreserved_sc_writes_nothing(
    c: CpuState,
    b: BusState,
    width: AmoWidth,
    rd: usize,
    va: u64,
    val: u64,
    post: CpuState,
    b2: BusState,
    r: Result<(), Exception>,
)
    requires
        c.may_sc(b, width, rd, va, val, post, b2, r),
        ({
            let (at, _, _) = c.amo_translated(b, va, amo_bytes(width), true);
            at is Ok ==> c.reservation != Some(at->Ok_0)
        }),
        c.regs.len() == 32,
        rd < 32,
    ensures
        b2 == c.amo_translated(b, va, amo_bytes(width), true).2,
        r is Ok ==> post.reservation is None && (rd != 0 ==> post.x(rd) == 1),
{
}

/// Where addresses are not translated, a load-reserved of an aligned RAM word
/// and a store-conditional to it right after succeed: the word reads as
/// stored and the reservation is gone. A second store-conditional to the word
/// fails, and stores nothing.
pub proof fn law_reserved_pair_succeeds(
    c: CpuState,
    b: BusState,
    width: AmoWidth,
    rd: usize,
    rd2: usize,
    va: u64,
    val: u64,
    post: CpuState,
    b2: BusState,
    r: Result<(), Exception>,
    rd3: usize,
    val2: u64,
    post2: CpuState,
    b3: BusState,
    r2: Result<(), Exception>,
)
    requires
        c.data_mode() == Mode::Machine || c.csr.loaded(csr::SATP) / 0x1000_0000_0000_0000 != 8,
        va & ((amo_bytes(width) - 1) as u64) == 0,
        va + 8 <= u64::MAX,
        b.main_memory(va, amo_bytes(width) as int),
        c.regs.len() == 32,
        rd < 32,
        0 < rd2 < 32,
        0 < rd3 < 32,
        c.lr_executed(b, width, rd, va).1.may_sc(
            c.lr_executed(b, width, rd, va).2,
            width,
            rd2,
            va,
            val,
            post,
            b2,
            r,
        ),
        post.may_sc(b2, width, rd3, va, val2, post2, b3, r2),
    ensures
        c.lr_executed(b, width, rd, va).0 is Ok,
        r is Ok,
        post.x(rd2) == 0,
        post.reservation is None,
        b2.seen(va, amo_bytes(width)) == Ok::<u64, ()>(
            (val as nat % crate::le::pow256(amo_bytes(width) as nat)) as u64,
        ),
        r2 is Ok,
        post2.x(rd3) == 1,
        post2.reservation is None,
        b3 == b2,
{
    crate::bus::law_ram_store_then_load(b, va, val, amo_bytes(width), b2);
}

/// A branch either goes to its target or falls through, and of each pair of
/// opposite conditions on the same operands exactly one goes: beq and bne, blt
/// and bge, bltu and bgeu.
pub proof fn law_branches_come_in_opposite_pairs(
    c: CpuState,
    mtime: u64,
    raw: u32,
    rs1: usize,
    rs2: usize,
    imm: i64,
)
    ensures
        ({
            let after = |cond: BranchCond|
                c.computed(mtime, raw, Op::Branch { cond, rs1, rs2, imm });
            let goes = (
                Ok::<(), Exception>(()),
                CpuState { next_pc: w64(c.pc + imm), ..c },
            );
            let falls = (Ok::<(), Exception>(()), c);
            let opposite = |x: BranchCond, y: BranchCond|
                (after(x) == goes && after(y) == falls) || (after(x) == falls && after(y) == goes);
            &&& opposite(BranchCond::Eq, BranchCond::Ne)
            &&& opposite(BranchCond::Lt, BranchCond::Ge)
            &&& opposite(BranchCond::Ltu, BranchCond::Geu)
        }),
        taken(BranchCond::Ne, c.x(rs1), c.x(rs2)) != taken(BranchCond::Eq, c.x(rs1), c.x(rs2)),
        taken(BranchCond::Ge, c.x(rs1), c.x(rs2)) != taken(BranchCond::Lt, c.x(rs1), c.x(rs2)),
        taken(BranchCond::Geu, c.x(rs1), c.x(rs2)) != taken(BranchCond::Ltu, c.x(rs1), c.x(rs2)),
{
}

/// beq is taken on equal operands only. Neither strict order holds of equal
/// operands, and of unequal ones it holds one way round. bltu is the order of
/// the numbers; blt is bltu with both operands biased by 2^63, which agrees
/// with it while the top bits do and is opposite where they differ.
pub proof fn law_branch_orders(a: u64, b: u64)
    ensures
        taken(BranchCond::Eq, a, b) == (a == b),
        taken(BranchCond::Ltu, a, b) == (a < b),
        taken(BranchCond::Lt, a, b) == (a.wrapping_add(0x8000_0000_0000_0000) < b.wrapping_add(
            0x8000_0000_0000_0000,
        )),
        a == b ==> !taken(BranchCond::Lt, a, b) && taken(BranchCond::Ge, a, b) && taken(
            BranchCond::Geu,
            a,
            b,
        ),
        a != b ==> taken(BranchCond::Lt, a, b) != taken(BranchCond::Lt, b, a) && taken(
            BranchCond::Ltu,
            a,
            b,
        ) != taken(BranchCond::Ltu, b, a),
        (a < 0x8000_0000_0000_0000) == (b < 0x8000_0000_0000_0000) ==> taken(BranchCond::Lt, a, b)
            == taken(BranchCond::Ltu, a, b),
        (a < 0x8000_0000_0000_0000) != (b < 0x8000_0000_0000_0000) ==> taken(BranchCond::Lt, a, b)
            != taken(BranchCond::Ltu, a, b),
{
}

/// Set-less-than and the branches order alike.
pub proof fn law_set_less_agrees_with_branches(a: u64, b: u64)
    ensures
        alu64_value(super::decode::AluOp::Slt, a, b) == (if taken(BranchCond::Lt, a, b) {
            1u64
        } else {
            0
        }),
        alu64_value(super::decode::AluOp::Sltu, a, b) == (if taken(BranchCond::Ltu, a, b) {
            1u64
        } else {
            0
        }),
{
}

/// A jump leaves in its register the address of the instruction after it, even
/// where that register also named the target. jal goes a signed distance from
/// the pc, modulo 2^64; jalr the same from a register, to an even address.
pub proof fn law_jumps(c: CpuState, mtime: u64, raw: u32, rd: usize, rs1: usize, imm: i64)
    requires
        c.regs.len() == 32,
        0 < rd < 32,
        rs1 < 32,
    ensures
        ({
            let (r, t) = c.computed(mtime, raw, Op::Jal { rd, imm });
            &&& r is Ok
            &&& t.x(rd) == c.next_pc
            &&& (t.next_pc - c.pc - imm) % 0x1_0000_0000_0000_0000 == 0
            &&& t.pc == c.pc
        }),
        ({
            let (r, t) = c.computed(mtime, raw, Op::Jalr { rd, rs1, imm });
            &&& r is Ok
            &&& t.x(rd) == c.next_pc
            &&& t.next_pc % 2 == 0
            &&& (t.next_pc - c.x(rs1) - imm) % 0x1_0000_0000_0000_0000 == 0 || (t.next_pc + 1
                - c.x(rs1) - imm) % 0x1_0000_0000_0000_0000 == 0
            &&& t.pc == c.pc
        }),
{
}

/// lui leaves the immediate and auipc the immediate past the pc, modulo 2^64.
pub proof fn law_upper_immediates(c: CpuState, mtime: u64, raw: u32, rd: usize, imm: i64)
    requires
        c.regs.len() == 32,
        0 < rd < 32,
    ensures
        (c.computed(mtime, raw, Op::Lui { rd, imm }).1.x(rd) - imm) % 0x1_0000_0000_0000_0000 == 0,
        (c.computed(mtime, raw, Op::Auipc { rd, imm }).1.x(rd) - c.pc - imm)
            % 0x1_0000_0000_0000_0000 == 0,
        c.computed(mtime, raw, Op::Lui { rd, imm }).1.next_pc == c.next_pc,
        c.computed(mtime, raw, Op::Auipc { rd, imm }).1.next_pc == c.next_pc,
{
}

/// An instruction writes its own register and no other.
pub proof fn law_results_touch_one_register(c: CpuState, rd: usize, v: u64, other: usize)
    requires
        c.regs.len() == 32,
        rd < 32,
        other < 32,
    ensures
        c.with_reg(rd, v).x(other) == if other == rd && rd != 0 {
            v
        } else {
            c.x(other)
        },
{
}

/// A byte, halfword or word that is loaded keeps its value; the signed forms
/// repeat its top bit above it, the unsigned ones leave zeros.
#[verifier::spinoff_prover]
#[verifier::rlimit(40)]
pub proof fn law_loads_extend(v: u64)
    ensures
        v < 0x100 ==> {
            let s = load_register(LoadKind::B, v);
            &&& load_register(LoadKind::Bu, v) == v
            &&& s % 0x100 == v
            &&& v < 0x80 ==> s == v
            &&& v >= 0x80 ==> s >= 0xffff_ffff_ffff_ff80
        },
        v < 0x1_0000 ==> {
            let s = load_register(LoadKind::H, v);
            &&& load_register(LoadKind::Hu, v) == v
            &&& s % 0x1_0000 == v
            &&& v < 0x8000 ==> s == v
            &&& v >= 0x8000 ==> s >= 0xffff_ffff_ffff_8000
        },
        v < 0x1_0000_0000 ==> {
            let s = load_register(LoadKind::W, v);
            &&& load_register(LoadKind::Wu, v) == v
            &&& s % 0x1_0000_0000 == v
            &&& v < 0x8000_0000 ==> s == v
            &&& v >= 0x8000_0000 ==> s >= 0xffff_ffff_8000_0000
            &&& amo_register(AmoWidth::W, v) == s
        },
        load_register(LoadKind::D, v) == v,
        amo_register(AmoWidth::D, v) == v,
{
    lemma_extended_byte(v);
    lemma_extended_half(v);
    super::alu::lemma_sext32(low(v));
}

#[verifier::spinoff_prover]
proof fn lemma_extended_byte(v: u64)
    ensures
        v < 0x80 ==> load_register(LoadKind::B, v) == v,
        0x80 <= v < 0x100 ==> load_register(LoadKind::B, v) == v + 0xffff_ffff_ffff_ff00,
        0x80 <= v < 0x100 ==> (v + 0xffff_ffff_ffff_ff00) % 0x100 == v,
{
    if v < 0x100 {
        assert(v % 0x100 == v);
        if v >= 0x80 {
            assert((v - 0x100) % 0x1_0000_0000_0000_0000 == v + 0xffff_ffff_ffff_ff00);
        }
    }
}

#[verifier::spinoff_prover]
proof fn lemma_extended_half(v: u64)
    ensures
        v < 0x8000 ==> load_register(LoadKind::H, v) == v,
        0x8000 <= v < 0x1_0000 ==> load_register(LoadKind::H, v) == v + 0xffff_ffff_ffff_0000,
        0x8000 <= v < 0x1_0000 ==> (v + 0xffff_ffff_ffff_0000) % 0x1_0000 == v,
{
    if v < 0x1_0000 {
        assert(v % 0x1_0000 == v);
        if v >= 0x8000 {
            assert((v - 0x1_0000) % 0x1_0000_0000_0000_0000 == v + 0xffff_ffff_ffff_0000);
        }
    }
}

/// What a store instruction puts into RAM, a load instruction of its width
/// gives back, extended as the load asks. Where addresses are not translated.
#[verifier::spinoff_prover]
#[verifier::rlimit(60)]
pub proof fn law_store_then_load(
    c: CpuState,
    b: BusState,
    raw: u32,
    rs1: usize,
    rs2: usize,
    imm: i64,
    rd: usize,
    post: CpuState,
    b2: BusState,
    r: Result<(), Exception>,
    width: u8,
)
    requires
        c.data_mode() == Mode::Machine || c.csr.loaded(csr::SATP) / 0x1000_0000_0000_0000 != 8,
        c.regs.len() == 32,
        rs1 < 32,
        rs2 < 32,
        0 < rd < 32,
        width == 1 || width == 2 || width == 4 || width == 8,
        ({
            let va = w64(c.x(rs1) + imm);
            va % 0x1000 + 8 <= 0x1000 && b.main_memory(va, 8)
        }),
        c.may_execute(
            b,
            raw,
            Op::Store {
                kind: if width == 1 {
                    StoreKind::B
                } else if width == 2 {
                    StoreKind::H
                } else if width == 4 {
                    StoreKind::W
                } else {
                    StoreKind::D
                },
                rs1,
                rs2,
                imm,
            },
            post,
            b2,
            r,
        ),
    ensures
        ({
            let va = w64(c.x(rs1) + imm);
            let got = |kind: LoadKind| post.load_executed(b2, kind, rd, va).1.x(rd);
            let val = c.x(rs2);
            &&& r is Ok
            &&& post.reservation is None
            &&& width == 1 ==> got(LoadKind::Bu) == val % 0x100 && got(LoadKind::B) % 0x100 == val
                % 0x100
            &&& width == 2 ==> got(LoadKind::Hu) == val % 0x1_0000 && got(LoadKind::H) % 0x1_0000
                == val % 0x1_0000
            &&& width == 4 ==> got(LoadKind::Wu) == val % 0x1_0000_0000 && got(LoadKind::W)
                % 0x1_0000_0000 == val % 0x1_0000_0000
            &&& width == 8 ==> got(LoadKind::D) == val
        }),
{
    let va = w64(c.x(rs1) + imm);
    crate::bus::law_ram_store_then_load(b, va, c.x(rs2), width, b2);
    crate::le::lemma_pow256();
    law_loads_extend(c.x(rs2) % 0x100);
    law_loads_extend(c.x(rs2) % 0x1_0000);
    law_loads_extend(c.x(rs2) % 0x1_0000_0000);
    assert(c.x(rs2) as nat % 0x1_0000_0000_0000_0000 == c.x(rs2));
}

/// An atomic on an aligned doubleword of RAM leaves there the value its
/// operation makes of the old one and the source, and the old one in its
/// register. It ends a reservation. Where addresses are not translated.
#[verifier::spinoff_prover]
#[verifier::rlimit(60)]
pub proof fn law_atomic_doubleword_on_ram(
    c: CpuState,
    b: BusState,
    raw: u32,
    op: AmoOp,
    rd: usize,
    rs1: usize,
    rs2: usize,
    post: CpuState,
    b2: BusState,
    r: Result<(), Exception>,
)
    requires
        c.data_mode() == Mode::Machine || c.csr.loaded(csr::SATP) / 0x1000_0000_0000_0000 != 8,
        c.regs.len() == 32,
        0 < rd < 32,
        rs1 < 32,
        rs2 < 32,
        c.x(rs1) & 7 == 0,
        b.main_memory(c.x(rs1), 8),
        c.may_execute(b, raw, Op::Amo { op, width: AmoWidth::D, rd, rs1, rs2 }, post, b2, r),
    ensures
        r is Ok,
        post.reservation is None,
        b.seen(c.x(rs1), 8) is Ok,
        post.x(rd) == b.seen(c.x(rs1), 8)->Ok_0,
        b2.seen(c.x(rs1), 8) == Ok::<u64, ()>(
            amo_value(op, AmoWidth::D, b.seen(c.x(rs1), 8)->Ok_0, c.x(rs2)),
        ),
{
    let va = c.x(rs1);
    let v = b.seen(va, 8)->Ok_0;
    let new = amo_value(op, AmoWidth::D, v, c.x(rs2));
    crate::bus::law_reads_keep_ram(b, va);
    assert(b.accepts(va, new, 8));
    crate::bus::law_ram_store_then_load(b, va, new, 8, b2);
    crate::le::lemma_pow256();
}

/// The same of an aligned word, whose old value its register holds
/// sign-extended.
#[verifier::spinoff_prover]
#[verifier::rlimit(60)]
pub proof fn law_atomic_word_on_ram(
    c: CpuState,
    b: BusState,
    raw: u32,
    op: AmoOp,
    rd: usize,
    rs1: usize,
    rs2: usize,
    post: CpuState,
    b2: BusState,
    r: Result<(), Exception>,
)
    requires
        c.data_mode() == Mode::Machine || c.csr.loaded(csr::SATP) / 0x1000_0000_0000_0000 != 8,
        c.regs.len() == 32,
        0 < rd < 32,
        rs1 < 32,
        rs2 < 32,
        c.x(rs1) & 3 == 0,
        b.main_memory(c.x(rs1), 4),
        c.may_execute(b, raw, Op::Amo { op, width: AmoWidth::W, rd, rs1, rs2 }, post, b2, r),
    ensures
        r is Ok,
        post.reservation is None,
        b.seen(c.x(rs1), 4) is Ok,
        b.seen(c.x(rs1), 4)->Ok_0 < 0x1_0000_0000,
        post.x(rd) == if b.seen(c.x(rs1), 4)->Ok_0 < 0x8000_0000 {
            b.seen(c.x(rs1), 4)->Ok_0 as int
        } else {
            b.seen(c.x(rs1), 4)->Ok_0 + 0xffff_ffff_0000_0000
        },
        b2.seen(c.x(rs1), 4) == Ok::<u64, ()>(
            amo_value(op, AmoWidth::W, b.seen(c.x(rs1), 4)->Ok_0, c.x(rs2)),
        ),
{
    let va = c.x(rs1);
    let v = b.seen(va, 4)->Ok_0;
    let new = amo_value(op, AmoWidth::W, v, c.x(rs2));
    crate::bus::law_reads_keep_ram(b, va);
    assert(b.accepts(va, new, 4));
    crate::bus::law_ram_store_then_load(b, va, new, 4, b2);
    crate::le::lemma_pow256();
    crate::le::lemma_le_value_bound(b.ram.slice(va - crate::bus::DRAM_BASE, 4));
    assert(new < 0x1_0000_0000);
    super::alu::lemma_sext32(low(v));
}

/// An atomic, a load-reserved or a store-conditional that is not aligned to
/// its width faults and touches nothing but the reservation.
pub proof fn law_misaligned_atomics_fault(
    c: CpuState,
    b: BusState,
    raw: u32,
    op: AmoOp,
    width: AmoWidth,
    rd: usize,
    rs1: usize,
    rs2: usize,
    post: CpuState,
    b2: BusState,
    r: Result<(), Exception>,
)
    requires
        width == AmoWidth::W ==> c.x(rs1) & 3 != 0,
        width == AmoWidth::D ==> c.x(rs1) & 7 != 0,
    ensures
        c.may_execute(b, raw, Op::Amo { op, width, rd, rs1, rs2 }, post, b2, r) ==> r == Err::<
            (),
            Exception,
        >(Exception::StoreAccessFault(c.x(rs1))) && b2 == b && post == (CpuState {
            reservation: None,
            ..c
        }),
        c.may_execute(b, raw, Op::Sc { width, rd, rs1, rs2 }, post, b2, r) ==> r == Err::<
            (),
            Exception,
        >(Exception::StoreAccessFault(c.x(rs1))) && b2 == b && post == c,
        c.may_execute(b, raw, Op::Lr { width, rd, rs1 }, post, b2, r) ==> r == Err::<
            (),
            Exception,
        >(Exception::LoadAccessFault(c.x(rs1))) && b2 == b && post == c,
{
}

/// The environment call names the mode it comes from, a breakpoint the pc;
/// neither changes the hart.
pub proof fn law_calls(c: CpuState, mtime: u64, raw: u32)
    ensures
        c.computed(mtime, raw, Op::Ebreak) == (
            Err::<(), Exception>(Exception::Breakpoint(c.pc)),
            c,
        ),
        c.computed(mtime, raw, Op::Ecall).0 is Err,
        c.computed(mtime, raw, Op::Ecall).1 == c,
        c.computed(mtime, raw, Op::Ecall).0->Err_0.code() == 8 + c.mode.level(),
        c.computed(mtime, raw, Op::Ecall).0->Err_0.value() == 0,
{
}

/// wfi and sfence.vma are illegal in user mode, and in supervisor mode while
/// TW (bit 21) or TVM (bit 20) of mstatus is set; machine mode always has
/// them. wfi halts the hart; sfence.vma leaves the TLB without a page and
/// moves its generation.
pub proof fn law_privileged_waits_and_fences(
    c: CpuState,
    mtime: u64,
    raw: u32,
    rs1: usize,
    rs2: usize,
    va: u64,
)
    ensures
        ({
            let (r, t) = c.computed(mtime, raw, Op::Wfi);
            let illegal_here = c.mode == Mode::User || (c.mode == Mode::Supervisor && c.csr.word(
                csr::MSTATUS,
            ) & 0x20_0000 != 0);
            &&& illegal_here ==> r == Err::<(), Exception>(
                Exception::IllegalInstruction(raw as u64),
            ) && t == c
            &&& !illegal_here ==> r is Ok && t == (CpuState { wfi: true, ..c })
        }),
        ({
            let (r, t) = c.computed(mtime, raw, Op::SfenceVma { rs1, rs2 });
            let illegal_here = c.mode == Mode::User || (c.mode == Mode::Supervisor && c.csr.word(
                csr::MSTATUS,
            ) & 0x10_0000 != 0);
            &&& illegal_here ==> r == Err::<(), Exception>(
                Exception::IllegalInstruction(raw as u64),
            ) && t == c
            &&& !illegal_here ==> r is Ok && !t.mmu.hits(va) && t.mmu.generation
                == c.mmu.generation.wrapping_add(1) && t == (CpuState { mmu: t.mmu, ..c })
        }),
{
}

/// mret is machine mode's; sret is supervisor mode's too unless TSR (bit 22)
/// of mstatus is set. Refused, they change nothing.
pub proof fn law_returns_need_privilege(c: CpuState, mtime: u64, raw: u32)
    ensures
        c.mode != Mode::Machine ==> c.computed(mtime, raw, Op::Mret) == (
            Err::<(), Exception>(Exception::IllegalInstruction(raw as u64)),
            c,
        ),
        c.mode == Mode::Machine ==> c.computed(mtime, raw, Op::Mret).0 is Ok,
        c.mode == Mode::User || (c.mode == Mode::Supervisor && c.csr.word(csr::MSTATUS)
            & 0x40_0000 != 0) ==> c.computed(mtime, raw, Op::Sret) == (
            Err::<(), Exception>(Exception::IllegalInstruction(raw as u64)),
            c,
        ),
        c.mode == Mode::Machine || (c.mode == Mode::Supervisor && c.csr.word(csr::MSTATUS)
            & 0x40_0000 == 0) ==> c.computed(mtime, raw, Op::Sret).0 is Ok,
{
}

/// A CSR instruction that is refused changes nothing. One that is allowed
/// leaves the old value in its register; the swaps then hand the file the
/// source, the sets the old value with the source's bits set, the clears the
/// old value with them clear. Setting or clearing by x0, or by zero, needs no
/// right to write and changes nothing but the register; swapping into x0
/// needs no right to read.
#[verifier::spinoff_prover]
#[verifier::rlimit(60)]
pub proof fn law_csr_instructions(
    c: CpuState,
    mtime: u64,
    raw: u32,
    rd: usize,
    rs1: usize,
    addr: u16,
)
    requires
        c.regs.len() == 32,
        0 < rd < 32,
        rs1 < 32,
        addr != csr::TIME,
    ensures
        ({
            let go = |kind: CsrOp, d: usize, s: usize| c.csr_executed(raw, kind, d, s, addr, mtime);
            let was = c.csr.loaded(addr);
            let reads = c.csr.accessible(addr, c.mode, false);
            let writes = c.csr.accessible(addr, c.mode, true);
            &&& !reads ==> go(CsrOp::Rw, rd, rs1) == (illegal(raw), c) && go(CsrOp::Rs, rd, rs1)
                == (illegal(raw), c) && go(CsrOp::Rc, rd, rs1) == (illegal(raw), c) && go(
                CsrOp::Rs,
                rd,
                0,
            ) == (illegal(raw), c)
            &&& !writes ==> go(CsrOp::Rw, rd, rs1) == (illegal(raw), c) && go(CsrOp::Rw, 0, rs1)
                == (illegal(raw), c) && (rs1 != 0 ==> go(CsrOp::Rs, rd, rs1) == (illegal(raw), c)
                && go(CsrOp::Rc, rd, rs1) == (illegal(raw), c))
            &&& reads ==> go(CsrOp::Rs, rd, 0) == (Ok::<(), Exception>(()), c.with_reg(rd, was))
                && go(CsrOp::Rc, rd, 0) == (Ok::<(), Exception>(()), c.with_reg(rd, was)) && go(
                CsrOp::Rsi,
                rd,
                0,
            ) == (Ok::<(), Exception>(()), c.with_reg(rd, was)) && go(CsrOp::Rci, rd, 0) == (
                Ok::<(), Exception>(()),
                c.with_reg(rd, was),
            )
            &&& writes ==> go(CsrOp::Rw, 0, rs1).1.csr == c.csr.written(addr, c.x(rs1)) && go(
                CsrOp::Rwi,
                0,
                rs1,
            ).1.csr == c.csr.written(addr, rs1 as u64)
            &&& reads && writes ==> {
                &&& go(CsrOp::Rw, rd, rs1).1.csr == c.csr.written(addr, c.x(rs1))
                &&& go(CsrOp::Rwi, rd, rs1).1.csr == c.csr.written(addr, rs1 as u64)
                &&& go(CsrOp::Rw, rd, rs1).1.x(rd) == was && go(CsrOp::Rwi, rd, rs1).1.x(rd) == was
                &&& rs1 != 0 ==> go(CsrOp::Rs, rd, rs1).1.csr == c.csr.written(
                    addr,
                    was | c.x(rs1),
                ) && go(CsrOp::Rc, rd, rs1).1.csr == c.csr.written(addr, was & !c.x(rs1)) && go(
                    CsrOp::Rsi,
                    rd,
                    rs1,
                ).1.csr == c.csr.written(addr, was | rs1 as u64) && go(CsrOp::Rci, rd, rs1).1.csr
                    == c.csr.written(addr, was & !(rs1 as u64))
                &&& go(CsrOp::Rs, rd, rs1).1.x(rd) == was && go(CsrOp::Rc, rd, rs1).1.x(rd) == was
                    && go(CsrOp::Rsi, rd, rs1).1.x(rd) == was && go(CsrOp::Rci, rd, rs1).1.x(rd)
                    == was
            }
        }),
{
}

/// A change of satp forgets every translation; writing back what it holds, or
/// to any other CSR, keeps them.
pub proof fn law_satp_changes_flush(c: CpuState, addr: u16, val: u64, va: u64)
    ensures
        addr == 0x180 && c.csr_set(addr, val).csr.loaded(0x180) != c.csr.loaded(0x180)
            ==> !c.csr_set(addr, val).mmu.hits(va) && c.csr_set(addr, val).mmu.generation
            == c.mmu.generation.wrapping_add(1),
        addr != 0x180 || c.csr_set(addr, val).csr.loaded(0x180) == c.csr.loaded(0x180)
            ==> c.csr_set(addr, val).mmu == c.mmu,
        c.csr_set(addr, val).regs == c.regs,
        c.csr_set(addr, val).mode == c.mode,
{
}

/// The time counter reads as the platform's timer.
pub proof fn law_time_reads_the_timer(c: CpuState, mtime: u64, raw: u32, rd: usize)
    requires
        c.regs.len() == 32,
        0 < rd < 32,
        c.csr.accessible(csr::TIME, c.mode, false),
    ensures
        c.computed(mtime, raw, Op::Csr { kind: CsrOp::Rs, rd, rs1: 0, csr: csr::TIME }).1
            == c.with_reg(rd, mtime),
{
}

} // verus!
