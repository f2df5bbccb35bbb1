//! F/D extension execution.
//!
//! Invariants worth remembering: every FP instruction, loads and moves
//! included, is illegal when mstatus.FS is Off, and anything writing an FP
//! register or fflags sets FS = Dirty. f32 values are NaN-boxed in the 64-bit
//! registers, and a non-boxed value reads as the canonical NaN.
//!
//! Arithmetic goes through [`softfloat`] for target-independent, correctly
//! rounded results and exact IEEE exception flags.
use vstd::prelude::*;

pub mod arith;
pub mod integral;
pub mod pattern;
pub mod softfloat;
pub mod sqrt;

use super::alu::{extend32, low, offset, s32, s64, w64};
use super::bitmanip::sext32;
use super::csr;
use super::decode::{operands_in_range, FpOp, FpSize, Op};
use super::{Cpu, CpuState};
use crate::bus::{Bus, BusState};
use crate::trap::Exception;
use arith::{
    arithmetic, arithmetic_result, double_of_single, finish, finished, from_int, from_single,
    int_result, is_arithmetic, narrow, narrowed,
};
use integral::{fcvt_to_int, int_of};
use pattern::{class_of, classify, larger, smaller, Layout};
use softfloat::Rounding;
use sqrt::sqrt_of;

verus! {

// fflags bits.
pub const NX: u64 = 0x01;

pub const UF: u64 = 0x02;

pub const OF: u64 = 0x04;

pub const DZ: u64 = 0x08;

pub const NV: u64 = 0x10;

pub const NAN_BOX: u64 = 0xFFFF_FFFF_0000_0000;

pub const CANONICAL_NAN_F32: u32 = 0x7FC0_0000;

pub const CANONICAL_NAN_F64: u64 = 0x7FF8_0000_0000_0000;

pub open spec fn layout_of(sz: FpSize) -> Layout {
    match sz {
        FpSize::S => Layout::Single,
        FpSize::D => Layout::Double,
    }
}

/// A single in a register.
pub open spec fn boxed(bits: u32) -> u64 {
    (NAN_BOX + bits) as u64
}

/// Raw low 32 bits if properly boxed, else the canonical NaN pattern.
pub open spec fn unboxed(v: u64) -> u32 {
    if v >= NAN_BOX {
        (v - NAN_BOX) as u32
    } else {
        CANONICAL_NAN_F32
    }
}

/// The pattern an instruction of size `sz` reads from a register.
pub open spec fn read_as(sz: FpSize, v: u64) -> u128 {
    match sz {
        FpSize::S => unboxed(v) as u128,
        FpSize::D => v as u128,
    }
}

/// The register that holds a pattern of size `sz`.
pub open spec fn held_as(sz: FpSize, x: u128) -> u64 {
    match sz {
        FpSize::S => boxed(x as u32),
        FpSize::D => x as u64,
    }
}

/// The rounding direction of a mode encoding.
pub open spec fn rounding_of(eff: u64) -> Rounding {
    if eff == 0 {
        Rounding::NearestEven
    } else if eff == 1 {
        Rounding::Zero
    } else if eff == 2 {
        Rounding::Down
    } else if eff == 3 {
        Rounding::Up
    } else {
        Rounding::NearestAway
    }
}

/// The pattern with the magnitude of `x` and the given sign.
pub open spec fn with_sign(l: Layout, x: u128, negative: bool) -> u128 {
    if negative {
        (l.magnitude(x) + l.sign()) as u128
    } else {
        l.magnitude(x)
    }
}

/// The integer an int -> fp conversion starts from.
pub open spec fn source_int(op: FpOp, v: u64) -> int {
    match op {
        FpOp::CvtFmtW => s32(low(v)),
        FpOp::CvtFmtWu => low(v) as int,
        FpOp::CvtFmtL => s64(v),
        _ => v as int,
    }
}

/// The range an fp -> int conversion clamps to.
pub open spec fn int_range(op: FpOp) -> (int, int) {
    match op {
        FpOp::CvtWFmt => (-0x8000_0000, 0x7fff_ffff),
        FpOp::CvtWuFmt => (0, 0xffff_ffff),
        FpOp::CvtLFmt => (-0x8000_0000_0000_0000, 0x7fff_ffff_ffff_ffff),
        _ => (0, 0xffff_ffff_ffff_ffff),
    }
}

/// The register an fp -> int conversion leaves. W forms sign-extend the
/// 32-bit result, WU included.
pub open spec fn int_register(op: FpOp, v: int) -> u64 {
    if op == FpOp::CvtWuFmt {
        sext32(v as u32)
    } else {
        w64(v)
    }
}

/// A comparison: its outcome, and the flags. FEQ is quiet: NV only on a
/// signaling NaN. FLT/FLE are signaling: NV on any NaN (result 0).
pub open spec fn compared(l: Layout, op: FpOp, a: u128, b: u128) -> (bool, u64) {
    let invalid = match op {
        FpOp::Eq => l.signaling(a) || l.signaling(b),
        _ => l.nan(a) || l.nan(b),
    };
    (
        match op {
            FpOp::Eq => l.equal(a, b),
            FpOp::Lt => l.less(a, b),
            _ => l.less(a, b) || l.equal(a, b),
        },
        if invalid {
            NV
        } else {
            0
        },
    )
}

impl CpuState {
    /// FS set to Dirty.
    pub open spec fn dirtied(self) -> CpuState {
        CpuState { csr: self.csr.with_fs_dirty(), ..self }
    }

    /// The hart after an FP register write.
    pub open spec fn with_freg(self, rd: usize, v: u64) -> CpuState {
        CpuState { fregs: self.fregs.update(rd as int, v), ..self }.dirtied()
    }

    /// The hart after flags are ORed into fcsr; any fflags change dirties FS.
    pub open spec fn with_flags(self, flags: u64) -> CpuState {
        if flags == 0 {
            self
        } else {
            CpuState {
                csr: self.csr.stored(csr::FCSR, self.csr.loaded(csr::FCSR) | (flags & 0x1F)),
                ..self
            }.dirtied()
        }
    }

    /// The rounding direction a mode field selects: dynamic (7) goes by frm.
    /// None for the reserved modes.
    pub open spec fn direction(self, rm: u8) -> Option<Rounding> {
        let eff = if rm == 7 {
            self.csr.loaded(csr::FRM)
        } else {
            rm as u64
        };
        if eff > 4 {
            None
        } else {
            Some(rounding_of(eff))
        }
    }

    /// An FP register as an instruction of size `sz` reads it.
    pub open spec fn operand(self, sz: FpSize, r: usize) -> u128 {
        read_as(sz, self.fregs[r as int])
    }

    /// The hart after a value and its flags are delivered to an FP register.
    pub open spec fn delivered(self, sz: FpSize, rd: usize, o: (u128, u64)) -> CpuState {
        self.with_flags(o.1).with_freg(rd, held_as(sz, o.0))
    }

    /// An F/D instruction that needs no rounding direction.
    pub open spec fn fp_moved(
        self,
        op: FpOp,
        sz: FpSize,
        rd: usize,
        rs1: usize,
        rs2: usize,
    ) -> CpuState {
        let l = layout_of(sz);
        let (a, b) = (self.operand(sz, rs1), self.operand(sz, rs2));
        let nv = if l.signaling(a) || l.signaling(b) {
            NV
        } else {
            0
        };
        match op {
            FpOp::Sgnj => self.with_freg(rd, held_as(sz, with_sign(l, a, l.negative(b)))),
            FpOp::Sgnjn => self.with_freg(rd, held_as(sz, with_sign(l, a, !l.negative(b)))),
            FpOp::Sgnjx => self.with_freg(
                rd,
                held_as(sz, with_sign(l, a, l.negative(a) != l.negative(b))),
            ),
            FpOp::Min => self.delivered(sz, rd, (arith::written(l, smaller(l, a, b)), nv)),
            FpOp::Max => self.delivered(sz, rd, (arith::written(l, larger(l, a, b)), nv)),
            FpOp::Eq | FpOp::Lt | FpOp::Le => {
                let (holds, flags) = compared(l, op, a, b);
                self.with_flags(flags).with_reg(
                    rd,
                    if holds {
                        1
                    } else {
                        0
                    },
                )
            },
            FpOp::Class => self.with_reg(rd, class_of(l, a)),
            FpOp::MvXFmt => self.with_reg(
                rd,
                match sz {
                    FpSize::S => sext32(low(self.fregs[rs1 as int])),
                    FpSize::D => self.fregs[rs1 as int],
                },
            ),
            // A raw bit move into the FP register.
            _ => self.with_freg(
                rd,
                match sz {
                    FpSize::S => boxed(low(self.regs[rs1 as int])),
                    FpSize::D => self.regs[rs1 as int],
                },
            ),
        }
    }

    /// An F/D instruction that rounds.
    pub open spec fn fp_rounded(
        self,
        op: FpOp,
        sz: FpSize,
        rd: usize,
        rs1: usize,
        rs2: usize,
        rs3: usize,
        round: Rounding,
    ) -> CpuState {
        let l = layout_of(sz);
        let a = self.operand(sz, rs1);
        if is_arithmetic(op) {
            let (b, c) = (self.operand(sz, rs2), self.operand(sz, rs3));
            self.delivered(sz, rd, arithmetic_result(l, op, a, b, c, round))
        } else {
            match op {
                FpOp::Sqrt => self.delivered(
                    sz,
                    rd,
                    finished(l, sqrt_of(l, a, round), false, false),
                ),
                FpOp::CvtWFmt | FpOp::CvtWuFmt | FpOp::CvtLFmt | FpOp::CvtLuFmt => {
                    let (v, flags) = int_of(l, a, round, int_range(op).0, int_range(op).1);
                    self.with_flags(flags).with_reg(rd, int_register(op, v))
                },
                FpOp::CvtFmtFmt => match sz {
                    FpSize::S => self.delivered(
                        sz,
                        rd,
                        narrowed(self.operand(FpSize::D, rs1), round),
                    ),
                    FpSize::D => self.delivered(
                        sz,
                        rd,
                        double_of_single(self.operand(FpSize::S, rs1), round),
                    ),
                },
                _ => self.delivered(
                    sz,
                    rd,
                    int_result(l, source_int(op, self.regs[rs1 as int]) as i128, round),
                ),
            }
        }
    }

    /// What an F/D computational instruction does.
    pub open spec fn fp_executed(
        self,
        raw: u32,
        op: FpOp,
        sz: FpSize,
        rd: usize,
        rs1: usize,
        rs2: usize,
        rs3: usize,
        rm: u8,
    ) -> (Result<(), Exception>, CpuState) {
        if !takes_rounding(op) {
            (Ok(()), self.fp_moved(op, sz, rd, rs1, rs2))
        } else {
            match self.direction(rm) {
                None => (Err(Exception::IllegalInstruction(raw as u64)), self),
                Some(round) => (Ok(()), self.fp_rounded(op, sz, rd, rs1, rs2, rs3, round)),
            }
        }
    }

    /// What an FP load does.
    pub open spec fn fp_loaded(self, b: BusState, sz: FpSize, frd: usize, va: u64) -> (
        Result<(), Exception>,
        CpuState,
        BusState,
    ) {
        match sz {
            FpSize::S => {
                let (r, c, b2) = self.loaded(b, va, 4);
                match r {
                    Err(e) => (Err(e), c, b2),
                    Ok(v) => (Ok(()), c.with_freg(frd, boxed(low(v))), b2),
                }
            },
            FpSize::D => {
                let (r, c, b2) = self.loaded(b, va, 8);
                match r {
                    Err(e) => (Err(e), c, b2),
                    Ok(v) => (Ok(()), c.with_freg(frd, v), b2),
                }
            },
        }
    }

    /// What one FP instruction may do; only a store leaves a choice, and that
    /// to the device it reaches.
    pub open spec fn may_execute_fp(
        self,
        b: BusState,
        raw: u32,
        op: Op,
        post: CpuState,
        b2: BusState,
        r: Result<(), Exception>,
    ) -> bool {
        if self.csr.fs_field() == csr::FS_OFF {
            r == Err::<(), Exception>(Exception::IllegalInstruction(raw as u64)) && post == self
                && b2 == b
        } else {
            match op {
                Op::FpLoad { sz, frd, rs1, imm } => (r, post, b2) == self.fp_loaded(
                    b,
                    sz,
                    frd,
                    w64(self.regs[rs1 as int] + imm),
                ),
                Op::FpStore { sz, rs1, frs2, imm } => {
                    let va = w64(self.regs[rs1 as int] + imm);
                    let v = self.fregs[frs2 as int];
                    match sz {
                        // fsw stores the raw low 32 bits.
                        FpSize::S => self.may_store(b, va, low(v) as u64, 4, post, b2, r),
                        FpSize::D => self.may_store(b, va, v, 8, post, b2, r),
                    }
                },
                Op::Fp { op, sz, rd, rs1, rs2, rs3, rm } => (r, post) == self.fp_executed(
                    raw,
                    op,
                    sz,
                    rd,
                    rs1,
                    rs2,
                    rs3,
                    rm,
                ) && b2 == b,
                _ => false,
            }
        }
    }
}

/// The instructions whose rounding-mode field is looked at.
pub open spec fn takes_rounding(op: FpOp) -> bool {
    match op {
        FpOp::Sgnj | FpOp::Sgnjn | FpOp::Sgnjx | FpOp::Min | FpOp::Max | FpOp::MvXFmt
        | FpOp::MvFmtX | FpOp::Class | FpOp::Eq | FpOp::Lt | FpOp::Le => false,
        _ => true,
    }
}

pub fn nan_box(bits: u32) -> (r: u64)
    ensures
        r == boxed(bits),
{
    NAN_BOX + bits as u64
}

/// Raw low 32 bits if properly boxed, else the canonical NaN pattern.
pub fn unbox_bits(v: u64) -> (r: u32)
    ensures
        r == unboxed(v),
{
    if v >= NAN_BOX {
        (v - NAN_BOX) as u32
    } else {
        CANONICAL_NAN_F32
    }
}

fn low_word(v: u64) -> (r: u32)
    ensures
        r == low(v),
{
    (v % 0x1_0000_0000) as u32
}

fn layout(sz: FpSize) -> (r: Layout)
    ensures
        r == layout_of(sz),
        r != Layout::Quad,
{
    match sz {
        FpSize::S => Layout::Single,
        FpSize::D => Layout::Double,
    }
}

fn read_freg(cpu: &Cpu, sz: FpSize, r: usize) -> (x: u128)
    requires
        r < 32,
    ensures
        x == cpu@.operand(sz, r),
        layout_of(sz).holds(x),
{
    match sz {
        FpSize::S => unbox_bits(cpu.fregs[r]) as u128,
        FpSize::D => cpu.fregs[r] as u128,
    }
}

/// OR flags into fcsr; any fflags change dirties FS.
fn set_fflags(cpu: &mut Cpu, flags: u64)
    requires
        old(cpu)@.wf(),
    ensures
        final(cpu)@.wf(),
        final(cpu)@ == old(cpu)@.with_flags(flags),
{
    if flags != 0 {
        let f: u64 = cpu.csr.load_raw(csr::FCSR);
        cpu.csr.store_raw(csr::FCSR, f | (flags & 0x1F));
        cpu.csr.set_fs_dirty();
    }
}

/// Write a register's bits as they are (loads, sgnj and moves: no NaN
/// canonicalization).
fn write_raw(cpu: &mut Cpu, rd: usize, bits: u64)
    requires
        old(cpu)@.wf(),
        rd < 32,
    ensures
        final(cpu)@.wf(),
        final(cpu)@ == old(cpu)@.with_freg(rd, bits),
{
    cpu.fregs[rd] = bits;
    cpu.csr.set_fs_dirty();
}

fn write_pattern(cpu: &mut Cpu, sz: FpSize, rd: usize, x: u128)
    requires
        old(cpu)@.wf(),
        rd < 32,
        layout_of(sz).holds(x),
    ensures
        final(cpu)@.wf(),
        final(cpu)@ == old(cpu)@.with_freg(rd, held_as(sz, x)),
{
    match sz {
        FpSize::S => write_raw(cpu, rd, nan_box(x as u32)),
        FpSize::D => write_raw(cpu, rd, x as u64),
    }
}

/// Raise the flags of a computational result and write it.
fn deliver(cpu: &mut Cpu, sz: FpSize, rd: usize, o: (u128, u64))
    requires
        old(cpu)@.wf(),
        rd < 32,
        layout_of(sz).holds(o.0),
    ensures
        final(cpu)@.wf(),
        final(cpu)@ == old(cpu)@.delivered(sz, rd, o),
{
    set_fflags(cpu, o.1);
    write_pattern(cpu, sz, rd, o.0);
}

/// Validate the rounding-mode field and resolve dynamic mode via frm.
fn resolve_rm(cpu: &Cpu, raw: u32, rm: u8) -> (r: Result<Rounding, Exception>)
    ensures
        r == (match cpu@.direction(rm) {
            Some(round) => Ok::<Rounding, Exception>(round),
            None => Err::<Rounding, Exception>(Exception::IllegalInstruction(raw as u64)),
        }),
{
    let eff: u64 = if rm == 7 {
        cpu.csr.load_raw(csr::FRM)
    } else {
        rm as u64
    };
    if eff > 4 {
        return Err(Exception::IllegalInstruction(raw as u64));
    }
    Ok(
        if eff == 0 {
            Rounding::NearestEven
        } else if eff == 1 {
            Rounding::Zero
        } else if eff == 2 {
            Rounding::Down
        } else if eff == 3 {
            Rounding::Up
        } else {
            Rounding::NearestAway
        },
    )
}

/// Execute one FP op (`Op::FpLoad`, `Op::FpStore`, or `Op::Fp`).
pub fn execute(cpu: &mut Cpu, bus: &mut Bus, raw: u32, op: &Op) -> (r: Result<(), Exception>)
    requires
        old(cpu)@.wf(),
        old(bus).wf(),
        operands_in_range(*op),
        op is FpLoad || op is FpStore || op is Fp,
    ensures
        final(cpu)@.wf(),
        final(bus).wf(),
        final(bus)@.ram.bytes.len() == old(bus)@.ram.bytes.len(),
        old(cpu)@.may_execute_fp(old(bus)@, raw, *op, final(cpu)@, final(bus)@, r),
{
    if cpu.csr.fs() == csr::FS_OFF {
        return Err(Exception::IllegalInstruction(raw as u64));
    }
    match *op {
        Op::FpLoad { sz, frd, rs1, imm } => {
            let addr: u64 = offset(cpu.reg(rs1), imm);
            match sz {
                FpSize::S => {
                    let v: u64 = cpu.load(bus, addr, 4)?;
                    write_raw(cpu, frd, nan_box(low_word(v)));
                },
                FpSize::D => {
                    let v: u64 = cpu.load(bus, addr, 8)?;
                    write_raw(cpu, frd, v);
                },
            }
            Ok(())
        },
        Op::FpStore { sz, rs1, frs2, imm } => {
            let addr: u64 = offset(cpu.reg(rs1), imm);
            let v: u64 = cpu.fregs[frs2];
            match sz {
                // fsw stores the raw low 32 bits (no unboxing/canonicalization).
                FpSize::S => cpu.store(bus, addr, low_word(v) as u64, 4),
                FpSize::D => cpu.store(bus, addr, v, 8),
            }
        },
        Op::Fp { op: fop, sz, rd, rs1, rs2, rs3, rm } => exec_fp(
            cpu,
            raw,
            fop,
            sz,
            rd,
            rs1,
            rs2,
            rs3,
            rm,
        ),
        _ => Ok(()),
    }
}

fn exec_fp(
    cpu: &mut Cpu,
    raw: u32,
    fop: FpOp,
    sz: FpSize,
    rd: usize,
    rs1: usize,
    rs2: usize,
    rs3: usize,
    rm: u8,
) -> (r: Result<(), Exception>)
    requires
        old(cpu)@.wf(),
        rd < 32,
        rs1 < 32,
        rs2 < 32,
        rs3 < 32,
    ensures
        final(cpu)@.wf(),
        (r, final(cpu)@) == old(cpu)@.fp_executed(raw, fop, sz, rd, rs1, rs2, rs3, rm),
{
    match fop {
        FpOp::Sgnj | FpOp::Sgnjn | FpOp::Sgnjx | FpOp::Min | FpOp::Max | FpOp::MvXFmt
        | FpOp::MvFmtX | FpOp::Class | FpOp::Eq | FpOp::Lt | FpOp::Le => {
            exec_move(cpu, fop, sz, rd, rs1, rs2);
            Ok(())
        },
        _ => {
            let round = resolve_rm(cpu, raw, rm)?;
            exec_rounded(cpu, fop, sz, rd, rs1, rs2, rs3, round);
            Ok(())
        },
    }
}

fn exec_rounded(
    cpu: &mut Cpu,
    fop: FpOp,
    sz: FpSize,
    rd: usize,
    rs1: usize,
    rs2: usize,
    rs3: usize,
    round: Rounding,
)
    requires
        old(cpu)@.wf(),
        rd < 32,
        rs1 < 32,
        rs2 < 32,
        rs3 < 32,
        takes_rounding(fop),
    ensures
        final(cpu)@.wf(),
        final(cpu)@ == old(cpu)@.fp_rounded(fop, sz, rd, rs1, rs2, rs3, round),
{
    let l = layout(sz);
    match fop {
        FpOp::Add | FpOp::Sub | FpOp::Mul | FpOp::Div | FpOp::Madd | FpOp::Msub | FpOp::Nmsub
        | FpOp::Nmadd => {
            let a: u128 = read_freg(cpu, sz, rs1);
            let b: u128 = read_freg(cpu, sz, rs2);
            let c: u128 = read_freg(cpu, sz, rs3);
            deliver(cpu, sz, rd, arithmetic(l, fop, a, b, c, round));
        },
        FpOp::Sqrt => {
            let a: u128 = read_freg(cpu, sz, rs1);
            deliver(cpu, sz, rd, finish(l, sqrt::sqrt(l, a, round), false, false));
        },
        FpOp::CvtWFmt | FpOp::CvtWuFmt | FpOp::CvtLFmt | FpOp::CvtLuFmt => {
            let a: u128 = read_freg(cpu, sz, rs1);
            let (min, max): (i128, i128) = match fop {
                FpOp::CvtWFmt => (-0x8000_0000, 0x7fff_ffff),
                FpOp::CvtWuFmt => (0, 0xffff_ffff),
                FpOp::CvtLFmt => (-0x8000_0000_0000_0000, 0x7fff_ffff_ffff_ffff),
                _ => (0, 0xffff_ffff_ffff_ffff),
            };
            let (v, fl) = fcvt_to_int(l, a, round, min, max);
            let out: u64 = match fop {
                // W forms sign-extend the 32-bit result (WU included).
                FpOp::CvtWuFmt => extend32(v as u32),
                _ => if v < 0 {
                    (v + 0x1_0000_0000_0000_0000) as u64
                } else {
                    v as u64
                },
            };
            set_fflags(cpu, fl);
            cpu.set_reg(rd, out);
        },
        FpOp::CvtFmtFmt => match sz {
            // fcvt.s.d: narrow f64 -> f32.
            FpSize::S => {
                let a: u128 = read_freg(cpu, FpSize::D, rs1);
                deliver(cpu, sz, rd, narrow(a, round));
            },
            // fcvt.d.s: widen f32 -> f64 (exact).
            FpSize::D => {
                let a: u128 = read_freg(cpu, FpSize::S, rs1);
                deliver(cpu, sz, rd, from_single(a, round));
            },
        },
        _ => {
            let v: u64 = cpu.reg(rs1);
            let w: u32 = low_word(v);
            let source: i128 = match fop {
                FpOp::CvtFmtW => if w >= 0x8000_0000 {
                    w as i128 - 0x1_0000_0000
                } else {
                    w as i128
                },
                FpOp::CvtFmtWu => w as i128,
                FpOp::CvtFmtL => if v >= 0x8000_0000_0000_0000 {
                    v as i128 - 0x1_0000_0000_0000_0000
                } else {
                    v as i128
                },
                _ => v as i128,
            };
            deliver(cpu, sz, rd, from_int(l, source, round));
        },
    }
}

fn exec_move(cpu: &mut Cpu, fop: FpOp, sz: FpSize, rd: usize, rs1: usize, rs2: usize)
    requires
        old(cpu)@.wf(),
        rd < 32,
        rs1 < 32,
        rs2 < 32,
        !takes_rounding(fop),
    ensures
        final(cpu)@.wf(),
        final(cpu)@ == old(cpu)@.fp_moved(fop, sz, rd, rs1, rs2),
{
    let l = layout(sz);
    let a: u128 = read_freg(cpu, sz, rs1);
    let b: u128 = read_freg(cpu, sz, rs2);
    match fop {
        FpOp::Sgnj | FpOp::Sgnjn | FpOp::Sgnjx => {
            let negative = match fop {
                FpOp::Sgnj => l.is_negative(b),
                FpOp::Sgnjn => !l.is_negative(b),
                _ => l.is_negative(a) != l.is_negative(b),
            };
            let bits: u128 = if negative {
                l.abs(a) + l.sign_bit()
            } else {
                l.abs(a)
            };
            write_pattern(cpu, sz, rd, bits);
        },
        FpOp::Min | FpOp::Max => {
            let nv: u64 = if l.is_signaling(a) || l.is_signaling(b) {
                NV
            } else {
                0
            };
            let r: u128 = match fop {
                FpOp::Min => pattern::min(l, a, b),
                _ => pattern::max(l, a, b),
            };
            let value: u128 = if l.is_nan(r) {
                pattern::canonical(l)
            } else {
                r
            };
            deliver(cpu, sz, rd, (value, nv));
        },
        FpOp::Eq | FpOp::Lt | FpOp::Le => {
            // Integer destination: FS only dirtied if fflags change.
            let holds = match fop {
                FpOp::Eq => l.eq_values(a, b),
                FpOp::Lt => l.lt_values(a, b),
                _ => l.lt_values(a, b) || l.eq_values(a, b),
            };
            let invalid = match fop {
                // FEQ is quiet: NV only on signaling NaN.
                FpOp::Eq => l.is_signaling(a) || l.is_signaling(b),
                // FLT/FLE are signaling: NV on any NaN (result 0).
                _ => l.is_nan(a) || l.is_nan(b),
            };
            set_fflags(
                cpu,
                if invalid {
                    NV
                } else {
                    0
                },
            );
            cpu.set_reg(
                rd,
                if holds {
                    1
                } else {
                    0
                },
            );
        },
        FpOp::Class => cpu.set_reg(rd, classify(l, a)),
        FpOp::MvXFmt => {
            // Raw bit move to the integer register; no fflags, no FS dirty.
            let v: u64 = match sz {
                FpSize::S => extend32(low_word(cpu.fregs[rs1])),
                FpSize::D => cpu.fregs[rs1],
            };
            cpu.set_reg(rd, v);
        },
        _ => {
            let v: u64 = cpu.reg(rs1);
            match sz {
                FpSize::S => write_raw(cpu, rd, nan_box(low_word(v))),
                FpSize::D => write_raw(cpu, rd, v),
            }
        },
    }
}

// ---------------------------------------------------------------------------
// Laws
// ---------------------------------------------------------------------------

/// What a register is made to hold, an instruction of the same size reads
/// back, and a value that is not boxed reads as the canonical quiet NaN.
pub proof fn law_boxing_round_trip(sz: FpSize, x: u128, v: u64)
    requires
        layout_of(sz).holds(x),
    ensures
        read_as(sz, held_as(sz, x)) == x,
        v < NAN_BOX ==> read_as(FpSize::S, v) == pattern::canonical_nan(Layout::Single)
            && class_of(Layout::Single, read_as(FpSize::S, v)) == 0x200,
{
}

/// While FS is Off every FP instruction is illegal and changes nothing.
pub proof fn law_fp_is_illegal_while_off(
    c: CpuState,
    b: BusState,
    raw: u32,
    op: Op,
    post: CpuState,
    b2: BusState,
    r: Result<(), Exception>,
)
    requires
        c.csr.fs_field() == csr::FS_OFF,
        c.may_execute_fp(b, raw, op, post, b2, r),
    ensures
        r == Err::<(), Exception>(Exception::IllegalInstruction(raw as u64)),
        post == c,
        b2 == b,
{
}

proof fn lemma_dirty(word: u64, fcsr: u64, flags: u64)
    by (bit_vector)
    ensures
        ((word | csr::mstatus::FS_MASK) & csr::mstatus::FS_MASK) >> csr::mstatus::FS_SHIFT == 3,
        (fcsr | (flags & 0x1F)) & 0x1F == (fcsr & 0x1F) | (flags & 0x1F),
        (fcsr | (flags & 0x1F)) >> 5 == fcsr >> 5,
        (fcsr & 0x1F) | (0u64 & 0x1F) == fcsr & 0x1F,
        (fcsr & 0x1F) | 0 == fcsr & 0x1F,
        0x10u64 & 0x1F == 0x10,
{
}

/// A write to an FP register, and any flag raised, leaves FS Dirty. Flags
/// accumulate, and the rounding mode beside them stays.
pub proof fn law_fp_state_is_marked_dirty(c: CpuState, rd: usize, v: u64, flags: u64)
    ensures
        c.with_freg(rd, v).csr.fs_field() == csr::FS_DIRTY,
        flags != 0 ==> c.with_flags(flags).csr.fs_field() == csr::FS_DIRTY,
        flags == 0 ==> c.with_flags(flags) == c,
        c.with_flags(flags).csr.loaded(csr::FFLAGS) == c.csr.loaded(csr::FFLAGS) | (flags & 0x1F),
        c.with_flags(flags).csr.loaded(csr::FRM) == c.csr.loaded(csr::FRM),
{
    lemma_dirty(c.csr.word(csr::MSTATUS), c.csr.word(csr::FCSR), flags);
    lemma_dirty(c.csr.word(csr::MSTATUS), c.csr.word(csr::FCSR), 0);
}

/// The flags of a result are among the five, and an exact result raises
/// neither overflow nor inexact.
pub proof fn law_flags_are_consistent(l: Layout, r: softfloat::Rounded, past: bool, tiny: bool)
    ensures
        arith::flags_of(l, r, past, tiny) <= 0x1F,
        r.status & softfloat::INEXACT == 0 ==> arith::flags_of(l, r, past, tiny) & (NX | OF) == 0,
        r.status & softfloat::INEXACT != 0 ==> arith::flags_of(l, r, past, tiny) & NX != 0,
{
    lemma_flags(
        r.status & softfloat::INVALID_OP != 0,
        r.status & softfloat::DIV_BY_ZERO != 0,
        r.status & softfloat::INEXACT != 0 && past,
        r.status & softfloat::UNDERFLOW != 0 || tiny || (r.status & softfloat::INEXACT != 0 && !past
            && (l.subnormal(r.value) || l.zero(r.value))),
        r.status & softfloat::INEXACT != 0,
    );
}

proof fn lemma_flags(nv: bool, dz: bool, of: bool, uf: bool, nx: bool)
    by (bit_vector)
    ensures
        ({
            let flags = (if nv {
                NV
            } else {
                0
            }) | (if dz {
                DZ
            } else {
                0
            }) | (if of {
                OF
            } else {
                0
            }) | (if uf {
                UF
            } else {
                0
            }) | (if nx {
                NX
            } else {
                0
            });
            &&& flags <= 0x1F
            &&& !nx && !of ==> flags & (NX | OF) == 0
            &&& nx ==> flags & NX != 0
            &&& (flags & 0x10 != 0) == nv
            &&& (flags & 8 != 0) == dz
            &&& (flags & 4 != 0) == of
            &&& (flags & 2 != 0) == uf
            &&& (flags & 1 != 0) == nx
        }),
{
}

/// The sign bit, the pattern of infinity and that of the default NaN in the
/// two formats.
pub open spec fn format(l: Layout, sign: u128, infinity: u128, nan: u128) -> bool {
    match l {
        Layout::Single => sign == 0x8000_0000 && infinity == 0x7f80_0000 && nan == 0x7fc0_0000,
        Layout::Double => sign == 0x8000_0000_0000_0000 && infinity == 0x7ff0_0000_0000_0000 && nan
            == 0x7ff8_0000_0000_0000,
        Layout::Quad => false,
    }
}

/// Comparing values compares patterns: above the sign bit in reverse, the two
/// zeros alike, and no NaN with anything.
pub proof fn law_comparisons_by_pattern(
    l: Layout,
    a: u128,
    b: u128,
    sign: u128,
    infinity: u128,
    nan: u128,
)
    requires
        format(l, sign, infinity, nan),
        a < 2 * sign,
        b < 2 * sign,
    ensures
        ({
            let unordered = a % sign > infinity || b % sign > infinity;
            let equal = !unordered && (a == b || (a % sign == 0 && b % sign == 0));
            let less = !unordered && !equal && if a < sign {
                b < sign && a < b
            } else {
                b < sign || a > b
            };
            &&& compared(l, FpOp::Eq, a, b).0 == equal
            &&& compared(l, FpOp::Lt, a, b).0 == less
            &&& compared(l, FpOp::Le, a, b).0 == (less || equal)
            &&& compared(l, FpOp::Lt, a, b).1 == if unordered {
                0x10u64
            } else {
                0
            }
            &&& compared(l, FpOp::Le, a, b).1 == compared(l, FpOp::Lt, a, b).1
            &&& compared(l, FpOp::Eq, a, b).1 == if (infinity < a % sign < nan) || (infinity < b
                % sign < nan) {
                0x10u64
            } else {
                0
            }
        }),
{
    lemma_magnitude(l, a, sign);
    lemma_magnitude(l, b, sign);
}

proof fn lemma_magnitude(l: Layout, x: u128, sign: u128)
    requires
        sign == l.sign(),
        l != Layout::Quad,
        x < 2 * sign,
    ensures
        x % sign == l.magnitude(x),
{
    if x >= sign {
        assert(x % sign == x - sign) by (nonlinear_arith)
            requires
                sign > 0,
                sign <= x < 2 * sign,
        ;
    } else {
        assert(x % sign == x) by (nonlinear_arith)
            requires
                0 <= x < sign,
        ;
    }
}

/// fclass by pattern, from minus infinity up to the quiet NaNs.
pub proof fn law_classes_by_pattern(
    l: Layout,
    x: u128,
    sign: u128,
    infinity: u128,
    nan: u128,
    normal: u128,
)
    requires
        format(l, sign, infinity, nan),
        normal == if l == Layout::Single {
            0x80_0000u128
        } else {
            0x10_0000_0000_0000
        },
        x < 2 * sign,
    ensures
        class_of(l, x) == {
            let m = x % sign;
            if m >= nan {
                0x200u64
            } else if m > infinity {
                0x100
            } else if m == infinity {
                if x >= sign {
                    0x001
                } else {
                    0x080
                }
            } else if m >= normal {
                if x >= sign {
                    0x002
                } else {
                    0x040
                }
            } else if m > 0 {
                if x >= sign {
                    0x004
                } else {
                    0x020
                }
            } else {
                if x >= sign {
                    0x008
                } else {
                    0x010
                }
            }
        },
{
    lemma_magnitude(l, x, sign);
}

/// Of a NaN and a number, fmin and fmax give the number; of two NaNs the
/// default one. A signaling NaN raises NV and nothing else does.
pub proof fn law_min_max_of_nans(
    c: CpuState,
    sz: FpSize,
    rd: usize,
    rs1: usize,
    rs2: usize,
    sign: u128,
    infinity: u128,
    nan: u128,
)
    requires
        format(layout_of(sz), sign, infinity, nan),
        c.fregs.len() == 32,
        rd < 32,
    ensures
        ({
            let (a, b) = (c.operand(sz, rs1), c.operand(sz, rs2));
            let (lo, hi) = (
                c.fp_moved(FpOp::Min, sz, rd, rs1, rs2),
                c.fp_moved(FpOp::Max, sz, rd, rs1, rs2),
            );
            let (nan_a, nan_b) = (a % sign > infinity, b % sign > infinity);
            let signals = (infinity < a % sign < nan) || (infinity < b % sign < nan);
            &&& nan_a && !nan_b ==> lo.operand(sz, rd) == b && hi.operand(sz, rd) == b
            &&& !nan_a && nan_b ==> lo.operand(sz, rd) == a && hi.operand(sz, rd) == a
            &&& nan_a && nan_b ==> lo.operand(sz, rd) == nan && hi.operand(sz, rd) == nan
            &&& lo.csr.loaded(csr::FFLAGS) == c.csr.loaded(csr::FFLAGS) | (if signals {
                0x10u64
            } else {
                0
            })
            &&& hi.csr.loaded(csr::FFLAGS) == lo.csr.loaded(csr::FFLAGS)
        }),
{
    let l = layout_of(sz);
    let (a, b) = (c.operand(sz, rs1), c.operand(sz, rs2));
    lemma_magnitude(l, a, sign);
    lemma_magnitude(l, b, sign);
    let f = c.csr.word(csr::FCSR);
    lemma_dirty(0, f, 0x10);
}

/// Sign injection keeps the first operand's magnitude bits; the sign is the
/// second's, its opposite, or the exclusive or of both.
pub proof fn law_sign_injection(
    c: CpuState,
    sz: FpSize,
    rd: usize,
    rs1: usize,
    rs2: usize,
    sign: u128,
    infinity: u128,
    nan: u128,
)
    requires
        format(layout_of(sz), sign, infinity, nan),
        c.fregs.len() == 32,
        rd < 32,
    ensures
        ({
            let (a, b) = (c.operand(sz, rs1), c.operand(sz, rs2));
            let got = |op: FpOp| c.fp_moved(op, sz, rd, rs1, rs2).operand(sz, rd);
            &&& got(FpOp::Sgnj) % sign == a % sign && got(FpOp::Sgnjn) % sign == a % sign && got(
                FpOp::Sgnjx,
            ) % sign == a % sign
            &&& (got(FpOp::Sgnj) >= sign) == (b >= sign)
            &&& (got(FpOp::Sgnjn) >= sign) == (b < sign)
            &&& (got(FpOp::Sgnjx) >= sign) == ((a >= sign) != (b >= sign))
        }),
{
    let l = layout_of(sz);
    let (a, b) = (c.operand(sz, rs1), c.operand(sz, rs2));
    lemma_magnitude(l, a, sign);
    lemma_magnitude(l, b, sign);
    lemma_magnitude(l, with_sign(l, a, true), sign);
    lemma_magnitude(l, with_sign(l, a, false), sign);
}

/// The rounding-mode field: nearest even, towards zero, down, up, nearest away
/// for 0 to 4; 5 and 6 are illegal; 7 goes by frm, and is illegal while that
/// holds more than 4.
pub proof fn law_rounding_mode_field(c: CpuState, rm: u8)
    requires
        rm < 8,
    ensures
        ({
            let named = |n: int|
                if n == 0 {
                    Some(Rounding::NearestEven)
                } else if n == 1 {
                    Some(Rounding::Zero)
                } else if n == 2 {
                    Some(Rounding::Down)
                } else if n == 3 {
                    Some(Rounding::Up)
                } else if n == 4 {
                    Some(Rounding::NearestAway)
                } else {
                    None
                };
            c.direction(rm) == if rm == 7 {
                named(c.csr.loaded(csr::FRM) as int)
            } else {
                named(rm as int)
            }
        }),
{
}

/// Rounding a magnitude of `s` units of `2^-n` to an integer: nearest is never
/// further off than half, at exactly half to the even one, or away; towards
/// zero drops the rest; down and up drop it or go one up by sign.
pub proof fn law_rounding_to_integer(negative: bool, s: nat, n: nat)
    requires
        n > 0,
    ensures
        ({
            let unit = vstd::arithmetic::power2::pow2(n);
            let below = s / unit;
            let rest = s % unit;
            let at = |round: Rounding| integral::whole(round, negative, s, -(n as int));
            &&& rest == 0 ==> at(Rounding::NearestEven) == below && at(Rounding::NearestAway)
                == below && at(Rounding::Zero) == below && at(Rounding::Down) == below && at(
                Rounding::Up,
            ) == below
            &&& rest + rest < unit ==> at(Rounding::NearestEven) == below && at(
                Rounding::NearestAway,
            ) == below
            &&& rest + rest > unit ==> at(Rounding::NearestEven) == below + 1 && at(
                Rounding::NearestAway,
            ) == below + 1
            &&& rest + rest == unit ==> at(Rounding::NearestEven) % 2 == 0 && at(
                Rounding::NearestAway,
            ) == below + 1
            &&& rest + rest == unit ==> at(Rounding::NearestEven) == below || at(
                Rounding::NearestEven,
            ) == below + 1
            &&& at(Rounding::Zero) == below
            &&& rest > 0 ==> at(Rounding::Down) == if negative {
                below + 1
            } else {
                below
            }
            &&& rest > 0 ==> at(Rounding::Up) == if negative {
                below
            } else {
                below + 1
            }
        }),
{
    vstd::arithmetic::power2::lemma_pow2_pos(n);
}

/// Converting to an integer: NaN and what lies above the range give the
/// largest, what lies below it the smallest, with NV alone; else the rounded
/// value, with NX exactly where that is not the value itself.
pub proof fn law_integer_conversions(
    l: Layout,
    x: u128,
    round: Rounding,
    op: FpOp,
    sign: u128,
    infinity: u128,
    nan: u128,
)
    requires
        format(l, sign, infinity, nan),
        x < 2 * sign,
        op == FpOp::CvtWFmt || op == FpOp::CvtWuFmt || op == FpOp::CvtLFmt || op == FpOp::CvtLuFmt,
    ensures
        ({
            let (min, max) = if op == FpOp::CvtWFmt {
                (-0x8000_0000int, 0x7fff_ffffint)
            } else if op == FpOp::CvtWuFmt {
                (0, 0xffff_ffff)
            } else if op == FpOp::CvtLFmt {
                (-0x8000_0000_0000_0000, 0x7fff_ffff_ffff_ffff)
            } else {
                (0, 0xffff_ffff_ffff_ffff)
            };
            let (v, flags) = int_of(l, x, round, int_range(op).0, int_range(op).1);
            let exact = integral::integral(l, x, round);
            &&& x % sign > infinity ==> v == max && flags == 0x10
            &&& x == infinity ==> v == max && flags == 0x10
            &&& x == infinity + sign ==> v == min && flags == 0x10
            &&& x % sign < infinity && exact > max ==> v == max && flags == 0x10
            &&& x % sign < infinity && exact < min ==> v == min && flags == 0x10
            &&& x % sign < infinity && min <= exact <= max ==> v == exact && flags
                == if integral::is_whole(l.significand(x), l.exponent(x)) {
                0u64
            } else {
                1
            }
        }),
{
    lemma_magnitude(l, x, sign);
}

/// The word conversions leave a sign-extended word, the unsigned one too; the
/// doubleword ones the number modulo 2^64.
pub proof fn law_converted_registers(v: int)
    ensures
        0 <= v <= 0xffff_ffff ==> int_register(FpOp::CvtWuFmt, v) == if v < 0x8000_0000 {
            v
        } else {
            v + 0xffff_ffff_0000_0000
        },
        -0x8000_0000 <= v < 0x8000_0000 ==> int_register(FpOp::CvtWFmt, v) == if v < 0 {
            v + 0x1_0000_0000_0000_0000
        } else {
            v
        },
        -0x8000_0000_0000_0000 <= v < 0x8000_0000_0000_0000 ==> int_register(FpOp::CvtLFmt, v)
            == if v < 0 {
            v + 0x1_0000_0000_0000_0000
        } else {
            v
        },
        0 <= v < 0x1_0000_0000_0000_0000 ==> int_register(FpOp::CvtLuFmt, v) == v,
{
    if 0 <= v <= 0xffff_ffff {
        crate::cpu::alu::lemma_sext32(v as u32);
    }
}

/// The integer a conversion from one starts with: the low word, signed or
/// not, or the whole register, signed or not.
pub proof fn law_converted_integers(v: u64)
    ensures
        source_int(FpOp::CvtFmtWu, v) == v % 0x1_0000_0000,
        source_int(FpOp::CvtFmtLu, v) == v,
        source_int(FpOp::CvtFmtW, v) == if v % 0x1_0000_0000 < 0x8000_0000 {
            (v % 0x1_0000_0000) as int
        } else {
            v % 0x1_0000_0000 - 0x1_0000_0000
        },
        source_int(FpOp::CvtFmtL, v) == if v < 0x8000_0000_0000_0000 {
            v as int
        } else {
            v - 0x1_0000_0000_0000_0000
        },
{
}

/// The fused forms are one operation with the signs of the product and of the
/// addend chosen, and a sign is one bit.
pub proof fn law_fused_signs(
    l: Layout,
    a: u128,
    b: u128,
    c: u128,
    round: Rounding,
    sign: u128,
    infinity: u128,
    nan: u128,
)
    requires
        format(l, sign, infinity, nan),
        a < 2 * sign,
        c < 2 * sign,
    ensures
        ({
            let flip = |x: u128|
                if x >= sign {
                    (x - sign) as u128
                } else {
                    (x + sign) as u128
                };
            let at = |op: FpOp, x: u128, y: u128| arith::computed(l, op, x, b, y, round);
            &&& at(FpOp::Msub, a, c) == at(FpOp::Madd, a, flip(c))
            &&& at(FpOp::Nmsub, a, c) == at(FpOp::Madd, flip(a), c)
            &&& at(FpOp::Nmadd, a, c) == at(FpOp::Madd, flip(a), flip(c))
            &&& at(FpOp::Nmadd, a, c) == at(FpOp::Msub, flip(a), c)
        }),
{
}

/// The outcome of an arithmetic instruction is the rounded one, but that every
/// NaN is the default NaN; its five flags are what the rounding reports, with
/// overflow by the unbounded exponent and underflow for what is tiny and
/// inexact.
pub proof fn law_delivered_results(
    l: Layout,
    r: softfloat::Rounded,
    past: bool,
    tiny: bool,
    sign: u128,
    infinity: u128,
    nan: u128,
)
    requires
        format(l, sign, infinity, nan),
        r.value < 2 * sign,
    ensures
        ({
            let (v, flags) = finished(l, r, past, tiny);
            let inexact = r.status & softfloat::INEXACT != 0;
            &&& r.value % sign > infinity ==> v == nan
            &&& r.value % sign <= infinity ==> v == r.value
            &&& (flags & 0x10 != 0) == (r.status & softfloat::INVALID_OP != 0)
            &&& (flags & 8 != 0) == (r.status & softfloat::DIV_BY_ZERO != 0)
            &&& (flags & 4 != 0) == (inexact && past)
            &&& (flags & 1 != 0) == inexact
            &&& inexact && !past && r.value % sign < l.normal() ==> flags & 2 != 0
            &&& !inexact && !tiny && r.status & softfloat::UNDERFLOW == 0 ==> flags & 2 == 0
            &&& tiny ==> flags & 2 != 0
        }),
{
    lemma_magnitude(l, r.value, sign);
    lemma_flags(
        r.status & softfloat::INVALID_OP != 0,
        r.status & softfloat::DIV_BY_ZERO != 0,
        r.status & softfloat::INEXACT != 0 && past,
        r.status & softfloat::UNDERFLOW != 0 || tiny || (r.status & softfloat::INEXACT != 0 && !past
            && (l.subnormal(r.value) || l.zero(r.value))),
        r.status & softfloat::INEXACT != 0,
    );
}

/// The moves between register files copy bits: a word goes out sign-extended,
/// boxed or not, and comes in boxed; a doubleword goes both ways as it is.
/// Neither raises a flag.
pub proof fn law_raw_moves(c: CpuState, rd: usize, rs1: usize, rs2: usize)
    requires
        c.regs.len() == 32,
        c.fregs.len() == 32,
        0 < rd < 32,
        rs1 < 32,
    ensures
        ({
            let f = c.fregs[rs1 as int];
            let x = c.regs[rs1 as int];
            let word = c.fp_moved(FpOp::MvXFmt, FpSize::S, rd, rs1, rs2);
            let boxing = c.fp_moved(FpOp::MvFmtX, FpSize::S, rd, rs1, rs2);
            &&& word.x(rd) == if f % 0x1_0000_0000 < 0x8000_0000 {
                (f % 0x1_0000_0000) as int
            } else {
                f % 0x1_0000_0000 + 0xffff_ffff_0000_0000
            }
            &&& word.fregs == c.fregs && word.csr == c.csr
            &&& boxing.fregs[rd as int] == 0xffff_ffff_0000_0000 + x % 0x1_0000_0000
            &&& boxing.regs == c.regs
            &&& boxing.csr.loaded(csr::FFLAGS) == c.csr.loaded(csr::FFLAGS)
            &&& c.fp_moved(FpOp::MvXFmt, FpSize::D, rd, rs1, rs2).x(rd) == f
            &&& c.fp_moved(FpOp::MvFmtX, FpSize::D, rd, rs1, rs2).fregs[rd as int] == x
        }),
{
    crate::cpu::alu::lemma_sext32((c.fregs[rs1 as int] % 0x1_0000_0000) as u32);
}

/// A single-precision load boxes its word; the store takes the low word as it
/// is, boxed or not.
pub proof fn law_float_loads_and_stores(
    c: CpuState,
    b: BusState,
    frd: usize,
    va: u64,
)
    requires
        c.fregs.len() == 32,
        frd < 32,
    ensures
        c.fp_loaded(b, FpSize::S, frd, va).0 is Ok == c.loaded(b, va, 4).0 is Ok,
        c.fp_loaded(b, FpSize::D, frd, va).0 is Ok == c.loaded(b, va, 8).0 is Ok,
        c.loaded(b, va, 4).0 is Ok ==> c.fp_loaded(b, FpSize::S, frd, va).1.fregs[frd as int]
            == 0xffff_ffff_0000_0000 + c.loaded(b, va, 4).0->Ok_0 % 0x1_0000_0000,
        c.loaded(b, va, 8).0 is Ok ==> c.fp_loaded(b, FpSize::D, frd, va).1.fregs[frd as int]
            == c.loaded(b, va, 8).0->Ok_0,
{
    crate::cpu::memory::law_loads_change_only_the_tlb(c, b, va, 4);
    crate::cpu::memory::law_loads_change_only_the_tlb(c, b, va, 8);
}

} // verus!
