//! Instruction decoder: raw bits -> `DecodedInst`.
//!
//! `decode` accepts a 32-bit fetch window. If the low two bits are `11` it is
//! a standard 32-bit instruction (`len == 4`); otherwise the low 16 bits are a
//! compressed (C-extension) instruction which is expanded to the same `Op`
//! representation (`len == 2`). Illegal encodings return `Err(())`, mapped by
//! the caller to `Exception::IllegalInstruction(raw)`.
//!
//! [`encodes`] is the instruction-set table the decoder is held to: it says,
//! operation by operation, which fields of a 32-bit word select it and where
//! its operands sit. [`expansion`] is the same for the compressed formats.

use vstd::prelude::*;

pub use super::bitmanip::{BitImmOp, BitOp, BitUnaryOp};

verus! {

#[derive(Debug, Clone, Copy, PartialEq, Eq, Structural)]
pub enum BranchCond {
    Eq,
    Ne,
    Lt,
    Ge,
    Ltu,
    Geu,
}

#[derive(Debug, Clone, Copy, PartialEq, Eq, Structural)]
pub enum LoadKind {
    B,
    H,
    W,
    D,
    Bu,
    Hu,
    Wu,
}

#[derive(Debug, Clone, Copy, PartialEq, Eq, Structural)]
pub enum StoreKind {
    B,
    H,
    W,
    D,
}

/// Integer ALU ops, shared by OpImm/OpReg (and the 32-bit `*W` forms).
/// M-extension ops only appear in `OpReg`/`OpReg32`.
#[derive(Debug, Clone, Copy, PartialEq, Eq, Structural)]
pub enum AluOp {
    Add,
    Sub,
    Sll,
    Slt,
    Sltu,
    Xor,
    Srl,
    Sra,
    Or,
    And,
    Mul,
    Mulh,
    Mulhsu,
    Mulhu,
    Div,
    Divu,
    Rem,
    Remu,
}

#[derive(Debug, Clone, Copy, PartialEq, Eq, Structural)]
pub enum CsrOp {
    Rw,
    Rs,
    Rc,
    Rwi,
    Rsi,
    Rci,
}

#[derive(Debug, Clone, Copy, PartialEq, Eq, Structural)]
pub enum AmoWidth {
    W,
    D,
}

#[derive(Debug, Clone, Copy, PartialEq, Eq, Structural)]
pub enum AmoOp {
    Swap,
    Add,
    Xor,
    And,
    Or,
    Min,
    Max,
    Minu,
    Maxu,
}

#[derive(Debug, Clone, Copy, PartialEq, Eq, Structural)]
pub enum FpSize {
    S,
    D,
}

/// Floating-point operations (F and D share this via `FpSize`).
#[derive(Debug, Clone, Copy, PartialEq, Eq, Structural)]
pub enum FpOp {
    Add,
    Sub,
    Mul,
    Div,
    Sqrt,
    Sgnj,
    Sgnjn,
    Sgnjx,
    Min,
    Max,
    Madd,
    Msub,
    Nmsub,
    Nmadd,
    /// `fcvt.w.<fmt>`  (fp -> i32, signed)
    CvtWFmt,
    /// `fcvt.wu.<fmt>` (fp -> u32)
    CvtWuFmt,
    /// `fcvt.l.<fmt>`  (fp -> i64)
    CvtLFmt,
    /// `fcvt.lu.<fmt>` (fp -> u64)
    CvtLuFmt,
    /// `fcvt.<fmt>.w`  (i32 -> fp)
    CvtFmtW,
    /// `fcvt.<fmt>.wu` (u32 -> fp)
    CvtFmtWu,
    /// `fcvt.<fmt>.l`  (i64 -> fp)
    CvtFmtL,
    /// `fcvt.<fmt>.lu` (u64 -> fp)
    CvtFmtLu,
    /// fcvt.s.d (sz == S) / fcvt.d.s (sz == D): convert *to* `sz` from the other format
    CvtFmtFmt,
    /// fmv.x.w / fmv.x.d (raw bits fp -> int)
    MvXFmt,
    /// fmv.w.x / fmv.d.x (raw bits int -> fp)
    MvFmtX,
    Class,
    Eq,
    Lt,
    Le,
}

#[derive(Debug, Clone, Copy, PartialEq, Eq, Structural)]
#[allow(inconsistent_fields)]
pub enum Op {
    Lui {
        rd: usize,
        imm: i64,
    },
    Auipc {
        rd: usize,
        imm: i64,
    },
    Jal {
        rd: usize,
        imm: i64,
    },
    Jalr {
        rd: usize,
        rs1: usize,
        imm: i64,
    },
    Branch {
        cond: BranchCond,
        rs1: usize,
        rs2: usize,
        imm: i64,
    },
    Load {
        kind: LoadKind,
        rd: usize,
        rs1: usize,
        imm: i64,
    },
    Store {
        kind: StoreKind,
        rs1: usize,
        rs2: usize,
        imm: i64,
    },
    /// imm holds the sign-extended immediate; for shifts it is the 6-bit shamt.
    OpImm {
        kind: AluOp,
        rd: usize,
        rs1: usize,
        imm: i64,
    },
    /// 32-bit (`*W`) variants; shamt is 5 bits.
    OpImm32 {
        kind: AluOp,
        rd: usize,
        rs1: usize,
        imm: i64,
    },
    OpReg {
        kind: AluOp,
        rd: usize,
        rs1: usize,
        rs2: usize,
    },
    OpReg32 {
        kind: AluOp,
        rd: usize,
        rs1: usize,
        rs2: usize,
    },
    /// Zbb/Zbc/Zbkb/Zkn register-register forms (OP and OP-32); the `*W`
    /// variants are distinct `BitOp`s, so this covers both major opcodes.
    Bit {
        kind: BitOp,
        rd: usize,
        rs1: usize,
        rs2: usize,
    },
    /// Zbb/Zbkb/Zkn unary forms: OP-IMM / OP-IMM-32 with a fixed `funct12`.
    BitUnary {
        kind: BitUnaryOp,
        rd: usize,
        rs1: usize,
    },
    /// `rori`/`roriw` shamt, or the `aes64ks1i` round number.
    BitImm {
        kind: BitImmOp,
        rd: usize,
        rs1: usize,
        imm: u32,
    },
    Fence,
    FenceI,
    Ecall,
    Ebreak,
    /// For the *I forms, `rs1` holds the 5-bit zimm.
    Csr {
        kind: CsrOp,
        rd: usize,
        rs1: usize,
        csr: u16,
    },
    Mret,
    Sret,
    Wfi,
    SfenceVma {
        rs1: usize,
        rs2: usize,
    },
    Lr {
        width: AmoWidth,
        rd: usize,
        rs1: usize,
    },
    Sc {
        width: AmoWidth,
        rd: usize,
        rs1: usize,
        rs2: usize,
    },
    Amo {
        op: AmoOp,
        width: AmoWidth,
        rd: usize,
        rs1: usize,
        rs2: usize,
    },
    /// flw/fld — rd is an FP register.
    FpLoad {
        sz: FpSize,
        frd: usize,
        rs1: usize,
        imm: i64,
    },
    /// fsw/fsd — rs2 is an FP register.
    FpStore {
        sz: FpSize,
        rs1: usize,
        frs2: usize,
        imm: i64,
    },
    /// All other F/D ops. Register roles depend on `op` (integer vs FP);
    /// `rm` is the raw rounding-mode field (7 = dynamic). `rs3` only for fused ops.
    Fp {
        op: FpOp,
        sz: FpSize,
        rd: usize,
        rs1: usize,
        rs2: usize,
        rs3: usize,
        rm: u8,
    },
}

#[derive(Debug, Clone, Copy, PartialEq, Eq, Structural)]
pub struct DecodedInst {
    pub op: Op,
    /// 2 (compressed) or 4.
    pub len: u64,
}

// ---------------------------------------------------------------------------
// Fields of a 32-bit instruction word
// ---------------------------------------------------------------------------

/// Two's-complement reading of a field whose sign bit weighs `half`.
pub open spec fn signed(value: int, half: int) -> int {
    if value >= half {
        value - 2 * half
    } else {
        value
    }
}

/// Bits 6:0.
pub open spec fn opcode_of(raw: u32) -> u32 {
    raw % 0x80
}

/// Bits 11:7.
pub open spec fn rd_of(raw: u32) -> u32 {
    (raw / 0x80) % 0x20
}

/// Bits 14:12.
pub open spec fn funct3_of(raw: u32) -> u32 {
    (raw / 0x1000) % 8
}

/// Bits 19:15.
pub open spec fn rs1_of(raw: u32) -> u32 {
    (raw / 0x8000) % 0x20
}

/// Bits 24:20.
pub open spec fn rs2_of(raw: u32) -> u32 {
    (raw / 0x10_0000) % 0x20
}

/// Bits 25:20, the shift amount of the 64-bit immediate shifts.
pub open spec fn shamt6_of(raw: u32) -> u32 {
    (raw / 0x10_0000) % 0x40
}

/// Bits 26:25, the floating-point format.
pub open spec fn fmt_of(raw: u32) -> u32 {
    (raw / 0x200_0000) % 4
}

/// Bits 31:20.
pub open spec fn funct12_of(raw: u32) -> u32 {
    raw / 0x10_0000
}

/// Bits 31:25.
pub open spec fn funct7_of(raw: u32) -> u32 {
    raw / 0x200_0000
}

/// Bits 31:26.
pub open spec fn funct6_of(raw: u32) -> u32 {
    raw / 0x400_0000
}

/// Bits 31:27.
pub open spec fn funct5_of(raw: u32) -> u32 {
    raw / 0x800_0000
}

/// I-type immediate: bits 31:20, sign-extended.
pub open spec fn imm_i_of(raw: u32) -> int {
    signed((raw / 0x10_0000) as int, 0x800)
}

/// S-type immediate: bits 31:25 | 11:7, sign-extended.
pub open spec fn imm_s_of(raw: u32) -> int {
    signed((raw / 0x200_0000) * 0x20 + (raw / 0x80) % 0x20, 0x800)
}

/// B-type immediate: 12 | 11 | 10:5 | 4:1 from bits 31 | 7 | 30:25 | 11:8.
pub open spec fn imm_b_of(raw: u32) -> int {
    signed(
        (raw / 0x8000_0000) * 0x1000 + ((raw / 0x80) % 2) * 0x800 + ((raw / 0x200_0000) % 0x40)
            * 0x20 + ((raw / 0x100) % 0x10) * 2,
        0x1000,
    )
}

/// U-type immediate: bits 31:12 in place, sign-extended.
pub open spec fn imm_u_of(raw: u32) -> int {
    signed((raw / 0x1000) * 0x1000, 0x8000_0000)
}

/// J-type immediate: 20 | 19:12 | 11 | 10:1 from bits 31 | 19:12 | 20 | 30:21.
pub open spec fn imm_j_of(raw: u32) -> int {
    signed(
        (raw / 0x8000_0000) * 0x10_0000 + ((raw / 0x1000) % 0x100) * 0x1000 + ((raw / 0x10_0000)
            % 2) * 0x800 + ((raw / 0x20_0000) % 0x400) * 2,
        0x10_0000,
    )
}

// ---------------------------------------------------------------------------
// Selector codes
// ---------------------------------------------------------------------------

pub open spec fn branch_code(cond: BranchCond) -> u32 {
    match cond {
        BranchCond::Eq => 0,
        BranchCond::Ne => 1,
        BranchCond::Lt => 4,
        BranchCond::Ge => 5,
        BranchCond::Ltu => 6,
        BranchCond::Geu => 7,
    }
}

pub open spec fn load_code(kind: LoadKind) -> u32 {
    match kind {
        LoadKind::B => 0,
        LoadKind::H => 1,
        LoadKind::W => 2,
        LoadKind::D => 3,
        LoadKind::Bu => 4,
        LoadKind::Hu => 5,
        LoadKind::Wu => 6,
    }
}

pub open spec fn store_code(kind: StoreKind) -> u32 {
    match kind {
        StoreKind::B => 0,
        StoreKind::H => 1,
        StoreKind::W => 2,
        StoreKind::D => 3,
    }
}

/// `funct7` and `funct3` of a register-register ALU operation.
pub open spec fn alu_code(kind: AluOp) -> (u32, u32) {
    match kind {
        AluOp::Add => (0x00, 0),
        AluOp::Sub => (0x20, 0),
        AluOp::Sll => (0x00, 1),
        AluOp::Slt => (0x00, 2),
        AluOp::Sltu => (0x00, 3),
        AluOp::Xor => (0x00, 4),
        AluOp::Srl => (0x00, 5),
        AluOp::Sra => (0x20, 5),
        AluOp::Or => (0x00, 6),
        AluOp::And => (0x00, 7),
        AluOp::Mul => (0x01, 0),
        AluOp::Mulh => (0x01, 1),
        AluOp::Mulhsu => (0x01, 2),
        AluOp::Mulhu => (0x01, 3),
        AluOp::Div => (0x01, 4),
        AluOp::Divu => (0x01, 5),
        AluOp::Rem => (0x01, 6),
        AluOp::Remu => (0x01, 7),
    }
}

/// The ALU operations that also have a 32-bit register-register form.
pub open spec fn has_word_form(kind: AluOp) -> bool {
    match kind {
        AluOp::Add | AluOp::Sub | AluOp::Sll | AluOp::Srl | AluOp::Sra => true,
        AluOp::Mul | AluOp::Div | AluOp::Divu | AluOp::Rem | AluOp::Remu => true,
        _ => false,
    }
}

/// Major opcode, `funct7` and `funct3` of a bit-manipulation operation.
pub open spec fn bit_code(kind: BitOp) -> (u32, u32, u32) {
    match kind {
        BitOp::Andn => (0x33, 0x20, 7),
        BitOp::Orn => (0x33, 0x20, 6),
        BitOp::Xnor => (0x33, 0x20, 4),
        BitOp::Min => (0x33, 0x05, 4),
        BitOp::Minu => (0x33, 0x05, 5),
        BitOp::Max => (0x33, 0x05, 6),
        BitOp::Maxu => (0x33, 0x05, 7),
        BitOp::Clmul => (0x33, 0x05, 1),
        BitOp::Clmulr => (0x33, 0x05, 2),
        BitOp::Clmulh => (0x33, 0x05, 3),
        BitOp::Rol => (0x33, 0x30, 1),
        BitOp::Ror => (0x33, 0x30, 5),
        BitOp::Rolw => (0x3b, 0x30, 1),
        BitOp::Rorw => (0x3b, 0x30, 5),
        BitOp::Pack => (0x33, 0x04, 4),
        BitOp::Packh => (0x33, 0x04, 7),
        BitOp::Packw => (0x3b, 0x04, 4),
        BitOp::Aes64es => (0x33, 0x19, 0),
        BitOp::Aes64esm => (0x33, 0x1b, 0),
        BitOp::Aes64ds => (0x33, 0x1d, 0),
        BitOp::Aes64dsm => (0x33, 0x1f, 0),
        BitOp::Aes64ks2 => (0x33, 0x3f, 0),
    }
}

/// Major opcode, `funct3` and `funct12` of a unary bit-manipulation operation.
pub open spec fn unary_code(kind: BitUnaryOp) -> (u32, u32, u32) {
    match kind {
        BitUnaryOp::Clz => (0x13, 1, 0x600),
        BitUnaryOp::Ctz => (0x13, 1, 0x601),
        BitUnaryOp::Cpop => (0x13, 1, 0x602),
        BitUnaryOp::Clzw => (0x1b, 1, 0x600),
        BitUnaryOp::Ctzw => (0x1b, 1, 0x601),
        BitUnaryOp::Cpopw => (0x1b, 1, 0x602),
        BitUnaryOp::SextB => (0x13, 1, 0x604),
        BitUnaryOp::SextH => (0x13, 1, 0x605),
        BitUnaryOp::OrcB => (0x13, 5, 0x287),
        BitUnaryOp::Rev8 => (0x13, 5, 0x6b8),
        BitUnaryOp::Brev8 => (0x13, 5, 0x687),
        BitUnaryOp::Aes64im => (0x13, 1, 0x300),
        BitUnaryOp::Sha256sum0 => (0x13, 1, 0x100),
        BitUnaryOp::Sha256sum1 => (0x13, 1, 0x101),
        BitUnaryOp::Sha256sig0 => (0x13, 1, 0x102),
        BitUnaryOp::Sha256sig1 => (0x13, 1, 0x103),
        BitUnaryOp::Sha512sum0 => (0x13, 1, 0x104),
        BitUnaryOp::Sha512sum1 => (0x13, 1, 0x105),
        BitUnaryOp::Sha512sig0 => (0x13, 1, 0x106),
        BitUnaryOp::Sha512sig1 => (0x13, 1, 0x107),
    }
}

pub open spec fn csr_code(kind: CsrOp) -> u32 {
    match kind {
        CsrOp::Rw => 1,
        CsrOp::Rs => 2,
        CsrOp::Rc => 3,
        CsrOp::Rwi => 5,
        CsrOp::Rsi => 6,
        CsrOp::Rci => 7,
    }
}

pub open spec fn amo_width_code(width: AmoWidth) -> u32 {
    match width {
        AmoWidth::W => 2,
        AmoWidth::D => 3,
    }
}

/// `funct5` (bits 31:27) of an atomic read-modify-write.
pub open spec fn amo_code(op: AmoOp) -> u32 {
    match op {
        AmoOp::Swap => 0x01,
        AmoOp::Add => 0x00,
        AmoOp::Xor => 0x04,
        AmoOp::And => 0x0c,
        AmoOp::Or => 0x08,
        AmoOp::Min => 0x10,
        AmoOp::Max => 0x14,
        AmoOp::Minu => 0x18,
        AmoOp::Maxu => 0x1c,
    }
}

/// `funct3` of a floating-point load or store.
pub open spec fn fp_width_code(sz: FpSize) -> u32 {
    match sz {
        FpSize::S => 2,
        FpSize::D => 3,
    }
}

/// The two-bit format field of a floating-point operation.
pub open spec fn fmt_code(sz: FpSize) -> u32 {
    match sz {
        FpSize::S => 0,
        FpSize::D => 1,
    }
}

/// The selecting fields of a floating-point operation: its major opcode,
/// `funct5`, and whatever `rs2` and `funct3` must hold besides.
pub open spec fn fp_selected(raw: u32, op: FpOp, sz: FpSize) -> bool {
    let f5 = funct5_of(raw);
    let f3 = funct3_of(raw);
    let rs2 = rs2_of(raw);
    let op_fp = opcode_of(raw) == 0x53;
    match op {
        FpOp::Madd => opcode_of(raw) == 0x43,
        FpOp::Msub => opcode_of(raw) == 0x47,
        FpOp::Nmsub => opcode_of(raw) == 0x4b,
        FpOp::Nmadd => opcode_of(raw) == 0x4f,
        FpOp::Add => op_fp && f5 == 0x00,
        FpOp::Sub => op_fp && f5 == 0x01,
        FpOp::Mul => op_fp && f5 == 0x02,
        FpOp::Div => op_fp && f5 == 0x03,
        FpOp::Sqrt => op_fp && f5 == 0x0b && rs2 == 0,
        FpOp::Sgnj => op_fp && f5 == 0x04 && f3 == 0,
        FpOp::Sgnjn => op_fp && f5 == 0x04 && f3 == 1,
        FpOp::Sgnjx => op_fp && f5 == 0x04 && f3 == 2,
        FpOp::Min => op_fp && f5 == 0x05 && f3 == 0,
        FpOp::Max => op_fp && f5 == 0x05 && f3 == 1,
        FpOp::CvtWFmt => op_fp && f5 == 0x18 && rs2 == 0,
        FpOp::CvtWuFmt => op_fp && f5 == 0x18 && rs2 == 1,
        FpOp::CvtLFmt => op_fp && f5 == 0x18 && rs2 == 2,
        FpOp::CvtLuFmt => op_fp && f5 == 0x18 && rs2 == 3,
        FpOp::CvtFmtW => op_fp && f5 == 0x1a && rs2 == 0,
        FpOp::CvtFmtWu => op_fp && f5 == 0x1a && rs2 == 1,
        FpOp::CvtFmtL => op_fp && f5 == 0x1a && rs2 == 2,
        FpOp::CvtFmtLu => op_fp && f5 == 0x1a && rs2 == 3,
        // The source format sits in `rs2` and is the other of the two.
        FpOp::CvtFmtFmt => op_fp && f5 == 0x08 && rs2 == 1 - fmt_code(sz),
        FpOp::MvXFmt => op_fp && f5 == 0x1c && f3 == 0 && rs2 == 0,
        FpOp::Class => op_fp && f5 == 0x1c && f3 == 1 && rs2 == 0,
        FpOp::MvFmtX => op_fp && f5 == 0x1e && f3 == 0 && rs2 == 0,
        FpOp::Eq => op_fp && f5 == 0x14 && f3 == 2,
        FpOp::Lt => op_fp && f5 == 0x14 && f3 == 1,
        FpOp::Le => op_fp && f5 == 0x14 && f3 == 0,
    }
}

pub open spec fn is_fused(op: FpOp) -> bool {
    op == FpOp::Madd || op == FpOp::Msub || op == FpOp::Nmsub || op == FpOp::Nmadd
}

// ---------------------------------------------------------------------------
// The 32-bit encoding table
// ---------------------------------------------------------------------------

/// Whether the 32-bit word `raw` is an encoding of `op`.
pub open spec fn encodes(raw: u32, op: Op) -> bool {
    let opcode = opcode_of(raw);
    let f3 = funct3_of(raw);
    match op {
        Op::Lui { rd, imm } => opcode == 0x37 && rd == rd_of(raw) && imm == imm_u_of(raw),
        Op::Auipc { rd, imm } => opcode == 0x17 && rd == rd_of(raw) && imm == imm_u_of(raw),
        Op::Jal { rd, imm } => opcode == 0x6f && rd == rd_of(raw) && imm == imm_j_of(raw),
        Op::Jalr { rd, rs1, imm } => opcode == 0x67 && f3 == 0 && rd == rd_of(raw) && rs1 == rs1_of(
            raw,
        ) && imm == imm_i_of(raw),
        Op::Branch { cond, rs1, rs2, imm } => opcode == 0x63 && f3 == branch_code(cond) && rs1
            == rs1_of(raw) && rs2 == rs2_of(raw) && imm == imm_b_of(raw),
        Op::Load { kind, rd, rs1, imm } => opcode == 0x03 && f3 == load_code(kind) && rd == rd_of(
            raw,
        ) && rs1 == rs1_of(raw) && imm == imm_i_of(raw),
        Op::Store { kind, rs1, rs2, imm } => opcode == 0x23 && f3 == store_code(kind) && rs1
            == rs1_of(raw) && rs2 == rs2_of(raw) && imm == imm_s_of(raw),
        Op::OpImm { kind, rd, rs1, imm } => opcode == 0x13 && rd == rd_of(raw) && rs1 == rs1_of(raw)
            && match kind {
            AluOp::Add => f3 == 0 && imm == imm_i_of(raw),
            AluOp::Slt => f3 == 2 && imm == imm_i_of(raw),
            AluOp::Sltu => f3 == 3 && imm == imm_i_of(raw),
            AluOp::Xor => f3 == 4 && imm == imm_i_of(raw),
            AluOp::Or => f3 == 6 && imm == imm_i_of(raw),
            AluOp::And => f3 == 7 && imm == imm_i_of(raw),
            AluOp::Sll => f3 == 1 && funct6_of(raw) == 0 && imm == shamt6_of(raw),
            AluOp::Srl => f3 == 5 && funct6_of(raw) == 0 && imm == shamt6_of(raw),
            AluOp::Sra => f3 == 5 && funct6_of(raw) == 0x10 && imm == shamt6_of(raw),
            _ => false,
        },
        Op::OpImm32 { kind, rd, rs1, imm } => opcode == 0x1b && rd == rd_of(raw) && rs1 == rs1_of(
            raw,
        ) && match kind {
            AluOp::Add => f3 == 0 && imm == imm_i_of(raw),
            AluOp::Sll => f3 == 1 && funct7_of(raw) == 0 && imm == rs2_of(raw),
            AluOp::Srl => f3 == 5 && funct7_of(raw) == 0 && imm == rs2_of(raw),
            AluOp::Sra => f3 == 5 && funct7_of(raw) == 0x20 && imm == rs2_of(raw),
            _ => false,
        },
        Op::OpReg { kind, rd, rs1, rs2 } => opcode == 0x33 && (funct7_of(raw), f3) == alu_code(kind)
            && rd == rd_of(raw) && rs1 == rs1_of(raw) && rs2 == rs2_of(raw),
        Op::OpReg32 { kind, rd, rs1, rs2 } => opcode == 0x3b && has_word_form(kind) && (
            funct7_of(raw),
            f3,
        ) == alu_code(kind) && rd == rd_of(raw) && rs1 == rs1_of(raw) && rs2 == rs2_of(raw),
        Op::Bit { kind, rd, rs1, rs2 } => (opcode, funct7_of(raw), f3) == bit_code(kind) && rd
            == rd_of(raw) && rs1 == rs1_of(raw) && rs2 == rs2_of(raw),
        Op::BitUnary { kind, rd, rs1 } => (opcode, f3, funct12_of(raw)) == unary_code(kind) && rd
            == rd_of(raw) && rs1 == rs1_of(raw),
        Op::BitImm { kind, rd, rs1, imm } => rd == rd_of(raw) && rs1 == rs1_of(raw) && match kind {
            BitImmOp::Rori => opcode == 0x13 && f3 == 5 && funct6_of(raw) == 0x18 && imm
                == shamt6_of(raw),
            BitImmOp::Roriw => opcode == 0x1b && f3 == 5 && funct7_of(raw) == 0x30 && imm == rs2_of(
                raw,
            ),
            BitImmOp::Aes64ks1i => opcode == 0x13 && f3 == 1 && funct12_of(raw) / 0x10 == 0x31
                && imm == funct12_of(raw) % 0x10 && imm <= 10,
        },
        Op::Fence => opcode == 0x0f && f3 == 0,
        Op::FenceI => opcode == 0x0f && f3 == 1,
        Op::Ecall => raw == 0x0000_0073,
        Op::Ebreak => raw == 0x0010_0073,
        Op::Sret => raw == 0x1020_0073,
        Op::Mret => raw == 0x3020_0073,
        Op::Wfi => raw == 0x1050_0073,
        Op::SfenceVma { rs1, rs2 } => opcode == 0x73 && f3 == 0 && funct7_of(raw) == 0x09 && rd_of(
            raw,
        ) == 0 && rs1 == rs1_of(raw) && rs2 == rs2_of(raw),
        Op::Csr { kind, rd, rs1, csr } => opcode == 0x73 && f3 == csr_code(kind) && rd == rd_of(raw)
            && rs1 == rs1_of(raw) && csr == funct12_of(raw),
        Op::Lr { width, rd, rs1 } => opcode == 0x2f && f3 == amo_width_code(width) && funct5_of(raw)
            == 0x02 && rs2_of(raw) == 0 && rd == rd_of(raw) && rs1 == rs1_of(raw),
        Op::Sc { width, rd, rs1, rs2 } => opcode == 0x2f && f3 == amo_width_code(width)
            && funct5_of(raw) == 0x03 && rd == rd_of(raw) && rs1 == rs1_of(raw) && rs2 == rs2_of(
            raw,
        ),
        Op::Amo { op, width, rd, rs1, rs2 } => opcode == 0x2f && f3 == amo_width_code(width)
            && funct5_of(raw) == amo_code(op) && rd == rd_of(raw) && rs1 == rs1_of(raw) && rs2
            == rs2_of(raw),
        Op::FpLoad { sz, frd, rs1, imm } => opcode == 0x07 && f3 == fp_width_code(sz) && frd
            == rd_of(raw) && rs1 == rs1_of(raw) && imm == imm_i_of(raw),
        Op::FpStore { sz, rs1, frs2, imm } => opcode == 0x27 && f3 == fp_width_code(sz) && rs1
            == rs1_of(raw) && frs2 == rs2_of(raw) && imm == imm_s_of(raw),
        Op::Fp { op, sz, rd, rs1, rs2, rs3, rm } => fp_selected(raw, op, sz) && fmt_of(raw)
            == fmt_code(sz) && rd == rd_of(raw) && rs1 == rs1_of(raw) && rs2 == rs2_of(raw) && rs3
            == (if is_fused(op) {
            funct5_of(raw)
        } else {
            0
        }) && rm == f3,
    }
}

// ---------------------------------------------------------------------------
// The compressed encoding table
// ---------------------------------------------------------------------------

/// Bits `lo ..` of a compressed instruction, `span` values wide; `scale` is
/// the weight of bit `lo`.
pub open spec fn cfield(raw: u16, scale: u16, span: u16) -> int {
    ((raw / scale) % span) as int
}

/// rd/rs1 field in bits 11:7 (full register number).
pub open spec fn c_rd_of(raw: u16) -> usize {
    cfield(raw, 0x80, 0x20) as usize
}

/// rs2 field in bits 6:2 (full register number).
pub open spec fn c_rs2_of(raw: u16) -> usize {
    cfield(raw, 4, 0x20) as usize
}

/// rd'/rs2' field in bits 4:2 (x8..x15).
pub open spec fn c_low_of(raw: u16) -> usize {
    (8 + cfield(raw, 4, 8)) as usize
}

/// rd'/rs1' field in bits 9:7 (x8..x15).
pub open spec fn c_high_of(raw: u16) -> usize {
    (8 + cfield(raw, 0x80, 8)) as usize
}

/// The six-bit immediate 5 | 4:0 from bits 12 | 6:2, unsigned.
pub open spec fn c_six_of(raw: u16) -> int {
    cfield(raw, 0x1000, 2) * 0x20 + cfield(raw, 4, 0x20)
}

/// `C.ADDI4SPN`: 9:6 | 5:4 | 3 | 2 from bits 10:7 | 12:11 | 5 | 6.
pub open spec fn c_addi4spn_of(raw: u16) -> int {
    cfield(raw, 0x80, 0x10) * 0x40 + cfield(raw, 0x800, 4) * 0x10 + cfield(raw, 0x20, 2) * 8
        + cfield(raw, 0x40, 2) * 4
}

/// Doubleword offset 7:6 | 5:3 from bits 6:5 | 12:10.
pub open spec fn c_dword_of(raw: u16) -> int {
    cfield(raw, 0x20, 4) * 0x40 + cfield(raw, 0x400, 8) * 8
}

/// Word offset 6 | 5:3 | 2 from bits 5 | 12:10 | 6.
pub open spec fn c_word_of(raw: u16) -> int {
    cfield(raw, 0x20, 2) * 0x40 + cfield(raw, 0x400, 8) * 8 + cfield(raw, 0x40, 2) * 4
}

/// `C.ADDI16SP`: 9 | 8:7 | 6 | 5 | 4 from bits 12 | 4:3 | 5 | 2 | 6, signed.
pub open spec fn c_addi16sp_of(raw: u16) -> int {
    signed(
        cfield(raw, 0x1000, 2) * 0x200 + cfield(raw, 8, 4) * 0x80 + cfield(raw, 0x20, 2) * 0x40
            + cfield(raw, 4, 2) * 0x20 + cfield(raw, 0x40, 2) * 0x10,
        0x200,
    )
}

/// `C.J`: 11 | 10 | 9:8 | 7 | 6 | 5 | 4 | 3:1 from bits
/// 12 | 8 | 10:9 | 6 | 7 | 2 | 11 | 5:3, signed.
pub open spec fn c_jump_of(raw: u16) -> int {
    signed(
        cfield(raw, 0x1000, 2) * 0x800 + cfield(raw, 0x100, 2) * 0x400 + cfield(raw, 0x200, 4)
            * 0x100 + cfield(raw, 0x40, 2) * 0x80 + cfield(raw, 0x80, 2) * 0x40 + cfield(raw, 4, 2)
            * 0x20 + cfield(raw, 0x800, 2) * 0x10 + cfield(raw, 8, 8) * 2,
        0x800,
    )
}

/// `C.BEQZ`/`C.BNEZ`: 8 | 7:6 | 5 | 4:3 | 2:1 from bits 12 | 6:5 | 2 | 11:10 | 4:3,
/// signed.
pub open spec fn c_branch_of(raw: u16) -> int {
    signed(
        cfield(raw, 0x1000, 2) * 0x100 + cfield(raw, 0x20, 4) * 0x40 + cfield(raw, 4, 2) * 0x20
            + cfield(raw, 0x400, 4) * 8 + cfield(raw, 8, 4) * 2,
        0x100,
    )
}

/// Stack doubleword load offset 8:6 | 5 | 4:3 from bits 4:2 | 12 | 6:5.
pub open spec fn c_ldsp_of(raw: u16) -> int {
    cfield(raw, 4, 8) * 0x40 + cfield(raw, 0x1000, 2) * 0x20 + cfield(raw, 0x20, 4) * 8
}

/// Stack word load offset 7:6 | 5 | 4:2 from bits 3:2 | 12 | 6:4.
pub open spec fn c_lwsp_of(raw: u16) -> int {
    cfield(raw, 4, 4) * 0x40 + cfield(raw, 0x1000, 2) * 0x20 + cfield(raw, 0x10, 8) * 4
}

/// Stack doubleword store offset 8:6 | 5:3 from bits 9:7 | 12:10.
pub open spec fn c_sdsp_of(raw: u16) -> int {
    cfield(raw, 0x80, 8) * 0x40 + cfield(raw, 0x400, 8) * 8
}

/// Stack word store offset 7:6 | 5:2 from bits 8:7 | 12:9.
pub open spec fn c_swsp_of(raw: u16) -> int {
    cfield(raw, 0x80, 4) * 0x40 + cfield(raw, 0x200, 0x10) * 4
}

/// The operation a compressed instruction stands for, if it is a legal one.
/// `key` is the quadrant (bits 1:0) and `funct3` (bits 15:13) together.
pub open spec fn expansion(raw: u16) -> Option<Op> {
    let key = (raw % 4, raw / 0x2000);
    let rd = c_rd_of(raw);
    let rs2 = c_rs2_of(raw);
    let low = c_low_of(raw);
    let high = c_high_of(raw);
    let bit12 = cfield(raw, 0x1000, 2);
    let imm6 = signed(c_six_of(raw), 0x20);
    if key == (0u16, 0u16) && c_addi4spn_of(raw) != 0 {
        // C.ADDI4SPN
        Some(Op::OpImm { kind: AluOp::Add, rd: low, rs1: 2, imm: c_addi4spn_of(raw) as i64 })
    } else if key == (0u16, 1u16) {
        // C.FLD
        Some(Op::FpLoad { sz: FpSize::D, frd: low, rs1: high, imm: c_dword_of(raw) as i64 })
    } else if key == (0u16, 2u16) {
        // C.LW
        Some(Op::Load { kind: LoadKind::W, rd: low, rs1: high, imm: c_word_of(raw) as i64 })
    } else if key == (0u16, 3u16) {
        // C.LD
        Some(Op::Load { kind: LoadKind::D, rd: low, rs1: high, imm: c_dword_of(raw) as i64 })
    } else if key == (0u16, 5u16) {
        // C.FSD
        Some(Op::FpStore { sz: FpSize::D, rs1: high, frs2: low, imm: c_dword_of(raw) as i64 })
    } else if key == (0u16, 6u16) {
        // C.SW
        Some(Op::Store { kind: StoreKind::W, rs1: high, rs2: low, imm: c_word_of(raw) as i64 })
    } else if key == (0u16, 7u16) {
        // C.SD
        Some(Op::Store { kind: StoreKind::D, rs1: high, rs2: low, imm: c_dword_of(raw) as i64 })
    } else if key == (1u16, 0u16) {
        // C.NOP / C.ADDI
        Some(Op::OpImm { kind: AluOp::Add, rd, rs1: rd, imm: imm6 as i64 })
    } else if key == (1u16, 1u16) && rd != 0 {
        // C.ADDIW
        Some(Op::OpImm32 { kind: AluOp::Add, rd, rs1: rd, imm: imm6 as i64 })
    } else if key == (1u16, 2u16) {
        // C.LI
        Some(Op::OpImm { kind: AluOp::Add, rd, rs1: 0, imm: imm6 as i64 })
    } else if key == (1u16, 3u16) && rd == 2 && c_addi16sp_of(raw) != 0 {
        // C.ADDI16SP
        Some(Op::OpImm { kind: AluOp::Add, rd: 2, rs1: 2, imm: c_addi16sp_of(raw) as i64 })
    } else if key == (1u16, 3u16) && rd != 2 && imm6 != 0 {
        // C.LUI
        Some(Op::Lui { rd, imm: (imm6 * 0x1000) as i64 })
    } else if key == (1u16, 4u16) && cfield(raw, 0x400, 4) == 0 {
        // C.SRLI
        Some(Op::OpImm { kind: AluOp::Srl, rd: high, rs1: high, imm: c_six_of(raw) as i64 })
    } else if key == (1u16, 4u16) && cfield(raw, 0x400, 4) == 1 {
        // C.SRAI
        Some(Op::OpImm { kind: AluOp::Sra, rd: high, rs1: high, imm: c_six_of(raw) as i64 })
    } else if key == (1u16, 4u16) && cfield(raw, 0x400, 4) == 2 {
        // C.ANDI
        Some(Op::OpImm { kind: AluOp::And, rd: high, rs1: high, imm: imm6 as i64 })
    } else if key == (1u16, 4u16) && bit12 == 0 && cfield(raw, 0x20, 4) == 0 {
        // C.SUB
        Some(Op::OpReg { kind: AluOp::Sub, rd: high, rs1: high, rs2: low })
    } else if key == (1u16, 4u16) && bit12 == 0 && cfield(raw, 0x20, 4) == 1 {
        // C.XOR
        Some(Op::OpReg { kind: AluOp::Xor, rd: high, rs1: high, rs2: low })
    } else if key == (1u16, 4u16) && bit12 == 0 && cfield(raw, 0x20, 4) == 2 {
        // C.OR
        Some(Op::OpReg { kind: AluOp::Or, rd: high, rs1: high, rs2: low })
    } else if key == (1u16, 4u16) && bit12 == 0 && cfield(raw, 0x20, 4) == 3 {
        // C.AND
        Some(Op::OpReg { kind: AluOp::And, rd: high, rs1: high, rs2: low })
    } else if key == (1u16, 4u16) && bit12 == 1 && cfield(raw, 0x20, 4) == 0 {
        // C.SUBW
        Some(Op::OpReg32 { kind: AluOp::Sub, rd: high, rs1: high, rs2: low })
    } else if key == (1u16, 4u16) && bit12 == 1 && cfield(raw, 0x20, 4) == 1 {
        // C.ADDW
        Some(Op::OpReg32 { kind: AluOp::Add, rd: high, rs1: high, rs2: low })
    } else if key == (1u16, 5u16) {
        // C.J
        Some(Op::Jal { rd: 0, imm: c_jump_of(raw) as i64 })
    } else if key == (1u16, 6u16) {
        // C.BEQZ
        Some(Op::Branch { cond: BranchCond::Eq, rs1: high, rs2: 0, imm: c_branch_of(raw) as i64 })
    } else if key == (1u16, 7u16) {
        // C.BNEZ
        Some(Op::Branch { cond: BranchCond::Ne, rs1: high, rs2: 0, imm: c_branch_of(raw) as i64 })
    } else if key == (2u16, 0u16) {
        // C.SLLI
        Some(Op::OpImm { kind: AluOp::Sll, rd, rs1: rd, imm: c_six_of(raw) as i64 })
    } else if key == (2u16, 1u16) {
        // C.FLDSP
        Some(Op::FpLoad { sz: FpSize::D, frd: rd, rs1: 2, imm: c_ldsp_of(raw) as i64 })
    } else if key == (2u16, 2u16) && rd != 0 {
        // C.LWSP
        Some(Op::Load { kind: LoadKind::W, rd, rs1: 2, imm: c_lwsp_of(raw) as i64 })
    } else if key == (2u16, 3u16) && rd != 0 {
        // C.LDSP
        Some(Op::Load { kind: LoadKind::D, rd, rs1: 2, imm: c_ldsp_of(raw) as i64 })
    } else if key == (2u16, 4u16) && bit12 == 0 && rs2 == 0 && rd != 0 {
        // C.JR
        Some(Op::Jalr { rd: 0, rs1: rd, imm: 0 })
    } else if key == (2u16, 4u16) && bit12 == 0 && rs2 != 0 {
        // C.MV
        Some(Op::OpReg { kind: AluOp::Add, rd, rs1: 0, rs2 })
    } else if key == (2u16, 4u16) && bit12 == 1 && rs2 == 0 && rd == 0 {
        // C.EBREAK
        Some(Op::Ebreak)
    } else if key == (2u16, 4u16) && bit12 == 1 && rs2 == 0 {
        // C.JALR
        Some(Op::Jalr { rd: 1, rs1: rd, imm: 0 })
    } else if key == (2u16, 4u16) && bit12 == 1 {
        // C.ADD
        Some(Op::OpReg { kind: AluOp::Add, rd, rs1: rd, rs2 })
    } else if key == (2u16, 5u16) {
        // C.FSDSP
        Some(Op::FpStore { sz: FpSize::D, rs1: 2, frs2: rs2, imm: c_sdsp_of(raw) as i64 })
    } else if key == (2u16, 6u16) {
        // C.SWSP
        Some(Op::Store { kind: StoreKind::W, rs1: 2, rs2, imm: c_swsp_of(raw) as i64 })
    } else if key == (2u16, 7u16) {
        // C.SDSP
        Some(Op::Store { kind: StoreKind::D, rs1: 2, rs2, imm: c_sdsp_of(raw) as i64 })
    } else {
        None
    }
}

/// Whether the fetch window `raw` starts with the instruction `inst`.
pub open spec fn decodes_to(raw: u32, inst: DecodedInst) -> bool {
    if raw % 4 == 3 {
        inst.len == 4 && encodes(raw, inst.op)
    } else {
        inst.len == 2 && expansion((raw % 0x1_0000) as u16) == Some(inst.op)
    }
}

/// The instruction a fetch window starts with, if any.
pub open spec fn decoding(raw: u32) -> Option<DecodedInst> {
    if exists|inst: DecodedInst| decodes_to(raw, inst) {
        Some(choose|inst: DecodedInst| decodes_to(raw, inst))
    } else {
        None
    }
}

// ---------------------------------------------------------------------------
// Laws
// ---------------------------------------------------------------------------

/// Every register number, CSR number and round number of `op` is in the range
/// the hart can act on.
pub open spec fn operands_in_range(op: Op) -> bool {
    match op {
        Op::Lui { rd, .. } | Op::Auipc { rd, .. } | Op::Jal { rd, .. } => rd < 32,
        Op::Jalr { rd, rs1, .. } => rd < 32 && rs1 < 32,
        Op::Branch { rs1, rs2, .. } => rs1 < 32 && rs2 < 32,
        Op::Load { rd, rs1, .. } => rd < 32 && rs1 < 32,
        Op::Store { rs1, rs2, .. } => rs1 < 32 && rs2 < 32,
        Op::OpImm { rd, rs1, .. } | Op::OpImm32 { rd, rs1, .. } => rd < 32 && rs1 < 32,
        Op::OpReg { rd, rs1, rs2, .. } | Op::OpReg32 { rd, rs1, rs2, .. } => rd < 32 && rs1 < 32
            && rs2 < 32,
        Op::Bit { rd, rs1, rs2, .. } => rd < 32 && rs1 < 32 && rs2 < 32,
        Op::BitUnary { rd, rs1, .. } => rd < 32 && rs1 < 32,
        Op::BitImm { kind, rd, rs1, imm } => rd < 32 && rs1 < 32 && (kind is Aes64ks1i ==> imm
            <= 10),
        Op::Csr { rd, rs1, csr, .. } => rd < 32 && rs1 < 32 && csr < 4096,
        Op::SfenceVma { rs1, rs2 } => rs1 < 32 && rs2 < 32,
        Op::Lr { rd, rs1, .. } => rd < 32 && rs1 < 32,
        Op::Sc { rd, rs1, rs2, .. } => rd < 32 && rs1 < 32 && rs2 < 32,
        Op::Amo { rd, rs1, rs2, .. } => rd < 32 && rs1 < 32 && rs2 < 32,
        Op::FpLoad { frd, rs1, .. } => frd < 32 && rs1 < 32,
        Op::FpStore { rs1, frs2, .. } => rs1 < 32 && frs2 < 32,
        Op::Fp { rd, rs1, rs2, rs3, rm, .. } => rd < 32 && rs1 < 32 && rs2 < 32 && rs3 < 32 && rm
            < 8,
        Op::Fence | Op::FenceI | Op::Ecall | Op::Ebreak | Op::Mret | Op::Sret | Op::Wfi => true,
    }
}

proof fn lemma_unique_op_imm(raw: u32, a: Op, b: Op)
    requires
        opcode_of(raw) == 0x13,
        encodes(raw, a),
        encodes(raw, b),
    ensures
        a == b,
{
}

proof fn lemma_unique_op_imm32(raw: u32, a: Op, b: Op)
    requires
        opcode_of(raw) == 0x1b,
        encodes(raw, a),
        encodes(raw, b),
    ensures
        a == b,
{
}

proof fn lemma_unique_op(raw: u32, a: Op, b: Op)
    requires
        opcode_of(raw) == 0x33,
        encodes(raw, a),
        encodes(raw, b),
    ensures
        a == b,
{
}

proof fn lemma_unique_op32(raw: u32, a: Op, b: Op)
    requires
        opcode_of(raw) == 0x3b,
        encodes(raw, a),
        encodes(raw, b),
    ensures
        a == b,
{
}

proof fn lemma_unique_system(raw: u32, a: Op, b: Op)
    requires
        opcode_of(raw) == 0x73,
        encodes(raw, a),
        encodes(raw, b),
    ensures
        a == b,
{
}

proof fn lemma_unique_amo(raw: u32, a: Op, b: Op)
    requires
        opcode_of(raw) == 0x2f,
        encodes(raw, a),
        encodes(raw, b),
    ensures
        a == b,
{
}

proof fn lemma_unique_op_fp(raw: u32, a: Op, b: Op)
    requires
        opcode_of(raw) == 0x53,
        encodes(raw, a),
        encodes(raw, b),
    ensures
        a == b,
{
}

proof fn lemma_unique_rest(raw: u32, a: Op, b: Op)
    requires
        opcode_of(raw) != 0x13,
        opcode_of(raw) != 0x1b,
        opcode_of(raw) != 0x33,
        opcode_of(raw) != 0x3b,
        opcode_of(raw) != 0x73,
        opcode_of(raw) != 0x2f,
        opcode_of(raw) != 0x53,
        encodes(raw, a),
        encodes(raw, b),
    ensures
        a == b,
{
    let opcode = opcode_of(raw);
    if opcode == 0x43 || opcode == 0x47 || opcode == 0x4b || opcode == 0x4f {
        assert(a is Fp && b is Fp);
    } else if opcode == 0x63 {
        assert(a is Branch && b is Branch);
    } else if opcode == 0x03 {
        assert(a is Load && b is Load);
    } else if opcode == 0x23 {
        assert(a is Store && b is Store);
    }
}

/// A fetch window starts with at most one instruction.
pub proof fn law_decoding_is_unique(raw: u32, a: DecodedInst, b: DecodedInst)
    requires
        decodes_to(raw, a),
        decodes_to(raw, b),
    ensures
        a == b,
{
    if raw % 4 == 3 {
        let opcode = opcode_of(raw);
        if opcode == 0x13 {
            lemma_unique_op_imm(raw, a.op, b.op);
        } else if opcode == 0x1b {
            lemma_unique_op_imm32(raw, a.op, b.op);
        } else if opcode == 0x33 {
            lemma_unique_op(raw, a.op, b.op);
        } else if opcode == 0x3b {
            lemma_unique_op32(raw, a.op, b.op);
        } else if opcode == 0x73 {
            lemma_unique_system(raw, a.op, b.op);
        } else if opcode == 0x2f {
            lemma_unique_amo(raw, a.op, b.op);
        } else if opcode == 0x53 {
            lemma_unique_op_fp(raw, a.op, b.op);
        } else {
            lemma_unique_rest(raw, a.op, b.op);
        }
    }
}

/// Whatever decodes names only registers that exist.
pub proof fn law_decoded_operands_in_range(raw: u32, inst: DecodedInst)
    requires
        decodes_to(raw, inst),
    ensures
        operands_in_range(inst.op),
        inst.len == 2 || inst.len == 4,
{
}

/// Which instruction a window starts with depends on its low half alone when
/// that half is a compressed instruction.
pub proof fn law_compressed_ignores_upper_half(raw: u32, other: u32, inst: DecodedInst)
    requires
        raw % 4 != 3,
        raw % 0x1_0000 == other % 0x1_0000,
    ensures
        decodes_to(raw, inst) <==> decodes_to(other, inst),
{
    assert(raw % 4 == (raw % 0x1_0000) % 4);
    assert(other % 4 == (other % 0x1_0000) % 4);
}

/// What a window starts with is its instruction.
pub proof fn lemma_decoding(raw: u32, inst: DecodedInst)
    requires
        decodes_to(raw, inst),
    ensures
        decoding(raw) == Some(inst),
{
    law_decoding_is_unique(raw, inst, decoding(raw)->Some_0);
}

/// The two low bits tell the length. Where they are not both set the
/// instruction is compressed, and the upper half of the window is ignored.
pub proof fn law_low_bits_tell_the_length(raw: u32)
    ensures
        raw & 3 == 3 && decoding(raw) is Some ==> decoding(raw)->Some_0.len == 4,
        raw & 3 != 3 && decoding(raw) is Some ==> decoding(raw)->Some_0.len == 2,
        raw & 3 != 3 ==> decoding(raw) == decoding(raw & 0xffff),
{
    lemma_window(raw);
    let low = raw & 0xffff;
    if raw % 4 != 3 {
        assert(raw % 4 == (raw % 0x1_0000) % 4);
        assert forall|inst: DecodedInst| decodes_to(raw, inst) == decodes_to(low, inst) by {
            law_compressed_ignores_upper_half(raw, low, inst);
        }
        if decoding(raw) is Some {
            lemma_decoding(low, decoding(raw)->Some_0);
        } else if decoding(low) is Some {
            assert(decodes_to(raw, decoding(low)->Some_0));
        }
    }
}

// ---------------------------------------------------------------------------
// Decoder
// ---------------------------------------------------------------------------

/// Decode one instruction from a 32-bit fetch window.
pub fn decode(raw: u32) -> (r: Result<DecodedInst, ()>)
    ensures
        match r {
            Ok(inst) => decodes_to(raw, inst),
            Err(_) => forall|inst: DecodedInst| !decodes_to(raw, inst),
        },
        decoding(raw) == (match r {
            Ok(inst) => Some(inst),
            Err(_) => None,
        }),
{
    proof {
        lemma_window(raw);
    }
    if raw & 3 == 3 {
        match decode32(raw) {
            Ok(op) => {
                let inst = DecodedInst { op, len: 4 };
                proof {
                    lemma_decoding(raw, inst);
                }
                Ok(inst)
            },
            Err(()) => Err(()),
        }
    } else {
        match decode16(raw as u16) {
            Ok(op) => {
                let inst = DecodedInst { op, len: 2 };
                proof {
                    lemma_decoding(raw, inst);
                }
                Ok(inst)
            },
            Err(()) => Err(()),
        }
    }
}

proof fn lemma_window(raw: u32)
    by (bit_vector)
    ensures
        raw & 3 == raw % 4,
        raw as u16 == raw % 0x1_0000,
        raw & 0xffff == raw % 0x1_0000,
{
}

/// The shift-and-mask form of every 32-bit field and immediate.
proof fn lemma_fields(raw: u32)
    by (bit_vector)
    ensures
        raw & 0x7f == raw % 0x80,
        (raw >> 7) & 0x1f == (raw / 0x80) % 0x20,
        (raw >> 12) & 0x7 == (raw / 0x1000) % 8,
        (raw >> 15) & 0x1f == (raw / 0x8000) % 0x20,
        (raw >> 20) & 0x1f == (raw / 0x10_0000) % 0x20,
        (raw >> 20) & 0x3f == (raw / 0x10_0000) % 0x40,
        (raw >> 20) & 0xfff == raw / 0x10_0000,
        raw >> 20 == raw / 0x10_0000,
        (raw >> 20) & 0xf == (raw / 0x10_0000) % 0x10,
        (raw >> 20) >> 4 == (raw / 0x10_0000) / 0x10,
        (raw >> 25) & 0x7f == raw / 0x200_0000,
        (raw >> 25) & 0x3 == (raw / 0x200_0000) % 4,
        ((raw >> 25) & 0x7f) & 0x3 == (raw / 0x200_0000) % 4,
        ((raw >> 25) & 0x7f) >> 2 == raw / 0x800_0000,
        raw >> 26 == raw / 0x400_0000,
        (raw >> 27) & 0x1f == raw / 0x800_0000,
        raw / 0x10_0000 >= 0x800 ==> ((raw as i32) >> 20) as i64 == raw / 0x10_0000 - 0x1000,
        !(raw / 0x10_0000 >= 0x800) ==> ((raw as i32) >> 20) as i64 == raw / 0x10_0000,
        (raw
            / 0x200_0000) * 0x20 + (raw / 0x80) % 0x20 >= 0x800 ==> ((((raw & 0xfe00_0000) as i32) >> 20) as i64) | (((raw >> 7) & 0x1f) as i64) == (raw / 0x200_0000) * 0x20 + (raw / 0x80) % 0x20 - 0x1000,
        !((raw
            / 0x200_0000) * 0x20 + (raw / 0x80) % 0x20 >= 0x800) ==> ((((raw & 0xfe00_0000) as i32) >> 20) as i64) | (((raw >> 7) & 0x1f) as i64) == (raw / 0x200_0000) * 0x20 + (raw / 0x80) % 0x20,
        raw
            / 0x8000_0000 >= 1 ==> ((((raw & 0x8000_0000) as i32) >> 19) as i64) | ((((raw >> 25) & 0x3f) << 5) as i64) | ((((
        raw >> 8) & 0xf) << 1) as i64) | ((((raw >> 7) & 0x1) << 11) as i64) == ((raw / 0x80) % 2) * 0x800 + ((raw / 0x200_0000) % 0x40) * 0x20 + ((raw / 0x100)
                % 0x10) * 2 - 0x1000,
        !(raw
            / 0x8000_0000 >= 1) ==> ((((raw & 0x8000_0000) as i32) >> 19) as i64) | ((((raw >> 25) & 0x3f) << 5) as i64) | ((((
        raw >> 8) & 0xf) << 1) as i64) | ((((raw >> 7) & 0x1) << 11) as i64) == ((raw / 0x80) % 2) * 0x800 + ((raw / 0x200_0000) % 0x40) * 0x20 + ((raw / 0x100)
                % 0x10) * 2,
        raw / 0x1000 >= 0x8_0000 ==> (raw & 0xffff_f000) as i32 as i64 == (raw / 0x1000) * 0x1000 - 0x1_0000_0000,
        !(raw / 0x1000 >= 0x8_0000) ==> (raw & 0xffff_f000) as i32 as i64 == (raw / 0x1000) * 0x1000,
        raw
            / 0x8000_0000 >= 1 ==> ((((raw & 0x8000_0000) as i32) >> 11) as i64) | ((((raw >> 21) & 0x3ff) << 1) as i64) | ((((
        raw >> 20) & 0x1) << 11) as i64) | ((((raw >> 12) & 0xff) << 12) as i64) == ((raw / 0x1000) % 0x100) * 0x1000 + ((raw / 0x10_0000) % 2) * 0x800 + ((raw
                / 0x20_0000) % 0x400) * 2 - 0x10_0000,
        !(raw
            / 0x8000_0000 >= 1) ==> ((((raw & 0x8000_0000) as i32) >> 11) as i64) | ((((raw >> 21) & 0x3ff) << 1) as i64) | ((((
        raw >> 20) & 0x1) << 11) as i64) | ((((raw >> 12) & 0xff) << 12) as i64) == ((raw / 0x1000) % 0x100) * 0x1000 + ((raw / 0x10_0000) % 2) * 0x800 + ((raw
                / 0x20_0000) % 0x400) * 2,
{
}

// 32-bit field / immediate helpers

fn rd(raw: u32) -> (r: usize)
    ensures
        r == rd_of(raw),
{
    proof {
        lemma_fields(raw);
    }
    ((raw >> 7) & 0x1f) as usize
}

fn rs1(raw: u32) -> (r: usize)
    ensures
        r == rs1_of(raw),
{
    proof {
        lemma_fields(raw);
    }
    ((raw >> 15) & 0x1f) as usize
}

fn rs2(raw: u32) -> (r: usize)
    ensures
        r == rs2_of(raw),
{
    proof {
        lemma_fields(raw);
    }
    ((raw >> 20) & 0x1f) as usize
}

fn funct3(raw: u32) -> (r: u32)
    ensures
        r == funct3_of(raw),
{
    proof {
        lemma_fields(raw);
    }
    (raw >> 12) & 0x7
}

fn funct7(raw: u32) -> (r: u32)
    ensures
        r == funct7_of(raw),
        r >> 2 == funct5_of(raw),
        r & 3 == fmt_of(raw),
{
    proof {
        lemma_fields(raw);
    }
    (raw >> 25) & 0x7f
}

/// I-type immediate: bits 31:20, sign-extended.
fn imm_i(raw: u32) -> (r: i64)
    ensures
        r == imm_i_of(raw),
{
    proof {
        lemma_fields(raw);
    }
    ((raw as i32) >> 20) as i64
}

/// S-type immediate: bits 31:25 | 11:7, sign-extended.
fn imm_s(raw: u32) -> (r: i64)
    ensures
        r == imm_s_of(raw),
{
    proof {
        lemma_fields(raw);
    }
    ((((raw & 0xfe00_0000) as i32) >> 20) as i64) | (((raw >> 7) & 0x1f) as i64)
}

/// B-type immediate: 12|10:5|4:1|11 scrambled fields, sign-extended.
fn imm_b(raw: u32) -> (r: i64)
    ensures
        r == imm_b_of(raw),
{
    proof {
        lemma_fields(raw);
    }
    ((((raw & 0x8000_0000) as i32) >> 19) as i64)  // imm[12], sign-extended
         | ((((raw >> 25) & 0x3f) << 5) as i64)  // imm[10:5]
         | ((((raw >> 8) & 0xf) << 1) as i64)  // imm[4:1]
         | ((((raw >> 7) & 0x1) << 11) as i64)  // imm[11]
}

/// U-type immediate: bits 31:12 << 12, sign-extended.
fn imm_u(raw: u32) -> (r: i64)
    ensures
        r == imm_u_of(raw),
{
    proof {
        lemma_fields(raw);
    }
    (raw & 0xffff_f000) as i32 as i64
}

/// J-type immediate: 20|10:1|11|19:12 scrambled fields, sign-extended.
fn imm_j(raw: u32) -> (r: i64)
    ensures
        r == imm_j_of(raw),
{
    proof {
        lemma_fields(raw);
    }
    ((((raw & 0x8000_0000) as i32) >> 11) as i64)  // imm[20], sign-extended
         | ((((raw >> 21) & 0x3ff) << 1) as i64)  // imm[10:1]
         | ((((raw >> 20) & 0x1) << 11) as i64)  // imm[11]
         | ((((raw >> 12) & 0xff) << 12) as i64)  // imm[19:12]
}

/// Zbb/Zbc/Zbkb/Zkn register-register forms sharing the OP (`w == false`) and
/// OP-32 (`w == true`) major opcodes.
fn decode_op_bit(raw: u32, w: bool) -> (r: Result<Op, ()>)
    requires
        opcode_of(raw) == (if w {
            0x3bu32
        } else {
            0x33u32
        }),
    ensures
        match r {
            Ok(op) => encodes(raw, op),
            Err(_) => forall|kind: BitOp|
                #[trigger] bit_code(kind) != (opcode_of(raw), funct7_of(raw), funct3_of(raw)),
        },
{
    let kind = match (funct7(raw), funct3(raw), w) {
        // Zbb / Zbkb logic-with-negate
        (0x20, 7, false) => BitOp::Andn,
        (0x20, 6, false) => BitOp::Orn,
        (0x20, 4, false) => BitOp::Xnor,
        // Zbb min/max
        (0x05, 4, false) => BitOp::Min,
        (0x05, 5, false) => BitOp::Minu,
        (0x05, 6, false) => BitOp::Max,
        (0x05, 7, false) => BitOp::Maxu,
        // Zbc carry-less multiply
        (0x05, 1, false) => BitOp::Clmul,
        (0x05, 2, false) => BitOp::Clmulr,
        (0x05, 3, false) => BitOp::Clmulh,
        // Zbb / Zbkb rotates
        (0x30, 1, false) => BitOp::Rol,
        (0x30, 5, false) => BitOp::Ror,
        (0x30, 1, true) => BitOp::Rolw,
        (0x30, 5, true) => BitOp::Rorw,
        // Zbkb packing; `zext.h rd, rs1` is `packw rd, rs1, x0`.
        (0x04, 4, false) => BitOp::Pack,
        (0x04, 7, false) => BitOp::Packh,
        (0x04, 4, true) => BitOp::Packw,
        // Zkne / Zknd
        (0x19, 0, false) => BitOp::Aes64es,
        (0x1b, 0, false) => BitOp::Aes64esm,
        (0x1d, 0, false) => BitOp::Aes64ds,
        (0x1f, 0, false) => BitOp::Aes64dsm,
        (0x3f, 0, false) => BitOp::Aes64ks2,
        _ => return Err(()),
    };
    Ok(Op::Bit {
        kind,
        rd: rd(raw),
        rs1: rs1(raw),
        rs2: rs2(raw),
    })
}

/// Zbb/Zbkb/Zkn OP-IMM forms with a fixed 12-bit `funct12` in bits 31:20,
/// plus `aes64ks1i`, whose low four `funct12` bits carry `rnum`.
fn decode_op_imm_bit(raw: u32) -> (r: Result<Op, ()>)
    requires
        opcode_of(raw) == 0x13,
    ensures
        match r {
            Ok(op) => encodes(raw, op),
            Err(_) => (forall|kind: BitUnaryOp|
                #[trigger] unary_code(kind) != (0x13u32, funct3_of(raw), funct12_of(raw))) && !(
            funct3_of(raw) == 1 && funct12_of(raw) / 0x10 == 0x31 && funct12_of(raw) % 0x10 <= 10),
        },
{
    proof {
        lemma_fields(raw);
    }
    let funct12: u32 = raw >> 20;
    // aes64ks1i: funct3 = 1, bits 31:24 = 0b0011_0001, rnum = bits 23:20.
    if funct3(raw) == 1 && (funct12 >> 4) == 0x31 {
        let rnum: u32 = funct12 & 0xf;
        // rnum 0xB..0xF do not decode.
        if rnum > 0xa {
            return Err(());
        }
        return Ok(Op::BitImm {
            kind: BitImmOp::Aes64ks1i,
            rd: rd(raw),
            rs1: rs1(raw),
            imm: rnum,
        });
    }
    let kind = match (funct3(raw), funct12) {
        // Zbb
        (1, 0x600) => BitUnaryOp::Clz,
        (1, 0x601) => BitUnaryOp::Ctz,
        (1, 0x602) => BitUnaryOp::Cpop,
        (1, 0x604) => BitUnaryOp::SextB,
        (1, 0x605) => BitUnaryOp::SextH,
        (5, 0x287) => BitUnaryOp::OrcB,
        (5, 0x6b8) => BitUnaryOp::Rev8,
        // Zbkb
        (5, 0x687) => BitUnaryOp::Brev8,
        // Zknd
        (1, 0x300) => BitUnaryOp::Aes64im,
        // Zknh
        (1, 0x100) => BitUnaryOp::Sha256sum0,
        (1, 0x101) => BitUnaryOp::Sha256sum1,
        (1, 0x102) => BitUnaryOp::Sha256sig0,
        (1, 0x103) => BitUnaryOp::Sha256sig1,
        (1, 0x104) => BitUnaryOp::Sha512sum0,
        (1, 0x105) => BitUnaryOp::Sha512sum1,
        (1, 0x106) => BitUnaryOp::Sha512sig0,
        (1, 0x107) => BitUnaryOp::Sha512sig1,
        _ => return Err(()),
    };
    Ok(Op::BitUnary {
        kind,
        rd: rd(raw),
        rs1: rs1(raw),
    })
}

/// Decode a 32-bit instruction word.
fn decode32(raw: u32) -> (r: Result<Op, ()>)
    ensures
        match r {
            Ok(op) => encodes(raw, op),
            Err(_) => forall|op: Op| !encodes(raw, op),
        },
{
    proof {
        lemma_fields(raw);
    }
    let opcode: u32 = raw & 0x7f;
    let f3: u32 = funct3(raw);
    match opcode {
        // LUI
        0x37 => Ok(Op::Lui {
            rd: rd(raw),
            imm: imm_u(raw),
        }),
        // AUIPC
        0x17 => Ok(Op::Auipc {
            rd: rd(raw),
            imm: imm_u(raw),
        }),
        // JAL
        0x6f => Ok(Op::Jal {
            rd: rd(raw),
            imm: imm_j(raw),
        }),
        // JALR
        0x67 => match f3 {
            0 => Ok(Op::Jalr {
                rd: rd(raw),
                rs1: rs1(raw),
                imm: imm_i(raw),
            }),
            _ => Err(()),
        },
        // BRANCH
        0x63 => decode_branch(raw),
        // LOAD
        0x03 => decode_load(raw),
        // STORE
        0x23 => decode_store(raw),
        // OP-IMM
        0x13 => decode_op_imm(raw),
        // OP-IMM-32
        0x1b => decode_op_imm32(raw),
        // OP
        0x33 => decode_op(raw),
        // OP-32
        0x3b => decode_op32(raw),
        // MISC-MEM
        0x0f => match f3 {
            0 => Ok(Op::Fence),
            1 => Ok(Op::FenceI),
            _ => Err(()),
        },
        // SYSTEM
        0x73 => decode_system(raw),
        // AMO
        0x2f => decode_amo(raw),
        // LOAD-FP
        0x07 => decode_load_fp(raw),
        // STORE-FP
        0x27 => decode_store_fp(raw),
        // FMADD / FMSUB / FNMSUB / FNMADD
        0x43 | 0x47 | 0x4b | 0x4f => decode_fused(raw),
        // OP-FP
        0x53 => decode_op_fp(raw),
        _ => Err(()),
    }
}

/// Decode the BRANCH major opcode.
fn decode_branch(raw: u32) -> (r: Result<Op, ()>)
    requires
        opcode_of(raw) == 0x63,
    ensures
        match r {
            Ok(op) => encodes(raw, op),
            Err(_) => forall|op: Op| !encodes(raw, op),
        },
{
    proof {
        lemma_fields(raw);
    }
    let f3: u32 = funct3(raw);
    let cond = match f3 {
        0 => BranchCond::Eq,
        1 => BranchCond::Ne,
        4 => BranchCond::Lt,
        5 => BranchCond::Ge,
        6 => BranchCond::Ltu,
        7 => BranchCond::Geu,
        _ => return Err(()),
    };
    Ok(Op::Branch {
        cond,
        rs1: rs1(raw),
        rs2: rs2(raw),
        imm: imm_b(raw),
    })
}

/// Decode the LOAD major opcode.
fn decode_load(raw: u32) -> (r: Result<Op, ()>)
    requires
        opcode_of(raw) == 0x03,
    ensures
        match r {
            Ok(op) => encodes(raw, op),
            Err(_) => forall|op: Op| !encodes(raw, op),
        },
{
    proof {
        lemma_fields(raw);
    }
    let f3: u32 = funct3(raw);
    let kind = match f3 {
        0 => LoadKind::B,
        1 => LoadKind::H,
        2 => LoadKind::W,
        3 => LoadKind::D,
        4 => LoadKind::Bu,
        5 => LoadKind::Hu,
        6 => LoadKind::Wu,
        _ => return Err(()),
    };
    Ok(Op::Load {
        kind,
        rd: rd(raw),
        rs1: rs1(raw),
        imm: imm_i(raw),
    })
}

/// Decode the STORE major opcode.
fn decode_store(raw: u32) -> (r: Result<Op, ()>)
    requires
        opcode_of(raw) == 0x23,
    ensures
        match r {
            Ok(op) => encodes(raw, op),
            Err(_) => forall|op: Op| !encodes(raw, op),
        },
{
    proof {
        lemma_fields(raw);
    }
    let f3: u32 = funct3(raw);
    let kind = match f3 {
        0 => StoreKind::B,
        1 => StoreKind::H,
        2 => StoreKind::W,
        3 => StoreKind::D,
        _ => return Err(()),
    };
    Ok(Op::Store {
        kind,
        rs1: rs1(raw),
        rs2: rs2(raw),
        imm: imm_s(raw),
    })
}

/// Decode the OP-IMM major opcode.
fn decode_op_imm(raw: u32) -> (r: Result<Op, ()>)
    requires
        opcode_of(raw) == 0x13,
    ensures
        match r {
            Ok(op) => encodes(raw, op),
            Err(_) => forall|op: Op| !encodes(raw, op),
        },
{
    proof {
        lemma_fields(raw);
    }
    let f3: u32 = funct3(raw);
    let (kind, imm): (AluOp, i64) = match f3 {
        0 => (AluOp::Add, imm_i(raw)),
        2 => (AluOp::Slt, imm_i(raw)),
        3 => (AluOp::Sltu, imm_i(raw)),
        4 => (AluOp::Xor, imm_i(raw)),
        6 => (AluOp::Or, imm_i(raw)),
        7 => (AluOp::And, imm_i(raw)),
        // Shifts: 6-bit shamt (bits 25:20), top 6 bits select the op.
        // Anything else in funct3 1/5 is a Zbb/Zbkb/Zk unary form.
        1 => match raw >> 26 {
            0x00 => (AluOp::Sll, ((raw >> 20) & 0x3f) as i64),
            _ => return decode_op_imm_bit(raw),
        },
        5 => match raw >> 26 {
            0x00 => (AluOp::Srl, ((raw >> 20) & 0x3f) as i64),
            0x10 => (AluOp::Sra, ((raw >> 20) & 0x3f) as i64),
            // rori: funct6 0b011000
            0x18 => {
                return Ok(Op::BitImm {
                    kind: BitImmOp::Rori,
                    rd: rd(raw),
                    rs1: rs1(raw),
                    imm: (raw >> 20) & 0x3f,
                })
            }
            _ => return decode_op_imm_bit(raw),
        },
        _ => return Err(()),
    };
    Ok(Op::OpImm {
        kind,
        rd: rd(raw),
        rs1: rs1(raw),
        imm,
    })
}

/// Decode the OP-IMM-32 major opcode.
fn decode_op_imm32(raw: u32) -> (r: Result<Op, ()>)
    requires
        opcode_of(raw) == 0x1b,
    ensures
        match r {
            Ok(op) => encodes(raw, op),
            Err(_) => forall|op: Op| !encodes(raw, op),
        },
{
    proof {
        lemma_fields(raw);
    }
    let f3: u32 = funct3(raw);
    let (kind, imm): (AluOp, i64) = match f3 {
        0 => (AluOp::Add, imm_i(raw)),
        // Shifts: 5-bit shamt; funct7 must be exact (bit 25 set is illegal).
        1 => match funct7(raw) {
            0x00 => (AluOp::Sll, ((raw >> 20) & 0x1f) as i64),
            // clzw/ctzw/cpopw: funct12 0x600/0x601/0x602
            0x30 => {
                let kind = match (raw >> 20) & 0x1f {
                    0 => BitUnaryOp::Clzw,
                    1 => BitUnaryOp::Ctzw,
                    2 => BitUnaryOp::Cpopw,
                    _ => return Err(()),
                };
                return Ok(Op::BitUnary {
                    kind,
                    rd: rd(raw),
                    rs1: rs1(raw),
                });
            }
            _ => return Err(()),
        },
        5 => match funct7(raw) {
            0x00 => (AluOp::Srl, ((raw >> 20) & 0x1f) as i64),
            0x20 => (AluOp::Sra, ((raw >> 20) & 0x1f) as i64),
            // roriw
            0x30 => {
                return Ok(Op::BitImm {
                    kind: BitImmOp::Roriw,
                    rd: rd(raw),
                    rs1: rs1(raw),
                    imm: (raw >> 20) & 0x1f,
                })
            }
            _ => return Err(()),
        },
        _ => return Err(()),
    };
    Ok(Op::OpImm32 {
        kind,
        rd: rd(raw),
        rs1: rs1(raw),
        imm,
    })
}

/// Decode the OP major opcode.
fn decode_op(raw: u32) -> (r: Result<Op, ()>)
    requires
        opcode_of(raw) == 0x33,
    ensures
        match r {
            Ok(op) => encodes(raw, op),
            Err(_) => forall|op: Op| !encodes(raw, op),
        },
{
    proof {
        lemma_fields(raw);
    }
    let f3: u32 = funct3(raw);
    let kind = match (funct7(raw), f3) {
        (0x00, 0) => AluOp::Add,
        (0x20, 0) => AluOp::Sub,
        (0x00, 1) => AluOp::Sll,
        (0x00, 2) => AluOp::Slt,
        (0x00, 3) => AluOp::Sltu,
        (0x00, 4) => AluOp::Xor,
        (0x00, 5) => AluOp::Srl,
        (0x20, 5) => AluOp::Sra,
        (0x00, 6) => AluOp::Or,
        (0x00, 7) => AluOp::And,
        (0x01, 0) => AluOp::Mul,
        (0x01, 1) => AluOp::Mulh,
        (0x01, 2) => AluOp::Mulhsu,
        (0x01, 3) => AluOp::Mulhu,
        (0x01, 4) => AluOp::Div,
        (0x01, 5) => AluOp::Divu,
        (0x01, 6) => AluOp::Rem,
        (0x01, 7) => AluOp::Remu,
        _ => return decode_op_bit(raw, false),
    };
    Ok(Op::OpReg {
        kind,
        rd: rd(raw),
        rs1: rs1(raw),
        rs2: rs2(raw),
    })
}

/// Decode the OP-32 major opcode.
fn decode_op32(raw: u32) -> (r: Result<Op, ()>)
    requires
        opcode_of(raw) == 0x3b,
    ensures
        match r {
            Ok(op) => encodes(raw, op),
            Err(_) => forall|op: Op| !encodes(raw, op),
        },
{
    proof {
        lemma_fields(raw);
    }
    let f3: u32 = funct3(raw);
    let kind = match (funct7(raw), f3) {
        (0x00, 0) => AluOp::Add,
        (0x20, 0) => AluOp::Sub,
        (0x00, 1) => AluOp::Sll,
        (0x00, 5) => AluOp::Srl,
        (0x20, 5) => AluOp::Sra,
        (0x01, 0) => AluOp::Mul,
        (0x01, 4) => AluOp::Div,
        (0x01, 5) => AluOp::Divu,
        (0x01, 6) => AluOp::Rem,
        (0x01, 7) => AluOp::Remu,
        _ => return decode_op_bit(raw, true),
    };
    Ok(Op::OpReg32 {
        kind,
        rd: rd(raw),
        rs1: rs1(raw),
        rs2: rs2(raw),
    })
}

/// Decode the AMO major opcode.
fn decode_amo(raw: u32) -> (r: Result<Op, ()>)
    requires
        opcode_of(raw) == 0x2f,
    ensures
        match r {
            Ok(op) => encodes(raw, op),
            Err(_) => forall|op: Op| !encodes(raw, op),
        },
{
    proof {
        lemma_fields(raw);
    }
    let f3: u32 = funct3(raw);
    let width = match f3 {
        2 => AmoWidth::W,
        3 => AmoWidth::D,
        _ => return Err(()),
    };
    // funct5 = funct7 without the aq/rl bits (single hart: ignored).
    let funct5: u32 = funct7(raw) >> 2;
    match funct5 {
        0x02 => {
            if rs2(raw) != 0 {
                return Err(());
            }
            Ok(Op::Lr {
                width,
                rd: rd(raw),
                rs1: rs1(raw),
            })
        }
        0x03 => Ok(Op::Sc {
            width,
            rd: rd(raw),
            rs1: rs1(raw),
            rs2: rs2(raw),
        }),
        _ => {
            let op = match funct5 {
                0x01 => AmoOp::Swap,
                0x00 => AmoOp::Add,
                0x04 => AmoOp::Xor,
                0x0c => AmoOp::And,
                0x08 => AmoOp::Or,
                0x10 => AmoOp::Min,
                0x14 => AmoOp::Max,
                0x18 => AmoOp::Minu,
                0x1c => AmoOp::Maxu,
                _ => return Err(()),
            };
            Ok(Op::Amo {
                op,
                width,
                rd: rd(raw),
                rs1: rs1(raw),
                rs2: rs2(raw),
            })
        }
    }
}

/// Decode the LOAD-FP major opcode.
fn decode_load_fp(raw: u32) -> (r: Result<Op, ()>)
    requires
        opcode_of(raw) == 0x07,
    ensures
        match r {
            Ok(op) => encodes(raw, op),
            Err(_) => forall|op: Op| !encodes(raw, op),
        },
{
    proof {
        lemma_fields(raw);
    }
    let f3: u32 = funct3(raw);
    let sz = match f3 {
        2 => FpSize::S,
        3 => FpSize::D,
        _ => return Err(()),
    };
    Ok(Op::FpLoad {
        sz,
        frd: rd(raw),
        rs1: rs1(raw),
        imm: imm_i(raw),
    })
}

/// Decode the STORE-FP major opcode.
fn decode_store_fp(raw: u32) -> (r: Result<Op, ()>)
    requires
        opcode_of(raw) == 0x27,
    ensures
        match r {
            Ok(op) => encodes(raw, op),
            Err(_) => forall|op: Op| !encodes(raw, op),
        },
{
    proof {
        lemma_fields(raw);
    }
    let f3: u32 = funct3(raw);
    let sz = match f3 {
        2 => FpSize::S,
        3 => FpSize::D,
        _ => return Err(()),
    };
    Ok(Op::FpStore {
        sz,
        rs1: rs1(raw),
        frs2: rs2(raw),
        imm: imm_s(raw),
    })
}

/// Decode the FMADD / FMSUB / FNMSUB / FNMADD major opcodes.
fn decode_fused(raw: u32) -> (r: Result<Op, ()>)
    requires
        opcode_of(raw) == 0x43 || opcode_of(raw) == 0x47 || opcode_of(raw) == 0x4b || opcode_of(raw) == 0x4f,
    ensures
        match r {
            Ok(op) => encodes(raw, op),
            Err(_) => forall|op: Op| !encodes(raw, op),
        },
{
    proof {
        lemma_fields(raw);
    }
    let opcode: u32 = raw & 0x7f;
    let f3: u32 = funct3(raw);
    let sz = match (raw >> 25) & 0x3 {
        0 => FpSize::S,
        1 => FpSize::D,
        _ => return Err(()),
    };
    let op = match opcode {
        0x43 => FpOp::Madd,
        0x47 => FpOp::Msub,
        0x4b => FpOp::Nmsub,
        0x4f => FpOp::Nmadd,
        _ => return Err(()),
    };
    Ok(Op::Fp {
        op,
        sz,
        rd: rd(raw),
        rs1: rs1(raw),
        rs2: rs2(raw),
        rs3: ((raw >> 27) & 0x1f) as usize,
        rm: f3 as u8,
    })
}

/// Decode the SYSTEM major opcode.
fn decode_system(raw: u32) -> (r: Result<Op, ()>)
    requires
        opcode_of(raw) == 0x73,
    ensures
        match r {
            Ok(op) => encodes(raw, op),
            Err(_) => forall|op: Op| !encodes(raw, op),
        },
{
    proof {
        lemma_fields(raw);
    }
    let f3: u32 = funct3(raw);
    match f3 {
        0 => match raw {
            0x0000_0073 => Ok(Op::Ecall),
            0x0010_0073 => Ok(Op::Ebreak),
            0x1020_0073 => Ok(Op::Sret),
            0x3020_0073 => Ok(Op::Mret),
            0x1050_0073 => Ok(Op::Wfi),
            _ if funct7(raw) == 0x09 && rd(raw) == 0 => Ok(Op::SfenceVma {
                rs1: rs1(raw),
                rs2: rs2(raw),
            }),
            _ => Err(()),
        },
        4 => Err(()),
        _ => {
            let kind = match f3 {
                1 => CsrOp::Rw,
                2 => CsrOp::Rs,
                3 => CsrOp::Rc,
                5 => CsrOp::Rwi,
                6 => CsrOp::Rsi,
                7 => CsrOp::Rci,
                _ => return Err(()),
            };
            Ok(Op::Csr {
                kind,
                rd: rd(raw),
                rs1: rs1(raw),
                csr: ((raw >> 20) & 0xfff) as u16,
            })
        }
    }
}

/// Decode the OP-FP major opcode.
fn decode_op_fp(raw: u32) -> (r: Result<Op, ()>)
    requires
        opcode_of(raw) == 0x53,
    ensures
        match r {
            Ok(op) => encodes(raw, op),
            Err(_) => forall|op: FpOp, sz: FpSize|
                fmt_of(raw) == fmt_code(sz) ==> !#[trigger] fp_selected(raw, op, sz),
        },
{
    proof {
        lemma_fields(raw);
    }
    let f7: u32 = funct7(raw);
    let f3: u32 = funct3(raw);
    let fmt: u32 = f7 & 0x3;
    // Only single (0) and double (1) precision are supported.
    let sz = match fmt {
        0 => FpSize::S,
        1 => FpSize::D,
        _ => return Err(()),
    };
    let (op, sz): (FpOp, FpSize) = match f7 >> 2 {
        0x00 => (FpOp::Add, sz),
        0x01 => (FpOp::Sub, sz),
        0x02 => (FpOp::Mul, sz),
        0x03 => (FpOp::Div, sz),
        // FSQRT: rs2 field must be zero.
        0x0b => {
            if rs2(raw) != 0 {
                return Err(());
            }
            (FpOp::Sqrt, sz)
        }
        // FSGNJ / FSGNJN / FSGNJX (funct3 is the selector, not rm)
        0x04 => match f3 {
            0 => (FpOp::Sgnj, sz),
            1 => (FpOp::Sgnjn, sz),
            2 => (FpOp::Sgnjx, sz),
            _ => return Err(()),
        },
        // FMIN / FMAX
        0x05 => match f3 {
            0 => (FpOp::Min, sz),
            1 => (FpOp::Max, sz),
            _ => return Err(()),
        },
        // FCVT.{W,WU,L,LU}.fmt (fp -> int; rs2 field selects)
        0x18 => match rs2(raw) {
            0 => (FpOp::CvtWFmt, sz),
            1 => (FpOp::CvtWuFmt, sz),
            2 => (FpOp::CvtLFmt, sz),
            3 => (FpOp::CvtLuFmt, sz),
            _ => return Err(()),
        },
        // FCVT.fmt.{W,WU,L,LU} (int -> fp; rs2 field selects)
        0x1a => match rs2(raw) {
            0 => (FpOp::CvtFmtW, sz),
            1 => (FpOp::CvtFmtWu, sz),
            2 => (FpOp::CvtFmtL, sz),
            3 => (FpOp::CvtFmtLu, sz),
            _ => return Err(()),
        },
        // FCVT.S.D / FCVT.D.S: `sz` (fmt) is the destination, rs2 the source.
        0x08 => match (fmt, rs2(raw)) {
            (0, 1) => (FpOp::CvtFmtFmt, FpSize::S), // fcvt.s.d
            (1, 0) => (FpOp::CvtFmtFmt, FpSize::D), // fcvt.d.s
            _ => return Err(()),
        },
        // FMV.X.W / FMV.X.D / FCLASS
        0x1c => match (f3, rs2(raw)) {
            (0, 0) => (FpOp::MvXFmt, sz),
            (1, 0) => (FpOp::Class, sz),
            _ => return Err(()),
        },
        // FMV.W.X / FMV.D.X
        0x1e => match (f3, rs2(raw)) {
            (0, 0) => (FpOp::MvFmtX, sz),
            _ => return Err(()),
        },
        // FEQ / FLT / FLE
        0x14 => match f3 {
            2 => (FpOp::Eq, sz),
            1 => (FpOp::Lt, sz),
            0 => (FpOp::Le, sz),
            _ => return Err(()),
        },
        _ => return Err(()),
    };
    Ok(Op::Fp {
        op,
        sz,
        rd: rd(raw),
        rs1: rs1(raw),
        rs2: rs2(raw),
        rs3: 0,
        rm: f3 as u8,
    })
}

// Compressed (RVC) helpers

/// rd/rs1 field in bits 11:7 (full register number).
fn c_rd(raw: u16) -> (r: usize)
    ensures
        r == c_rd_of(raw),
{
    proof {
        lemma_rvc(raw);
    }
    ((raw >> 7) & 0x1f) as usize
}

/// rs2 field in bits 6:2 (full register number).
fn c_rs2(raw: u16) -> (r: usize)
    ensures
        r == c_rs2_of(raw),
{
    proof {
        lemma_rvc(raw);
    }
    ((raw >> 2) & 0x1f) as usize
}

/// rd'/rs2' field in bits 4:2 (x8..x15).
fn c_reg_low(raw: u16) -> (r: usize)
    ensures
        r == c_low_of(raw),
{
    proof {
        lemma_rvc(raw);
    }
    (8 + ((raw >> 2) & 0x7)) as usize
}

/// rd'/rs1' field in bits 9:7 (x8..x15).
fn c_reg_high(raw: u16) -> (r: usize)
    ensures
        r == c_high_of(raw),
{
    proof {
        lemma_rvc(raw);
    }
    (8 + ((raw >> 7) & 0x7)) as usize
}

/// Sign-extend the low `bits` bits of `value`.
fn sext(value: u64, bits: u32) -> (r: i64)
    requires
        0 < bits <= 64,
    ensures
        bits == 6 && value < 0x40 ==> r == signed(value as int, 0x20),
        bits == 9 && value < 0x200 ==> r == signed(value as int, 0x100),
        bits == 10 && value < 0x400 ==> r == signed(value as int, 0x200),
        bits == 12 && value < 0x1000 ==> r == signed(value as int, 0x800),
{
    proof {
        lemma_sext(value);
    }
    let shift: u32 = 64 - bits;
    ((value << shift) as i64) >> shift
}

proof fn lemma_sext(v: u64)
    by (bit_vector)
    ensures
        v < 0x40 && v >= 0x20 ==> ((v << 58u32) as i64) >> 58u32 == v - 0x40,
        v < 0x40 && !(v >= 0x20) ==> ((v << 58u32) as i64) >> 58u32 == v,
        v < 0x200 && v >= 0x100 ==> ((v << 55u32) as i64) >> 55u32 == v - 0x200,
        v < 0x200 && !(v >= 0x100) ==> ((v << 55u32) as i64) >> 55u32 == v,
        v < 0x400 && v >= 0x200 ==> ((v << 54u32) as i64) >> 54u32 == v - 0x400,
        v < 0x400 && !(v >= 0x200) ==> ((v << 54u32) as i64) >> 54u32 == v,
        v < 0x1000 && v >= 0x800 ==> ((v << 52u32) as i64) >> 52u32 == v - 0x1000,
        v < 0x1000 && !(v >= 0x800) ==> ((v << 52u32) as i64) >> 52u32 == v,
{
}

/// The shift-and-mask form of every compressed field and immediate.
proof fn lemma_rvc(raw: u16)
    by (bit_vector)
    ensures
        raw & 0x3 == raw % 4,
        (raw >> 13) & 0x7 == raw / 0x2000,
        (raw >> 7) & 0x1f == (raw / 0x80) % 0x20,
        (raw >> 2) & 0x1f == (raw / 4) % 0x20,
        (raw >> 2) & 0x7 == (raw / 4) % 8,
        (raw >> 7) & 0x7 == (raw / 0x80) % 8,
        (raw >> 10) & 0x3 == (raw / 0x400) % 4,
        (raw >> 5) & 0x3 == (raw / 0x20) % 4,
        (raw >> 12) & 0x1 == (raw / 0x1000) % 2,
        ((raw >> 12) & 0x1) << 2 | ((raw >> 5) & 0x3) == ((raw / 0x1000) % 2) * 4 + (raw / 0x20)
            % 4,
        (((raw >> 12) & 0x1) << 5) | ((raw >> 2) & 0x1f) == ((raw / 0x1000) % 2) * 0x20 + (raw / 4)
            % 0x20,
        (((raw >> 11) & 0x3) << 4) | (((raw >> 7) & 0xf) << 6) | (((raw >> 6) & 0x1) << 2) | (((raw
            >> 5) & 0x1) << 3) == ((raw / 0x80) % 0x10) * 0x40 + ((raw / 0x800) % 4) * 0x10 + ((raw
            / 0x20) % 2) * 8 + ((raw / 0x40) % 2) * 4,
        (((raw >> 10) & 0x7) << 3) | (((raw >> 5) & 0x3) << 6) == ((raw / 0x20) % 4) * 0x40 + ((raw
            / 0x400) % 8) * 8,
        (((raw >> 10) & 0x7) << 3) | (((raw >> 6) & 0x1) << 2) | (((raw >> 5) & 0x1) << 6) == ((raw
            / 0x20) % 2) * 0x40 + ((raw / 0x400) % 8) * 8 + ((raw / 0x40) % 2) * 4,
        (((raw >> 12) & 0x1) << 9) | (((raw >> 6) & 0x1) << 4) | (((raw >> 5) & 0x1) << 6) | (((raw
            >> 3) & 0x3) << 7) | (((raw >> 2) & 0x1) << 5) == ((raw / 0x1000) % 2) * 0x200 + ((raw
            / 8) % 4) * 0x80 + ((raw / 0x20) % 2) * 0x40 + ((raw / 4) % 2) * 0x20 + ((raw / 0x40)
            % 2) * 0x10,
        (((raw >> 12) & 0x1) << 11) | (((raw >> 11) & 0x1) << 4) | (((raw >> 9) & 0x3) << 8) | (((
        raw >> 8) & 0x1) << 10) | (((raw >> 7) & 0x1) << 6) | (((raw >> 6) & 0x1) << 7) | (((raw
            >> 3) & 0x7) << 1) | (((raw >> 2) & 0x1) << 5) == ((raw / 0x1000) % 2) * 0x800 + ((raw
            / 0x100) % 2) * 0x400 + ((raw / 0x200) % 4) * 0x100 + ((raw / 0x40) % 2) * 0x80 + ((raw
            / 0x80) % 2) * 0x40 + ((raw / 4) % 2) * 0x20 + ((raw / 0x800) % 2) * 0x10 + ((raw / 8)
            % 8) * 2,
        (((raw >> 12) & 0x1) << 8) | (((raw >> 10) & 0x3) << 3) | (((raw >> 5) & 0x3) << 6) | (((raw
            >> 3) & 0x3) << 1) | (((raw >> 2) & 0x1) << 5) == ((raw / 0x1000) % 2) * 0x100 + ((raw
            / 0x20) % 4) * 0x40 + ((raw / 4) % 2) * 0x20 + ((raw / 0x400) % 4) * 8 + ((raw / 8)
            % 4) * 2,
        (((raw >> 12) & 0x1) << 5) | (((raw >> 5) & 0x3) << 3) | (((raw >> 2) & 0x7) << 6) == ((raw
            / 4) % 8) * 0x40 + ((raw / 0x1000) % 2) * 0x20 + ((raw / 0x20) % 4) * 8,
        (((raw >> 12) & 0x1) << 5) | (((raw >> 4) & 0x7) << 2) | (((raw >> 2) & 0x3) << 6) == ((raw
            / 4) % 4) * 0x40 + ((raw / 0x1000) % 2) * 0x20 + ((raw / 0x10) % 8) * 4,
        (((raw >> 10) & 0x7) << 3) | (((raw >> 7) & 0x7) << 6) == ((raw / 0x80) % 8) * 0x40 + ((raw
            / 0x400) % 8) * 8,
        (((raw >> 9) & 0xf) << 2) | (((raw >> 7) & 0x3) << 6) == ((raw / 0x80) % 4) * 0x40 + ((raw
            / 0x200) % 0x10) * 4,
{
}

/// CI-format sign-extended 6-bit immediate: imm[5]=inst[12], imm[4:0]=inst[6:2].
fn c_imm6(raw: u16) -> (r: i64)
    ensures
        r == signed(c_six_of(raw), 0x20),
{
    proof {
        lemma_rvc(raw);
    }
    sext(((((raw >> 12) & 0x1) << 5) | ((raw >> 2) & 0x1f)) as u64, 6)
}

/// CI-format unsigned 6-bit shamt (same bit positions as `c_imm6`).
fn c_shamt6(raw: u16) -> (r: i64)
    ensures
        r == c_six_of(raw),
{
    proof {
        lemma_rvc(raw);
    }
    (((((raw >> 12) & 0x1) << 5) | ((raw >> 2) & 0x1f)) as u64) as i64
}

/// Expand a compressed instruction.
fn decode16(raw: u16) -> (r: Result<Op, ()>)
    ensures
        match r {
            Ok(op) => expansion(raw) == Some(op),
            Err(_) => expansion(raw) is None,
        },
{
    proof {
        lemma_rvc(raw);
    }
    if raw == 0 {
        return Err(());
    }
    match raw & 0x3 {
        // ------------------------------------------------------------------
        // Quadrant 0
        // ------------------------------------------------------------------
        0b00 => decode_quadrant0(raw),
        // ------------------------------------------------------------------
        // Quadrant 1
        // ------------------------------------------------------------------
        0b01 => decode_quadrant1(raw),
        // ------------------------------------------------------------------
        // Quadrant 2
        // ------------------------------------------------------------------
        0b10 => decode_quadrant2(raw),
        // Quadrant 3 is the 32-bit space; `decode` never routes it here.
        _ => Err(()),
    }
}

/// Expand a compressed instruction of quadrant 0.
fn decode_quadrant0(raw: u16) -> (r: Result<Op, ()>)
    requires
        raw % 4 == 0,
    ensures
        match r {
            Ok(op) => expansion(raw) == Some(op),
            Err(_) => expansion(raw) is None,
        },
{
    proof {
        lemma_rvc(raw);
    }
    let f3: u16 = (raw >> 13) & 0x7;
    match f3 {
        // C.ADDI4SPN: addi rd', x2, nzuimm
        0 => {
            // nzuimm[5:4|9:6|2|3] = inst[12:11|10:7|6|5]
            let imm: i64 = ((((raw >> 11) & 0x3) << 4)
                | (((raw >> 7) & 0xf) << 6)
                | (((raw >> 6) & 0x1) << 2)
                | (((raw >> 5) & 0x1) << 3)) as i64;
            if imm == 0 {
                return Err(());
            }
            Ok(Op::OpImm {
                kind: AluOp::Add,
                rd: c_reg_low(raw),
                rs1: 2,
                imm,
            })
        }
        // C.FLD / C.LD / C.FSD / C.SD: uimm[5:3|7:6] = inst[12:10|6:5]
        1 | 3 | 5 | 7 => {
            let imm: i64 = ((((raw >> 10) & 0x7) << 3) | (((raw >> 5) & 0x3) << 6)) as i64;
            match f3 {
                1 => Ok(Op::FpLoad {
                    sz: FpSize::D,
                    frd: c_reg_low(raw),
                    rs1: c_reg_high(raw),
                    imm,
                }),
                3 => Ok(Op::Load {
                    kind: LoadKind::D,
                    rd: c_reg_low(raw),
                    rs1: c_reg_high(raw),
                    imm,
                }),
                5 => Ok(Op::FpStore {
                    sz: FpSize::D,
                    rs1: c_reg_high(raw),
                    frs2: c_reg_low(raw),
                    imm,
                }),
                7 => Ok(Op::Store {
                    kind: StoreKind::D,
                    rs1: c_reg_high(raw),
                    rs2: c_reg_low(raw),
                    imm,
                }),
                _ => return Err(()),
            }
        }
        // C.LW / C.SW: uimm[5:3|2|6] = inst[12:10|6|5]
        2 | 6 => {
            let imm: i64 = ((((raw >> 10) & 0x7) << 3)
                | (((raw >> 6) & 0x1) << 2)
                | (((raw >> 5) & 0x1) << 6)) as i64;
            match f3 {
                2 => Ok(Op::Load {
                    kind: LoadKind::W,
                    rd: c_reg_low(raw),
                    rs1: c_reg_high(raw),
                    imm,
                }),
                6 => Ok(Op::Store {
                    kind: StoreKind::W,
                    rs1: c_reg_high(raw),
                    rs2: c_reg_low(raw),
                    imm,
                }),
                _ => return Err(()),
            }
        }
        // f3 == 4 is reserved
        _ => Err(()),
    }
}

/// Expand a compressed instruction of quadrant 1.
fn decode_quadrant1(raw: u16) -> (r: Result<Op, ()>)
    requires
        raw % 4 == 1,
    ensures
        match r {
            Ok(op) => expansion(raw) == Some(op),
            Err(_) => expansion(raw) is None,
        },
{
    proof {
        lemma_rvc(raw);
    }
    let f3: u16 = (raw >> 13) & 0x7;
    match f3 {
        // C.NOP / C.ADDI: addi rd, rd, imm
        0 => {
            let r: usize = c_rd(raw);
            Ok(Op::OpImm {
                kind: AluOp::Add,
                rd: r,
                rs1: r,
                imm: c_imm6(raw),
            })
        }
        // C.ADDIW (RV64; rd == 0 reserved): addiw rd, rd, imm
        1 => {
            let r: usize = c_rd(raw);
            if r == 0 {
                return Err(());
            }
            Ok(Op::OpImm32 {
                kind: AluOp::Add,
                rd: r,
                rs1: r,
                imm: c_imm6(raw),
            })
        }
        // C.LI: addi rd, x0, imm
        2 => Ok(Op::OpImm {
            kind: AluOp::Add,
            rd: c_rd(raw),
            rs1: 0,
            imm: c_imm6(raw),
        }),
        // C.ADDI16SP / C.LUI
        3 => {
            let r: usize = c_rd(raw);
            if r == 2 {
                // C.ADDI16SP: nzimm[9|4|6|8:7|5] = inst[12|6|5|4:3|2]
                let imm: i64 = sext(
                    ((((raw >> 12) & 0x1) << 9)
                        | (((raw >> 6) & 0x1) << 4)
                        | (((raw >> 5) & 0x1) << 6)
                        | (((raw >> 3) & 0x3) << 7)
                        | (((raw >> 2) & 0x1) << 5)) as u64,
                    10,
                );
                if imm == 0 {
                    return Err(());
                }
                Ok(Op::OpImm {
                    kind: AluOp::Add,
                    rd: 2,
                    rs1: 2,
                    imm,
                })
            } else {
                // C.LUI: nzimm[17:12] = inst[12|6:2] (rd == 0 is a hint)
                let imm: i64 = c_imm6(raw) * 0x1000;
                if imm == 0 {
                    return Err(());
                }
                Ok(Op::Lui { rd: r, imm })
            }
        }
        // C.SRLI / C.SRAI / C.ANDI / register-register ops
        4 => {
            let r: usize = c_reg_high(raw);
            match (raw >> 10) & 0x3 {
                0 => Ok(Op::OpImm {
                    kind: AluOp::Srl,
                    rd: r,
                    rs1: r,
                    imm: c_shamt6(raw),
                }),
                1 => Ok(Op::OpImm {
                    kind: AluOp::Sra,
                    rd: r,
                    rs1: r,
                    imm: c_shamt6(raw),
                }),
                2 => Ok(Op::OpImm {
                    kind: AluOp::And,
                    rd: r,
                    rs1: r,
                    imm: c_imm6(raw),
                }),
                _ => {
                    let rs2: usize = c_reg_low(raw);
                    match ((raw >> 12) & 0x1) << 2 | ((raw >> 5) & 0x3) {
                        0b000 => Ok(Op::OpReg {
                            kind: AluOp::Sub,
                            rd: r,
                            rs1: r,
                            rs2,
                        }),
                        0b001 => Ok(Op::OpReg {
                            kind: AluOp::Xor,
                            rd: r,
                            rs1: r,
                            rs2,
                        }),
                        0b010 => Ok(Op::OpReg {
                            kind: AluOp::Or,
                            rd: r,
                            rs1: r,
                            rs2,
                        }),
                        0b011 => Ok(Op::OpReg {
                            kind: AluOp::And,
                            rd: r,
                            rs1: r,
                            rs2,
                        }),
                        0b100 => Ok(Op::OpReg32 {
                            kind: AluOp::Sub,
                            rd: r,
                            rs1: r,
                            rs2,
                        }),
                        0b101 => Ok(Op::OpReg32 {
                            kind: AluOp::Add,
                            rd: r,
                            rs1: r,
                            rs2,
                        }),
                        _ => Err(()),
                    }
                }
            }
        }
        // C.J: imm[11|4|9:8|10|6|7|3:1|5] = inst[12|11|10:9|8|7|6|5:3|2]
        5 => {
            let imm: i64 = sext(
                ((((raw >> 12) & 0x1) << 11)
                    | (((raw >> 11) & 0x1) << 4)
                    | (((raw >> 9) & 0x3) << 8)
                    | (((raw >> 8) & 0x1) << 10)
                    | (((raw >> 7) & 0x1) << 6)
                    | (((raw >> 6) & 0x1) << 7)
                    | (((raw >> 3) & 0x7) << 1)
                    | (((raw >> 2) & 0x1) << 5)) as u64,
                12,
            );
            Ok(Op::Jal { rd: 0, imm })
        }
        // C.BEQZ / C.BNEZ: imm[8|4:3|7:6|2:1|5] = inst[12|11:10|6:5|4:3|2]
        6 | 7 => {
            let imm: i64 = sext(
                ((((raw >> 12) & 0x1) << 8)
                    | (((raw >> 10) & 0x3) << 3)
                    | (((raw >> 5) & 0x3) << 6)
                    | (((raw >> 3) & 0x3) << 1)
                    | (((raw >> 2) & 0x1) << 5)) as u64,
                9,
            );
            let cond = if f3 == 6 {
                BranchCond::Eq
            } else {
                BranchCond::Ne
            };
            Ok(Op::Branch {
                cond,
                rs1: c_reg_high(raw),
                rs2: 0,
                imm,
            })
        }
        _ => return Err(()),
    }
}

/// Expand a compressed instruction of quadrant 2.
fn decode_quadrant2(raw: u16) -> (r: Result<Op, ()>)
    requires
        raw % 4 == 2,
    ensures
        match r {
            Ok(op) => expansion(raw) == Some(op),
            Err(_) => expansion(raw) is None,
        },
{
    proof {
        lemma_rvc(raw);
    }
    let f3: u16 = (raw >> 13) & 0x7;
    match f3 {
        // C.SLLI: slli rd, rd, shamt
        0 => {
            let r: usize = c_rd(raw);
            Ok(Op::OpImm {
                kind: AluOp::Sll,
                rd: r,
                rs1: r,
                imm: c_shamt6(raw),
            })
        }
        // C.FLDSP / C.LDSP: uimm[5|4:3|8:6] = inst[12|6:5|4:2]
        1 | 3 => {
            let imm: i64 = ((((raw >> 12) & 0x1) << 5)
                | (((raw >> 5) & 0x3) << 3)
                | (((raw >> 2) & 0x7) << 6)) as i64;
            if f3 == 1 {
                Ok(Op::FpLoad {
                    sz: FpSize::D,
                    frd: c_rd(raw),
                    rs1: 2,
                    imm,
                })
            } else {
                if c_rd(raw) == 0 {
                    return Err(());
                }
                Ok(Op::Load {
                    kind: LoadKind::D,
                    rd: c_rd(raw),
                    rs1: 2,
                    imm,
                })
            }
        }
        // C.LWSP: uimm[5|4:2|7:6] = inst[12|6:4|3:2]
        2 => {
            if c_rd(raw) == 0 {
                return Err(());
            }
            let imm: i64 = ((((raw >> 12) & 0x1) << 5)
                | (((raw >> 4) & 0x7) << 2)
                | (((raw >> 2) & 0x3) << 6)) as i64;
            Ok(Op::Load {
                kind: LoadKind::W,
                rd: c_rd(raw),
                rs1: 2,
                imm,
            })
        }
        // C.JR / C.MV / C.EBREAK / C.JALR / C.ADD
        4 => {
            let r: usize = c_rd(raw);
            let rs2: usize = c_rs2(raw);
            if (raw >> 12) & 0x1 == 0 {
                if rs2 == 0 {
                    // C.JR (rs1 == 0 reserved)
                    if r == 0 {
                        return Err(());
                    }
                    Ok(Op::Jalr {
                        rd: 0,
                        rs1: r,
                        imm: 0,
                    })
                } else {
                    // C.MV: add rd, x0, rs2
                    Ok(Op::OpReg {
                        kind: AluOp::Add,
                        rd: r,
                        rs1: 0,
                        rs2,
                    })
                }
            } else if rs2 == 0 {
                if r == 0 {
                    Ok(Op::Ebreak)
                } else {
                    // C.JALR: jalr x1, 0(rs1)
                    Ok(Op::Jalr {
                        rd: 1,
                        rs1: r,
                        imm: 0,
                    })
                }
            } else {
                // C.ADD: add rd, rd, rs2
                Ok(Op::OpReg {
                    kind: AluOp::Add,
                    rd: r,
                    rs1: r,
                    rs2,
                })
            }
        }
        // C.FSDSP / C.SDSP: uimm[5:3|8:6] = inst[12:10|9:7]
        5 | 7 => {
            let imm: i64 = ((((raw >> 10) & 0x7) << 3) | (((raw >> 7) & 0x7) << 6)) as i64;
            if f3 == 5 {
                Ok(Op::FpStore {
                    sz: FpSize::D,
                    rs1: 2,
                    frs2: c_rs2(raw),
                    imm,
                })
            } else {
                Ok(Op::Store {
                    kind: StoreKind::D,
                    rs1: 2,
                    rs2: c_rs2(raw),
                    imm,
                })
            }
        }
        // C.SWSP: uimm[5:2|7:6] = inst[12:9|8:7]
        6 => {
            let imm: i64 = ((((raw >> 9) & 0xf) << 2) | (((raw >> 7) & 0x3) << 6)) as i64;
            Ok(Op::Store {
                kind: StoreKind::W,
                rs1: 2,
                rs2: c_rs2(raw),
                imm,
            })
        }
        _ => return Err(()),
    }
}


} // verus!
