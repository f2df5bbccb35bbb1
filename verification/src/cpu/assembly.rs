//! The instruction formats read the other way round: the word that stands for
//! an operation, and that decoding undoes it.
use vstd::prelude::*;

use super::decode::{
    csr_code, decoding, encodes, expansion, lemma_decoding, AluOp, AmoOp, AmoWidth, BranchCond,
    CsrOp, DecodedInst, FpSize, LoadKind, Op, StoreKind,
};

verus! {

/// The six fields of a register-register word, from bit 31 down.
pub open spec fn r_word(f7: int, rs2: int, rs1: int, f3: int, rd: int, opcode: int) -> int {
    f7 * 0x200_0000 + rs2 * 0x10_0000 + rs1 * 0x8000 + f3 * 0x1000 + rd * 0x80 + opcode
}

/// A twelve-bit immediate above rs1.
pub open spec fn i_word(imm: int, rs1: int, f3: int, rd: int, opcode: int) -> int {
    imm % 0x1000 * 0x10_0000 + rs1 * 0x8000 + f3 * 0x1000 + rd * 0x80 + opcode
}

/// A twelve-bit immediate split round the registers: bits 11..5 and 4..0.
pub open spec fn s_word(imm: int, rs2: int, rs1: int, f3: int, opcode: int) -> int {
    let u = imm % 0x1000;
    r_word(u / 32, rs2, rs1, f3, u % 32, opcode)
}

/// A thirteen-bit even distance: bits 12, 10..5 above, 4..1, 11 below.
pub open spec fn b_word(imm: int, rs2: int, rs1: int, f3: int) -> int {
    let u = imm % 0x2000;
    r_word(
        u / 0x1000 * 64 + u / 32 % 64,
        rs2,
        rs1,
        f3,
        u / 2 % 16 * 2 + u / 0x800 % 2,
        0x63,
    )
}

/// The upper twenty bits in place.
pub open spec fn u_word(imm: int, rd: int, opcode: int) -> int {
    imm / 0x1000 % 0x10_0000 * 0x1000 + rd * 0x80 + opcode
}

/// A twenty-one-bit even distance: bits 20, 10..1, 11, 19..12.
pub open spec fn j_word(imm: int, rd: int) -> int {
    let u = imm % 0x20_0000;
    (u / 0x10_0000 * 0x8_0000 + u / 2 % 0x400 * 0x200 + u / 0x800 % 2 * 0x100 + u / 0x1000 % 0x100)
        * 0x1000 + rd * 0x80 + 0x6f
}

#[verifier::spinoff_prover]
proof fn lemma_r_fields(f7: int, rs2: int, rs1: int, f3: int, rd: int, opcode: int)
    requires
        0 <= f7 < 128,
        0 <= rs2 < 32,
        0 <= rs1 < 32,
        0 <= f3 < 8,
        0 <= rd < 32,
        0 <= opcode < 128,
    ensures
        ({
            let raw = r_word(f7, rs2, rs1, f3, rd, opcode);
            &&& 0 <= raw < 0x1_0000_0000
            &&& raw % 0x80 == opcode
            &&& raw / 0x80 % 0x20 == rd
            &&& raw / 0x1000 % 8 == f3
            &&& raw / 0x8000 % 0x20 == rs1
            &&& raw / 0x10_0000 % 0x20 == rs2
            &&& raw / 0x200_0000 == f7
            &&& raw / 0x10_0000 == f7 * 32 + rs2
            &&& raw % 4 == opcode % 4
        }),
{
    let raw = r_word(f7, rs2, rs1, f3, rd, opcode);
    assert(raw / 0x80 == f7 * 0x4_0000 + rs2 * 0x2000 + rs1 * 0x100 + f3 * 0x20 + rd);
    assert(raw / 0x1000 == f7 * 0x2000 + rs2 * 0x100 + rs1 * 8 + f3);
    assert(raw / 0x8000 == f7 * 0x400 + rs2 * 0x20 + rs1);
    assert(raw / 0x10_0000 == f7 * 0x20 + rs2);
}

proof fn lemma_found(raw: u32, op: Op)
    requires
        raw % 4 == 3,
        encodes(raw, op),
    ensures
        decoding(raw) == Some(DecodedInst { op, len: 4 }),
{
    lemma_decoding(raw, DecodedInst { op, len: 4 });
}

/// A register-register word decodes to its operation on its registers, rs1
/// first: funct7 and funct3 select it, and the opcode its width.
pub proof fn law_register_words(kind: AluOp, f7: int, f3: int, rs2: u32, rs1: u32, rd: u32)
    requires
        rs2 < 32,
        rs1 < 32,
        rd < 32,
        match kind {
            AluOp::Add => (f7, f3) == (0int, 0int),
            AluOp::Sub => (f7, f3) == (0x20int, 0int),
            AluOp::Sll => (f7, f3) == (0int, 1int),
            AluOp::Slt => (f7, f3) == (0int, 2int),
            AluOp::Sltu => (f7, f3) == (0int, 3int),
            AluOp::Xor => (f7, f3) == (0int, 4int),
            AluOp::Srl => (f7, f3) == (0int, 5int),
            AluOp::Sra => (f7, f3) == (0x20int, 5int),
            AluOp::Or => (f7, f3) == (0int, 6int),
            AluOp::And => (f7, f3) == (0int, 7int),
            AluOp::Mul => (f7, f3) == (1int, 0int),
            AluOp::Mulh => (f7, f3) == (1int, 1int),
            AluOp::Mulhsu => (f7, f3) == (1int, 2int),
            AluOp::Mulhu => (f7, f3) == (1int, 3int),
            AluOp::Div => (f7, f3) == (1int, 4int),
            AluOp::Divu => (f7, f3) == (1int, 5int),
            AluOp::Rem => (f7, f3) == (1int, 6int),
            AluOp::Remu => (f7, f3) == (1int, 7int),
        },
    ensures
        decoding(r_word(f7, rs2 as int, rs1 as int, f3, rd as int, 0x33) as u32) == Some(
            DecodedInst {
                op: Op::OpReg { kind, rd: rd as usize, rs1: rs1 as usize, rs2: rs2 as usize },
                len: 4,
            },
        ),
        f3 == 0 || f3 == 5 || (f7 == 0 && f3 == 1) || (f7 == 1 && f3 != 1 && f3 != 2 && f3 != 3)
            ==> decoding(r_word(f7, rs2 as int, rs1 as int, f3, rd as int, 0x3b) as u32) == Some(
            DecodedInst {
                op: Op::OpReg32 { kind, rd: rd as usize, rs1: rs1 as usize, rs2: rs2 as usize },
                len: 4,
            },
        ),
{
    lemma_r_fields(f7, rs2 as int, rs1 as int, f3, rd as int, 0x33);
    lemma_r_fields(f7, rs2 as int, rs1 as int, f3, rd as int, 0x3b);
    lemma_found(
        r_word(f7, rs2 as int, rs1 as int, f3, rd as int, 0x33) as u32,
        Op::OpReg { kind, rd: rd as usize, rs1: rs1 as usize, rs2: rs2 as usize },
    );
    if f3 == 0 || f3 == 5 || (f7 == 0 && f3 == 1) || (f7 == 1 && f3 != 1 && f3 != 2 && f3 != 3) {
        lemma_found(
            r_word(f7, rs2 as int, rs1 as int, f3, rd as int, 0x3b) as u32,
            Op::OpReg32 { kind, rd: rd as usize, rs1: rs1 as usize, rs2: rs2 as usize },
        );
    }
}

proof fn lemma_i_fields(imm: int, rs1: int, f3: int, rd: int, opcode: int)
    requires
        -0x800 <= imm < 0x800,
        0 <= rs1 < 32,
        0 <= f3 < 8,
        0 <= rd < 32,
        0 <= opcode < 128,
    ensures
        ({
            let raw = i_word(imm, rs1, f3, rd, opcode);
            &&& 0 <= raw < 0x1_0000_0000
            &&& raw % 0x80 == opcode
            &&& raw / 0x80 % 0x20 == rd
            &&& raw / 0x1000 % 8 == f3
            &&& raw / 0x8000 % 0x20 == rs1
            &&& raw / 0x10_0000 == imm % 0x1000
            &&& raw % 4 == opcode % 4
            &&& imm % 0x1000 == if imm < 0 {
                imm + 0x1000
            } else {
                imm
            }
        }),
{
    let u = imm % 0x1000;
    lemma_r_fields(u / 32, u % 32, rs1, f3, rd, opcode);
    assert(r_word(u / 32, u % 32, rs1, f3, rd, opcode) == i_word(imm, rs1, f3, rd, opcode));
}

/// An arithmetic word with a twelve-bit signed immediate decodes to its
/// operation with that immediate.
#[verifier::spinoff_prover]
#[verifier::rlimit(60)]
pub proof fn law_arithmetic_immediate_words(imm: i64, rs1: u32, rd: u32)
    requires
        -0x800 <= imm < 0x800,
        rs1 < 32,
        rd < 32,
    ensures
        decoding(i_word(imm as int, rs1 as int, 0, rd as int, 0x13) as u32) == Some(
            DecodedInst {
                op: Op::OpImm { kind: AluOp::Add, rd: rd as usize, rs1: rs1 as usize, imm },
                len: 4,
            },
        ),
        decoding(i_word(imm as int, rs1 as int, 2, rd as int, 0x13) as u32) == Some(
            DecodedInst {
                op: Op::OpImm { kind: AluOp::Slt, rd: rd as usize, rs1: rs1 as usize, imm },
                len: 4,
            },
        ),
        decoding(i_word(imm as int, rs1 as int, 3, rd as int, 0x13) as u32) == Some(
            DecodedInst {
                op: Op::OpImm { kind: AluOp::Sltu, rd: rd as usize, rs1: rs1 as usize, imm },
                len: 4,
            },
        ),
        decoding(i_word(imm as int, rs1 as int, 4, rd as int, 0x13) as u32) == Some(
            DecodedInst {
                op: Op::OpImm { kind: AluOp::Xor, rd: rd as usize, rs1: rs1 as usize, imm },
                len: 4,
            },
        ),
        decoding(i_word(imm as int, rs1 as int, 6, rd as int, 0x13) as u32) == Some(
            DecodedInst {
                op: Op::OpImm { kind: AluOp::Or, rd: rd as usize, rs1: rs1 as usize, imm },
                len: 4,
            },
        ),
        decoding(i_word(imm as int, rs1 as int, 7, rd as int, 0x13) as u32) == Some(
            DecodedInst {
                op: Op::OpImm { kind: AluOp::And, rd: rd as usize, rs1: rs1 as usize, imm },
                len: 4,
            },
        ),
{
    lemma_i_decodes(
        imm,
        rs1,
        0,
        rd,
        0x13,
        Op::OpImm { kind: AluOp::Add, rd: rd as usize, rs1: rs1 as usize, imm },
    );
    lemma_i_decodes(
        imm,
        rs1,
        2,
        rd,
        0x13,
        Op::OpImm { kind: AluOp::Slt, rd: rd as usize, rs1: rs1 as usize, imm },
    );
    lemma_i_decodes(
        imm,
        rs1,
        3,
        rd,
        0x13,
        Op::OpImm { kind: AluOp::Sltu, rd: rd as usize, rs1: rs1 as usize, imm },
    );
    lemma_i_decodes(
        imm,
        rs1,
        4,
        rd,
        0x13,
        Op::OpImm { kind: AluOp::Xor, rd: rd as usize, rs1: rs1 as usize, imm },
    );
    lemma_i_decodes(
        imm,
        rs1,
        6,
        rd,
        0x13,
        Op::OpImm { kind: AluOp::Or, rd: rd as usize, rs1: rs1 as usize, imm },
    );
    lemma_i_decodes(
        imm,
        rs1,
        7,
        rd,
        0x13,
        Op::OpImm { kind: AluOp::And, rd: rd as usize, rs1: rs1 as usize, imm },
    );
}

/// addiw, jalr and the floating-point loads hold such an immediate too.
#[verifier::spinoff_prover]
#[verifier::rlimit(60)]
pub proof fn law_other_immediate_words(imm: i64, rs1: u32, rd: u32)
    requires
        -0x800 <= imm < 0x800,
        rs1 < 32,
        rd < 32,
    ensures
        decoding(i_word(imm as int, rs1 as int, 0, rd as int, 0x1b) as u32) == Some(
            DecodedInst {
                op: Op::OpImm32 { kind: AluOp::Add, rd: rd as usize, rs1: rs1 as usize, imm },
                len: 4,
            },
        ),
        decoding(i_word(imm as int, rs1 as int, 0, rd as int, 0x67) as u32) == Some(
            DecodedInst {
                op: Op::Jalr { rd: rd as usize, rs1: rs1 as usize, imm },
                len: 4,
            },
        ),
        decoding(i_word(imm as int, rs1 as int, 2, rd as int, 0x07) as u32) == Some(
            DecodedInst {
                op: Op::FpLoad { sz: FpSize::S, frd: rd as usize, rs1: rs1 as usize, imm },
                len: 4,
            },
        ),
        decoding(i_word(imm as int, rs1 as int, 3, rd as int, 0x07) as u32) == Some(
            DecodedInst {
                op: Op::FpLoad { sz: FpSize::D, frd: rd as usize, rs1: rs1 as usize, imm },
                len: 4,
            },
        ),
{
    lemma_i_decodes(
        imm,
        rs1,
        0,
        rd,
        0x1b,
        Op::OpImm32 { kind: AluOp::Add, rd: rd as usize, rs1: rs1 as usize, imm },
    );
    lemma_i_decodes(
        imm,
        rs1,
        0,
        rd,
        0x67,
        Op::Jalr { rd: rd as usize, rs1: rs1 as usize, imm },
    );
    lemma_i_decodes(
        imm,
        rs1,
        2,
        rd,
        0x07,
        Op::FpLoad { sz: FpSize::S, frd: rd as usize, rs1: rs1 as usize, imm },
    );
    lemma_i_decodes(
        imm,
        rs1,
        3,
        rd,
        0x07,
        Op::FpLoad { sz: FpSize::D, frd: rd as usize, rs1: rs1 as usize, imm },
    );
}

/// A load word decodes to the load of its width and sign.
#[verifier::spinoff_prover]
#[verifier::rlimit(60)]
pub proof fn law_load_words(imm: i64, rs1: u32, rd: u32)
    requires
        -0x800 <= imm < 0x800,
        rs1 < 32,
        rd < 32,
    ensures
        decoding(i_word(imm as int, rs1 as int, 0, rd as int, 0x03) as u32) == Some(
            DecodedInst {
                op: Op::Load { kind: LoadKind::B, rd: rd as usize, rs1: rs1 as usize, imm },
                len: 4,
            },
        ),
        decoding(i_word(imm as int, rs1 as int, 1, rd as int, 0x03) as u32) == Some(
            DecodedInst {
                op: Op::Load { kind: LoadKind::H, rd: rd as usize, rs1: rs1 as usize, imm },
                len: 4,
            },
        ),
        decoding(i_word(imm as int, rs1 as int, 2, rd as int, 0x03) as u32) == Some(
            DecodedInst {
                op: Op::Load { kind: LoadKind::W, rd: rd as usize, rs1: rs1 as usize, imm },
                len: 4,
            },
        ),
        decoding(i_word(imm as int, rs1 as int, 3, rd as int, 0x03) as u32) == Some(
            DecodedInst {
                op: Op::Load { kind: LoadKind::D, rd: rd as usize, rs1: rs1 as usize, imm },
                len: 4,
            },
        ),
        decoding(i_word(imm as int, rs1 as int, 4, rd as int, 0x03) as u32) == Some(
            DecodedInst {
                op: Op::Load { kind: LoadKind::Bu, rd: rd as usize, rs1: rs1 as usize, imm },
                len: 4,
            },
        ),
        decoding(i_word(imm as int, rs1 as int, 5, rd as int, 0x03) as u32) == Some(
            DecodedInst {
                op: Op::Load { kind: LoadKind::Hu, rd: rd as usize, rs1: rs1 as usize, imm },
                len: 4,
            },
        ),
        decoding(i_word(imm as int, rs1 as int, 6, rd as int, 0x03) as u32) == Some(
            DecodedInst {
                op: Op::Load { kind: LoadKind::Wu, rd: rd as usize, rs1: rs1 as usize, imm },
                len: 4,
            },
        ),
{
    lemma_i_decodes(
        imm,
        rs1,
        0,
        rd,
        0x03,
        Op::Load { kind: LoadKind::B, rd: rd as usize, rs1: rs1 as usize, imm },
    );
    lemma_i_decodes(
        imm,
        rs1,
        1,
        rd,
        0x03,
        Op::Load { kind: LoadKind::H, rd: rd as usize, rs1: rs1 as usize, imm },
    );
    lemma_i_decodes(
        imm,
        rs1,
        2,
        rd,
        0x03,
        Op::Load { kind: LoadKind::W, rd: rd as usize, rs1: rs1 as usize, imm },
    );
    lemma_i_decodes(
        imm,
        rs1,
        3,
        rd,
        0x03,
        Op::Load { kind: LoadKind::D, rd: rd as usize, rs1: rs1 as usize, imm },
    );
    lemma_i_decodes(
        imm,
        rs1,
        4,
        rd,
        0x03,
        Op::Load { kind: LoadKind::Bu, rd: rd as usize, rs1: rs1 as usize, imm },
    );
    lemma_i_decodes(
        imm,
        rs1,
        5,
        rd,
        0x03,
        Op::Load { kind: LoadKind::Hu, rd: rd as usize, rs1: rs1 as usize, imm },
    );
    lemma_i_decodes(
        imm,
        rs1,
        6,
        rd,
        0x03,
        Op::Load { kind: LoadKind::Wu, rd: rd as usize, rs1: rs1 as usize, imm },
    );
}

proof fn lemma_i_decodes(imm: i64, rs1: u32, f3: u32, rd: u32, opcode: u32, op: Op)
    requires
        -0x800 <= imm < 0x800,
        rs1 < 32,
        f3 < 8,
        rd < 32,
        opcode < 128,
        opcode % 4 == 3,
        forall|raw: u32|
            raw % 0x80 == opcode && raw / 0x80 % 0x20 == rd && raw / 0x1000 % 8 == f3 && raw
                / 0x8000 % 0x20 == rs1 && raw as int / 0x10_0000 == imm % 0x1000 ==> #[trigger]
            encodes(raw, op),
    ensures
        decoding(i_word(imm as int, rs1 as int, f3 as int, rd as int, opcode as int) as u32)
            == Some(DecodedInst { op, len: 4 }),
{
    lemma_i_fields(imm as int, rs1 as int, f3 as int, rd as int, opcode as int);
    let raw = i_word(imm as int, rs1 as int, f3 as int, rd as int, opcode as int) as u32;
    assert(encodes(raw, op));
    lemma_found(raw, op);
}

/// A store word decodes to the store with its signed twelve-bit offset.
pub proof fn law_store_words(imm: i64, rs2: u32, rs1: u32, f3: u32)
    requires
        -0x800 <= imm < 0x800,
        rs2 < 32,
        rs1 < 32,
        f3 < 4,
    ensures
        decoding(s_word(imm as int, rs2 as int, rs1 as int, f3 as int, 0x23) as u32) == Some(
            DecodedInst {
                op: Op::Store {
                    kind: if f3 == 0 {
                        StoreKind::B
                    } else if f3 == 1 {
                        StoreKind::H
                    } else if f3 == 2 {
                        StoreKind::W
                    } else {
                        StoreKind::D
                    },
                    rs1: rs1 as usize,
                    rs2: rs2 as usize,
                    imm,
                },
                len: 4,
            },
        ),
        f3 >= 2 ==> decoding(
            s_word(imm as int, rs2 as int, rs1 as int, f3 as int, 0x27) as u32,
        ) == Some(
            DecodedInst {
                op: Op::FpStore {
                    sz: if f3 == 2 {
                        FpSize::S
                    } else {
                        FpSize::D
                    },
                    rs1: rs1 as usize,
                    frs2: rs2 as usize,
                    imm,
                },
                len: 4,
            },
        ),
{
    let u = imm as int % 0x1000;
    lemma_r_fields(u / 32, rs2 as int, rs1 as int, f3 as int, u % 32, 0x23);
    lemma_r_fields(u / 32, rs2 as int, rs1 as int, f3 as int, u % 32, 0x27);
    let kind = if f3 == 0 {
        StoreKind::B
    } else if f3 == 1 {
        StoreKind::H
    } else if f3 == 2 {
        StoreKind::W
    } else {
        StoreKind::D
    };
    lemma_found(
        s_word(imm as int, rs2 as int, rs1 as int, f3 as int, 0x23) as u32,
        Op::Store { kind, rs1: rs1 as usize, rs2: rs2 as usize, imm },
    );
    if f3 >= 2 {
        let sz = if f3 == 2 {
            FpSize::S
        } else {
            FpSize::D
        };
        lemma_found(
            s_word(imm as int, rs2 as int, rs1 as int, f3 as int, 0x27) as u32,
            Op::FpStore { sz, rs1: rs1 as usize, frs2: rs2 as usize, imm },
        );
    }
}

/// A branch word decodes to the branch with its signed even distance.
#[verifier::spinoff_prover]
#[verifier::rlimit(40)]
pub proof fn law_branch_words(imm: i64, rs2: u32, rs1: u32, f3: u32)
    requires
        -0x1000 <= imm < 0x1000,
        imm % 2 == 0,
        rs2 < 32,
        rs1 < 32,
        f3 < 8,
        f3 != 2,
        f3 != 3,
    ensures
        decoding(b_word(imm as int, rs2 as int, rs1 as int, f3 as int) as u32) == Some(
            DecodedInst {
                op: Op::Branch {
                    cond: if f3 == 0 {
                        BranchCond::Eq
                    } else if f3 == 1 {
                        BranchCond::Ne
                    } else if f3 == 4 {
                        BranchCond::Lt
                    } else if f3 == 5 {
                        BranchCond::Ge
                    } else if f3 == 6 {
                        BranchCond::Ltu
                    } else {
                        BranchCond::Geu
                    },
                    rs1: rs1 as usize,
                    rs2: rs2 as usize,
                    imm,
                },
                len: 4,
            },
        ),
{
    let u = imm as int % 0x2000;
    let f7 = u / 0x1000 * 64 + u / 32 % 64;
    let rd = u / 2 % 16 * 2 + u / 0x800 % 2;
    lemma_r_fields(f7, rs2 as int, rs1 as int, f3 as int, rd, 0x63);
    let raw = b_word(imm as int, rs2 as int, rs1 as int, f3 as int);
    assert(raw / 0x8000_0000 == u / 0x1000) by {
        assert(raw / 0x200_0000 == f7);
        assert(raw / 0x8000_0000 == raw / 0x200_0000 / 64);
    }
    assert(raw / 0x200_0000 % 0x40 == u / 32 % 64);
    assert(raw / 0x80 % 2 == u / 0x800 % 2) by {
        assert(raw / 0x80 % 0x20 == rd);
        assert(raw / 0x80 % 2 == raw / 0x80 % 0x20 % 2);
    }
    assert(raw / 0x100 % 0x10 == u / 2 % 16) by {
        assert(raw / 0x100 == raw / 0x80 / 2);
        assert(raw / 0x80 / 2 % 0x10 == raw / 0x80 % 0x20 / 2);
    }
    assert(u == u / 0x1000 * 0x1000 + u / 0x800 % 2 * 0x800 + u / 32 % 64 * 32 + u / 2 % 16 * 2);
    lemma_found(
        raw as u32,
        Op::Branch {
            cond: if f3 == 0 {
                BranchCond::Eq
            } else if f3 == 1 {
                BranchCond::Ne
            } else if f3 == 4 {
                BranchCond::Lt
            } else if f3 == 5 {
                BranchCond::Ge
            } else if f3 == 6 {
                BranchCond::Ltu
            } else {
                BranchCond::Geu
            },
            rs1: rs1 as usize,
            rs2: rs2 as usize,
            imm,
        },
    );
}

/// lui and auipc words hold the upper twenty bits of their immediate.
pub proof fn law_upper_words(upper: i64, rd: u32)
    requires
        -0x8000_0000 <= upper < 0x8000_0000,
        upper % 0x1000 == 0,
        rd < 32,
    ensures
        decoding(u_word(upper as int, rd as int, 0x37) as u32) == Some(
            DecodedInst { op: Op::Lui { rd: rd as usize, imm: upper }, len: 4 },
        ),
        decoding(u_word(upper as int, rd as int, 0x17) as u32) == Some(
            DecodedInst { op: Op::Auipc { rd: rd as usize, imm: upper }, len: 4 },
        ),
{
    let page = upper as int / 0x1000;
    assert(upper == page * 0x1000);
    let v = page % 0x10_0000;
    assert(v == if page < 0 {
        page + 0x10_0000
    } else {
        page
    });
    lemma_upper_fields(v, rd as int, 0x37);
    lemma_upper_fields(v, rd as int, 0x17);
    lemma_found(
        u_word(upper as int, rd as int, 0x37) as u32,
        Op::Lui { rd: rd as usize, imm: upper },
    );
    lemma_found(
        u_word(upper as int, rd as int, 0x17) as u32,
        Op::Auipc { rd: rd as usize, imm: upper },
    );
}

#[verifier::spinoff_prover]
proof fn lemma_jump_fields(a: int, b: int, c: int, d: int, rd: int)
    requires
        0 <= a < 2,
        0 <= b < 0x400,
        0 <= c < 2,
        0 <= d < 0x100,
        0 <= rd < 32,
    ensures
        ({
            let raw = (a * 0x8_0000 + b * 0x200 + c * 0x100 + d) * 0x1000 + rd * 0x80 + 0x6f;
            &&& 0 <= raw < 0x1_0000_0000
            &&& raw % 0x80 == 0x6f
            &&& raw / 0x80 % 0x20 == rd
            &&& raw / 0x8000_0000 == a
            &&& raw / 0x20_0000 % 0x400 == b
            &&& raw / 0x10_0000 % 2 == c
            &&& raw / 0x1000 % 0x100 == d
            &&& raw % 4 == 3
        }),
{
    let x = a * 0x8_0000 + b * 0x200 + c * 0x100 + d;
    lemma_upper_fields(x, rd, 0x6f);
    let raw = x * 0x1000 + rd * 0x80 + 0x6f;
    assert(raw / 0x1000 == x);
    assert(raw / 0x10_0000 == a * 0x800 + b * 2 + c);
    assert(raw / 0x20_0000 == a * 0x400 + b);
}

#[verifier::spinoff_prover]
proof fn lemma_distance(distance: int)
    requires
        -0x10_0000 <= distance < 0x10_0000,
        distance % 2 == 0,
    ensures
        ({
            let u = distance % 0x20_0000;
            &&& 0 <= u < 0x20_0000
            &&& u == u / 0x10_0000 * 0x10_0000 + u / 0x1000 % 0x100 * 0x1000 + u / 0x800 % 2
                * 0x800 + u / 2 % 0x400 * 2
            &&& 0 <= u / 0x10_0000 < 2
            &&& u == if distance < 0 {
                distance + 0x20_0000
            } else {
                distance
            }
        }),
{
    let u = distance % 0x20_0000;
    let w = u / 2;
    assert(u == w * 2);
    assert(w == w / 0x400 * 0x400 + w % 0x400);
    assert(u / 0x800 == w / 0x400);
    assert(u / 0x800 == u / 0x1000 * 2 + u / 0x800 % 2);
    assert(u / 0x1000 == u / 0x10_0000 * 0x100 + u / 0x1000 % 0x100);
}

/// A jal word holds a signed even distance.
#[verifier::spinoff_prover]
pub proof fn law_jump_words(distance: i64, rd: u32)
    requires
        -0x10_0000 <= distance < 0x10_0000,
        distance % 2 == 0,
        rd < 32,
    ensures
        decoding(j_word(distance as int, rd as int) as u32) == Some(
            DecodedInst { op: Op::Jal { rd: rd as usize, imm: distance }, len: 4 },
        ),
{
    let u = distance as int % 0x20_0000;
    lemma_distance(distance as int);
    lemma_jump_fields(
        u / 0x10_0000,
        u / 2 % 0x400,
        u / 0x800 % 2,
        u / 0x1000 % 0x100,
        rd as int,
    );
    lemma_found(
        j_word(distance as int, rd as int) as u32,
        Op::Jal { rd: rd as usize, imm: distance },
    );
}

proof fn lemma_upper_fields(x: int, rd: int, opcode: int)
    requires
        0 <= x < 0x10_0000,
        0 <= rd < 32,
        0 <= opcode < 128,
    ensures
        ({
            let raw = x * 0x1000 + rd * 0x80 + opcode;
            &&& 0 <= raw < 0x1_0000_0000
            &&& raw % 0x80 == opcode
            &&& raw / 0x80 % 0x20 == rd
            &&& raw / 0x1000 == x
            &&& raw % 4 == opcode % 4
        }),
{
    let raw = x * 0x1000 + rd * 0x80 + opcode;
    assert(raw / 0x80 == x * 0x20 + rd);
}

/// Immediate shifts take six bits of amount, in the word forms five; bit 30
/// makes the right shift arithmetic.
pub proof fn law_shift_words(amount: u32, rs1: u32, rd: u32)
    requires
        amount < 64,
        rs1 < 32,
        rd < 32,
    ensures
        ({
            let (r, d, imm) = (rs1 as usize, rd as usize, amount as i64);
            let at = |top: int, f3: int, opcode: int|
                decoding(
                    r_word(
                        top * 2 + amount / 32,
                        (amount % 32) as int,
                        rs1 as int,
                        f3,
                        rd as int,
                        opcode,
                    ) as u32,
                );
            let wide = |kind: AluOp|
                Some(DecodedInst { op: Op::OpImm { kind, rd: d, rs1: r, imm }, len: 4 });
            let word = |kind: AluOp|
                Some(DecodedInst { op: Op::OpImm32 { kind, rd: d, rs1: r, imm }, len: 4 });
            &&& at(0, 1, 0x13) == wide(AluOp::Sll)
            &&& at(0, 5, 0x13) == wide(AluOp::Srl)
            &&& at(0x10, 5, 0x13) == wide(AluOp::Sra)
            &&& amount < 32 ==> at(0, 1, 0x1b) == word(AluOp::Sll) && at(0, 5, 0x1b) == word(
                AluOp::Srl,
            ) && at(0x10, 5, 0x1b) == word(AluOp::Sra)
        }),
{
    let (r, d, imm) = (rs1 as usize, rd as usize, amount as i64);
    let (hi, lo) = ((amount / 32) as int, (amount % 32) as int);
    lemma_shift_word(0, hi, lo, rs1 as int, 1, rd as int, 0x13);
    lemma_shift_word(0, hi, lo, rs1 as int, 5, rd as int, 0x13);
    lemma_shift_word(0x10, hi, lo, rs1 as int, 5, rd as int, 0x13);
    lemma_shift_word(0, hi, lo, rs1 as int, 1, rd as int, 0x1b);
    lemma_shift_word(0, hi, lo, rs1 as int, 5, rd as int, 0x1b);
    lemma_shift_word(0x10, hi, lo, rs1 as int, 5, rd as int, 0x1b);
    lemma_found(
        r_word(hi, lo, rs1 as int, 1, rd as int, 0x13) as u32,
        Op::OpImm { kind: AluOp::Sll, rd: d, rs1: r, imm },
    );
    lemma_found(
        r_word(hi, lo, rs1 as int, 5, rd as int, 0x13) as u32,
        Op::OpImm { kind: AluOp::Srl, rd: d, rs1: r, imm },
    );
    lemma_found(
        r_word(0x20 + hi, lo, rs1 as int, 5, rd as int, 0x13) as u32,
        Op::OpImm { kind: AluOp::Sra, rd: d, rs1: r, imm },
    );
    if amount < 32 {
        lemma_found(
            r_word(hi, lo, rs1 as int, 1, rd as int, 0x1b) as u32,
            Op::OpImm32 { kind: AluOp::Sll, rd: d, rs1: r, imm },
        );
        lemma_found(
            r_word(hi, lo, rs1 as int, 5, rd as int, 0x1b) as u32,
            Op::OpImm32 { kind: AluOp::Srl, rd: d, rs1: r, imm },
        );
        lemma_found(
            r_word(0x20 + hi, lo, rs1 as int, 5, rd as int, 0x1b) as u32,
            Op::OpImm32 { kind: AluOp::Sra, rd: d, rs1: r, imm },
        );
    }
}

proof fn lemma_shift_word(top: int, hi: int, lo: int, rs1: int, f3: int, rd: int, opcode: int)
    requires
        top == 0 || top == 0x10,
        0 <= hi < 2,
        0 <= lo < 32,
        0 <= rs1 < 32,
        0 <= f3 < 8,
        0 <= rd < 32,
        0 <= opcode < 128,
    ensures
        ({
            let raw = r_word(top * 2 + hi, lo, rs1, f3, rd, opcode);
            &&& 0 <= raw < 0x1_0000_0000
            &&& raw % 0x80 == opcode
            &&& raw / 0x80 % 0x20 == rd
            &&& raw / 0x1000 % 8 == f3
            &&& raw / 0x8000 % 0x20 == rs1
            &&& raw / 0x10_0000 % 0x20 == lo
            &&& raw / 0x10_0000 % 0x40 == hi * 32 + lo
            &&& raw / 0x200_0000 == top * 2 + hi
            &&& raw / 0x400_0000 == top
            &&& raw % 4 == opcode % 4
        }),
{
    lemma_r_fields(top * 2 + hi, lo, rs1, f3, rd, opcode);
    let raw = r_word(top * 2 + hi, lo, rs1, f3, rd, opcode);
    assert(raw / 0x400_0000 == raw / 0x200_0000 / 2);
}

/// A CSR word holds the CSR's number above the source.
pub proof fn law_csr_words(number: u32, rs1: u32, rd: u32, f3: u32)
    requires
        number < 0x1000,
        rs1 < 32,
        rd < 32,
        f3 < 8,
        f3 != 0,
        f3 != 4,
    ensures
        decoding(
            r_word(
                (number / 32) as int,
                (number % 32) as int,
                rs1 as int,
                f3 as int,
                rd as int,
                0x73,
            ) as u32,
        ) == Some(
            DecodedInst {
                op: Op::Csr {
                    kind: if f3 == 1 {
                        CsrOp::Rw
                    } else if f3 == 2 {
                        CsrOp::Rs
                    } else if f3 == 3 {
                        CsrOp::Rc
                    } else if f3 == 5 {
                        CsrOp::Rwi
                    } else if f3 == 6 {
                        CsrOp::Rsi
                    } else {
                        CsrOp::Rci
                    },
                    rd: rd as usize,
                    rs1: rs1 as usize,
                    csr: number as u16,
                },
                len: 4,
            },
        ),
{
    let kind = if f3 == 1 {
        CsrOp::Rw
    } else if f3 == 2 {
        CsrOp::Rs
    } else if f3 == 3 {
        CsrOp::Rc
    } else if f3 == 5 {
        CsrOp::Rwi
    } else if f3 == 6 {
        CsrOp::Rsi
    } else {
        CsrOp::Rci
    };
    lemma_csr_word(number, rs1, rd, f3, kind);
}

/// An atomic word holds the operation above any ordering bits, and its width
/// in funct3.
pub proof fn law_atomic_words_decode(
    f5: u32,
    ordering: u32,
    rs2: u32,
    rs1: u32,
    rd: u32,
    double: bool,
)
    requires
        f5 == 2 ==> rs2 == 0,
        f5 == 0 || f5 == 1 || f5 == 2 || f5 == 3 || f5 == 4 || f5 == 8 || f5 == 12 || f5 == 16
            || f5 == 20 || f5 == 24 || f5 == 28,
        rs2 < 32,
        rs1 < 32,
        rd < 32,
        ordering < 4,
    ensures
        decoding(
            r_word(
                f5 * 4 + ordering,
                rs2 as int,
                rs1 as int,
                if double {
                    3
                } else {
                    2
                },
                rd as int,
                0x2f,
            ) as u32,
        ) == Some(DecodedInst { op: atomic(f5, double, rs2, rs1, rd), len: 4 }),
{
    lemma_atomic_word(
        f5,
        ordering,
        rs2,
        rs1,
        if double {
            3
        } else {
            2
        },
        rd,
        atomic(f5, double, rs2, rs1, rd),
    );
}

/// The atomic that the five bits at the top of its word select.
pub open spec fn atomic(f5: u32, double: bool, rs2: u32, rs1: u32, rd: u32) -> Op {
    let width = if double {
        AmoWidth::D
    } else {
        AmoWidth::W
    };
    let (rd, rs1, rs2) = (rd as usize, rs1 as usize, rs2 as usize);
    if f5 == 2 {
        Op::Lr { width, rd, rs1 }
    } else if f5 == 3 {
        Op::Sc { width, rd, rs1, rs2 }
    } else {
        Op::Amo {
            op: if f5 == 0 {
                AmoOp::Add
            } else if f5 == 1 {
                AmoOp::Swap
            } else if f5 == 4 {
                AmoOp::Xor
            } else if f5 == 8 {
                AmoOp::Or
            } else if f5 == 12 {
                AmoOp::And
            } else if f5 == 16 {
                AmoOp::Min
            } else if f5 == 20 {
                AmoOp::Max
            } else if f5 == 24 {
                AmoOp::Minu
            } else {
                AmoOp::Maxu
            },
            width,
            rd,
            rs1,
            rs2,
        }
    }
}

proof fn lemma_csr_word(number: u32, rs1: u32, rd: u32, f3: u32, kind: CsrOp)
    requires
        number < 0x1000,
        rs1 < 32,
        rd < 32,
        f3 < 8,
        f3 == csr_code(kind),
    ensures
        decoding(
            r_word(
                (number / 32) as int,
                (number % 32) as int,
                rs1 as int,
                f3 as int,
                rd as int,
                0x73,
            ) as u32,
        ) == Some(
            DecodedInst {
                op: Op::Csr { kind, rd: rd as usize, rs1: rs1 as usize, csr: number as u16 },
                len: 4,
            },
        ),
{
    lemma_r_fields(
        (number / 32) as int,
        (number % 32) as int,
        rs1 as int,
        f3 as int,
        rd as int,
        0x73,
    );
    lemma_found(
        r_word(
            (number / 32) as int,
            (number % 32) as int,
            rs1 as int,
            f3 as int,
            rd as int,
            0x73,
        ) as u32,
        Op::Csr { kind, rd: rd as usize, rs1: rs1 as usize, csr: number as u16 },
    );
}

proof fn lemma_atomic_word(f5: u32, ordering: u32, rs2: u32, rs1: u32, f3: u32, rd: u32, op: Op)
    requires
        f5 < 32,
        ordering < 4,
        rs2 < 32,
        rs1 < 32,
        f3 < 8,
        rd < 32,
        forall|raw: u32|
            raw % 0x80 == 0x2f && raw / 0x80 % 0x20 == rd && raw / 0x1000 % 8 == f3 && raw / 0x8000
                % 0x20 == rs1 && raw / 0x10_0000 % 0x20 == rs2 && raw / 0x800_0000 == f5
                ==> #[trigger] encodes(raw, op),
    ensures
        decoding(
            r_word(f5 * 4 + ordering, rs2 as int, rs1 as int, f3 as int, rd as int, 0x2f) as u32,
        ) == Some(DecodedInst { op, len: 4 }),
{
    lemma_r_fields(f5 * 4 + ordering, rs2 as int, rs1 as int, f3 as int, rd as int, 0x2f);
    let raw = r_word(f5 * 4 + ordering, rs2 as int, rs1 as int, f3 as int, rd as int, 0x2f);
    assert(raw / 0x800_0000 == raw / 0x200_0000 / 4);
    assert(encodes(raw as u32, op));
    lemma_found(raw as u32, op);
}

/// The digits of a number put together from three.
#[verifier::spinoff_prover]
proof fn lemma_digits(a: int, b: int, c: int)
    requires
        0 <= a,
        0 <= b,
        0 <= c,
    ensures
        b < 8 && c < 2 ==> {
            let n = a * 64 + b * 8 + c * 4;
            n % 4 == 0 && n / 4 % 2 == c && n / 8 % 8 == b && n / 64 == a
        },
        b < 8 ==> {
            let n = a * 64 + b * 8;
            n % 8 == 0 && n / 8 % 8 == b && n / 64 == a
        },
        b < 2 && c < 8 ==> {
            let n = a * 64 + b * 32 + c * 4;
            n % 4 == 0 && n / 4 % 8 == c && n / 32 % 2 == b && n / 64 == a
        },
        b < 2 && c < 4 ==> {
            let n = a * 64 + b * 32 + c * 8;
            n % 8 == 0 && n / 8 % 4 == c && n / 32 % 2 == b && n / 64 == a
        },
        b < 16 ==> {
            let n = a * 64 + b * 4;
            n % 4 == 0 && n / 4 % 16 == b && n / 64 == a
        },
{
    assert((a * 64 + b * 8 + c * 4) / 4 == a * 16 + b * 2 + c);
    assert(c < 2 ==> (a * 64 + b * 8 + c * 4) / 8 == a * 8 + b);
    assert((a * 64 + b * 32 + c * 4) / 4 == a * 16 + b * 8 + c);
    assert(c < 8 ==> (a * 64 + b * 32 + c * 4) / 32 == a * 2 + b);
    assert((a * 64 + b * 32 + c * 8) / 8 == a * 8 + b * 4 + c);
    assert(c < 4 ==> (a * 64 + b * 32 + c * 8) / 32 == a * 2 + b);
    assert((a * 64 + b * 8) / 8 == a * 8 + b);
    assert((a * 64 + b * 4) / 4 == a * 16 + b);
}

/// Where the bits of a compressed load or store offset stand, for registers 8
/// to 15.
#[verifier::spinoff_prover]
#[verifier::rlimit(40)]
pub proof fn law_compressed_offsets(raw: u16)
    requires
        raw % 4 == 0,
    ensures
        raw / 0x2000 == 2 || raw / 0x2000 == 6 ==> exists|imm: i64|
            {
                &&& #[trigger] word_offset(raw, imm)
                &&& raw / 0x2000 == 2 ==> expansion(raw) == Some(
                    Op::Load {
                        kind: LoadKind::W,
                        rd: (8 + raw / 4 % 8) as usize,
                        rs1: (8 + raw / 0x80 % 8) as usize,
                        imm,
                    },
                )
                &&& raw / 0x2000 == 6 ==> expansion(raw) == Some(
                    Op::Store {
                        kind: StoreKind::W,
                        rs1: (8 + raw / 0x80 % 8) as usize,
                        rs2: (8 + raw / 4 % 8) as usize,
                        imm,
                    },
                )
            },
        raw / 0x2000 == 3 || raw / 0x2000 == 7 || raw / 0x2000 == 1 || raw / 0x2000 == 5
            ==> exists|imm: i64|
            {
                &&& #[trigger] doubleword_offset(raw, imm)
                &&& raw / 0x2000 == 3 ==> expansion(raw) == Some(
                    Op::Load {
                        kind: LoadKind::D,
                        rd: (8 + raw / 4 % 8) as usize,
                        rs1: (8 + raw / 0x80 % 8) as usize,
                        imm,
                    },
                )
                &&& raw / 0x2000 == 7 ==> expansion(raw) == Some(
                    Op::Store {
                        kind: StoreKind::D,
                        rs1: (8 + raw / 0x80 % 8) as usize,
                        rs2: (8 + raw / 4 % 8) as usize,
                        imm,
                    },
                )
                &&& raw / 0x2000 == 1 ==> expansion(raw) == Some(
                    Op::FpLoad {
                        sz: FpSize::D,
                        frd: (8 + raw / 4 % 8) as usize,
                        rs1: (8 + raw / 0x80 % 8) as usize,
                        imm,
                    },
                )
                &&& raw / 0x2000 == 5 ==> expansion(raw) == Some(
                    Op::FpStore {
                        sz: FpSize::D,
                        rs1: (8 + raw / 0x80 % 8) as usize,
                        frs2: (8 + raw / 4 % 8) as usize,
                        imm,
                    },
                )
            },
        raw == 0 ==> expansion(raw) is None,
        raw / 0x2000 == 4 ==> expansion(raw) is None,
{
    lemma_digits((raw / 0x20 % 2) as int, (raw / 0x400 % 8) as int, (raw / 0x40 % 2) as int);
    lemma_digits((raw / 0x20 % 4) as int, (raw / 0x400 % 8) as int, 0);
    assert(super::decode::c_word_of(raw) == (raw / 0x20 % 2) * 64 + (raw / 0x400 % 8) * 8 + (raw
        / 0x40 % 2) * 4);
    assert(super::decode::c_dword_of(raw) == (raw / 0x20 % 4) * 64 + (raw / 0x400 % 8) * 8);
    assert(word_offset(raw, super::decode::c_word_of(raw) as i64));
    assert(doubleword_offset(raw, super::decode::c_dword_of(raw) as i64));
}

/// A multiple of four below 128: bit 2 from bit 6, bits 5..3 from 12..10, bit
/// 6 from bit 5.
pub open spec fn word_offset(raw: u16, imm: i64) -> bool {
    &&& 0 <= imm < 128
    &&& imm % 4 == 0
    &&& imm / 4 % 2 == raw / 0x40 % 2
    &&& imm / 8 % 8 == raw / 0x400 % 8
    &&& imm / 64 == raw / 0x20 % 2
}

/// A multiple of eight below 256: bits 5..3 from 12..10, bits 7..6 from 6..5.
pub open spec fn doubleword_offset(raw: u16, imm: i64) -> bool {
    &&& 0 <= imm < 256
    &&& imm % 8 == 0
    &&& imm / 8 % 8 == raw / 0x400 % 8
    &&& imm / 64 == raw / 0x20 % 4
}

/// A six-bit signed number: the sign in bit 12, the rest in bits 6..2.
pub open spec fn six_bits(raw: u16, imm: i64) -> bool {
    &&& -32 <= imm < 32
    &&& imm % 32 == raw / 4 % 32
    &&& (imm < 0) == (raw / 0x1000 % 2 == 1)
}

/// The compressed immediates that stand round one register: c.addi, c.addiw,
/// c.li, c.lui and the shifts and masks of registers 8 to 15.
pub proof fn law_compressed_immediates(raw: u16)
    requires
        raw % 4 == 1,
    ensures
        ({
            let rd = (raw / 0x80 % 32) as usize;
            let high = (8 + raw / 0x80 % 8) as usize;
            let amount = (raw / 0x1000 % 2 * 32 + raw / 4 % 32) as i64;
            exists|imm: i64|
                {
                    &&& #[trigger] six_bits(raw, imm)
                    &&& raw / 0x2000 == 0 ==> expansion(raw) == Some(
                        Op::OpImm { kind: AluOp::Add, rd, rs1: rd, imm },
                    )
                    &&& raw / 0x2000 == 1 && rd != 0 ==> expansion(raw) == Some(
                        Op::OpImm32 { kind: AluOp::Add, rd, rs1: rd, imm },
                    )
                    &&& raw / 0x2000 == 2 ==> expansion(raw) == Some(
                        Op::OpImm { kind: AluOp::Add, rd, rs1: 0, imm },
                    )
                    &&& raw / 0x2000 == 3 && rd != 2 && imm != 0 ==> expansion(raw) == Some(
                        Op::Lui { rd, imm: (imm * 0x1000) as i64 },
                    )
                    &&& raw / 0x2000 == 3 && imm == 0 && rd != 2 ==> expansion(raw) is None
                    &&& raw / 0x2000 == 4 && raw / 0x400 % 4 == 2 ==> expansion(raw) == Some(
                        Op::OpImm { kind: AluOp::And, rd: high, rs1: high, imm },
                    )
                    &&& raw / 0x2000 == 4 && raw / 0x400 % 4 == 0 ==> expansion(raw) == Some(
                        Op::OpImm { kind: AluOp::Srl, rd: high, rs1: high, imm: amount },
                    )
                    &&& raw / 0x2000 == 4 && raw / 0x400 % 4 == 1 ==> expansion(raw) == Some(
                        Op::OpImm { kind: AluOp::Sra, rd: high, rs1: high, imm: amount },
                    )
                }
        }),
        raw / 0x2000 == 1 && raw / 0x80 % 32 == 0 ==> expansion(raw) is None,
{
    let imm = super::decode::signed(super::decode::c_six_of(raw), 0x20) as i64;
    assert(six_bits(raw, imm));
}

/// The compressed register operations: the first register is source and
/// destination.
pub proof fn law_compressed_register_operations(raw: u16)
    ensures
        raw % 4 == 1 && raw / 0x2000 == 4 && raw / 0x400 % 4 == 3 ==> {
            let high = (8 + raw / 0x80 % 8) as usize;
            let low = (8 + raw / 4 % 8) as usize;
            let select = raw / 0x1000 % 2 * 4 + raw / 0x20 % 4;
            expansion(raw) == if select == 0 {
                Some(Op::OpReg { kind: AluOp::Sub, rd: high, rs1: high, rs2: low })
            } else if select == 1 {
                Some(Op::OpReg { kind: AluOp::Xor, rd: high, rs1: high, rs2: low })
            } else if select == 2 {
                Some(Op::OpReg { kind: AluOp::Or, rd: high, rs1: high, rs2: low })
            } else if select == 3 {
                Some(Op::OpReg { kind: AluOp::And, rd: high, rs1: high, rs2: low })
            } else if select == 4 {
                Some(Op::OpReg32 { kind: AluOp::Sub, rd: high, rs1: high, rs2: low })
            } else if select == 5 {
                Some(Op::OpReg32 { kind: AluOp::Add, rd: high, rs1: high, rs2: low })
            } else {
                None
            }
        },
        raw % 4 == 2 && raw / 0x2000 == 4 ==> {
            let first = (raw / 0x80 % 32) as usize;
            let second = (raw / 4 % 32) as usize;
            expansion(raw) == if raw / 0x1000 % 2 == 0 {
                if second != 0 {
                    Some(Op::OpReg { kind: AluOp::Add, rd: first, rs1: 0, rs2: second })
                } else if first != 0 {
                    Some(Op::Jalr { rd: 0, rs1: first, imm: 0 })
                } else {
                    None
                }
            } else {
                if second != 0 {
                    Some(Op::OpReg { kind: AluOp::Add, rd: first, rs1: first, rs2: second })
                } else if first != 0 {
                    Some(Op::Jalr { rd: 1, rs1: first, imm: 0 })
                } else {
                    Some(Op::Ebreak)
                }
            }
        },
{
}

/// A signed even distance: its sign in bit 12, bit 10 from bit 8, 9..8 from
/// 10..9, 7 from 6, 6 from 7, 5 from 2, 4 from 11 and 3..1 from 5..3.
pub open spec fn jump_distance(raw: u16, imm: i64) -> bool {
    &&& -0x800 <= imm < 0x800
    &&& imm % 2 == 0
    &&& (imm < 0) == (raw / 0x1000 % 2 == 1)
    &&& imm / 2 % 8 == raw / 8 % 8
    &&& imm / 0x10 % 2 == raw / 0x800 % 2
    &&& imm / 0x20 % 2 == raw / 4 % 2
    &&& imm / 0x40 % 2 == raw / 0x80 % 2
    &&& imm / 0x80 % 2 == raw / 0x40 % 2
    &&& imm / 0x100 % 4 == raw / 0x200 % 4
    &&& imm / 0x400 % 2 == raw / 0x100 % 2
}

/// A signed even distance: its sign in bit 12, bits 7..6 from 6..5, 5 from 2,
/// 4..3 from 11..10 and 2..1 from 4..3.
pub open spec fn branch_distance(raw: u16, imm: i64) -> bool {
    &&& -0x100 <= imm < 0x100
    &&& imm % 2 == 0
    &&& (imm < 0) == (raw / 0x1000 % 2 == 1)
    &&& imm / 2 % 4 == raw / 8 % 4
    &&& imm / 8 % 4 == raw / 0x400 % 4
    &&& imm / 0x20 % 2 == raw / 4 % 2
    &&& imm / 0x40 % 4 == raw / 0x20 % 4
}

/// Where the bits of a compressed jump or branch distance stand.
#[verifier::spinoff_prover]
#[verifier::rlimit(60)]
pub proof fn law_compressed_jumps(raw: u16)
    requires
        raw % 4 == 1,
    ensures
        raw / 0x2000 == 5 ==> exists|imm: i64| #[trigger]
            jump_distance(raw, imm) && expansion(raw) == Some(Op::Jal { rd: 0, imm }),
        raw / 0x2000 == 6 || raw / 0x2000 == 7 ==> exists|imm: i64| #[trigger]
            branch_distance(raw, imm) && expansion(raw) == Some(
                Op::Branch {
                    cond: if raw / 0x2000 == 6 {
                        BranchCond::Eq
                    } else {
                        BranchCond::Ne
                    },
                    rs1: (8 + raw / 0x80 % 8) as usize,
                    rs2: 0,
                    imm,
                },
            ),
{
    let j = super::decode::c_jump_of(raw) as i64;
    let b = super::decode::c_branch_of(raw) as i64;
    lemma_jump_digits(
        (raw / 0x1000 % 2) as int,
        (raw / 0x100 % 2) as int,
        (raw / 0x200 % 4) as int,
        (raw / 0x40 % 2) as int,
        (raw / 0x80 % 2) as int,
        (raw / 4 % 2) as int,
        (raw / 0x800 % 2) as int,
        (raw / 8 % 8) as int,
    );
    lemma_branch_digits(
        (raw / 0x1000 % 2) as int,
        (raw / 0x20 % 4) as int,
        (raw / 4 % 2) as int,
        (raw / 0x400 % 4) as int,
        (raw / 8 % 4) as int,
    );
    assert(jump_distance(raw, j));
    assert(branch_distance(raw, b));
}

#[verifier::spinoff_prover]
proof fn lemma_jump_digits(s: int, p: int, q: int, t: int, u: int, v: int, w: int, x: int)
    requires
        0 <= s < 2,
        0 <= p < 2,
        0 <= q < 4,
        0 <= t < 2,
        0 <= u < 2,
        0 <= v < 2,
        0 <= w < 2,
        0 <= x < 8,
    ensures
        ({
            let n = s * 0x800 + p * 0x400 + q * 0x100 + t * 0x80 + u * 0x40 + v * 0x20 + w * 0x10
                + x * 2;
            let imm = if n >= 0x800 {
                n - 0x1000
            } else {
                n
            };
            &&& -0x800 <= imm < 0x800
            &&& imm % 2 == 0
            &&& (imm < 0) == (s == 1)
            &&& imm / 2 % 8 == x
            &&& imm / 0x10 % 2 == w
            &&& imm / 0x20 % 2 == v
            &&& imm / 0x40 % 2 == u
            &&& imm / 0x80 % 2 == t
            &&& imm / 0x100 % 4 == q
            &&& imm / 0x400 % 2 == p
        }),
{
    let m = p * 0x400 + q * 0x100 + t * 0x80 + u * 0x40 + v * 0x20 + w * 0x10 + x * 2;
    let imm = m - s * 0x800;
    assert(imm / 2 == -s * 0x400 + p * 0x200 + q * 0x80 + t * 0x40 + u * 0x20 + v * 0x10 + w * 8
        + x);
    assert(imm / 0x10 == -s * 0x80 + p * 0x40 + q * 0x10 + t * 8 + u * 4 + v * 2 + w);
    assert(imm / 0x20 == -s * 0x40 + p * 0x20 + q * 8 + t * 4 + u * 2 + v);
    assert(imm / 0x40 == -s * 0x20 + p * 0x10 + q * 4 + t * 2 + u);
    assert(imm / 0x80 == -s * 0x10 + p * 8 + q * 2 + t);
    assert(imm / 0x100 == -s * 8 + p * 4 + q);
    assert(imm / 0x400 == -s * 2 + p);
}

#[verifier::spinoff_prover]
proof fn lemma_branch_digits(s: int, p: int, q: int, t: int, u: int)
    requires
        0 <= s < 2,
        0 <= p < 4,
        0 <= q < 2,
        0 <= t < 4,
        0 <= u < 4,
    ensures
        ({
            let n = s * 0x100 + p * 0x40 + q * 0x20 + t * 8 + u * 2;
            let imm = if n >= 0x100 {
                n - 0x200
            } else {
                n
            };
            &&& -0x100 <= imm < 0x100
            &&& imm % 2 == 0
            &&& (imm < 0) == (s == 1)
            &&& imm / 2 % 4 == u
            &&& imm / 8 % 4 == t
            &&& imm / 0x20 % 2 == q
            &&& imm / 0x40 % 4 == p
        }),
{
    let imm = p * 0x40 + q * 0x20 + t * 8 + u * 2 - s * 0x100;
    assert(imm / 2 == -s * 0x80 + p * 0x20 + q * 0x10 + t * 4 + u);
    assert(imm / 8 == -s * 0x20 + p * 8 + q * 4 + t);
    assert(imm / 0x20 == -s * 8 + p * 2 + q);
    assert(imm / 0x40 == -s * 4 + p);
}

/// Where the bits of the stack-relative load offsets stand.
#[verifier::spinoff_prover]
#[verifier::rlimit(40)]
pub proof fn law_compressed_stack_loads(raw: u16)
    requires
        raw % 4 == 2,
        raw / 0x2000 == 2 || raw / 0x2000 == 3,
    ensures
        raw / 0x80 % 32 == 0 ==> expansion(raw) is None,
        raw / 0x2000 == 2 && raw / 0x80 % 32 != 0 ==> exists|imm: i64|
            {
                &&& expansion(raw) == Some(stack_load(LoadKind::W, raw, imm))
                &&& #[trigger] stack_load_word(raw, imm)
            },
        raw / 0x2000 == 3 && raw / 0x80 % 32 != 0 ==> exists|imm: i64|
            {
                &&& expansion(raw) == Some(stack_load(LoadKind::D, raw, imm))
                &&& #[trigger] stack_load_doubleword(raw, imm)
            },
{
    let lw = super::decode::c_lwsp_of(raw);
    let ld = super::decode::c_ldsp_of(raw);
    lemma_digits((raw / 4 % 4) as int, (raw / 0x1000 % 2) as int, (raw / 0x10 % 8) as int);
    lemma_digits((raw / 4 % 8) as int, (raw / 0x1000 % 2) as int, (raw / 0x20 % 4) as int);
    assert(lw == (raw / 4 % 4) * 64 + (raw / 0x1000 % 2) * 32 + (raw / 0x10 % 8) * 4);
    assert(ld == (raw / 4 % 8) * 64 + (raw / 0x1000 % 2) * 32 + (raw / 0x20 % 4) * 8);
    assert(stack_load_word(raw, lw as i64));
    assert(stack_load_doubleword(raw, ld as i64));
}

/// A multiple of four: bits 4..2 from 6..4, 5 from 12, 7..6 from 3..2.
pub open spec fn stack_load_word(raw: u16, imm: i64) -> bool {
    imm % 4 == 0 && imm / 4 % 8 == raw / 0x10 % 8 && imm / 32 % 2 == raw / 0x1000 % 2 && imm / 64
        == raw / 4 % 4
}

/// A multiple of eight: bits 4..3 from 6..5, 5 from 12, 8..6 from 4..2.
pub open spec fn stack_load_doubleword(raw: u16, imm: i64) -> bool {
    imm % 8 == 0 && imm / 8 % 4 == raw / 0x20 % 4 && imm / 32 % 2 == raw / 0x1000 % 2 && imm / 64
        == raw / 4 % 8
}

/// A multiple of four: bits 5..2 from 12..9, 7..6 from 8..7.
pub open spec fn stack_store_word(raw: u16, imm: i64) -> bool {
    imm % 4 == 0 && imm / 4 % 16 == raw / 0x200 % 16 && imm / 64 == raw / 0x80 % 4
}

/// A multiple of eight: bits 5..3 from 12..10, 8..6 from 9..7.
pub open spec fn stack_store_doubleword(raw: u16, imm: i64) -> bool {
    imm % 8 == 0 && imm / 8 % 8 == raw / 0x400 % 8 && imm / 64 == raw / 0x80 % 8
}

/// Where the bits of the stack-relative store offsets stand.
#[verifier::spinoff_prover]
#[verifier::rlimit(40)]
pub proof fn law_compressed_stack_stores(raw: u16)
    requires
        raw % 4 == 2,
        raw / 0x2000 == 6 || raw / 0x2000 == 7,
    ensures
        raw / 0x2000 == 6 ==> exists|imm: i64|
            {
                &&& expansion(raw) == Some(stack_store(StoreKind::W, raw, imm))
                &&& #[trigger] stack_store_word(raw, imm)
            },
        raw / 0x2000 == 7 ==> exists|imm: i64|
            {
                &&& expansion(raw) == Some(stack_store(StoreKind::D, raw, imm))
                &&& #[trigger] stack_store_doubleword(raw, imm)
            },
{
    let sw = super::decode::c_swsp_of(raw);
    let sd = super::decode::c_sdsp_of(raw);
    lemma_digits((raw / 0x80 % 4) as int, (raw / 0x200 % 16) as int, 0);
    lemma_digits((raw / 0x80 % 8) as int, (raw / 0x400 % 8) as int, 0);
    assert(sw == (raw / 0x80 % 4) * 64 + (raw / 0x200 % 16) * 4);
    assert(sd == (raw / 0x80 % 8) * 64 + (raw / 0x400 % 8) * 8);
    assert(stack_store_word(raw, sw as i64));
    assert(stack_store_doubleword(raw, sd as i64));
}

/// Where the bits of the two adjustments of the stack pointer stand; an
/// adjustment by nothing is reserved.
#[verifier::spinoff_prover]
#[verifier::rlimit(40)]
pub proof fn law_compressed_stack_adjustments(raw: u16)
    ensures
        raw % 4 == 0 && raw / 0x2000 == 0 ==> exists|imm: i64|
            {
                &&& #[trigger] frame_offset(raw, imm)
                &&& expansion(raw) == if imm == 0 {
                    None
                } else {
                    Some(
                        Op::OpImm {
                            kind: AluOp::Add,
                            rd: (8 + raw / 4 % 8) as usize,
                            rs1: 2,
                            imm,
                        },
                    )
                }
            },
        raw % 4 == 1 && raw / 0x2000 == 3 && raw / 0x80 % 32 == 2 ==> exists|imm: i64|
            {
                &&& #[trigger] frame_size(raw, imm)
                &&& expansion(raw) == if imm == 0 {
                    None
                } else {
                    Some(Op::OpImm { kind: AluOp::Add, rd: 2, rs1: 2, imm })
                }
            },
{
    let spn = super::decode::c_addi4spn_of(raw) as i64;
    let sp = super::decode::c_addi16sp_of(raw) as i64;
    lemma_frame_digits(
        (raw / 0x80 % 16) as int,
        (raw / 0x800 % 4) as int,
        (raw / 0x20 % 2) as int,
        (raw / 0x40 % 2) as int,
    );
    lemma_size_digits(
        (raw / 0x1000 % 2) as int,
        (raw / 8 % 4) as int,
        (raw / 0x20 % 2) as int,
        (raw / 4 % 2) as int,
        (raw / 0x40 % 2) as int,
    );
    assert(frame_offset(raw, spn));
    assert(frame_size(raw, sp));
}

/// A multiple of four below 1024: bit 2 from bit 6, 3 from 5, 5..4 from 12..11
/// and 9..6 from 10..7.
pub open spec fn frame_offset(raw: u16, imm: i64) -> bool {
    &&& 0 <= imm < 0x400
    &&& imm % 4 == 0
    &&& imm / 4 % 2 == raw / 0x40 % 2
    &&& imm / 8 % 2 == raw / 0x20 % 2
    &&& imm / 16 % 4 == raw / 0x800 % 4
    &&& imm / 64 == raw / 0x80 % 16
}

/// A signed multiple of sixteen: its sign in bit 12, bit 4 from bit 6, 5 from
/// 2, 6 from 5 and 8..7 from 4..3.
pub open spec fn frame_size(raw: u16, imm: i64) -> bool {
    &&& -0x200 <= imm < 0x200
    &&& imm % 16 == 0
    &&& (imm < 0) == (raw / 0x1000 % 2 == 1)
    &&& imm / 16 % 2 == raw / 0x40 % 2
    &&& imm / 32 % 2 == raw / 4 % 2
    &&& imm / 64 % 2 == raw / 0x20 % 2
    &&& imm / 128 % 4 == raw / 8 % 4
}

#[verifier::spinoff_prover]
proof fn lemma_frame_digits(p: int, q: int, t: int, u: int)
    requires
        0 <= p < 16,
        0 <= q < 4,
        0 <= t < 2,
        0 <= u < 2,
    ensures
        ({
            let imm = p * 0x40 + q * 0x10 + t * 8 + u * 4;
            &&& 0 <= imm < 0x400
            &&& imm % 4 == 0
            &&& imm / 4 % 2 == u
            &&& imm / 8 % 2 == t
            &&& imm / 16 % 4 == q
            &&& imm / 64 == p
        }),
{
    let imm = p * 0x40 + q * 0x10 + t * 8 + u * 4;
    assert(imm / 4 == p * 16 + q * 4 + t * 2 + u);
    assert(imm / 8 == p * 8 + q * 2 + t);
    assert(imm / 16 == p * 4 + q);
}

#[verifier::spinoff_prover]
proof fn lemma_size_digits(s: int, p: int, q: int, t: int, u: int)
    requires
        0 <= s < 2,
        0 <= p < 4,
        0 <= q < 2,
        0 <= t < 2,
        0 <= u < 2,
    ensures
        ({
            let n = s * 0x200 + p * 0x80 + q * 0x40 + t * 0x20 + u * 0x10;
            let imm = if n >= 0x200 {
                n - 0x400
            } else {
                n
            };
            &&& -0x200 <= imm < 0x200
            &&& imm % 16 == 0
            &&& (imm < 0) == (s == 1)
            &&& imm / 16 % 2 == u
            &&& imm / 32 % 2 == t
            &&& imm / 64 % 2 == q
            &&& imm / 128 % 4 == p
        }),
{
    let imm = p * 0x80 + q * 0x40 + t * 0x20 + u * 0x10 - s * 0x200;
    assert(imm / 16 == -s * 0x20 + p * 8 + q * 4 + t * 2 + u);
    assert(imm / 32 == -s * 0x10 + p * 4 + q * 2 + t);
    assert(imm / 64 == -s * 8 + p * 2 + q);
    assert(imm / 128 == -s * 4 + p);
}

pub open spec fn stack_load(kind: LoadKind, raw: u16, imm: i64) -> Op {
    Op::Load { kind, rd: (raw / 0x80 % 32) as usize, rs1: 2, imm }
}

pub open spec fn stack_store(kind: StoreKind, raw: u16, imm: i64) -> Op {
    Op::Store { kind, rs1: 2, rs2: (raw / 4 % 32) as usize, imm }
}

} // verus!
