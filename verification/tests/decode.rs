use emulate_core::cpu::decode::{
    AluOp, AmoOp, AmoWidth, BitImmOp, BitOp, BitUnaryOp, BranchCond, CsrOp, FpOp, FpSize,
    LoadKind, Op, StoreKind, decode,
};

/// Decode a 32-bit instruction, asserting `len == 4`.
fn d32(raw: u32) -> Op {
    let inst = decode(raw).expect("expected legal 32-bit instruction");
    assert_eq!(inst.len, 4, "raw {raw:#010x} should decode as 4 bytes");
    inst.op
}

/// Decode a compressed instruction, asserting `len == 2`.
fn d16(raw: u16) -> Op {
    let inst = decode(raw as u32).expect("expected legal compressed instruction");
    assert_eq!(inst.len, 2, "raw {raw:#06x} should decode as 2 bytes");
    inst.op
}

#[test]
fn rv64i_upper_and_jumps() {
    // lui x5, 0x12345
    assert_eq!(
        d32(0x1234_52b7),
        Op::Lui {
            rd: 5,
            imm: 0x1234_5000
        }
    );
    // lui x1, 0xfffff (negative when sign-extended)
    assert_eq!(d32(0xffff_f0b7), Op::Lui { rd: 1, imm: -4096 });
    // auipc x1, 1
    assert_eq!(d32(0x0000_1097), Op::Auipc { rd: 1, imm: 0x1000 });
    // jal x1, 8
    assert_eq!(d32(0x0080_00ef), Op::Jal { rd: 1, imm: 8 });
    // j -8 (jal x0, -8)
    assert_eq!(d32(0xff9f_f06f), Op::Jal { rd: 0, imm: -8 });
    // ret (jalr x0, 0(x1))
    assert_eq!(
        d32(0x0000_8067),
        Op::Jalr {
            rd: 0,
            rs1: 1,
            imm: 0
        }
    );
    // jalr x1, -4(x5)
    assert_eq!(
        d32(0xffc2_80e7),
        Op::Jalr {
            rd: 1,
            rs1: 5,
            imm: -4
        }
    );
}

#[test]
fn rv64i_branches() {
    // beq x1, x2, -8
    assert_eq!(
        d32(0xfe20_8ce3),
        Op::Branch {
            cond: BranchCond::Eq,
            rs1: 1,
            rs2: 2,
            imm: -8
        }
    );
    // bne x10, x11, 16
    // imm=16: imm[4:1]=1000 -> bits 11:8
    assert_eq!(
        d32(0x00b5_1863),
        Op::Branch {
            cond: BranchCond::Ne,
            rs1: 10,
            rs2: 11,
            imm: 16
        }
    );
    // bltu x1, x2, 4096: imm[12]=1 impossible for positive... use bgeu x1, x2, -4096
    // imm = -4096: imm[12]=1(bit31), imm[11]=0(bit7), rest 0
    assert_eq!(
        d32(0x8020_f063),
        Op::Branch {
            cond: BranchCond::Geu,
            rs1: 1,
            rs2: 2,
            imm: -4096
        }
    );
}

#[test]
fn rv64i_loads_stores() {
    // ld x1, 0(x2)
    assert_eq!(
        d32(0x0001_3083),
        Op::Load {
            kind: LoadKind::D,
            rd: 1,
            rs1: 2,
            imm: 0
        }
    );
    // lw x10, -4(x2)
    assert_eq!(
        d32(0xffc1_2503),
        Op::Load {
            kind: LoadKind::W,
            rd: 10,
            rs1: 2,
            imm: -4
        }
    );
    // lbu x3, 5(x4)
    assert_eq!(
        d32(0x0052_4183),
        Op::Load {
            kind: LoadKind::Bu,
            rd: 3,
            rs1: 4,
            imm: 5
        }
    );
    // lwu x3, 0(x4)
    assert_eq!(
        d32(0x0002_6183),
        Op::Load {
            kind: LoadKind::Wu,
            rd: 3,
            rs1: 4,
            imm: 0
        }
    );
    // sw x2, 8(x1)
    assert_eq!(
        d32(0x0020_a423),
        Op::Store {
            kind: StoreKind::W,
            rs1: 1,
            rs2: 2,
            imm: 8
        }
    );
    // sd x5, -8(x2)
    assert_eq!(
        d32(0xfe51_3c23),
        Op::Store {
            kind: StoreKind::D,
            rs1: 2,
            rs2: 5,
            imm: -8
        }
    );
}

#[test]
fn rv64i_op_imm() {
    // addi x1, x2, 3
    assert_eq!(
        d32(0x0031_0093),
        Op::OpImm {
            kind: AluOp::Add,
            rd: 1,
            rs1: 2,
            imm: 3
        }
    );
    // addi x1, x0, -1
    assert_eq!(
        d32(0xfff0_0093),
        Op::OpImm {
            kind: AluOp::Add,
            rd: 1,
            rs1: 0,
            imm: -1
        }
    );
    // xori x1, x2, -1
    assert_eq!(
        d32(0xfff1_4093),
        Op::OpImm {
            kind: AluOp::Xor,
            rd: 1,
            rs1: 2,
            imm: -1
        }
    );
    // sltiu x1, x2, 10
    assert_eq!(
        d32(0x00a1_3093),
        Op::OpImm {
            kind: AluOp::Sltu,
            rd: 1,
            rs1: 2,
            imm: 10
        }
    );
    // slli x1, x2, 32 (RV64: 6-bit shamt, bit 25 legal)
    assert_eq!(
        d32(0x0201_1093),
        Op::OpImm {
            kind: AluOp::Sll,
            rd: 1,
            rs1: 2,
            imm: 32
        }
    );
    // srai x1, x2, 63
    assert_eq!(
        d32(0x43f1_5093),
        Op::OpImm {
            kind: AluOp::Sra,
            rd: 1,
            rs1: 2,
            imm: 63
        }
    );
    // srli x1, x2, 1
    assert_eq!(
        d32(0x0011_5093),
        Op::OpImm {
            kind: AluOp::Srl,
            rd: 1,
            rs1: 2,
            imm: 1
        }
    );
}

#[test]
fn rv64i_op_imm32_and_illegal_shamts() {
    // addiw x1, x2, -1
    assert_eq!(
        d32(0xfff1_009b),
        Op::OpImm32 {
            kind: AluOp::Add,
            rd: 1,
            rs1: 2,
            imm: -1
        }
    );
    // slliw x1, x2, 31
    assert_eq!(
        d32(0x01f1_109b),
        Op::OpImm32 {
            kind: AluOp::Sll,
            rd: 1,
            rs1: 2,
            imm: 31
        }
    );
    // sraiw x1, x2, 3
    assert_eq!(
        d32(0x4031_509b),
        Op::OpImm32 {
            kind: AluOp::Sra,
            rd: 1,
            rs1: 2,
            imm: 3
        }
    );
    // slliw/srliw with shamt bit 5 set are illegal on RV64
    assert_eq!(decode(0x0201_109b), Err(())); // slliw shamt=32
    assert_eq!(decode(0x0201_509b), Err(())); // srliw shamt=32
    assert_eq!(decode(0x4201_509b), Err(())); // sraiw shamt=32
}

#[test]
fn rv64i_op_reg() {
    // add x1, x2, x3
    assert_eq!(
        d32(0x0031_00b3),
        Op::OpReg {
            kind: AluOp::Add,
            rd: 1,
            rs1: 2,
            rs2: 3
        }
    );
    // sub x1, x2, x3
    assert_eq!(
        d32(0x4031_00b3),
        Op::OpReg {
            kind: AluOp::Sub,
            rd: 1,
            rs1: 2,
            rs2: 3
        }
    );
    // sra x1, x2, x3
    assert_eq!(
        d32(0x4031_50b3),
        Op::OpReg {
            kind: AluOp::Sra,
            rd: 1,
            rs1: 2,
            rs2: 3
        }
    );
    // and x1, x2, x3
    assert_eq!(
        d32(0x0031_70b3),
        Op::OpReg {
            kind: AluOp::And,
            rd: 1,
            rs1: 2,
            rs2: 3
        }
    );
    // addw x1, x2, x3
    assert_eq!(
        d32(0x0031_00bb),
        Op::OpReg32 {
            kind: AluOp::Add,
            rd: 1,
            rs1: 2,
            rs2: 3
        }
    );
    // subw x1, x2, x3
    assert_eq!(
        d32(0x4031_00bb),
        Op::OpReg32 {
            kind: AluOp::Sub,
            rd: 1,
            rs1: 2,
            rs2: 3
        }
    );
}

#[test]
fn m_extension() {
    // mul x1, x2, x3
    assert_eq!(
        d32(0x0231_00b3),
        Op::OpReg {
            kind: AluOp::Mul,
            rd: 1,
            rs1: 2,
            rs2: 3
        }
    );
    // mulhu x1, x2, x3
    assert_eq!(
        d32(0x0231_30b3),
        Op::OpReg {
            kind: AluOp::Mulhu,
            rd: 1,
            rs1: 2,
            rs2: 3
        }
    );
    // divu x1, x2, x3
    assert_eq!(
        d32(0x0231_50b3),
        Op::OpReg {
            kind: AluOp::Divu,
            rd: 1,
            rs1: 2,
            rs2: 3
        }
    );
    // remu x1, x2, x3
    assert_eq!(
        d32(0x0231_70b3),
        Op::OpReg {
            kind: AluOp::Remu,
            rd: 1,
            rs1: 2,
            rs2: 3
        }
    );
    // divw x1, x2, x3
    assert_eq!(
        d32(0x0231_40bb),
        Op::OpReg32 {
            kind: AluOp::Div,
            rd: 1,
            rs1: 2,
            rs2: 3
        }
    );
    // remw x1, x2, x3
    assert_eq!(
        d32(0x0231_60bb),
        Op::OpReg32 {
            kind: AluOp::Rem,
            rd: 1,
            rs1: 2,
            rs2: 3
        }
    );
    // mulw x1, x2, x3
    assert_eq!(
        d32(0x0231_00bb),
        Op::OpReg32 {
            kind: AluOp::Mul,
            rd: 1,
            rs1: 2,
            rs2: 3
        }
    );
    // mulh exists only in OP; OP-32 f3=1 with funct7=1 is illegal
    assert_eq!(decode(0x0231_10bb), Err(()));
}

#[test]
fn system_and_fences() {
    assert_eq!(d32(0x0000_0073), Op::Ecall);
    assert_eq!(d32(0x0010_0073), Op::Ebreak);
    assert_eq!(d32(0x3020_0073), Op::Mret);
    assert_eq!(d32(0x1020_0073), Op::Sret);
    assert_eq!(d32(0x1050_0073), Op::Wfi);
    // sfence.vma x0, x0
    assert_eq!(d32(0x1200_0073), Op::SfenceVma { rs1: 0, rs2: 0 });
    // sfence.vma x1, x2
    assert_eq!(d32(0x1220_8073), Op::SfenceVma { rs1: 1, rs2: 2 });
    // fence iorw, iorw
    assert_eq!(d32(0x0ff0_000f), Op::Fence);
    // fence.i
    assert_eq!(d32(0x0000_100f), Op::FenceI);
}

#[test]
fn zicsr() {
    // csrrw x1, mstatus (0x300), x2
    assert_eq!(
        d32(0x3001_10f3),
        Op::Csr {
            kind: CsrOp::Rw,
            rd: 1,
            rs1: 2,
            csr: 0x300
        }
    );
    // csrrs x5, mcause (0x342), x0 (csrr x5, mcause)
    assert_eq!(
        d32(0x3420_22f3),
        Op::Csr {
            kind: CsrOp::Rs,
            rd: 5,
            rs1: 0,
            csr: 0x342
        }
    );
    // csrrc x1, 0x300, x2
    assert_eq!(
        d32(0x3001_30f3),
        Op::Csr {
            kind: CsrOp::Rc,
            rd: 1,
            rs1: 2,
            csr: 0x300
        }
    );
    // csrrwi x1, 0x305, 31 (zimm in rs1 slot)
    assert_eq!(
        d32(0x305f_d0f3),
        Op::Csr {
            kind: CsrOp::Rwi,
            rd: 1,
            rs1: 31,
            csr: 0x305
        }
    );
    // csrrsi x1, 0x304, 5
    assert_eq!(
        d32(0x3042_e0f3),
        Op::Csr {
            kind: CsrOp::Rsi,
            rd: 1,
            rs1: 5,
            csr: 0x304
        }
    );
    // csrrci x1, 0x304, 5
    assert_eq!(
        d32(0x3042_f0f3),
        Op::Csr {
            kind: CsrOp::Rci,
            rd: 1,
            rs1: 5,
            csr: 0x304
        }
    );
    // SYSTEM funct3=4 is illegal
    assert_eq!(decode(0x3001_40f3), Err(()));
}

#[test]
fn a_extension() {
    // lr.w x5, (x10)
    assert_eq!(
        d32(0x1005_22af),
        Op::Lr {
            width: AmoWidth::W,
            rd: 5,
            rs1: 10
        }
    );
    // lr.d x5, (x10)
    assert_eq!(
        d32(0x1005_32af),
        Op::Lr {
            width: AmoWidth::D,
            rd: 5,
            rs1: 10
        }
    );
    // lr.w with rs2 != 0 is illegal
    assert_eq!(decode(0x1065_22af), Err(()));
    // sc.d x5, x6, (x7)
    assert_eq!(
        d32(0x1863_b2af),
        Op::Sc {
            width: AmoWidth::D,
            rd: 5,
            rs1: 7,
            rs2: 6
        }
    );
    // amoadd.w x5, x6, (x7)
    assert_eq!(
        d32(0x0063_a2af),
        Op::Amo {
            op: AmoOp::Add,
            width: AmoWidth::W,
            rd: 5,
            rs1: 7,
            rs2: 6
        }
    );
    // amoswap.d.aqrl x5, x6, (x7) — aq/rl bits ignored
    assert_eq!(
        d32(0x0e63_b2af),
        Op::Amo {
            op: AmoOp::Swap,
            width: AmoWidth::D,
            rd: 5,
            rs1: 7,
            rs2: 6
        }
    );
    // amomaxu.w x5, x6, (x7)
    assert_eq!(
        d32(0xe063_a2af),
        Op::Amo {
            op: AmoOp::Maxu,
            width: AmoWidth::W,
            rd: 5,
            rs1: 7,
            rs2: 6
        }
    );
    // amo funct3 must be 2 or 3
    assert_eq!(decode(0x0063_92af), Err(()));
}

#[test]
fn fp_load_store() {
    // fld f1, 16(x2)
    assert_eq!(
        d32(0x0101_3087),
        Op::FpLoad {
            sz: FpSize::D,
            frd: 1,
            rs1: 2,
            imm: 16
        }
    );
    // flw f1, -4(x2)
    assert_eq!(
        d32(0xffc1_2087),
        Op::FpLoad {
            sz: FpSize::S,
            frd: 1,
            rs1: 2,
            imm: -4
        }
    );
    // fsd f1, 8(x2)
    assert_eq!(
        d32(0x0011_3427),
        Op::FpStore {
            sz: FpSize::D,
            rs1: 2,
            frs2: 1,
            imm: 8
        }
    );
    // fp load/store funct3 outside {2,3} is illegal
    assert_eq!(decode(0x0001_1087), Err(()));
    assert_eq!(decode(0x0011_1427), Err(()));
}

#[test]
fn fp_ops() {
    // fadd.d f1, f2, f3 (rm=dyn)
    assert_eq!(
        d32(0x0231_70d3),
        Op::Fp {
            op: FpOp::Add,
            sz: FpSize::D,
            rd: 1,
            rs1: 2,
            rs2: 3,
            rs3: 0,
            rm: 7
        }
    );
    // fmadd.s f1, f2, f3, f4 (rm=dyn)
    assert_eq!(
        d32(0x2031_70c3),
        Op::Fp {
            op: FpOp::Madd,
            sz: FpSize::S,
            rd: 1,
            rs1: 2,
            rs2: 3,
            rs3: 4,
            rm: 7
        }
    );
    // fnmadd.d f1, f2, f3, f4
    assert_eq!(
        d32(0x2231_70cf),
        Op::Fp {
            op: FpOp::Nmadd,
            sz: FpSize::D,
            rd: 1,
            rs1: 2,
            rs2: 3,
            rs3: 4,
            rm: 7
        }
    );
    // fsgnj.s f1, f2, f2 (fmv.s f1, f2)
    assert_eq!(
        d32(0x2021_00d3),
        Op::Fp {
            op: FpOp::Sgnj,
            sz: FpSize::S,
            rd: 1,
            rs1: 2,
            rs2: 2,
            rs3: 0,
            rm: 0
        }
    );
    // fsqrt.d f1, f2
    assert_eq!(
        d32(0x5a01_70d3),
        Op::Fp {
            op: FpOp::Sqrt,
            sz: FpSize::D,
            rd: 1,
            rs1: 2,
            rs2: 0,
            rs3: 0,
            rm: 7
        }
    );
    // fcvt.w.s x1, f2, rtz
    assert_eq!(
        d32(0xc001_10d3),
        Op::Fp {
            op: FpOp::CvtWFmt,
            sz: FpSize::S,
            rd: 1,
            rs1: 2,
            rs2: 0,
            rs3: 0,
            rm: 1
        }
    );
    // fcvt.d.l f1, x2
    assert_eq!(
        d32(0xd221_00d3),
        Op::Fp {
            op: FpOp::CvtFmtL,
            sz: FpSize::D,
            rd: 1,
            rs1: 2,
            rs2: 2,
            rs3: 0,
            rm: 0
        }
    );
    // fcvt.d.s f1, f2 (destination format D)
    assert_eq!(
        d32(0x4201_00d3),
        Op::Fp {
            op: FpOp::CvtFmtFmt,
            sz: FpSize::D,
            rd: 1,
            rs1: 2,
            rs2: 0,
            rs3: 0,
            rm: 0
        }
    );
    // fcvt.s.d f1, f2, dyn (destination format S)
    assert_eq!(
        d32(0x4011_70d3),
        Op::Fp {
            op: FpOp::CvtFmtFmt,
            sz: FpSize::S,
            rd: 1,
            rs1: 2,
            rs2: 1,
            rs3: 0,
            rm: 7
        }
    );
    // fmv.x.d x1, f2
    assert_eq!(
        d32(0xe201_00d3),
        Op::Fp {
            op: FpOp::MvXFmt,
            sz: FpSize::D,
            rd: 1,
            rs1: 2,
            rs2: 0,
            rs3: 0,
            rm: 0
        }
    );
    // fmv.w.x f1, x2
    assert_eq!(
        d32(0xf001_00d3),
        Op::Fp {
            op: FpOp::MvFmtX,
            sz: FpSize::S,
            rd: 1,
            rs1: 2,
            rs2: 0,
            rs3: 0,
            rm: 0
        }
    );
    // fclass.s x1, f2
    assert_eq!(
        d32(0xe001_10d3),
        Op::Fp {
            op: FpOp::Class,
            sz: FpSize::S,
            rd: 1,
            rs1: 2,
            rs2: 0,
            rs3: 0,
            rm: 1
        }
    );
    // feq.d x1, f2, f3
    assert_eq!(
        d32(0xa231_20d3),
        Op::Fp {
            op: FpOp::Eq,
            sz: FpSize::D,
            rd: 1,
            rs1: 2,
            rs2: 3,
            rs3: 0,
            rm: 2
        }
    );
    // flt.s x1, f2, f3
    assert_eq!(
        d32(0xa031_10d3),
        Op::Fp {
            op: FpOp::Lt,
            sz: FpSize::S,
            rd: 1,
            rs1: 2,
            rs2: 3,
            rs3: 0,
            rm: 1
        }
    );
    // illegal fmt (quad) on fadd
    assert_eq!(decode(0x0631_70d3), Err(()));
    // fsgnj with funct3=3 is illegal
    assert_eq!(decode(0x2021_30d3), Err(()));
    // fcvt.s.s (funct7=0x20, rs2=0) is illegal
    assert_eq!(decode(0x4001_00d3), Err(()));
}

#[test]
fn compressed_quadrant0() {
    // c.addi4spn a0, sp, 4 -> addi x10, x2, 4
    assert_eq!(
        d16(0x0048),
        Op::OpImm {
            kind: AluOp::Add,
            rd: 10,
            rs1: 2,
            imm: 4
        }
    );
    // c.addi4spn a0, sp, 1020 (max imm: uimm[9:2] all ones)
    assert_eq!(
        d16(0x1fe8),
        Op::OpImm {
            kind: AluOp::Add,
            rd: 10,
            rs1: 2,
            imm: 1020
        }
    );
    // c.addi4spn with imm == 0 is reserved
    assert_eq!(decode(0x0008), Err(()));
    // c.lw a1, 4(a0)
    assert_eq!(
        d16(0x414c),
        Op::Load {
            kind: LoadKind::W,
            rd: 11,
            rs1: 10,
            imm: 4
        }
    );
    // c.ld a1, 8(a0)
    assert_eq!(
        d16(0x650c),
        Op::Load {
            kind: LoadKind::D,
            rd: 11,
            rs1: 10,
            imm: 8
        }
    );
    // c.fld fa1, 8(a0)
    assert_eq!(
        d16(0x250c),
        Op::FpLoad {
            sz: FpSize::D,
            frd: 11,
            rs1: 10,
            imm: 8
        }
    );
    // c.sw a1, 4(a0)
    assert_eq!(
        d16(0xc14c),
        Op::Store {
            kind: StoreKind::W,
            rs1: 10,
            rs2: 11,
            imm: 4
        }
    );
    // c.sd a1, 8(a0)
    assert_eq!(
        d16(0xe50c),
        Op::Store {
            kind: StoreKind::D,
            rs1: 10,
            rs2: 11,
            imm: 8
        }
    );
    // c.fsd fa1, 8(a0)
    assert_eq!(
        d16(0xa50c),
        Op::FpStore {
            sz: FpSize::D,
            rs1: 10,
            frs2: 11,
            imm: 8
        }
    );
    // quadrant 0 funct3=4 reserved
    assert_eq!(decode(0x8000), Err(()));
}

#[test]
fn compressed_quadrant1() {
    // c.nop
    assert_eq!(
        d16(0x0001),
        Op::OpImm {
            kind: AluOp::Add,
            rd: 0,
            rs1: 0,
            imm: 0
        }
    );
    // c.addi a0, -1
    assert_eq!(
        d16(0x157d),
        Op::OpImm {
            kind: AluOp::Add,
            rd: 10,
            rs1: 10,
            imm: -1
        }
    );
    // c.addiw a0, -1
    assert_eq!(
        d16(0x357d),
        Op::OpImm32 {
            kind: AluOp::Add,
            rd: 10,
            rs1: 10,
            imm: -1
        }
    );
    // c.addiw with rd == 0 is reserved (would be c.jal on RV32)
    assert_eq!(decode(0x3001_u32), Err(()));
    // c.li a0, 0
    assert_eq!(
        d16(0x4501),
        Op::OpImm {
            kind: AluOp::Add,
            rd: 10,
            rs1: 0,
            imm: 0
        }
    );
    // c.li a0, -32
    assert_eq!(
        d16(0x5501),
        Op::OpImm {
            kind: AluOp::Add,
            rd: 10,
            rs1: 0,
            imm: -32
        }
    );
    // c.addi16sp 16
    assert_eq!(
        d16(0x6141),
        Op::OpImm {
            kind: AluOp::Add,
            rd: 2,
            rs1: 2,
            imm: 16
        }
    );
    // c.addi16sp -64
    assert_eq!(
        d16(0x7139),
        Op::OpImm {
            kind: AluOp::Add,
            rd: 2,
            rs1: 2,
            imm: -64
        }
    );
    // c.addi16sp -32
    assert_eq!(
        d16(0x713d),
        Op::OpImm {
            kind: AluOp::Add,
            rd: 2,
            rs1: 2,
            imm: -32
        }
    );
    // c.addi16sp with imm == 0 is reserved
    assert_eq!(decode(0x6101_u32), Err(()));
    // c.lui a0, 1
    assert_eq!(
        d16(0x6505),
        Op::Lui {
            rd: 10,
            imm: 0x1000
        }
    );
    // c.lui a0, 0xfffe1 (negative: imm6 = -31)
    assert_eq!(
        d16(0x7505),
        Op::Lui {
            rd: 10,
            imm: -31 << 12
        }
    );
    // c.lui with imm == 0 is reserved
    assert_eq!(decode(0x6501_u32), Err(()));
    // c.srli a0, 2
    assert_eq!(
        d16(0x8109),
        Op::OpImm {
            kind: AluOp::Srl,
            rd: 10,
            rs1: 10,
            imm: 2
        }
    );
    // c.srli a0, 32 (RV64 6-bit shamt)
    assert_eq!(
        d16(0x9101),
        Op::OpImm {
            kind: AluOp::Srl,
            rd: 10,
            rs1: 10,
            imm: 32
        }
    );
    // c.srai a0, 2
    assert_eq!(
        d16(0x8509),
        Op::OpImm {
            kind: AluOp::Sra,
            rd: 10,
            rs1: 10,
            imm: 2
        }
    );
    // c.andi a0, -1
    assert_eq!(
        d16(0x997d),
        Op::OpImm {
            kind: AluOp::And,
            rd: 10,
            rs1: 10,
            imm: -1
        }
    );
    // c.sub a0, a1
    assert_eq!(
        d16(0x8d0d),
        Op::OpReg {
            kind: AluOp::Sub,
            rd: 10,
            rs1: 10,
            rs2: 11
        }
    );
    // c.xor a0, a1
    assert_eq!(
        d16(0x8d2d),
        Op::OpReg {
            kind: AluOp::Xor,
            rd: 10,
            rs1: 10,
            rs2: 11
        }
    );
    // c.or a0, a1
    assert_eq!(
        d16(0x8d4d),
        Op::OpReg {
            kind: AluOp::Or,
            rd: 10,
            rs1: 10,
            rs2: 11
        }
    );
    // c.and a0, a1
    assert_eq!(
        d16(0x8d6d),
        Op::OpReg {
            kind: AluOp::And,
            rd: 10,
            rs1: 10,
            rs2: 11
        }
    );
    // c.subw a0, a1
    assert_eq!(
        d16(0x9d0d),
        Op::OpReg32 {
            kind: AluOp::Sub,
            rd: 10,
            rs1: 10,
            rs2: 11
        }
    );
    // c.addw a0, a1
    assert_eq!(
        d16(0x9d2d),
        Op::OpReg32 {
            kind: AluOp::Add,
            rd: 10,
            rs1: 10,
            rs2: 11
        }
    );
    // reserved bit12=1, bits6:5 in {2,3}
    assert_eq!(decode(0x9d4d_u32), Err(()));
    // c.j 0
    assert_eq!(d16(0xa001), Op::Jal { rd: 0, imm: 0 });
    // c.j 8
    assert_eq!(d16(0xa021), Op::Jal { rd: 0, imm: 8 });
    // c.j -4
    assert_eq!(d16(0xbff5), Op::Jal { rd: 0, imm: -4 });
    // c.beqz a0, -4
    assert_eq!(
        d16(0xdd75),
        Op::Branch {
            cond: BranchCond::Eq,
            rs1: 10,
            rs2: 0,
            imm: -4
        }
    );
    // c.bnez a0, 8
    // imm=8: imm[4:3]=01 -> inst[11:10]=01
    assert_eq!(
        d16(0xe501),
        Op::Branch {
            cond: BranchCond::Ne,
            rs1: 10,
            rs2: 0,
            imm: 8
        }
    );
}

#[test]
fn compressed_quadrant2() {
    // c.slli a0, 32 (RV64 6-bit shamt)
    assert_eq!(
        d16(0x1502),
        Op::OpImm {
            kind: AluOp::Sll,
            rd: 10,
            rs1: 10,
            imm: 32
        }
    );
    // c.slli a0, 1
    assert_eq!(
        d16(0x0506),
        Op::OpImm {
            kind: AluOp::Sll,
            rd: 10,
            rs1: 10,
            imm: 1
        }
    );
    // c.lwsp a0, 4(sp)
    assert_eq!(
        d16(0x4512),
        Op::Load {
            kind: LoadKind::W,
            rd: 10,
            rs1: 2,
            imm: 4
        }
    );
    // c.lwsp with rd == 0 is reserved
    assert_eq!(decode(0x4012_u32), Err(()));
    // c.ldsp a0, 8(sp)
    assert_eq!(
        d16(0x6522),
        Op::Load {
            kind: LoadKind::D,
            rd: 10,
            rs1: 2,
            imm: 8
        }
    );
    // c.ldsp a0, 256(sp): uimm[8]=1 -> inst[4]
    assert_eq!(
        d16(0x6512),
        Op::Load {
            kind: LoadKind::D,
            rd: 10,
            rs1: 2,
            imm: 256
        }
    );
    // c.ldsp with rd == 0 is reserved
    assert_eq!(decode(0x6022_u32), Err(()));
    // c.fldsp fa0, 8(sp)
    assert_eq!(
        d16(0x2522),
        Op::FpLoad {
            sz: FpSize::D,
            frd: 10,
            rs1: 2,
            imm: 8
        }
    );
    // c.jr ra (ret)
    assert_eq!(
        d16(0x8082),
        Op::Jalr {
            rd: 0,
            rs1: 1,
            imm: 0
        }
    );
    // c.jr with rs1 == 0 is reserved
    assert_eq!(decode(0x8002_u32), Err(()));
    // c.mv a0, a1
    assert_eq!(
        d16(0x852e),
        Op::OpReg {
            kind: AluOp::Add,
            rd: 10,
            rs1: 0,
            rs2: 11
        }
    );
    // c.ebreak
    assert_eq!(d16(0x9002), Op::Ebreak);
    // c.jalr a0
    assert_eq!(
        d16(0x9502),
        Op::Jalr {
            rd: 1,
            rs1: 10,
            imm: 0
        }
    );
    // c.add a0, a1
    assert_eq!(
        d16(0x952e),
        Op::OpReg {
            kind: AluOp::Add,
            rd: 10,
            rs1: 10,
            rs2: 11
        }
    );
    // c.swsp a0, 4(sp)
    assert_eq!(
        d16(0xc22a),
        Op::Store {
            kind: StoreKind::W,
            rs1: 2,
            rs2: 10,
            imm: 4
        }
    );
    // c.sdsp a0, 8(sp)
    assert_eq!(
        d16(0xe42a),
        Op::Store {
            kind: StoreKind::D,
            rs1: 2,
            rs2: 10,
            imm: 8
        }
    );
    // c.sdsp a0, 64(sp): uimm[6]=1 -> inst[7]
    assert_eq!(
        d16(0xe0aa),
        Op::Store {
            kind: StoreKind::D,
            rs1: 2,
            rs2: 10,
            imm: 64
        }
    );
    // c.fsdsp fa0, 8(sp)
    assert_eq!(
        d16(0xa42a),
        Op::FpStore {
            sz: FpSize::D,
            rs1: 2,
            frs2: 10,
            imm: 8
        }
    );
}

#[test]
fn illegal_encodings() {
    // All-zero 16-bit and 32-bit patterns are defined illegal.
    assert_eq!(decode(0x0000_0000), Err(()));
    // All-ones is illegal (opcode 0x7f is unused).
    assert_eq!(decode(0xffff_ffff), Err(()));
    // Unused major opcode.
    assert_eq!(decode(0x0000_002b), Err(()));
    // Branch funct3 = 2 is illegal.
    assert_eq!(decode(0x0020_a063), Err(()));
    // JALR funct3 != 0 is illegal.
    assert_eq!(decode(0x0000_9067), Err(()));
    // Store funct3 = 4 is illegal.
    assert_eq!(decode(0x0020_c023), Err(()));
    // SRLI with garbage in the top bits.
    assert_eq!(decode(0x8001_5093), Err(()));
}

#[test]
fn lengths() {
    assert_eq!(decode(0x0031_0093).unwrap().len, 4);
    assert_eq!(decode(0x0001_u32).unwrap().len, 2);
    // High half of the fetch window is ignored for compressed decode.
    assert_eq!(decode(0xffff_0001).unwrap().len, 2);
    assert_eq!(
        decode(0xffff_0001).unwrap().op,
        Op::OpImm {
            kind: AluOp::Add,
            rd: 0,
            rs1: 0,
            imm: 0
        }
    );
}

// -----------------------------------------------------------------
// Zbb / Zbc / Zbkb / Zknd / Zkne / Zknh
//
// Every raw word below encodes `<mnemonic> t0, t1, t2`: rd=x5, rs1=x6, rs2=x7.
// -----------------------------------------------------------------

fn bit_rr(kind: BitOp) -> Op {
    Op::Bit {
        kind,
        rd: 5,
        rs1: 6,
        rs2: 7,
    }
}

fn bit_un(kind: BitUnaryOp) -> Op {
    Op::BitUnary {
        kind,
        rd: 5,
        rs1: 6,
    }
}

#[test]
fn zbb_zbkb_register_register() {
    assert_eq!(d32(0x4073_72b3), bit_rr(BitOp::Andn));
    assert_eq!(d32(0x4073_62b3), bit_rr(BitOp::Orn));
    assert_eq!(d32(0x4073_42b3), bit_rr(BitOp::Xnor));
    assert_eq!(d32(0x0a73_62b3), bit_rr(BitOp::Max));
    assert_eq!(d32(0x0a73_72b3), bit_rr(BitOp::Maxu));
    assert_eq!(d32(0x0a73_42b3), bit_rr(BitOp::Min));
    assert_eq!(d32(0x0a73_52b3), bit_rr(BitOp::Minu));
    assert_eq!(d32(0x6073_12b3), bit_rr(BitOp::Rol));
    assert_eq!(d32(0x6073_52b3), bit_rr(BitOp::Ror));
    assert_eq!(d32(0x6073_12bb), bit_rr(BitOp::Rolw));
    assert_eq!(d32(0x6073_52bb), bit_rr(BitOp::Rorw));
    assert_eq!(d32(0x0873_42b3), bit_rr(BitOp::Pack));
    assert_eq!(d32(0x0873_72b3), bit_rr(BitOp::Packh));
    assert_eq!(d32(0x0873_42bb), bit_rr(BitOp::Packw));
    // `zext.h t0, t1` is the `packw t0, t1, x0` encoding.
    assert_eq!(
        d32(0x0803_42bb),
        Op::Bit {
            kind: BitOp::Packw,
            rd: 5,
            rs1: 6,
            rs2: 0
        }
    );
}

#[test]
fn zbb_zbkb_unary_and_rotate_immediate() {
    assert_eq!(d32(0x6003_1293), bit_un(BitUnaryOp::Clz));
    assert_eq!(d32(0x6013_1293), bit_un(BitUnaryOp::Ctz));
    assert_eq!(d32(0x6023_1293), bit_un(BitUnaryOp::Cpop));
    assert_eq!(d32(0x6003_129b), bit_un(BitUnaryOp::Clzw));
    assert_eq!(d32(0x6013_129b), bit_un(BitUnaryOp::Ctzw));
    assert_eq!(d32(0x6023_129b), bit_un(BitUnaryOp::Cpopw));
    assert_eq!(d32(0x6043_1293), bit_un(BitUnaryOp::SextB));
    assert_eq!(d32(0x6053_1293), bit_un(BitUnaryOp::SextH));
    assert_eq!(d32(0x2873_5293), bit_un(BitUnaryOp::OrcB));
    assert_eq!(d32(0x6b83_5293), bit_un(BitUnaryOp::Rev8));
    assert_eq!(d32(0x6873_5293), bit_un(BitUnaryOp::Brev8));

    for (raw, shamt) in [(0x6003_5293u32, 0u32), (0x6013_5293, 1), (0x63f3_5293, 63)] {
        assert_eq!(
            d32(raw),
            Op::BitImm {
                kind: BitImmOp::Rori,
                rd: 5,
                rs1: 6,
                imm: shamt
            }
        );
    }
    for (raw, shamt) in [(0x6003_529bu32, 0u32), (0x6013_529b, 1), (0x61f3_529b, 31)] {
        assert_eq!(
            d32(raw),
            Op::BitImm {
                kind: BitImmOp::Roriw,
                rd: 5,
                rs1: 6,
                imm: shamt
            }
        );
    }
}

#[test]
fn zbc_carryless_multiply() {
    assert_eq!(d32(0x0a73_12b3), bit_rr(BitOp::Clmul));
    assert_eq!(d32(0x0a73_32b3), bit_rr(BitOp::Clmulh));
    assert_eq!(d32(0x0a73_22b3), bit_rr(BitOp::Clmulr));
}

#[test]
fn zknd_zkne_aes() {
    assert_eq!(d32(0x3273_02b3), bit_rr(BitOp::Aes64es));
    assert_eq!(d32(0x3673_02b3), bit_rr(BitOp::Aes64esm));
    assert_eq!(d32(0x3a73_02b3), bit_rr(BitOp::Aes64ds));
    assert_eq!(d32(0x3e73_02b3), bit_rr(BitOp::Aes64dsm));
    assert_eq!(d32(0x7e73_02b3), bit_rr(BitOp::Aes64ks2));
    assert_eq!(d32(0x3003_1293), bit_un(BitUnaryOp::Aes64im));

    // aes64ks1i for every legal rnum 0..=10.
    for rnum in 0..=10u32 {
        let raw = 0x3103_1293 | (rnum << 20);
        assert_eq!(
            d32(raw),
            Op::BitImm {
                kind: BitImmOp::Aes64ks1i,
                rd: 5,
                rs1: 6,
                imm: rnum
            }
        );
    }
    // rnum 0xB..0xF are reserved and must not decode.
    for rnum in 11..=15u32 {
        assert_eq!(decode(0x3103_1293 | (rnum << 20)), Err(()));
    }
}

#[test]
fn zknh_sha() {
    assert_eq!(d32(0x1003_1293), bit_un(BitUnaryOp::Sha256sum0));
    assert_eq!(d32(0x1013_1293), bit_un(BitUnaryOp::Sha256sum1));
    assert_eq!(d32(0x1023_1293), bit_un(BitUnaryOp::Sha256sig0));
    assert_eq!(d32(0x1033_1293), bit_un(BitUnaryOp::Sha256sig1));
    assert_eq!(d32(0x1043_1293), bit_un(BitUnaryOp::Sha512sum0));
    assert_eq!(d32(0x1053_1293), bit_un(BitUnaryOp::Sha512sum1));
    assert_eq!(d32(0x1063_1293), bit_un(BitUnaryOp::Sha512sig0));
    assert_eq!(d32(0x1073_1293), bit_un(BitUnaryOp::Sha512sig1));
}

/// Encodings adjacent to the new ones, which are still reserved.
#[test]
fn bitmanip_neighbours_stay_illegal() {
    // Zbs (bset/bclr/binv/bext) is not implemented.
    assert_eq!(decode(0x2873_12b3), Err(())); // bset t0, t1, t2
    assert_eq!(decode(0x4873_12b3), Err(())); // bclr t0, t1, t2
    // Zba (sh1add/sh2add/sh3add) is not implemented.
    assert_eq!(decode(0x2073_22b3), Err(())); // sh1add t0, t1, t2
    // Zbkx xperm4/xperm8 are not implemented.
    assert_eq!(decode(0x2873_22b3), Err(())); // xperm4 t0, t1, t2
    assert_eq!(decode(0x2873_42b3), Err(())); // xperm8 t0, t1, t2
    // Unassigned funct12 in the Zbb unary slot.
    assert_eq!(decode(0x6033_1293), Err(())); // funct12 0x603
    assert_eq!(decode(0x6063_1293), Err(())); // funct12 0x606
    // sha512 32-bit-only forms do not exist on RV64.
    assert_eq!(decode(0x1083_1293), Err(())); // funct12 0x108
}
