use emulate_core::bus::Bus;
use emulate_core::cpu::csr::{self, FS_CLEAN, FS_DIRTY, FS_OFF};
use emulate_core::cpu::decode::{FpOp, FpSize, Op};
use emulate_core::cpu::fpu::arith::one_past;
use emulate_core::cpu::fpu::pattern::Layout;
use emulate_core::cpu::fpu::{
    CANONICAL_NAN_F32, CANONICAL_NAN_F64, DZ, NV, NX, OF, UF, execute, nan_box, unbox_bits,
};
use emulate_core::cpu::Cpu;
use emulate_core::trap::Exception;
use rustc_apfloat::ieee::{Double, Quad, Single};
use rustc_apfloat::{Float, FloatConvert, Round};

// Register aliases to keep tests readable.
const F0: usize = 0;
const F1: usize = 1;
const F2: usize = 2;
const F3: usize = 3;
const X5: usize = 5;
const X6: usize = 6;

fn setup() -> (Cpu, Bus) {
    let mut cpu = Cpu::new();
    cpu.csr.set_fs_dirty(); // enable FP
    (cpu, Bus::new(4096))
}

fn fp_op(op: FpOp, sz: FpSize, rd: usize, rs1: usize, rs2: usize, rm: u8) -> Op {
    Op::Fp {
        op,
        sz,
        rd,
        rs1,
        rs2,
        rs3: 0,
        rm,
    }
}

fn fused(op: FpOp, sz: FpSize, rd: usize, rs1: usize, rs2: usize, rs3: usize) -> Op {
    Op::Fp {
        op,
        sz,
        rd,
        rs1,
        rs2,
        rs3,
        rm: 0,
    }
}

fn run(cpu: &mut Cpu, bus: &mut Bus, op: Op) {
    execute(cpu, bus, 0, &op).expect("fp op should not trap");
}

fn fflags(cpu: &Cpu) -> u64 {
    cpu.csr.load_raw(csr::FFLAGS)
}

fn clear_fflags(cpu: &mut Cpu) {
    let f = cpu.csr.load_raw(csr::FCSR);
    cpu.csr.store_raw(csr::FCSR, f & !0x1F);
}

fn unbox_f32(v: u64) -> f32 {
    f32::from_bits(unbox_bits(v))
}

fn set_f32(cpu: &mut Cpu, r: usize, v: f32) {
    cpu.fregs[r] = nan_box(v.to_bits());
}

fn set_f64(cpu: &mut Cpu, r: usize, v: f64) {
    cpu.fregs[r] = v.to_bits();
}

#[test]
fn fs_off_raises_illegal() {
    // Fresh CPU: mstatus reset value has FS == Off.
    let mut cpu = Cpu::new();
    let mut bus = Bus::new(4096);
    assert_eq!(cpu.csr.fs(), FS_OFF);
    let op = fp_op(FpOp::Add, FpSize::S, F0, F1, F2, 0);
    assert_eq!(
        execute(&mut cpu, &mut bus, 0x1234, &op),
        Err(Exception::IllegalInstruction(0x1234))
    );
    // Even a pure move is illegal with FS off.
    let mv = fp_op(FpOp::MvFmtX, FpSize::S, F0, X5, 0, 0);
    assert!(matches!(
        execute(&mut cpu, &mut bus, 0, &mv),
        Err(Exception::IllegalInstruction(_))
    ));
}

#[test]
fn nan_boxing_round_trip() {
    let (mut cpu, mut bus) = setup();
    // fmv.w.x boxes the low 32 bits.
    cpu.set_reg(X5, 0x3F80_0000); // 1.0f32
    run(
        &mut cpu,
        &mut bus,
        fp_op(FpOp::MvFmtX, FpSize::S, F1, X5, 0, 0),
    );
    assert_eq!(cpu.fregs[F1], 0xFFFF_FFFF_3F80_0000);
    // fmv.x.w reads back the raw low bits, sign-extended.
    run(
        &mut cpu,
        &mut bus,
        fp_op(FpOp::MvXFmt, FpSize::S, X6, F1, 0, 0),
    );
    assert_eq!(cpu.reg(X6), 0x3F80_0000);
    // A negative bit pattern sign-extends.
    cpu.set_reg(X5, 0xBF80_0000); // -1.0f32
    run(
        &mut cpu,
        &mut bus,
        fp_op(FpOp::MvFmtX, FpSize::S, F1, X5, 0, 0),
    );
    run(
        &mut cpu,
        &mut bus,
        fp_op(FpOp::MvXFmt, FpSize::S, X6, F1, 0, 0),
    );
    assert_eq!(cpu.reg(X6), 0xFFFF_FFFF_BF80_0000);
}

#[test]
fn improperly_boxed_operand_is_canonical_nan() {
    let (mut cpu, mut bus) = setup();
    cpu.fregs[F1] = 0x0000_0000_3F80_0000; // 1.0f32 bits but NOT boxed
    set_f32(&mut cpu, F2, 2.0);
    run(
        &mut cpu,
        &mut bus,
        fp_op(FpOp::Add, FpSize::S, F0, F1, F2, 0),
    );
    // Operand read as canonical NaN -> canonical NaN result.
    assert_eq!(cpu.fregs[F0], nan_box(CANONICAL_NAN_F32));
}

#[test]
fn basic_arithmetic() {
    let (mut cpu, mut bus) = setup();
    set_f32(&mut cpu, F1, 1.5);
    set_f32(&mut cpu, F2, 2.25);
    run(
        &mut cpu,
        &mut bus,
        fp_op(FpOp::Add, FpSize::S, F0, F1, F2, 0),
    );
    assert_eq!(cpu.fregs[F0], nan_box(3.75f32.to_bits()));

    set_f64(&mut cpu, F1, 1.5);
    set_f64(&mut cpu, F2, 0.25);
    run(
        &mut cpu,
        &mut bus,
        fp_op(FpOp::Mul, FpSize::D, F0, F1, F2, 0),
    );
    assert_eq!(f64::from_bits(cpu.fregs[F0]), 0.375);

    set_f64(&mut cpu, F1, 2.0);
    run(
        &mut cpu,
        &mut bus,
        fp_op(FpOp::Sqrt, FpSize::D, F0, F1, 0, 0),
    );
    assert_eq!(f64::from_bits(cpu.fregs[F0]), 2.0f64.sqrt());
}

#[test]
fn arithmetic_honors_rounding_mode_and_sets_inexact() {
    let (mut cpu, mut bus) = setup();
    set_f32(&mut cpu, F1, 1.0);
    set_f32(&mut cpu, F2, f32::EPSILON / 2.0);

    run(
        &mut cpu,
        &mut bus,
        fp_op(FpOp::Add, FpSize::S, F0, F1, F2, 0),
    );
    assert_eq!(unbox_bits(cpu.fregs[F0]), 1.0f32.to_bits());
    assert_eq!(fflags(&cpu), NX);

    clear_fflags(&mut cpu);
    run(
        &mut cpu,
        &mut bus,
        fp_op(FpOp::Add, FpSize::S, F0, F1, F2, 3),
    );
    assert_eq!(unbox_bits(cpu.fregs[F0]), 1.0f32.to_bits() + 1);
    assert_eq!(fflags(&cpu), NX);

    clear_fflags(&mut cpu);
    run(
        &mut cpu,
        &mut bus,
        fp_op(FpOp::Add, FpSize::S, F0, F1, F2, 4),
    );
    assert_eq!(unbox_bits(cpu.fregs[F0]), 1.0f32.to_bits() + 1);
    assert_eq!(fflags(&cpu), NX);
}

#[test]
fn sqrt_sets_inexact_and_honors_directed_rounding() {
    let (mut cpu, mut bus) = setup();
    set_f32(&mut cpu, F1, 2.0);

    run(
        &mut cpu,
        &mut bus,
        fp_op(FpOp::Sqrt, FpSize::S, F0, F1, 0, 0),
    );
    let nearest = 2.0f32.sqrt().to_bits();
    assert_eq!(unbox_bits(cpu.fregs[F0]), nearest);
    assert_eq!(fflags(&cpu), NX);

    clear_fflags(&mut cpu);
    run(
        &mut cpu,
        &mut bus,
        fp_op(FpOp::Sqrt, FpSize::S, F0, F1, 0, 3),
    );
    assert_eq!(unbox_bits(cpu.fregs[F0]), nearest + 1);
    assert_eq!(fflags(&cpu), NX);

    clear_fflags(&mut cpu);
    set_f32(&mut cpu, F1, 4.0);
    run(
        &mut cpu,
        &mut bus,
        fp_op(FpOp::Sqrt, FpSize::S, F0, F1, 0, 0),
    );
    assert_eq!(unbox_f32(cpu.fregs[F0]), 2.0);
    assert_eq!(fflags(&cpu), 0);
}

#[test]
fn invalid_ops_produce_canonical_nan_and_nv() {
    let (mut cpu, mut bus) = setup();
    set_f32(&mut cpu, F1, f32::INFINITY);
    set_f32(&mut cpu, F2, f32::INFINITY);
    run(
        &mut cpu,
        &mut bus,
        fp_op(FpOp::Sub, FpSize::S, F0, F1, F2, 0),
    );
    assert_eq!(cpu.fregs[F0], nan_box(CANONICAL_NAN_F32));
    assert_ne!(fflags(&cpu) & NV, 0, "inf - inf sets NV");

    clear_fflags(&mut cpu);
    set_f64(&mut cpu, F1, 0.0);
    set_f64(&mut cpu, F2, 0.0);
    run(
        &mut cpu,
        &mut bus,
        fp_op(FpOp::Div, FpSize::D, F0, F1, F2, 0),
    );
    assert_eq!(cpu.fregs[F0], CANONICAL_NAN_F64);
    assert_ne!(fflags(&cpu) & NV, 0, "0/0 sets NV");

    clear_fflags(&mut cpu);
    set_f64(&mut cpu, F1, -1.0);
    run(
        &mut cpu,
        &mut bus,
        fp_op(FpOp::Sqrt, FpSize::D, F0, F1, 0, 0),
    );
    assert_eq!(cpu.fregs[F0], CANONICAL_NAN_F64);
    assert_ne!(fflags(&cpu) & NV, 0, "sqrt(-1) sets NV");
}

#[test]
fn divide_by_zero_sets_dz() {
    let (mut cpu, mut bus) = setup();
    set_f32(&mut cpu, F1, 3.0);
    set_f32(&mut cpu, F2, 0.0);
    run(
        &mut cpu,
        &mut bus,
        fp_op(FpOp::Div, FpSize::S, F0, F1, F2, 0),
    );
    assert_eq!(unbox_f32(cpu.fregs[F0]), f32::INFINITY);
    assert_eq!(fflags(&cpu), DZ);
}

#[test]
fn min_max_zero_and_nan_rules() {
    let (mut cpu, mut bus) = setup();
    set_f32(&mut cpu, F1, -0.0);
    set_f32(&mut cpu, F2, 0.0);
    run(
        &mut cpu,
        &mut bus,
        fp_op(FpOp::Min, FpSize::S, F0, F1, F2, 0),
    );
    assert_eq!(
        unbox_bits(cpu.fregs[F0]),
        (-0.0f32).to_bits(),
        "min(-0,+0) = -0"
    );
    run(
        &mut cpu,
        &mut bus,
        fp_op(FpOp::Max, FpSize::S, F0, F1, F2, 0),
    );
    assert_eq!(
        unbox_bits(cpu.fregs[F0]),
        0.0f32.to_bits(),
        "max(-0,+0) = +0"
    );

    // One NaN -> the other operand; qNaN sets no NV.
    set_f64(&mut cpu, F1, f64::NAN);
    set_f64(&mut cpu, F2, 5.0);
    run(
        &mut cpu,
        &mut bus,
        fp_op(FpOp::Min, FpSize::D, F0, F1, F2, 0),
    );
    assert_eq!(f64::from_bits(cpu.fregs[F0]), 5.0);
    assert_eq!(fflags(&cpu) & NV, 0, "quiet NaN in min sets no NV");

    // Both NaN -> canonical NaN.
    set_f64(&mut cpu, F2, f64::NAN);
    run(
        &mut cpu,
        &mut bus,
        fp_op(FpOp::Max, FpSize::D, F0, F1, F2, 0),
    );
    assert_eq!(cpu.fregs[F0], CANONICAL_NAN_F64);

    // sNaN input sets NV.
    cpu.fregs[F1] = nan_box(0x7F80_0001); // f32 sNaN
    set_f32(&mut cpu, F2, 1.0);
    run(
        &mut cpu,
        &mut bus,
        fp_op(FpOp::Min, FpSize::S, F0, F1, F2, 0),
    );
    assert_eq!(unbox_f32(cpu.fregs[F0]), 1.0);
    assert_ne!(fflags(&cpu) & NV, 0, "sNaN in min sets NV");
}

#[test]
fn compares_quiet_vs_signaling() {
    let (mut cpu, mut bus) = setup();
    set_f64(&mut cpu, F1, 1.0);
    set_f64(&mut cpu, F2, 2.0);
    run(
        &mut cpu,
        &mut bus,
        fp_op(FpOp::Lt, FpSize::D, X5, F1, F2, 0),
    );
    assert_eq!(cpu.reg(X5), 1);
    run(
        &mut cpu,
        &mut bus,
        fp_op(FpOp::Le, FpSize::D, X5, F2, F1, 0),
    );
    assert_eq!(cpu.reg(X5), 0);
    run(
        &mut cpu,
        &mut bus,
        fp_op(FpOp::Eq, FpSize::D, X5, F1, F1, 0),
    );
    assert_eq!(cpu.reg(X5), 1);
    assert_eq!(fflags(&cpu), 0);

    // FEQ with quiet NaN: 0, no NV.
    set_f64(&mut cpu, F2, f64::NAN);
    run(
        &mut cpu,
        &mut bus,
        fp_op(FpOp::Eq, FpSize::D, X5, F1, F2, 0),
    );
    assert_eq!(cpu.reg(X5), 0);
    assert_eq!(fflags(&cpu) & NV, 0, "feq with qNaN is quiet");

    // FLT with quiet NaN: 0, NV set.
    run(
        &mut cpu,
        &mut bus,
        fp_op(FpOp::Lt, FpSize::D, X5, F1, F2, 0),
    );
    assert_eq!(cpu.reg(X5), 0);
    assert_ne!(fflags(&cpu) & NV, 0, "flt with NaN signals NV");

    // FEQ with signaling NaN: NV set.
    clear_fflags(&mut cpu);
    cpu.fregs[F2] = 0x7FF0_0000_0000_0001; // f64 sNaN
    run(
        &mut cpu,
        &mut bus,
        fp_op(FpOp::Eq, FpSize::D, X5, F1, F2, 0),
    );
    assert_eq!(cpu.reg(X5), 0);
    assert_ne!(fflags(&cpu) & NV, 0, "feq with sNaN signals NV");
}

#[test]
fn integer_dest_does_not_dirty_fs_unless_fflags() {
    let (mut cpu, mut bus) = setup();
    set_f64(&mut cpu, F1, 1.0);
    set_f64(&mut cpu, F2, 2.0);
    // Force FS = Clean, then run a compare that raises no flags.
    cpu.csr.store_raw(csr::MSTATUS, FS_CLEAN << 13);
    run(
        &mut cpu,
        &mut bus,
        fp_op(FpOp::Lt, FpSize::D, X5, F1, F2, 0),
    );
    assert_eq!(cpu.csr.fs(), FS_CLEAN, "flag-free compare keeps FS clean");
    run(
        &mut cpu,
        &mut bus,
        fp_op(FpOp::Class, FpSize::D, X5, F1, 0, 0),
    );
    assert_eq!(cpu.csr.fs(), FS_CLEAN, "fclass keeps FS clean");
    // A compare that sets NV dirties FS.
    set_f64(&mut cpu, F2, f64::NAN);
    run(
        &mut cpu,
        &mut bus,
        fp_op(FpOp::Lt, FpSize::D, X5, F1, F2, 0),
    );
    assert_eq!(cpu.csr.fs(), FS_DIRTY, "fflags update dirties FS");
}

#[test]
fn fclass_bits() {
    let (mut cpu, mut bus) = setup();
    let cases: [(f64, u64); 8] = [
        (f64::NEG_INFINITY, 1 << 0),
        (-1.5, 1 << 1),
        (-f64::MIN_POSITIVE / 2.0, 1 << 2), // negative subnormal
        (-0.0, 1 << 3),
        (0.0, 1 << 4),
        (f64::MIN_POSITIVE / 2.0, 1 << 5), // positive subnormal
        (42.0, 1 << 6),
        (f64::INFINITY, 1 << 7),
    ];
    for (v, expect) in cases {
        set_f64(&mut cpu, F1, v);
        run(
            &mut cpu,
            &mut bus,
            fp_op(FpOp::Class, FpSize::D, X5, F1, 0, 0),
        );
        assert_eq!(cpu.reg(X5), expect, "fclass.d of {v}");
    }
    // sNaN and qNaN.
    cpu.fregs[F1] = 0x7FF0_0000_0000_0001;
    run(
        &mut cpu,
        &mut bus,
        fp_op(FpOp::Class, FpSize::D, X5, F1, 0, 0),
    );
    assert_eq!(cpu.reg(X5), 1 << 8, "fclass.d sNaN");
    set_f64(&mut cpu, F1, f64::NAN);
    run(
        &mut cpu,
        &mut bus,
        fp_op(FpOp::Class, FpSize::D, X5, F1, 0, 0),
    );
    assert_eq!(cpu.reg(X5), 1 << 9, "fclass.d qNaN");
    // Single-precision path, with an unboxed value classifying as qNaN.
    set_f32(&mut cpu, F1, -1.0);
    run(
        &mut cpu,
        &mut bus,
        fp_op(FpOp::Class, FpSize::S, X5, F1, 0, 0),
    );
    assert_eq!(cpu.reg(X5), 1 << 1, "fclass.s -1.0");
    cpu.fregs[F1] = 0x0000_0000_3F80_0000; // not boxed
    run(
        &mut cpu,
        &mut bus,
        fp_op(FpOp::Class, FpSize::S, X5, F1, 0, 0),
    );
    assert_eq!(cpu.reg(X5), 1 << 9, "unboxed f32 classifies as qNaN");
}

#[test]
fn fcvt_to_int_clamping() {
    let (mut cpu, mut bus) = setup();
    // fcvt.w.s of 3e9 -> i32::MAX, NV.
    set_f32(&mut cpu, F1, 3e9);
    run(
        &mut cpu,
        &mut bus,
        fp_op(FpOp::CvtWFmt, FpSize::S, X5, F1, 0, 1),
    );
    assert_eq!(cpu.reg(X5), i32::MAX as i64 as u64);
    assert_ne!(fflags(&cpu) & NV, 0);

    // fcvt.w.s of -3e9 -> i32::MIN (sign-extended), NV.
    clear_fflags(&mut cpu);
    set_f32(&mut cpu, F1, -3e9);
    run(
        &mut cpu,
        &mut bus,
        fp_op(FpOp::CvtWFmt, FpSize::S, X5, F1, 0, 1),
    );
    assert_eq!(cpu.reg(X5), i32::MIN as i64 as u64);
    assert_ne!(fflags(&cpu) & NV, 0);

    // NaN -> max, NV.
    clear_fflags(&mut cpu);
    set_f32(&mut cpu, F1, f32::NAN);
    run(
        &mut cpu,
        &mut bus,
        fp_op(FpOp::CvtWFmt, FpSize::S, X5, F1, 0, 1),
    );
    assert_eq!(cpu.reg(X5), i32::MAX as i64 as u64);
    assert_ne!(fflags(&cpu) & NV, 0);

    // Negative to unsigned -> 0, NV.
    clear_fflags(&mut cpu);
    set_f32(&mut cpu, F1, -1.0);
    run(
        &mut cpu,
        &mut bus,
        fp_op(FpOp::CvtWuFmt, FpSize::S, X5, F1, 0, 1),
    );
    assert_eq!(cpu.reg(X5), 0);
    assert_ne!(fflags(&cpu) & NV, 0);

    // fcvt.wu.s of u32::MAX-ish in-range value sign-extends the pattern.
    clear_fflags(&mut cpu);
    set_f32(&mut cpu, F1, 4.0e9); // rounds to 4e9 < 2^32
    run(
        &mut cpu,
        &mut bus,
        fp_op(FpOp::CvtWuFmt, FpSize::S, X5, F1, 0, 1),
    );
    assert_eq!(cpu.reg(X5), (4_000_000_000u32 as i32) as i64 as u64);

    // fcvt.l.d in range, exact.
    set_f64(&mut cpu, F1, -123456789.0);
    run(
        &mut cpu,
        &mut bus,
        fp_op(FpOp::CvtLFmt, FpSize::D, X5, F1, 0, 1),
    );
    assert_eq!(cpu.reg(X5) as i64, -123456789);

    // fcvt.lu.d of a value above u64 range -> u64::MAX, NV.
    clear_fflags(&mut cpu);
    set_f64(&mut cpu, F1, 2.5e19);
    run(
        &mut cpu,
        &mut bus,
        fp_op(FpOp::CvtLuFmt, FpSize::D, X5, F1, 0, 1),
    );
    assert_eq!(cpu.reg(X5), u64::MAX);
    assert_ne!(fflags(&cpu) & NV, 0);
}

#[test]
fn fcvt_rounding_modes() {
    let (mut cpu, mut bus) = setup();
    set_f64(&mut cpu, F1, -1.5);
    let modes: [(u8, i64); 5] = [
        (0, -2), // RNE: -1.5 ties to even -> -2
        (1, -1), // RTZ
        (2, -2), // RDN (floor)
        (3, -1), // RUP (ceil)
        (4, -2), // RMM (half away from zero)
    ];
    for (rm, expect) in modes {
        run(
            &mut cpu,
            &mut bus,
            fp_op(FpOp::CvtWFmt, FpSize::D, X5, F1, 0, rm),
        );
        assert_eq!(cpu.reg(X5) as i64, expect, "fcvt.w.d(-1.5) rm={rm}");
    }
    // RNE ties-to-even at +2.5 -> 2, RTZ 2.5 -> 2 with NX.
    set_f64(&mut cpu, F1, 2.5);
    run(
        &mut cpu,
        &mut bus,
        fp_op(FpOp::CvtWFmt, FpSize::D, X5, F1, 0, 0),
    );
    assert_eq!(cpu.reg(X5), 2, "RNE 2.5 -> 2 (ties to even)");
    clear_fflags(&mut cpu);
    run(
        &mut cpu,
        &mut bus,
        fp_op(FpOp::CvtWFmt, FpSize::D, X5, F1, 0, 1),
    );
    assert_eq!(cpu.reg(X5), 2);
    assert_ne!(fflags(&cpu) & NX, 0, "inexact conversion sets NX");
    // Exact conversion sets no flags.
    clear_fflags(&mut cpu);
    set_f64(&mut cpu, F1, -4.0);
    run(
        &mut cpu,
        &mut bus,
        fp_op(FpOp::CvtWFmt, FpSize::D, X5, F1, 0, 0),
    );
    assert_eq!(cpu.reg(X5) as i64, -4);
    assert_eq!(fflags(&cpu), 0);
}

#[test]
fn invalid_rounding_modes_raise_illegal() {
    let (mut cpu, mut bus) = setup();
    set_f32(&mut cpu, F1, 1.0);
    set_f32(&mut cpu, F2, 1.0);
    for rm in [5u8, 6] {
        let op = fp_op(FpOp::Add, FpSize::S, F0, F1, F2, rm);
        assert_eq!(
            execute(&mut cpu, &mut bus, 0xABCD, &op),
            Err(Exception::IllegalInstruction(0xABCD)),
            "rm={rm} must be illegal"
        );
    }
    // Dynamic rm with invalid frm.
    cpu.csr.store_raw(csr::FCSR, 5 << 5); // frm = 5
    let op = fp_op(FpOp::Add, FpSize::S, F0, F1, F2, 7);
    assert!(matches!(
        execute(&mut cpu, &mut bus, 0, &op),
        Err(Exception::IllegalInstruction(_))
    ));
    // Dynamic rm with valid frm works.
    cpu.csr.store_raw(csr::FCSR, 0); // frm = 0 (RNE)
    run(
        &mut cpu,
        &mut bus,
        fp_op(FpOp::Add, FpSize::S, F0, F1, F2, 7),
    );
    assert_eq!(unbox_f32(cpu.fregs[F0]), 2.0);
}

#[test]
fn int_to_fp_conversions() {
    let (mut cpu, mut bus) = setup();
    cpu.set_reg(X5, 5);
    run(
        &mut cpu,
        &mut bus,
        fp_op(FpOp::CvtFmtW, FpSize::S, F0, X5, 0, 0),
    );
    assert_eq!(unbox_f32(cpu.fregs[F0]), 5.0);

    // Negative i32 in a 64-bit register (upper bits set).
    cpu.set_reg(X5, (-7i32) as u32 as u64);
    run(
        &mut cpu,
        &mut bus,
        fp_op(FpOp::CvtFmtW, FpSize::D, F0, X5, 0, 0),
    );
    assert_eq!(f64::from_bits(cpu.fregs[F0]), -7.0);

    // Same bits as unsigned.
    run(
        &mut cpu,
        &mut bus,
        fp_op(FpOp::CvtFmtWu, FpSize::D, F0, X5, 0, 0),
    );
    assert_eq!(f64::from_bits(cpu.fregs[F0]), ((-7i32) as u32) as f64);

    // u64::MAX -> f64 is inexact (NX).
    clear_fflags(&mut cpu);
    cpu.set_reg(X5, u64::MAX);
    run(
        &mut cpu,
        &mut bus,
        fp_op(FpOp::CvtFmtLu, FpSize::D, F0, X5, 0, 0),
    );
    assert_eq!(f64::from_bits(cpu.fregs[F0]), u64::MAX as f64);
    assert_ne!(fflags(&cpu) & NX, 0, "u64::MAX -> f64 is inexact");

    // Exact i64 -> f64: no flags.
    clear_fflags(&mut cpu);
    cpu.set_reg(X5, 1024u64);
    run(
        &mut cpu,
        &mut bus,
        fp_op(FpOp::CvtFmtL, FpSize::D, F0, X5, 0, 0),
    );
    assert_eq!(f64::from_bits(cpu.fregs[F0]), 1024.0);
    assert_eq!(fflags(&cpu), 0);
}

#[test]
fn fmt_to_fmt_conversion() {
    let (mut cpu, mut bus) = setup();
    // fcvt.d.s widen (exact).
    set_f32(&mut cpu, F1, 1.5);
    run(
        &mut cpu,
        &mut bus,
        fp_op(FpOp::CvtFmtFmt, FpSize::D, F0, F1, 0, 0),
    );
    assert_eq!(f64::from_bits(cpu.fregs[F0]), 1.5);

    // fcvt.s.d overflow -> inf, OF|NX.
    clear_fflags(&mut cpu);
    set_f64(&mut cpu, F1, 1e300);
    run(
        &mut cpu,
        &mut bus,
        fp_op(FpOp::CvtFmtFmt, FpSize::S, F0, F1, 0, 0),
    );
    assert_eq!(unbox_f32(cpu.fregs[F0]), f32::INFINITY);
    assert_eq!(fflags(&cpu) & (OF | NX), OF | NX);

    // NaN narrows to the canonical f32 NaN.
    set_f64(&mut cpu, F1, f64::NAN);
    run(
        &mut cpu,
        &mut bus,
        fp_op(FpOp::CvtFmtFmt, FpSize::S, F0, F1, 0, 0),
    );
    assert_eq!(cpu.fregs[F0], nan_box(CANONICAL_NAN_F32));
}

#[test]
fn fcvt_s_d_above_max_without_exponent_overflow_is_only_inexact() {
    let (mut cpu, mut bus) = setup();
    let max = f64::from(f32::MAX);
    let just_above_max = f64::from_bits(max.to_bits() + 1);

    for rm in [0, 1] {
        clear_fflags(&mut cpu);
        set_f64(&mut cpu, F1, just_above_max);
        run(
            &mut cpu,
            &mut bus,
            fp_op(FpOp::CvtFmtFmt, FpSize::S, F0, F1, 0, rm),
        );

        assert_eq!(unbox_f32(cpu.fregs[F0]), f32::MAX);
        assert_eq!(fflags(&cpu), NX, "rm={rm}");
    }
}

#[test]
fn fcvt_s_d_tininess_is_detected_after_directed_rounding() {
    let (mut cpu, mut bus) = setup();
    let min_normal = f64::from(f32::MIN_POSITIVE);
    let max_subnormal = f64::from(f32::from_bits(0x007F_FFFF));
    let midpoint = (min_normal + max_subnormal) / 2.0;
    let just_below_midpoint = f64::from_bits(midpoint.to_bits() - 1);

    // Below the midpoint, unbounded-exponent rounding is still tiny,
    // even though the stored result rounds up to minimum normal.
    set_f64(&mut cpu, F1, just_below_midpoint);
    run(
        &mut cpu,
        &mut bus,
        fp_op(FpOp::CvtFmtFmt, FpSize::S, F0, F1, 0, 3),
    );
    assert_eq!(unbox_bits(cpu.fregs[F0]), 0x0080_0000);
    assert_eq!(fflags(&cpu), UF | NX);

    // RTZ produces a subnormal result from the same exact input.
    clear_fflags(&mut cpu);
    run(
        &mut cpu,
        &mut bus,
        fp_op(FpOp::CvtFmtFmt, FpSize::S, F0, F1, 0, 1),
    );
    assert_eq!(unbox_bits(cpu.fregs[F0]), 0x007F_FFFF);
    assert_eq!(fflags(&cpu), UF | NX);
}

#[test]
fn fcvt_s_d_normal_result_can_still_underflow() {
    let (mut cpu, mut bus) = setup();
    // SoftFloat FAQ's after-rounding tininess example.
    for (bits, flags) in [
        (0x380F_FFFF_E100_0000, UF | NX),
        (0x380F_FFFF_F000_0000, NX),
    ] {
        for sign in [0, 1_u64 << 63] {
            clear_fflags(&mut cpu);
            cpu.fregs[F1] = bits | sign;
            run(
                &mut cpu,
                &mut bus,
                fp_op(FpOp::CvtFmtFmt, FpSize::S, F0, F1, 0, 0),
            );
            assert_eq!(
                unbox_bits(cpu.fregs[F0]),
                0x0080_0000 | ((sign >> 32) as u32)
            );
            assert_eq!(fflags(&cpu), flags, "input={bits:x} sign={sign:x}");
        }
    }
}

#[test]
fn sgnj_bit_tricks() {
    let (mut cpu, mut bus) = setup();
    set_f32(&mut cpu, F1, 1.5);
    set_f32(&mut cpu, F2, -2.0);
    // fsgnj.s: magnitude of rs1, sign of rs2.
    run(
        &mut cpu,
        &mut bus,
        fp_op(FpOp::Sgnj, FpSize::S, F0, F1, F2, 0),
    );
    assert_eq!(unbox_f32(cpu.fregs[F0]), -1.5);
    // fneg.s == fsgnjn.s f0, f1, f1.
    run(
        &mut cpu,
        &mut bus,
        fp_op(FpOp::Sgnjn, FpSize::S, F0, F1, F1, 0),
    );
    assert_eq!(unbox_f32(cpu.fregs[F0]), -1.5);
    // fabs.s == fsgnjx.s f0, f2, f2.
    run(
        &mut cpu,
        &mut bus,
        fp_op(FpOp::Sgnjx, FpSize::S, F0, F2, F2, 0),
    );
    assert_eq!(unbox_f32(cpu.fregs[F0]), 2.0);
    // sgnj preserves NaN payloads (raw bit op, no canonicalization).
    cpu.fregs[F1] = nan_box(0xFFC0_0001);
    set_f32(&mut cpu, F2, 1.0);
    run(
        &mut cpu,
        &mut bus,
        fp_op(FpOp::Sgnj, FpSize::S, F0, F1, F2, 0),
    );
    assert_eq!(unbox_bits(cpu.fregs[F0]), 0x7FC0_0001);
    // Double precision fsgnjx flips via XOR.
    set_f64(&mut cpu, F1, -3.0);
    set_f64(&mut cpu, F2, -1.0);
    run(
        &mut cpu,
        &mut bus,
        fp_op(FpOp::Sgnjx, FpSize::D, F0, F1, F2, 0),
    );
    assert_eq!(f64::from_bits(cpu.fregs[F0]), 3.0);
}

#[test]
fn fused_multiply_add_single_rounding() {
    let (mut cpu, mut bus) = setup();
    // a*a is not exactly representable in f32; the fused form keeps the
    // low bits that a separate multiply would round away.
    let a = 4097.0f32; // 2^12 + 1; a*a = 2^24 + 2^13 + 1
    let c = -(a * a); // rounded product, negated
    set_f32(&mut cpu, F1, a);
    set_f32(&mut cpu, F2, a);
    set_f32(&mut cpu, F3, c);
    run(
        &mut cpu,
        &mut bus,
        fused(FpOp::Madd, FpSize::S, F0, F1, F2, F3),
    );
    let fused_res = unbox_f32(cpu.fregs[F0]);
    assert_eq!(fused_res, a.mul_add(a, c), "matches host fma");
    assert_ne!(fused_res, a * a + c, "fused differs from double rounding");

    // Sign conventions.
    set_f64(&mut cpu, F1, 2.0);
    set_f64(&mut cpu, F2, 3.0);
    set_f64(&mut cpu, F3, 1.0);
    run(
        &mut cpu,
        &mut bus,
        fused(FpOp::Madd, FpSize::D, F0, F1, F2, F3),
    );
    assert_eq!(f64::from_bits(cpu.fregs[F0]), 7.0, "madd = a*b + c");
    run(
        &mut cpu,
        &mut bus,
        fused(FpOp::Msub, FpSize::D, F0, F1, F2, F3),
    );
    assert_eq!(f64::from_bits(cpu.fregs[F0]), 5.0, "msub = a*b - c");
    run(
        &mut cpu,
        &mut bus,
        fused(FpOp::Nmsub, FpSize::D, F0, F1, F2, F3),
    );
    assert_eq!(f64::from_bits(cpu.fregs[F0]), -5.0, "nmsub = -(a*b) + c");
    run(
        &mut cpu,
        &mut bus,
        fused(FpOp::Nmadd, FpSize::D, F0, F1, F2, F3),
    );
    assert_eq!(f64::from_bits(cpu.fregs[F0]), -7.0, "nmadd = -(a*b) - c");
}

#[test]
fn directed_finite_overflow_sets_overflow_and_inexact() {
    let (mut cpu, mut bus) = setup();
    set_f32(&mut cpu, F1, f32::MAX);
    set_f32(&mut cpu, F2, f32::MAX);

    run(
        &mut cpu,
        &mut bus,
        fp_op(FpOp::Add, FpSize::S, F0, F1, F2, 1),
    );

    assert_eq!(fflags(&cpu), OF | NX);
}

#[test]
fn tiny_addend_past_maximum_sets_overflow() {
    let (mut cpu, mut bus) = setup();

    set_f32(&mut cpu, F1, f32::MAX);
    cpu.fregs[F2] = nan_box(1);
    run(
        &mut cpu,
        &mut bus,
        fp_op(FpOp::Add, FpSize::S, F0, F1, F2, 0),
    );
    assert_eq!(fflags(&cpu), NX);

    clear_fflags(&mut cpu);
    run(
        &mut cpu,
        &mut bus,
        fp_op(FpOp::Add, FpSize::S, F0, F1, F2, 3),
    );
    assert_eq!(fflags(&cpu), OF | NX);

    clear_fflags(&mut cpu);
    set_f64(&mut cpu, F1, f64::MAX);
    cpu.fregs[F2] = 1;
    run(
        &mut cpu,
        &mut bus,
        fp_op(FpOp::Add, FpSize::D, F0, F1, F2, 0),
    );
    assert_eq!(fflags(&cpu), NX);

    clear_fflags(&mut cpu);
    run(
        &mut cpu,
        &mut bus,
        fp_op(FpOp::Add, FpSize::D, F0, F1, F2, 3),
    );
    assert_eq!(fflags(&cpu), OF | NX);
}

#[test]
fn fused_tiny_addend_past_maximum_sets_overflow() {
    let (mut cpu, mut bus) = setup();
    set_f64(&mut cpu, F1, f64::MAX);
    set_f64(&mut cpu, F2, 1.0);
    cpu.fregs[F3] = 1;

    run(
        &mut cpu,
        &mut bus,
        fused(FpOp::Madd, FpSize::D, F0, F1, F2, F3),
    );
    assert_eq!(fflags(&cpu), NX);

    clear_fflags(&mut cpu);
    run(
        &mut cpu,
        &mut bus,
        Op::Fp {
            op: FpOp::Madd,
            sz: FpSize::D,
            rd: F0,
            rs1: F1,
            rs2: F2,
            rs3: F3,
            rm: 3,
        },
    );

    assert_eq!(fflags(&cpu), OF | NX);
}

#[test]
fn single_overflow_threshold_matches_one_ulp_past_maximum() {
    let max: Double = Single::largest().convert(&mut false).value;
    let previous: Double = Single::largest().next_down().value.convert(&mut false).value;
    let ulp = max.sub_r(previous, Round::NearestTiesToEven).value;
    let derived = max.add_r(ulp, Round::NearestTiesToEven).value;

    assert_eq!(derived, Double::from_bits(0x47f0_0000_0000_0000));
    assert_eq!(one_past(Layout::Single), 0x47f0_0000_0000_0000);
}

#[test]
fn double_overflow_threshold_matches_one_ulp_past_maximum() {
    let max: Quad = Double::largest().convert(&mut false).value;
    let previous: Quad = Double::largest().next_down().value.convert(&mut false).value;
    let ulp = max.sub_r(previous, Round::NearestTiesToEven).value;
    let derived = max.add_r(ulp, Round::NearestTiesToEven).value;

    assert_eq!(derived, Quad::from_bits(0x43ff_u128 << 112));
    assert_eq!(one_past(Layout::Double), 0x43ff_u128 << 112);
}

#[test]
fn fused_tiny_result_rounded_to_normal_sets_underflow() {
    let (mut cpu, mut bus) = setup();
    cpu.fregs[F1] = nan_box(0x0080_0000);
    cpu.fregs[F2] = nan_box(0x0A1F_0529);
    cpu.fregs[F3] = nan_box(0x007F_FFFF);
    let op = Op::Fp {
        op: FpOp::Madd,
        sz: FpSize::S,
        rd: F0,
        rs1: F1,
        rs2: F2,
        rs3: F3,
        rm: 3,
    };

    run(&mut cpu, &mut bus, op);

    assert_eq!(unbox_bits(cpu.fregs[F0]), 0x0080_0000);
    assert_eq!(fflags(&cpu), UF | NX);

    // The same exact fused result rounds to the maximum subnormal under
    // RTZ, which is tiny after rounding and therefore signals underflow.
    clear_fflags(&mut cpu);
    let op = Op::Fp {
        op: FpOp::Madd,
        sz: FpSize::S,
        rd: F0,
        rs1: F1,
        rs2: F2,
        rs3: F3,
        rm: 1,
    };
    run(&mut cpu, &mut bus, op);
    assert_eq!(unbox_bits(cpu.fregs[F0]), 0x007F_FFFF);
    assert_eq!(fflags(&cpu), UF | NX);
}

#[test]
fn fmv_double_raw_bits() {
    let (mut cpu, mut bus) = setup();
    let bits = 0x4009_21FB_5444_2D18u64; // pi
    cpu.set_reg(X5, bits);
    run(
        &mut cpu,
        &mut bus,
        fp_op(FpOp::MvFmtX, FpSize::D, F1, X5, 0, 0),
    );
    assert_eq!(cpu.fregs[F1], bits);
    run(
        &mut cpu,
        &mut bus,
        fp_op(FpOp::MvXFmt, FpSize::D, X6, F1, 0, 0),
    );
    assert_eq!(cpu.reg(X6), bits);
}
