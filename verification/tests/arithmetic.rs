use emulate_core::bus::Bus;
use emulate_core::cpu::csr;
use emulate_core::cpu::decode::{FpOp, FpSize, Op};
use emulate_core::cpu::fpu::{
    execute, nan_box, unbox_bits, CANONICAL_NAN_F32, CANONICAL_NAN_F64, DZ, NV, NX, OF, UF,
};
use emulate_core::cpu::Cpu;
use rustc_apfloat::ieee::{Double, Single};
use rustc_apfloat::{Float, Round};

const RNE: u8 = 0;
const RTZ: u8 = 1;
const RDN: u8 = 2;
const RUP: u8 = 3;
const RMM: u8 = 4;

/// A hart with floating point on, and what it computed last.
struct Fpu {
    cpu: Cpu,
    bus: Bus,
}

impl Fpu {
    fn new() -> Self {
        let mut cpu = Cpu::new();
        cpu.csr.set_fs_dirty();
        Fpu { cpu, bus: Bus::new(4096) }
    }

    /// `op` on f1, f2 and f3 into f4, with the flags it raised.
    fn op(&mut self, op: FpOp, sz: FpSize, rm: u8) -> u64 {
        self.cpu.csr.store_raw(csr::FCSR, 0);
        let inst = Op::Fp { op, sz, rd: 4, rs1: 1, rs2: 2, rs3: 3, rm };
        execute(&mut self.cpu, &mut self.bus, 0, &inst).unwrap();
        self.cpu.csr.load_raw(csr::FFLAGS)
    }

    fn single(&mut self, op: FpOp, a: u32, b: u32, c: u32, rm: u8) -> (u32, u64) {
        self.cpu.fregs[1] = nan_box(a);
        self.cpu.fregs[2] = nan_box(b);
        self.cpu.fregs[3] = nan_box(c);
        let flags = self.op(op, FpSize::S, rm);
        (unbox_bits(self.cpu.fregs[4]), flags)
    }

    fn double(&mut self, op: FpOp, a: u64, b: u64, c: u64, rm: u8) -> (u64, u64) {
        self.cpu.fregs[1] = a;
        self.cpu.fregs[2] = b;
        self.cpu.fregs[3] = c;
        let flags = self.op(op, FpSize::D, rm);
        (self.cpu.fregs[4], flags)
    }

    /// An integer register into f4.
    fn from_int(&mut self, op: FpOp, sz: FpSize, v: u64, rm: u8) -> (u64, u64) {
        self.cpu.set_reg(1, v);
        let flags = self.op(op, sz, rm);
        (self.cpu.fregs[4], flags)
    }

    /// f1 into an integer register.
    fn to_int(&mut self, op: FpOp, sz: FpSize, bits: u64, rm: u8) -> (u64, u64) {
        self.cpu.fregs[1] = bits;
        let flags = self.op(op, sz, rm);
        (self.cpu.reg(4), flags)
    }
}

/// A sequence of well-spread numbers.
struct Numbers(u64);

impl Numbers {
    fn next(&mut self) -> u64 {
        self.0 ^= self.0 << 13;
        self.0 ^= self.0 >> 7;
        self.0 ^= self.0 << 17;
        self.0
    }

    /// A single of any kind, close to the edges of the range more often than
    /// not.
    fn single(&mut self) -> u32 {
        let bits = self.next() as u32;
        match self.next() % 8 {
            0 => bits & 0x807f_ffff,
            1 => bits & 0x80ff_ffff,
            2 => (bits & 0x807f_ffff) | 0x7f00_0000,
            3 => bits & 0x8000_0003,
            4 => 0x7f80_0000 | (bits & 0x8000_0000),
            5 => (bits & 0x80ff_ffff) | 0x3f00_0000,
            _ => bits,
        }
    }

    fn double(&mut self) -> u64 {
        let bits = self.next();
        match self.next() % 8 {
            0 => bits & 0x800f_ffff_ffff_ffff,
            1 => bits & 0x801f_ffff_ffff_ffff,
            2 => (bits & 0x800f_ffff_ffff_ffff) | 0x7fe0_0000_0000_0000,
            3 => bits & 0x8000_0000_0000_0003,
            4 => 0x7ff0_0000_0000_0000 | (bits & 0x8000_0000_0000_0000),
            5 => (bits & 0x801f_ffff_ffff_ffff) | 0x3fe0_0000_0000_0000,
            _ => bits,
        }
    }
}

fn canonical_f32(v: f32) -> u32 {
    let bits = v.to_bits();
    if bits & 0x7fff_ffff > 0x7f80_0000 {
        CANONICAL_NAN_F32
    } else {
        bits
    }
}

fn canonical_f64(v: f64) -> u64 {
    let bits = v.to_bits();
    if bits & 0x7fff_ffff_ffff_ffff > 0x7ff0_0000_0000_0000 {
        CANONICAL_NAN_F64
    } else {
        bits
    }
}

#[test]
fn nearest_singles_agree_with_the_host() {
    let mut fpu = Fpu::new();
    let mut numbers = Numbers(0x9e37_79b9_7f4a_7c15);
    for _ in 0..20_000 {
        let (x, y, z) = (numbers.single(), numbers.single(), numbers.single());
        let (a, b, c) = (f32::from_bits(x), f32::from_bits(y), f32::from_bits(z));
        assert_eq!(fpu.single(FpOp::Add, x, y, z, RNE).0, canonical_f32(a + b), "{x:x} + {y:x}");
        assert_eq!(fpu.single(FpOp::Sub, x, y, z, RNE).0, canonical_f32(a - b), "{x:x} - {y:x}");
        assert_eq!(fpu.single(FpOp::Mul, x, y, z, RNE).0, canonical_f32(a * b), "{x:x} * {y:x}");
        assert_eq!(fpu.single(FpOp::Div, x, y, z, RNE).0, canonical_f32(a / b), "{x:x} / {y:x}");
        assert_eq!(fpu.single(FpOp::Sqrt, x, y, z, RNE).0, canonical_f32(a.sqrt()), "sqrt {x:x}");
        assert_eq!(
            fpu.single(FpOp::Madd, x, y, z, RNE).0,
            canonical_f32(a.mul_add(b, c)),
            "{x:x} * {y:x} + {z:x}"
        );
        assert_eq!(
            fpu.single(FpOp::Nmadd, x, y, z, RNE).0,
            canonical_f32((-a).mul_add(b, -c)),
            "-({x:x} * {y:x}) - {z:x}"
        );
    }
}

#[test]
fn nearest_doubles_agree_with_the_host() {
    let mut fpu = Fpu::new();
    let mut numbers = Numbers(0xd1b5_4a32_d192_ed03);
    for _ in 0..20_000 {
        let (x, y, z) = (numbers.double(), numbers.double(), numbers.double());
        let (a, b, c) = (f64::from_bits(x), f64::from_bits(y), f64::from_bits(z));
        assert_eq!(fpu.double(FpOp::Add, x, y, z, RNE).0, canonical_f64(a + b), "{x:x} + {y:x}");
        assert_eq!(fpu.double(FpOp::Sub, x, y, z, RNE).0, canonical_f64(a - b), "{x:x} - {y:x}");
        assert_eq!(fpu.double(FpOp::Mul, x, y, z, RNE).0, canonical_f64(a * b), "{x:x} * {y:x}");
        assert_eq!(fpu.double(FpOp::Div, x, y, z, RNE).0, canonical_f64(a / b), "{x:x} / {y:x}");
        assert_eq!(fpu.double(FpOp::Sqrt, x, y, z, RNE).0, canonical_f64(a.sqrt()), "sqrt {x:x}");
        assert_eq!(
            fpu.double(FpOp::Msub, x, y, z, RNE).0,
            canonical_f64(a.mul_add(b, -c)),
            "{x:x} * {y:x} - {z:x}"
        );
        assert_eq!(
            fpu.double(FpOp::Nmsub, x, y, z, RNE).0,
            canonical_f64((-a).mul_add(b, c)),
            "-({x:x} * {y:x}) + {z:x}"
        );
    }
}

/// Every rounding mode hands its own direction on.
#[test]
fn rounding_modes_reach_the_arithmetic() {
    let mut fpu = Fpu::new();
    let modes = [
        (RNE, Round::NearestTiesToEven),
        (RTZ, Round::TowardZero),
        (RDN, Round::TowardNegative),
        (RUP, Round::TowardPositive),
        (RMM, Round::NearestTiesToAway),
    ];
    let mut numbers = Numbers(0x2545_f491_4f6c_dd1d);
    for _ in 0..4_000 {
        let (x, y) = (numbers.single(), numbers.single());
        let (a, b) = (Single::from_bits(x as u128), Single::from_bits(y as u128));
        let (v, w) = (numbers.double(), numbers.double());
        let (p, q) = (Double::from_bits(v as u128), Double::from_bits(w as u128));
        for (rm, round) in modes {
            let want = a.mul_r(b, round).value;
            let got = fpu.single(FpOp::Mul, x, y, 0, rm).0;
            assert!(want.is_nan() || want.to_bits() == got as u128, "{x:x} * {y:x}, rm {rm}");
            let want = a.div_r(b, round).value;
            let got = fpu.single(FpOp::Div, x, y, 0, rm).0;
            assert!(want.is_nan() || want.to_bits() == got as u128, "{x:x} / {y:x}, rm {rm}");
            let want = p.add_r(q, round).value;
            let got = fpu.double(FpOp::Add, v, w, 0, rm).0;
            assert!(want.is_nan() || want.to_bits() == got as u128, "{v:x} + {w:x}, rm {rm}");
            let want = p.sub_r(q, round).value;
            let got = fpu.double(FpOp::Sub, v, w, 0, rm).0;
            assert!(want.is_nan() || want.to_bits() == got as u128, "{v:x} - {w:x}, rm {rm}");
        }
    }
    // One third, whose binary digits never end.
    let (one, three) = (1f32.to_bits(), 3f32.to_bits());
    assert_eq!(fpu.single(FpOp::Div, one, three, 0, RNE), (0x3eaa_aaab, NX));
    assert_eq!(fpu.single(FpOp::Div, one, three, 0, RTZ), (0x3eaa_aaaa, NX));
    assert_eq!(fpu.single(FpOp::Div, one, three, 0, RDN), (0x3eaa_aaaa, NX));
    assert_eq!(fpu.single(FpOp::Div, one, three, 0, RUP), (0x3eaa_aaab, NX));
    let (one, three) = (1f64.to_bits(), 3f64.to_bits());
    assert_eq!(fpu.double(FpOp::Div, one, three, 0, RNE), (0x3fd5_5555_5555_5555, NX));
    assert_eq!(fpu.double(FpOp::Div, one, three, 0, RUP), (0x3fd5_5555_5555_5556, NX));
}

/// A product of singles is exact as a double, so its flags can be told from
/// there: tiny means below the smallest normal after rounding to 24 digits
/// with no bound on the exponent.
#[test]
fn single_products_raise_the_exact_flags() {
    let mut fpu = Fpu::new();
    let mut numbers = Numbers(0xa076_1d64_78bd_642f);
    let mut tiny_seen = 0;
    let mut overflow_seen = 0;
    for _ in 0..40_000 {
        let (x, y) = match numbers.next() % 2 {
            0 => (numbers.single(), numbers.single()),
            // Products around the smallest normal.
            _ => {
                let bits = numbers.next();
                (
                    0x2000_0000 | (bits as u32 & 0x007f_ffff),
                    0x1f80_0000 | ((bits >> 32) as u32 & 0x007f_ffff),
                )
            }
        };
        let (a, b) = (f32::from_bits(x), f32::from_bits(y));
        if !a.is_finite() || !b.is_finite() {
            continue;
        }
        let exact = a as f64 * b as f64;
        let (bits, flags) = fpu.single(FpOp::Mul, x, y, 0, RNE);
        let rounded = f32::from_bits(bits);
        let inexact = rounded as f64 != exact;
        let overflow = rounded.is_infinite();
        let edge = f32::MIN_POSITIVE as f64 * (1.0 - f64::from_bits(0x3e60_0000_0000_0000));
        let tiny = exact.abs() < edge;
        let mut want = 0;
        if inexact {
            want |= NX;
        }
        if overflow {
            want |= OF;
            overflow_seen += 1;
        }
        if tiny && inexact {
            want |= UF;
            tiny_seen += 1;
        }
        assert_eq!(flags, want, "{x:x} * {y:x}");
    }
    assert!(tiny_seen > 100 && overflow_seen > 100);
}

#[test]
fn results_just_below_normal_are_tiny_only_if_they_stay_there() {
    let mut fpu = Fpu::new();
    let smallest = 0x0080_0000u32;
    let half = 0.5f32.to_bits();
    // Half of (2 - 2^-23) * 2^-126 has 24 digits and lies half a subnormal
    // step below the smallest normal: it was tiny, wherever it rounds to.
    assert_eq!(fpu.single(FpOp::Mul, 0x00ff_ffff, half, 0, RNE), (smallest, NX | UF));
    assert_eq!(fpu.single(FpOp::Mul, 0x00ff_ffff, half, 0, RTZ), (0x007f_ffff, NX | UF));
    assert_eq!(fpu.single(FpOp::Mul, 0x0080_0000, 1f32.to_bits(), 0, RNE), (smallest, 0));
    // (1 + 2^-23) (1 - 2^-23) times the smallest normal lies so close to it
    // that 24 digits round it up: it was not tiny, unless it was cut off.
    assert_eq!(fpu.single(FpOp::Mul, 0x0080_0001, 0x3f7f_fffe, 0, RNE), (smallest, NX));
    assert_eq!(fpu.single(FpOp::Mul, 0x0080_0001, 0x3f7f_fffe, 0, RTZ), (0x007f_ffff, NX | UF));
    // Doubles.
    let smallest = 0x0010_0000_0000_0000u64;
    let half = 0.5f64.to_bits();
    assert_eq!(
        fpu.double(FpOp::Mul, 0x001f_ffff_ffff_ffff, half, 0, RNE),
        (smallest, NX | UF)
    );
    assert_eq!(
        fpu.double(FpOp::Mul, 0x0010_0000_0000_0001, 0x3fef_ffff_ffff_fffe, 0, RNE),
        (smallest, NX)
    );
    // A quotient: the smallest subnormal halved vanishes.
    assert_eq!(fpu.single(FpOp::Div, 1, 2f32.to_bits(), 0, RNE), (0, NX | UF));
    assert_eq!(fpu.double(FpOp::Div, 1, 2f64.to_bits(), 0, RUP), (1, NX | UF));
    // Exact subnormal results raise nothing.
    assert_eq!(fpu.single(FpOp::Sub, 0x0080_0000, 1, 0, RNE), (0x007f_ffff, 0));
    assert_eq!(fpu.double(FpOp::Add, 3, 4, 0, RNE), (7, 0));
}

#[test]
fn overflow_follows_the_rounding_direction() {
    let mut fpu = Fpu::new();
    let max = f32::MAX.to_bits();
    let inf = f32::INFINITY.to_bits();
    for (rm, want) in [(RNE, inf), (RTZ, max), (RDN, max), (RUP, inf), (RMM, inf)] {
        assert_eq!(fpu.single(FpOp::Add, max, max, 0, rm), (want, OF | NX), "rm {rm}");
        assert_eq!(fpu.single(FpOp::Mul, max, max, 0, rm), (want, OF | NX), "rm {rm}");
        assert_eq!(fpu.single(FpOp::Div, max, 1, 0, rm), (want, OF | NX), "rm {rm}");
    }
    let max = f64::MAX.to_bits();
    let inf = f64::INFINITY.to_bits();
    for (rm, want) in [(RNE, inf), (RTZ, max), (RDN, max), (RUP, inf), (RMM, inf)] {
        assert_eq!(fpu.double(FpOp::Add, max, max, 0, rm), (want, OF | NX), "rm {rm}");
        assert_eq!(fpu.double(FpOp::Mul, max, max, 0, rm), (want, OF | NX), "rm {rm}");
        assert_eq!(fpu.double(FpOp::Div, max, 1, 0, rm), (want, OF | NX), "rm {rm}");
    }
    // The largest finite number plus less than half a step does not overflow,
    // unless rounding up.
    let max = f32::MAX.to_bits();
    let inf = f32::INFINITY.to_bits();
    assert_eq!(fpu.single(FpOp::Add, max, 1, 0, RNE), (max, NX));
    assert_eq!(fpu.single(FpOp::Add, max, 1, 0, RUP), (inf, OF | NX));
    assert_eq!(fpu.single(FpOp::Add, max, 1, 0, RTZ), (max, NX));
    let max = f64::MAX.to_bits();
    let inf = f64::INFINITY.to_bits();
    assert_eq!(fpu.double(FpOp::Sub, max, 1, 0, RNE), (max, NX));
    assert_eq!(fpu.double(FpOp::Add, max, 1, 0, RUP), (inf, OF | NX));
    assert_eq!(fpu.double(FpOp::Add, max, 1, 0, RTZ), (max, NX));
    // Infinite operands are exact.
    assert_eq!(fpu.single(FpOp::Add, f32::INFINITY.to_bits(), 1, 0, RUP).1, 0);
}

#[test]
fn invalid_and_divide_by_zero_raise_their_own_flags() {
    let mut fpu = Fpu::new();
    let one = 1f32.to_bits();
    let inf = f32::INFINITY.to_bits();
    assert_eq!(fpu.single(FpOp::Div, one, 0, 0, RNE), (inf, DZ));
    assert_eq!(fpu.single(FpOp::Div, 0, 0, 0, RNE), (CANONICAL_NAN_F32, NV));
    assert_eq!(fpu.single(FpOp::Sub, inf, inf, 0, RNE), (CANONICAL_NAN_F32, NV));
    assert_eq!(fpu.single(FpOp::Mul, inf, 0, 0, RNE), (CANONICAL_NAN_F32, NV));
    assert_eq!(fpu.single(FpOp::Madd, inf, 0, one, RNE), (CANONICAL_NAN_F32, NV));
    assert_eq!(fpu.single(FpOp::Sqrt, (-1f32).to_bits(), 0, 0, RNE), (CANONICAL_NAN_F32, NV));
    // A quiet NaN operand is quiet.
    assert_eq!(fpu.single(FpOp::Add, 0x7fc1_2345, one, 0, RNE), (CANONICAL_NAN_F32, 0));
    // A signaling one is not.
    assert_eq!(fpu.single(FpOp::Add, 0x7f81_2345, one, 0, RNE), (CANONICAL_NAN_F32, NV));
    let one = 1f64.to_bits();
    assert_eq!(fpu.double(FpOp::Div, one, 0, 0, RNE), (f64::INFINITY.to_bits(), DZ));
    assert_eq!(fpu.double(FpOp::Div, 0, 0, 0, RNE), (CANONICAL_NAN_F64, NV));
}

#[test]
fn fused_results_round_once() {
    let mut fpu = Fpu::new();
    // (1 + 2^-12)^2 - (1 + 2^-11) is 2^-24 exactly.
    let a = 0x3f80_0800;
    let c = 0x3f80_1000;
    assert_eq!(fpu.single(FpOp::Msub, a, a, c, RNE), (0x3380_0000, 0));
    assert_eq!(fpu.single(FpOp::Nmsub, a, a, c, RNE), (0xb380_0000, 0));
    // (1 + 2^-27)^2 - (1 + 2^-26) is 2^-54 exactly.
    let a = 0x3ff0_0000_0200_0000;
    let c = 0x3ff0_0000_0400_0000;
    assert_eq!(fpu.double(FpOp::Msub, a, a, c, RNE), (0x3c90_0000_0000_0000, 0));
    assert_eq!(fpu.double(FpOp::Nmadd, a, a, c ^ (1 << 63), RNE), (0xbc90_0000_0000_0000, 0));
    // A fused overflow and a fused underflow.
    let max = f32::MAX.to_bits();
    assert_eq!(fpu.single(FpOp::Madd, max, max, max, RTZ), (max, OF | NX));
    assert_eq!(fpu.single(FpOp::Madd, 1, 1, 0, RNE), (0, UF | NX));
    let max = f64::MAX.to_bits();
    assert_eq!(fpu.double(FpOp::Madd, max, max, max, RTZ), (max, OF | NX));
    assert_eq!(fpu.double(FpOp::Madd, 1, 1, 0, RUP), (1, UF | NX));
}

#[test]
fn square_roots_round_in_every_direction() {
    let mut fpu = Fpu::new();
    let two = 2f32.to_bits();
    assert_eq!(fpu.single(FpOp::Sqrt, two, 0, 0, RNE), (0x3fb5_04f3, NX));
    assert_eq!(fpu.single(FpOp::Sqrt, two, 0, 0, RTZ), (0x3fb5_04f3, NX));
    assert_eq!(fpu.single(FpOp::Sqrt, two, 0, 0, RUP), (0x3fb5_04f4, NX));
    let two = 2f64.to_bits();
    assert_eq!(fpu.double(FpOp::Sqrt, two, 0, 0, RNE), (0x3ff6_a09e_667f_3bcd, NX));
    assert_eq!(fpu.double(FpOp::Sqrt, two, 0, 0, RDN), (0x3ff6_a09e_667f_3bcc, NX));
    // Perfect squares are exact, subnormal ones too.
    assert_eq!(fpu.single(FpOp::Sqrt, 9f32.to_bits(), 0, 0, RUP), (3f32.to_bits(), 0));
    assert_eq!(fpu.double(FpOp::Sqrt, 1, 0, 0, RUP), (0x1e60_0000_0000_0000, 0));
    assert_eq!(fpu.single(FpOp::Sqrt, 0x8000_0000, 0, 0, RNE), (0x8000_0000, 0));
}

#[test]
fn integers_convert_both_ways() {
    let mut fpu = Fpu::new();
    let mut numbers = Numbers(0xe703_7ed1_a0b4_28db);
    for _ in 0..5_000 {
        let shift = numbers.next() % 64;
        let v = numbers.next() >> shift;
        assert_eq!(
            fpu.from_int(FpOp::CvtFmtL, FpSize::S, v, RNE).0,
            nan_box((v as i64 as f32).to_bits())
        );
        assert_eq!(
            fpu.from_int(FpOp::CvtFmtLu, FpSize::S, v, RNE).0,
            nan_box((v as f32).to_bits())
        );
        assert_eq!(
            fpu.from_int(FpOp::CvtFmtL, FpSize::D, v, RNE).0,
            (v as i64 as f64).to_bits()
        );
        assert_eq!(fpu.from_int(FpOp::CvtFmtLu, FpSize::D, v, RNE).0, (v as f64).to_bits());
        assert_eq!(
            fpu.from_int(FpOp::CvtFmtW, FpSize::D, v, RNE),
            ((v as i32 as f64).to_bits(), 0)
        );
        assert_eq!(
            fpu.from_int(FpOp::CvtFmtWu, FpSize::D, v, RNE),
            ((v as u32 as f64).to_bits(), 0)
        );
        // A double truncated the way the host casts it; the flags differ by
        // range only.
        let x = numbers.double();
        let f = f64::from_bits(x);
        if !f.is_nan() {
            assert_eq!(fpu.to_int(FpOp::CvtLFmt, FpSize::D, x, RTZ).0, f as i64 as u64);
            assert_eq!(fpu.to_int(FpOp::CvtLuFmt, FpSize::D, x, RTZ).0, f as u64);
            assert_eq!(fpu.to_int(FpOp::CvtWFmt, FpSize::D, x, RTZ).0, f as i32 as u64);
            assert_eq!(
                fpu.to_int(FpOp::CvtWuFmt, FpSize::D, x, RTZ).0,
                f as u32 as i32 as u64
            );
        }
    }
    // 2^24 + 1 has no single.
    assert_eq!(
        fpu.from_int(FpOp::CvtFmtW, FpSize::S, 0x0100_0001, RUP),
        (nan_box(0x4b80_0001), NX)
    );
    // -2.5, in each direction.
    let x = (-2.5f64).to_bits();
    for (rm, want) in [(RNE, -2i64), (RTZ, -2), (RDN, -3), (RUP, -2), (RMM, -3)] {
        assert_eq!(fpu.to_int(FpOp::CvtLFmt, FpSize::D, x, rm), (want as u64, NX), "rm {rm}");
    }
    assert_eq!(fpu.to_int(FpOp::CvtLuFmt, FpSize::D, x, RNE), (0, NV));
    assert_eq!(fpu.to_int(FpOp::CvtWFmt, FpSize::D, CANONICAL_NAN_F64, RNE), (0x7fff_ffff, NV));
}

#[test]
fn formats_convert_into_each_other() {
    let mut fpu = Fpu::new();
    let mut numbers = Numbers(0x8ebc_6af0_9c88_c6e3);
    for _ in 0..5_000 {
        let x = numbers.double();
        let f = f64::from_bits(x);
        fpu.cpu.fregs[1] = x;
        fpu.op(FpOp::CvtFmtFmt, FpSize::S, RNE);
        assert_eq!(unbox_bits(fpu.cpu.fregs[4]), canonical_f32(f as f32), "{x:x}");
        let y = numbers.single();
        fpu.cpu.fregs[1] = nan_box(y);
        fpu.op(FpOp::CvtFmtFmt, FpSize::D, RNE);
        assert_eq!(fpu.cpu.fregs[4], canonical_f64(f32::from_bits(y) as f64), "{y:x}");
    }
    // Past the range of a single, and below it.
    fpu.cpu.fregs[1] = f64::MAX.to_bits();
    assert_eq!(fpu.op(FpOp::CvtFmtFmt, FpSize::S, RTZ), OF | NX);
    assert_eq!(unbox_bits(fpu.cpu.fregs[4]), f32::MAX.to_bits());
    fpu.cpu.fregs[1] = f64::MIN_POSITIVE.to_bits();
    assert_eq!(fpu.op(FpOp::CvtFmtFmt, FpSize::S, RNE), UF | NX);
    assert_eq!(unbox_bits(fpu.cpu.fregs[4]), 0);
    // Widening a signaling NaN is invalid.
    fpu.cpu.fregs[1] = nan_box(0x7f80_0001);
    assert_eq!(fpu.op(FpOp::CvtFmtFmt, FpSize::D, RNE), NV);
    assert_eq!(fpu.cpu.fregs[4], CANONICAL_NAN_F64);
}

#[test]
fn order_and_classes() {
    let mut fpu = Fpu::new();
    let nan = f64::NAN.to_bits();
    let (one, two) = (1f64.to_bits(), 2f64.to_bits());
    let negative_zero = (-0f64).to_bits();
    assert_eq!(fpu.double(FpOp::Min, one, two, 0, 0).0, one);
    assert_eq!(fpu.double(FpOp::Max, one, two, 0, 0).0, two);
    assert_eq!(fpu.double(FpOp::Min, 0, negative_zero, 0, 0).0, negative_zero);
    assert_eq!(fpu.double(FpOp::Max, 0, negative_zero, 0, 0).0, 0);
    assert_eq!(fpu.double(FpOp::Min, nan, two, 0, 0), (two, 0));
    assert_eq!(fpu.double(FpOp::Max, nan, nan, 0, 0), (CANONICAL_NAN_F64, 0));
    fpu.cpu.fregs[2] = one;
    assert_eq!(fpu.to_int(FpOp::Lt, FpSize::D, negative_zero, 0), (1, 0));
    fpu.cpu.fregs[2] = 0;
    assert_eq!(fpu.to_int(FpOp::Eq, FpSize::D, negative_zero, 0), (1, 0));
    assert_eq!(fpu.to_int(FpOp::Lt, FpSize::D, negative_zero, 0), (0, 0));
    assert_eq!(fpu.to_int(FpOp::Le, FpSize::D, nan, 0), (0, NV));
    assert_eq!(fpu.to_int(FpOp::Eq, FpSize::D, nan, 0), (0, 0));
    let classes = [
        (f64::NEG_INFINITY.to_bits(), 1 << 0),
        ((-1f64).to_bits(), 1 << 1),
        (0x8000_0000_0000_0001, 1 << 2),
        (negative_zero, 1 << 3),
        (0, 1 << 4),
        (1, 1 << 5),
        (one, 1 << 6),
        (f64::INFINITY.to_bits(), 1 << 7),
        (0x7ff0_0000_0000_0001, 1 << 8),
        (CANONICAL_NAN_F64, 1 << 9),
    ];
    for (bits, class) in classes {
        assert_eq!(fpu.to_int(FpOp::Class, FpSize::D, bits, 0), (class, 0), "{bits:x}");
    }
}

#[test]
fn narrowing_overflows_where_rounding_does() {
    let mut fpu = Fpu::new();
    let max = f32::MAX.to_bits();
    let inf = f32::INFINITY.to_bits();
    let halfway = 0x47ef_ffff_f000_0000u64;
    let above_max = 0x47ef_ffff_e000_0001u64;
    let cases = [
        (halfway, RNE, inf, OF | NX),
        (halfway, RMM, inf, OF | NX),
        (halfway, RTZ, max, NX),
        (halfway, RDN, max, NX),
        (halfway, RUP, inf, OF | NX),
        (halfway - 1, RNE, max, NX),
        (halfway - 1, RMM, max, NX),
        (halfway - 1, RUP, inf, OF | NX),
        (above_max, RNE, max, NX),
        (above_max, RUP, inf, OF | NX),
        (0x47f0_0000_0000_0000, RTZ, max, OF | NX),
        (0x47ef_ffff_ffff_ffff, RTZ, max, NX),
    ];
    for (bits, rm, want, flags) in cases {
        fpu.cpu.fregs[1] = bits;
        assert_eq!(fpu.op(FpOp::CvtFmtFmt, FpSize::S, rm), flags, "{bits:x}, rm {rm}");
        assert_eq!(unbox_bits(fpu.cpu.fregs[4]), want, "{bits:x}, rm {rm}");
        // The mirror image, with the directed modes exchanged.
        fpu.cpu.fregs[1] = bits | 1 << 63;
        let mirrored = match rm {
            RUP => RDN,
            RDN => RUP,
            other => other,
        };
        assert_eq!(fpu.op(FpOp::CvtFmtFmt, FpSize::S, mirrored), flags, "-{bits:x}, rm {rm}");
        assert_eq!(unbox_bits(fpu.cpu.fregs[4]), want | 1 << 31, "-{bits:x}, rm {rm}");
    }
}

/// To nearest, a result overflows if and only if it comes out infinite; upward
/// too, where it is positive.
#[test]
fn results_around_the_limit_raise_overflow_exactly() {
    let mut fpu = Fpu::new();
    let mut numbers = Numbers(0x5851_f42d_4c95_7f2d);
    let mut seen = [0u32; 2];
    for _ in 0..20_000 {
        // Two factors whose product lies within a few steps of 2^128.
        let x = 0x5f00_0000 | (numbers.next() as u32 & 0x007f_ffff);
        let partner = (2f64.powi(128) / f32::from_bits(x) as f64) as f32;
        let y = partner.to_bits() + 1 - (numbers.next() % 4) as u32;
        let divisor = (1.0 / f32::from_bits(y) as f64) as f32;
        for (op, b) in [(FpOp::Mul, y), (FpOp::Div, divisor.to_bits())] {
            for rm in [RNE, RMM, RUP] {
                let (bits, flags) = fpu.single(op, x, b, 0, rm);
                let infinite = bits == f32::INFINITY.to_bits();
                assert_eq!(flags & OF != 0, infinite, "{op:?} {x:x} {b:x}, rm {rm}");
                seen[infinite as usize] += 1;
            }
            // Inward, the exact value decides.
            let (bits, flags) = fpu.single(op, x, b, 0, RTZ);
            assert!(bits <= f32::MAX.to_bits());
            if op == FpOp::Mul {
                let exact = f32::from_bits(x) as f64 * f32::from_bits(b) as f64;
                let past = exact >= 2f64.powi(128) && flags & NX != 0;
                assert_eq!(flags & OF != 0, past, "{x:x} * {b:x}");
            }
        }
        let v = 0x5fe0_0000_0000_0000 | (numbers.next() & 0x000f_ffff_ffff_ffff);
        let w = (f64::MAX / f64::from_bits(v)).to_bits() + 2 - numbers.next() % 5;
        for rm in [RNE, RMM, RUP] {
            let (bits, flags) = fpu.double(FpOp::Mul, v, w, 0, rm);
            let infinite = bits == f64::INFINITY.to_bits();
            assert_eq!(flags & OF != 0, infinite, "{v:x} * {w:x}, rm {rm}");
        }
    }
    assert!(seen[0] > 1000 && seen[1] > 1000);
}
