//! Integer arithmetic of the I, M and A extensions.
use vstd::prelude::*;

use super::bitmanip::sext32;
use super::decode::{AluOp, AmoOp, AmoWidth};

verus! {

/// A register read as a two's-complement number.
pub open spec fn s64(a: u64) -> int {
    if a < 0x8000_0000_0000_0000 {
        a as int
    } else {
        a - 0x1_0000_0000_0000_0000
    }
}

/// A word read as a two's-complement number.
pub open spec fn s32(a: u32) -> int {
    if a < 0x8000_0000 {
        a as int
    } else {
        a - 0x1_0000_0000
    }
}

/// The register that holds a number modulo 2^64.
pub open spec fn w64(i: int) -> u64 {
    (i % 0x1_0000_0000_0000_0000) as u64
}

/// The word that holds a number modulo 2^32.
pub open spec fn w32(i: int) -> u32 {
    (i % 0x1_0000_0000) as u32
}

pub open spec fn magnitude(i: int) -> int {
    if i < 0 {
        -i
    } else {
        i
    }
}

/// Division that rounds towards zero.
pub open spec fn quotient(a: int, b: int) -> int {
    let q = magnitude(a) / magnitude(b);
    if (a < 0) != (b < 0) {
        -q
    } else {
        q
    }
}

/// The remainder that goes with it, which has the dividend's sign.
pub open spec fn remainder(a: int, b: int) -> int {
    let r = magnitude(a) % magnitude(b);
    if a < 0 {
        -r
    } else {
        r
    }
}

/// The low 32 bits of a register.
pub open spec fn low(a: u64) -> u32 {
    (a % 0x1_0000_0000) as u32
}

pub open spec fn alu64_value(kind: AluOp, a: u64, b: u64) -> u64 {
    match kind {
        AluOp::Add => a.wrapping_add(b),
        AluOp::Sub => a.wrapping_sub(b),
        AluOp::Sll => a << (b % 64),
        AluOp::Slt => if s64(a) < s64(b) {
            1
        } else {
            0
        },
        AluOp::Sltu => if a < b {
            1
        } else {
            0
        },
        AluOp::Xor => a ^ b,
        AluOp::Srl => a >> (b % 64),
        AluOp::Sra => ((a as i64) >> (b % 64)) as u64,
        AluOp::Or => a | b,
        AluOp::And => a & b,
        AluOp::Mul => w64(a * b),
        AluOp::Mulh => w64(s64(a) * s64(b) / 0x1_0000_0000_0000_0000),
        AluOp::Mulhsu => w64(s64(a) * b / 0x1_0000_0000_0000_0000),
        AluOp::Mulhu => w64(a * b / 0x1_0000_0000_0000_0000),
        AluOp::Div => if b == 0 {
            u64::MAX
        } else {
            w64(quotient(s64(a), s64(b)))
        },
        AluOp::Divu => if b == 0 {
            u64::MAX
        } else {
            a / b
        },
        AluOp::Rem => if b == 0 {
            a
        } else {
            w64(remainder(s64(a), s64(b)))
        },
        AluOp::Remu => if b == 0 {
            a
        } else {
            a % b
        },
    }
}

/// The `*W` forms: computed on the low words, the word sign-extended.
pub open spec fn alu32_value(kind: AluOp, a: u64, b: u64) -> u64 {
    let au = low(a);
    let bu = low(b);
    sext32(
        match kind {
            AluOp::Add => au.wrapping_add(bu),
            AluOp::Sub => au.wrapping_sub(bu),
            AluOp::Sll => au << (b % 32),
            AluOp::Srl => au >> (b % 32),
            AluOp::Sra => ((au as i32) >> (b % 32)) as u32,
            AluOp::Mul => w32(au * bu),
            AluOp::Div => if bu == 0 {
                u32::MAX
            } else {
                w32(quotient(s32(au), s32(bu)))
            },
            AluOp::Divu => if bu == 0 {
                u32::MAX
            } else {
                au / bu
            },
            AluOp::Rem => if bu == 0 {
                au
            } else {
                w32(remainder(s32(au), s32(bu)))
            },
            AluOp::Remu => if bu == 0 {
                au
            } else {
                au % bu
            },
            // Not encodable as *W forms; the 64-bit op truncated.
            _ => low(alu64_value(kind, a, b)),
        },
    )
}

fn negative(a: u64) -> (r: bool)
    ensures
        r == (s64(a) < 0),
{
    a >= 0x8000_0000_0000_0000
}

/// The distance from zero of a signed register.
fn absolute(a: u64) -> (r: u64)
    ensures
        r == magnitude(s64(a)),
{
    if a >= 0x8000_0000_0000_0000 {
        0u64.wrapping_sub(a)
    } else {
        a
    }
}

fn signed_less(a: u64, b: u64) -> (r: bool)
    ensures
        r == (s64(a) < s64(b)),
{
    if negative(a) != negative(b) {
        negative(a)
    } else {
        a < b
    }
}

proof fn lemma_product_bounds(a: int, b: int)
    by (nonlinear_arith)
    requires
        0 <= a <= 0xffff_ffff_ffff_ffff,
        0 <= b <= 0xffff_ffff_ffff_ffff,
    ensures
        0 <= a * b <= 0xffff_ffff_ffff_fffe_0000_0000_0000_0001,
{
}

proof fn lemma_shifted_products(a: int, b: int, m: int)
    by (nonlinear_arith)
    ensures
        (a - m) * b == a * b - m * b,
        a * (b - m) == a * b - m * a,
        (a - m) * (b - m) == a * b - m * b - m * a + m * m,
{
}

/// High half of the unsigned product.
fn high_product(a: u64, b: u64) -> (r: u64)
    ensures
        r == a * b / 0x1_0000_0000_0000_0000,
{
    proof {
        lemma_product_bounds(a as int, b as int);
    }
    ((a as u128 * b as u128) / 0x1_0000_0000_0000_0000) as u64
}

fn low_product(a: u64, b: u64) -> (r: u64)
    ensures
        r == w64(a * b),
{
    proof {
        lemma_product_bounds(a as int, b as int);
    }
    ((a as u128 * b as u128) % 0x1_0000_0000_0000_0000) as u64
}

/// High half of a product whose first factor, and maybe second, is signed.
fn signed_high_product(a: u64, b: u64, second_signed: bool) -> (r: u64)
    ensures
        r == w64(
            s64(a) * (if second_signed {
                s64(b)
            } else {
                b as int
            }) / 0x1_0000_0000_0000_0000,
        ),
{
    let high: u64 = high_product(a, b);
    let first: u64 = if negative(a) {
        b
    } else {
        0
    };
    let second: u64 = if second_signed && negative(b) {
        a
    } else {
        0
    };
    proof {
        let m = 0x1_0000_0000_0000_0000int;
        lemma_product_bounds(a as int, b as int);
        lemma_shifted_products(a as int, b as int, m);
        let p = a * b;
        let both = negative_spec(a) && second_signed && negative_spec(b);
        let product = s64(a) * (if second_signed {
            s64(b)
        } else {
            b as int
        });
        let k = -(first as int) - second + (if both {
            m
        } else {
            0
        });
        assert(product == p + m * k);
        assert(product / m == p / m + k);
        assert(high == p / m);
    }
    high.wrapping_sub(first).wrapping_sub(second)
}

spec fn negative_spec(a: u64) -> bool {
    s64(a) < 0
}

proof fn lemma_magnitudes(a: int, b: int)
    by (nonlinear_arith)
    requires
        a >= 0,
        b > 0,
    ensures
        0 <= a / b <= a,
        0 <= a % b < b,
        a % b <= a,
{
}

fn signed_quotient(a: u64, b: u64) -> (r: u64)
    requires
        b != 0,
    ensures
        r == w64(quotient(s64(a), s64(b))),
{
    let q: u64 = absolute(a) / absolute(b);
    proof {
        lemma_magnitudes(magnitude(s64(a)), magnitude(s64(b)));
    }
    if negative(a) != negative(b) {
        0u64.wrapping_sub(q)
    } else {
        q
    }
}

fn signed_remainder(a: u64, b: u64) -> (r: u64)
    requires
        b != 0,
    ensures
        r == w64(remainder(s64(a), s64(b))),
{
    let m: u64 = absolute(a) % absolute(b);
    proof {
        lemma_magnitudes(magnitude(s64(a)), magnitude(s64(b)));
    }
    if negative(a) {
        0u64.wrapping_sub(m)
    } else {
        m
    }
}

/// 64-bit ALU (I + M). Register-form shift amounts are masked here (& 0x3F);
/// immediate forms already carry a 6-bit shamt, so the mask is a no-op.
pub fn alu64(kind: AluOp, a: u64, b: u64) -> (r: u64)
    ensures
        r == alu64_value(kind, a, b),
{
    match kind {
        AluOp::Add => a.wrapping_add(b),
        AluOp::Sub => a.wrapping_sub(b),
        AluOp::Sll => a << (b % 64),
        AluOp::Slt => if signed_less(a, b) {
            1
        } else {
            0
        },
        AluOp::Sltu => if a < b {
            1
        } else {
            0
        },
        AluOp::Xor => a ^ b,
        AluOp::Srl => a >> (b % 64),
        AluOp::Sra => ((a as i64) >> (b % 64)) as u64,
        AluOp::Or => a | b,
        AluOp::And => a & b,
        AluOp::Mul => low_product(a, b),
        AluOp::Mulh => signed_high_product(a, b, true),
        AluOp::Mulhsu => signed_high_product(a, b, false),
        AluOp::Mulhu => high_product(a, b),
        AluOp::Div => if b == 0 {
            u64::MAX  // quotient all-ones (-1)

        } else {
            signed_quotient(a, b)
        },
        AluOp::Divu => if b == 0 {
            u64::MAX
        } else {
            a / b
        },
        AluOp::Rem => if b == 0 {
            a  // remainder = dividend

        } else {
            signed_remainder(a, b)
        },
        AluOp::Remu => if b == 0 {
            a
        } else {
            a % b
        },
    }
}

/// A register plus a signed immediate.
pub fn offset(base: u64, imm: i64) -> (r: u64)
    ensures
        r == w64(base + imm),
{
    let exact: i128 = base as i128 + imm as i128;
    if exact < 0 {
        (exact + 0x1_0000_0000_0000_0000) as u64
    } else if exact >= 0x1_0000_0000_0000_0000 {
        (exact - 0x1_0000_0000_0000_0000) as u64
    } else {
        exact as u64
    }
}

/// Sign-extend a word.
pub fn extend32(w: u32) -> (r: u64)
    ensures
        r == sext32(w),
{
    proof {
        lemma_sext32(w);
    }
    if w >= 0x8000_0000 {
        w as u64 + 0xffff_ffff_0000_0000
    } else {
        w as u64
    }
}

/// Sign extension keeps the signed value.
pub proof fn lemma_sext32(w: u32)
    ensures
        sext32(w) == (if w < 0x8000_0000 {
            w as int
        } else {
            w + 0xffff_ffff_0000_0000
        }),
        s64(sext32(w)) == s32(w),
{
    lemma_sext32_bits(w);
}

proof fn lemma_sext32_bits(w: u32)
    by (bit_vector)
    ensures
        w < 0x8000_0000 ==> w as i32 as i64 as u64 == w as u64,
        w >= 0x8000_0000u32 ==> w as i32 as i64 as u64 == (w as u64 + 0xffff_ffff_0000_0000u64) as u64,
{
}

fn word_quotient(a: u32, b: u32) -> (r: u32)
    requires
        b != 0,
    ensures
        r == w32(quotient(s32(a), s32(b))),
{
    let na = a >= 0x8000_0000;
    let nb = b >= 0x8000_0000;
    let ma: u32 = if na {
        0u32.wrapping_sub(a)
    } else {
        a
    };
    let mb: u32 = if nb {
        0u32.wrapping_sub(b)
    } else {
        b
    };
    proof {
        lemma_magnitudes(ma as int, mb as int);
    }
    let q: u32 = ma / mb;
    if na != nb {
        0u32.wrapping_sub(q)
    } else {
        q
    }
}

fn word_remainder(a: u32, b: u32) -> (r: u32)
    requires
        b != 0,
    ensures
        r == w32(remainder(s32(a), s32(b))),
{
    let ma: u32 = if a >= 0x8000_0000 {
        0u32.wrapping_sub(a)
    } else {
        a
    };
    let mb: u32 = if b >= 0x8000_0000 {
        0u32.wrapping_sub(b)
    } else {
        b
    };
    proof {
        lemma_magnitudes(ma as int, mb as int);
    }
    let m: u32 = ma % mb;
    if a >= 0x8000_0000 {
        0u32.wrapping_sub(m)
    } else {
        m
    }
}

proof fn lemma_word_product(a: int, b: int)
    by (nonlinear_arith)
    requires
        0 <= a <= 0xffff_ffff,
        0 <= b <= 0xffff_ffff,
    ensures
        0 <= a * b <= 0xffff_fffe_0000_0001,
{
}

/// 32-bit (`*W`) ALU: compute on the low 32 bits, sign-extend the 32-bit
/// result to 64. Shift amounts are masked to 5 bits.
pub fn alu32(kind: AluOp, a: u64, b: u64) -> (r: u64)
    ensures
        r == alu32_value(kind, a, b),
{
    let au: u32 = (a % 0x1_0000_0000) as u32;
    let bu: u32 = (b % 0x1_0000_0000) as u32;
    let res: u32 = match kind {
        AluOp::Add => au.wrapping_add(bu),
        AluOp::Sub => au.wrapping_sub(bu),
        AluOp::Sll => au << (b % 32),
        AluOp::Srl => au >> (b % 32),
        AluOp::Sra => ((au as i32) >> (b % 32)) as u32,
        AluOp::Mul => {
            proof {
                lemma_word_product(au as int, bu as int);
            }
            (au as u64 * bu as u64 % 0x1_0000_0000) as u32
        },
        AluOp::Div => if bu == 0 {
            u32::MAX
        } else {
            word_quotient(au, bu)
        },
        AluOp::Divu => if bu == 0 {
            u32::MAX
        } else {
            au / bu
        },
        AluOp::Rem => if bu == 0 {
            au
        } else {
            word_remainder(au, bu)
        },
        AluOp::Remu => if bu == 0 {
            au
        } else {
            au % bu
        },
        // Not encodable as *W forms; fall back to the 64-bit op truncated.
        _ => (alu64(kind, a, b) % 0x1_0000_0000) as u32,
    };
    extend32(res)
}

/// Bytes an atomic accesses.
pub open spec fn amo_bytes(width: AmoWidth) -> u8 {
    match width {
        AmoWidth::W => 4,
        AmoWidth::D => 8,
    }
}

pub fn amo_size(width: AmoWidth) -> (r: u8)
    ensures
        r == amo_bytes(width),
{
    match width {
        AmoWidth::W => 4,
        AmoWidth::D => 8,
    }
}

/// The value an AMO leaves in memory.
pub open spec fn amo_value(op: AmoOp, width: AmoWidth, old_value: u64, src: u64) -> u64 {
    match width {
        AmoWidth::D => match op {
            AmoOp::Swap => src,
            AmoOp::Add => old_value.wrapping_add(src),
            AmoOp::Xor => old_value ^ src,
            AmoOp::And => old_value & src,
            AmoOp::Or => old_value | src,
            AmoOp::Min => if s64(src) < s64(old_value) {
                src
            } else {
                old_value
            },
            AmoOp::Max => if s64(old_value) < s64(src) {
                src
            } else {
                old_value
            },
            AmoOp::Minu => if src < old_value {
                src
            } else {
                old_value
            },
            AmoOp::Maxu => if old_value < src {
                src
            } else {
                old_value
            },
        },
        AmoWidth::W => {
            let a = low(old_value);
            let b = low(src);
            (match op {
                AmoOp::Swap => b,
                AmoOp::Add => a.wrapping_add(b),
                AmoOp::Xor => a ^ b,
                AmoOp::And => a & b,
                AmoOp::Or => a | b,
                AmoOp::Min => if s32(b) < s32(a) {
                    b
                } else {
                    a
                },
                AmoOp::Max => if s32(a) < s32(b) {
                    b
                } else {
                    a
                },
                AmoOp::Minu => if b < a {
                    b
                } else {
                    a
                },
                AmoOp::Maxu => if a < b {
                    b
                } else {
                    a
                },
            }) as u64
        },
    }
}

fn signed_less32(a: u32, b: u32) -> (r: bool)
    ensures
        r == (s32(a) < s32(b)),
{
    let na = a >= 0x8000_0000;
    let nb = b >= 0x8000_0000;
    if na != nb {
        na
    } else {
        a < b
    }
}

/// Compute the new memory value for an AMO. `old_value` and `src` are the raw
/// operand values at the operation width (low bits significant for W).
pub fn amo_result(op: AmoOp, width: AmoWidth, old_value: u64, src: u64) -> (r: u64)
    ensures
        r == amo_value(op, width, old_value, src),
{
    match width {
        AmoWidth::D => match op {
            AmoOp::Swap => src,
            AmoOp::Add => old_value.wrapping_add(src),
            AmoOp::Xor => old_value ^ src,
            AmoOp::And => old_value & src,
            AmoOp::Or => old_value | src,
            AmoOp::Min => if signed_less(src, old_value) {
                src
            } else {
                old_value
            },
            AmoOp::Max => if signed_less(old_value, src) {
                src
            } else {
                old_value
            },
            AmoOp::Minu => if src < old_value {
                src
            } else {
                old_value
            },
            AmoOp::Maxu => if old_value < src {
                src
            } else {
                old_value
            },
        },
        AmoWidth::W => {
            let a: u32 = (old_value % 0x1_0000_0000) as u32;
            let b: u32 = (src % 0x1_0000_0000) as u32;
            let r: u32 = match op {
                AmoOp::Swap => b,
                AmoOp::Add => a.wrapping_add(b),
                AmoOp::Xor => a ^ b,
                AmoOp::And => a & b,
                AmoOp::Or => a | b,
                AmoOp::Min => if signed_less32(b, a) {
                    b
                } else {
                    a
                },
                AmoOp::Max => if signed_less32(a, b) {
                    b
                } else {
                    a
                },
                AmoOp::Minu => if b < a {
                    b
                } else {
                    a
                },
                AmoOp::Maxu => if a < b {
                    b
                } else {
                    a
                },
            };
            r as u64
        },
    }
}

/// Quotient and remainder put the dividend together again, except where the
/// divisor is zero.
pub proof fn law_division_recomposes(a: u64, b: u64)
    requires
        b != 0,
    ensures
        alu64_value(AluOp::Divu, a, b) * b + alu64_value(AluOp::Remu, a, b) == a,
        quotient(s64(a), s64(b)) * s64(b) + remainder(s64(a), s64(b)) == s64(a),
{
    vstd::arithmetic::div_mod::lemma_fundamental_div_mod(a as int, b as int);
    let x = magnitude(s64(a));
    let y = magnitude(s64(b));
    vstd::arithmetic::div_mod::lemma_fundamental_div_mod(x, y);
    let q = x / y;
    assert(y * q == q * y) by (nonlinear_arith);
    assert((-q) * (-y) == q * y && (-q) * y == -(q * y) && q * (-y) == -(q * y))
        by (nonlinear_arith);
    assert(b * (a as int / b as int) == (a as int / b as int) * b) by (nonlinear_arith);
}

/// Division by zero gives all ones and the dividend; the one signed overflow
/// gives the dividend and zero.
pub proof fn law_division_edge_cases(a: u64)
    ensures
        alu64_value(AluOp::Div, a, 0) == u64::MAX,
        alu64_value(AluOp::Divu, a, 0) == u64::MAX,
        alu64_value(AluOp::Rem, a, 0) == a,
        alu64_value(AluOp::Remu, a, 0) == a,
        alu64_value(AluOp::Div, 0x8000_0000_0000_0000, u64::MAX) == 0x8000_0000_0000_0000,
        alu64_value(AluOp::Rem, 0x8000_0000_0000_0000, u64::MAX) == 0,
{
}

/// The high and low halves make up the whole product, signed and unsigned.
#[verifier::spinoff_prover]
#[verifier::rlimit(40)]
pub proof fn law_product_halves(a: u64, b: u64)
    ensures
        alu64_value(AluOp::Mulhu, a, b) * 0x1_0000_0000_0000_0000 + alu64_value(AluOp::Mul, a, b)
            == a * b,
        s64(alu64_value(AluOp::Mulh, a, b)) * 0x1_0000_0000_0000_0000 + alu64_value(
            AluOp::Mul,
            a,
            b,
        ) == s64(a) * s64(b),
{
    let m = 0x1_0000_0000_0000_0000int;
    let p = a * b;
    lemma_product_bounds(a as int, b as int);
    lemma_shifted_products(a as int, b as int, m);
    let s = s64(a) * s64(b);
    let k = (if s64(a) < 0 {
        -(b as int)
    } else {
        0
    }) + (if s64(b) < 0 {
        -(a as int)
    } else {
        0
    }) + (if s64(a) < 0 && s64(b) < 0 {
        m
    } else {
        0
    });
    assert(s == p + m * k);
    assert(s % m == p % m) by {
        vstd::arithmetic::div_mod::lemma_mod_multiples_vanish(k, p, m);
    }
    lemma_signed_product_bounds(s64(a), s64(b));
    lemma_signed_halves(s);
}

/// A signed product is its high half, read as signed, above its low half.
proof fn lemma_signed_halves(s: int)
    requires
        -0x4000_0000_0000_0000_0000_0000_0000_0000 <= s
            <= 0x4000_0000_0000_0000_0000_0000_0000_0000,
    ensures
        s64(w64(s / 0x1_0000_0000_0000_0000)) * 0x1_0000_0000_0000_0000 + s
            % 0x1_0000_0000_0000_0000 == s,
{
    assert(-0x8000_0000_0000_0000 <= s / 0x1_0000_0000_0000_0000 < 0x8000_0000_0000_0000);
}

proof fn lemma_signed_product_bounds(a: int, b: int)
    by (nonlinear_arith)
    requires
        -0x8000_0000_0000_0000 <= a <= 0x7fff_ffff_ffff_ffff,
        -0x8000_0000_0000_0000 <= b <= 0x7fff_ffff_ffff_ffff,
    ensures
        -0x4000_0000_0000_0000_0000_0000_0000_0000 <= a * b
            <= 0x4000_0000_0000_0000_0000_0000_0000_0000,
{
}

/// One more place of a shift doubles or halves, and no place changes nothing.
proof fn lemma_shift_step(a: u64, s: u64, b: u64)
    by (bit_vector)
    requires
        s < 63,
    ensures
        a << 0u64 == a,
        a >> 0u64 == a,
        ((a as i64) >> 0u64) as u64 == a,
        a << s >= 0x8000_0000_0000_0000u64 ==> a << ((s + 1) as u64) == (((a << s)
            - 0x8000_0000_0000_0000u64) * 2) as u64,
        a << s < 0x8000_0000_0000_0000u64 ==> a << ((s + 1) as u64) == ((a << s) * 2) as u64,
        a >> ((s + 1) as u64) == (a >> s) / 2,
        ((a as i64) >> s) as u64 >= 0x8000_0000_0000_0000u64 ==> ((a as i64) >> ((s
            + 1) as u64)) as u64 == (((a as i64) >> s) as u64 / 2 + 0x8000_0000_0000_0000u64) as u64,
        ((a as i64) >> s) as u64 <= 0x7fff_ffff_ffff_ffffu64 ==> ((a as i64) >> ((s
            + 1) as u64)) as u64 == ((a as i64) >> s) as u64 / 2,
        ((a & b) >> s) & 1 == ((a >> s) & 1) & ((b >> s) & 1),
        ((a | b) >> s) & 1 == ((a >> s) & 1) | ((b >> s) & 1),
        ((a ^ b) >> s) & 1 == ((a >> s) & 1) ^ ((b >> s) & 1),
        (a & b) as u128 + (a | b) as u128 == a as u128 + b as u128,
        a ^ b == ((a | b) - (a & b)) as u64,
        a & b <= a | b,
        a & b <= a,
        a & b <= b,
{
}

/// A register read as signed differs from it by a whole 2^64, and lies
/// between -2^63 and 2^63.
pub proof fn law_signed_reading(a: u64)
    ensures
        -0x8000_0000_0000_0000 <= s64(a) < 0x8000_0000_0000_0000,
        s64(a) == a || s64(a) + 0x1_0000_0000_0000_0000 == a,
{
}

/// Sums and differences are exact but for a whole 2^64.
pub proof fn law_add_and_sub(a: u64, b: u64)
    ensures
        ({
            let sum = alu64_value(AluOp::Add, a, b);
            let difference = alu64_value(AluOp::Sub, a, b);
            &&& sum == a + b || sum + 0x1_0000_0000_0000_0000 == a + b
            &&& difference == a - b || difference == a - b + 0x1_0000_0000_0000_0000
            &&& alu64_value(AluOp::Sub, sum, b) == a
        }),
{
}

/// Every further place of a left shift doubles modulo 2^64, of a logical right
/// shift halves, and of an arithmetic one halves the signed value, rounding
/// down. Only the low six bits of the amount count.
pub proof fn law_shifts(a: u64, n: u64)
    requires
        n % 64 < 63,
    ensures
        alu64_value(AluOp::Sll, a, 0) == a,
        alu64_value(AluOp::Srl, a, 0) == a,
        alu64_value(AluOp::Sra, a, 0) == a,
        alu64_value(AluOp::Sll, a, ((n % 64) + 1) as u64) == alu64_value(AluOp::Sll, a, n) * 2
            % 0x1_0000_0000_0000_0000,
        alu64_value(AluOp::Srl, a, ((n % 64) + 1) as u64) == alu64_value(AluOp::Srl, a, n) / 2,
        s64(alu64_value(AluOp::Sra, a, ((n % 64) + 1) as u64)) == s64(
            alu64_value(AluOp::Sra, a, n),
        ) / 2,
{
    lemma_shift_step(a, n % 64, 0);
}

/// Bit by bit: `and` where both are set, `or` where one is, `xor` where they
/// differ. Numerically, `and` and `or` share out the sum, and `xor` is what
/// `or` has beyond `and`.
pub proof fn law_bitwise(a: u64, b: u64, i: u64)
    requires
        i < 63,
    ensures
        (alu64_value(AluOp::And, a, b) >> i) & 1 == ((a >> i) & 1) & ((b >> i) & 1),
        (alu64_value(AluOp::Or, a, b) >> i) & 1 == ((a >> i) & 1) | ((b >> i) & 1),
        (alu64_value(AluOp::Xor, a, b) >> i) & 1 == ((a >> i) & 1) ^ ((b >> i) & 1),
        alu64_value(AluOp::And, a, b) + alu64_value(AluOp::Or, a, b) == a + b,
        alu64_value(AluOp::Xor, a, b) == alu64_value(AluOp::Or, a, b) - alu64_value(
            AluOp::And,
            a,
            b,
        ),
        alu64_value(AluOp::And, a, b) <= a,
        alu64_value(AluOp::And, a, b) <= b,
{
    lemma_shift_step(a, i, b);
}

/// `slt` orders signed values and `sltu` unsigned ones; biasing both operands
/// by 2^63 turns one into the other.
pub proof fn law_set_less(a: u64, b: u64)
    ensures
        alu64_value(AluOp::Sltu, a, b) == if a < b {
            1u64
        } else {
            0
        },
        alu64_value(AluOp::Slt, a, b) == alu64_value(
            AluOp::Sltu,
            a.wrapping_add(0x8000_0000_0000_0000),
            b.wrapping_add(0x8000_0000_0000_0000),
        ),
{
}

/// The word forms leave a sign-extended word that is determined by the low
/// words: the low word of the wide result for sums, differences, products and
/// left shifts, and the wide operation on extended operands for the others.
#[verifier::spinoff_prover]
#[verifier::rlimit(60)]
pub proof fn law_word_forms(a: u64, b: u64)
    ensures
        forall|kind: AluOp|
            (#[trigger] alu32_value(kind, a, b)) < 0x8000_0000 || alu32_value(kind, a, b)
                >= 0xffff_ffff_8000_0000,
        alu32_value(AluOp::Add, a, b) % 0x1_0000_0000 == (a + b) % 0x1_0000_0000,
        (alu32_value(AluOp::Sub, a, b) + b) % 0x1_0000_0000 == a % 0x1_0000_0000,
        alu32_value(AluOp::Sll, a, b) % 0x1_0000_0000 == alu64_value(
            AluOp::Sll,
            a,
            b % 32,
        ) % 0x1_0000_0000,
        alu32_value(AluOp::Srl, a, b) % 0x1_0000_0000 == alu64_value(
            AluOp::Srl,
            a % 0x1_0000_0000,
            b % 32,
        ),
        alu32_value(AluOp::Sra, a, b) == alu64_value(
            AluOp::Sra,
            sext32((a % 0x1_0000_0000) as u32),
            b % 32,
        ),
        alu32_value(AluOp::Mul, a, b) % 0x1_0000_0000 == (a % 0x1_0000_0000) * (b % 0x1_0000_0000)
            % 0x1_0000_0000,
        alu32_value(AluOp::Divu, a, b) % 0x1_0000_0000 == alu64_value(
            AluOp::Divu,
            a % 0x1_0000_0000,
            b % 0x1_0000_0000,
        ) % 0x1_0000_0000,
        alu32_value(AluOp::Remu, a, b) % 0x1_0000_0000 == alu64_value(
            AluOp::Remu,
            a % 0x1_0000_0000,
            b % 0x1_0000_0000,
        ),
{
    assert forall|kind: AluOp|
        (#[trigger] alu32_value(kind, a, b)) < 0x8000_0000 || alu32_value(kind, a, b)
            >= 0xffff_ffff_8000_0000 by {
        lemma_word_result(kind, a, b);
    }
    lemma_word_result(AluOp::Add, a, b);
    lemma_word_result(AluOp::Sub, a, b);
    lemma_word_result(AluOp::Sll, a, b);
    lemma_word_result(AluOp::Srl, a, b);
    lemma_word_result(AluOp::Mul, a, b);
    lemma_word_result(AluOp::Divu, a, b);
    lemma_word_result(AluOp::Remu, a, b);
    lemma_word_logic((a % 0x1_0000_0000) as u32, 0, b % 32);
    lemma_low_shift(a, b % 32);
    assert(b % 32 % 64 == b % 32);
}

/// A word form is the sign extension of some word.
proof fn lemma_word_result(kind: AluOp, a: u64, b: u64)
    ensures
        alu32_value(kind, a, b) == sext32(low(alu32_value(kind, a, b))),
        alu32_value(kind, a, b) < 0x8000_0000 || alu32_value(kind, a, b) >= 0xffff_ffff_8000_0000,
        forall|w: u32| #[trigger] low(sext32(w)) == w,
{
    assert forall|w: u32|
        low(#[trigger] sext32(w)) == w && (sext32(w) < 0x8000_0000 || sext32(w)
            >= 0xffff_ffff_8000_0000) by {
        lemma_sext32(w);
    }
}

/// Signed division and remainder: together they make up the dividend, the
/// remainder is smaller than the divisor and has the dividend's sign. The one
/// overflow aside.
#[verifier::spinoff_prover]
#[verifier::rlimit(60)]
pub proof fn law_signed_division(a: u64, b: u64)
    requires
        b != 0,
        !(a == 0x8000_0000_0000_0000 && b == u64::MAX),
    ensures
        s64(alu64_value(AluOp::Div, a, b)) * s64(b) + s64(alu64_value(AluOp::Rem, a, b)) == s64(a),
        magnitude(s64(alu64_value(AluOp::Rem, a, b))) < magnitude(s64(b)),
        s64(alu64_value(AluOp::Rem, a, b)) != 0 ==> (s64(alu64_value(AluOp::Rem, a, b)) < 0) == (
        s64(a) < 0),
{
    law_division_recomposes(a, b);
    let x = magnitude(s64(a));
    let y = magnitude(s64(b));
    lemma_magnitudes(x, y);
    if y > 1 {
        assert(x / y <= x / 2) by (nonlinear_arith)
            requires
                x >= 0,
                y >= 2,
        ;
    } else {
        assert(x / 1 == x);
    }
    assert(s64(w64(quotient(s64(a), s64(b)))) == quotient(s64(a), s64(b)));
    assert(s64(w64(remainder(s64(a), s64(b)))) == remainder(s64(a), s64(b)));
}

/// The same of the word forms, whose zero divisor gives all ones and the
/// dividend.
#[verifier::spinoff_prover]
#[verifier::rlimit(60)]
pub proof fn law_signed_word_division(a: u64, b: u64)
    ensures
        ({
            let x = s64(sext32((a % 0x1_0000_0000) as u32));
            let y = s64(sext32((b % 0x1_0000_0000) as u32));
            let q = s64(alu32_value(AluOp::Div, a, b));
            let m = s64(alu32_value(AluOp::Rem, a, b));
            &&& y == 0 ==> q == -1 && m == x
            &&& y == 0 ==> alu32_value(AluOp::Divu, a, b) == u64::MAX && alu32_value(
                AluOp::Remu,
                a,
                b,
            ) == sext32((a % 0x1_0000_0000) as u32)
            &&& y == -1 && x == -0x8000_0000 ==> q == x && m == 0
            &&& y != 0 && !(y == -1 && x == -0x8000_0000) ==> q * y + m == x && magnitude(m)
                < magnitude(y) && (m != 0 ==> (m < 0) == (x < 0))
        }),
{
    let au = low(a);
    let bu = low(b);
    lemma_sext32(au);
    lemma_sext32(bu);
    lemma_sext32(u32::MAX);
    let x = s32(au);
    let y = s32(bu);
    if y != 0 {
        let q = quotient(x, y);
        let m = remainder(x, y);
        lemma_sext32(w32(q));
        lemma_sext32(w32(m));
        let mx = magnitude(x);
        let my = magnitude(y);
        lemma_magnitudes(mx, my);
        vstd::arithmetic::div_mod::lemma_fundamental_div_mod(mx, my);
        let k = mx / my;
        assert(my * k == k * my) by (nonlinear_arith);
        assert((-k) * (-my) == k * my && (-k) * my == -(k * my) && k * (-my) == -(k * my))
            by (nonlinear_arith);
        if my > 1 {
            assert(mx / my <= mx / 2) by (nonlinear_arith)
                requires
                    mx >= 0,
                    my >= 2,
            ;
        } else {
            assert(mx / 1 == mx);
        }
    }
}

/// The high half of a signed by an unsigned factor, above the low half, is the
/// whole product.
#[verifier::spinoff_prover]
#[verifier::rlimit(40)]
pub proof fn law_mixed_product_halves(a: u64, b: u64)
    ensures
        s64(alu64_value(AluOp::Mulhsu, a, b)) * 0x1_0000_0000_0000_0000 + alu64_value(
            AluOp::Mul,
            a,
            b,
        ) == s64(a) * b,
{
    let m = 0x1_0000_0000_0000_0000int;
    let p = a * b;
    lemma_product_bounds(a as int, b as int);
    lemma_shifted_products(a as int, b as int, m);
    let s = s64(a) * b;
    let k = if s64(a) < 0 {
        -(b as int)
    } else {
        0
    };
    assert(s == p + m * k);
    assert(s % m == p % m) by {
        vstd::arithmetic::div_mod::lemma_mod_multiples_vanish(k, p, m);
    }
    lemma_mixed_product_bounds(s64(a), b as int);
    assert(-0x8000_0000_0000_0000 <= s / m < 0x8000_0000_0000_0000);
}

proof fn lemma_mixed_product_bounds(a: int, b: int)
    by (nonlinear_arith)
    requires
        -0x8000_0000_0000_0000 <= a <= 0x7fff_ffff_ffff_ffff,
        0 <= b <= 0xffff_ffff_ffff_ffff,
    ensures
        -0x8000_0000_0000_0000_0000_0000_0000_0000 <= a * b
            < 0x8000_0000_0000_0000_0000_0000_0000_0000,
{
}

/// What an atomic leaves in a doubleword: the source, the sum, the bitwise
/// results, or whichever of the two values comes first or last in its order.
pub proof fn law_atomic_doublewords(v: u64, src: u64)
    ensures
        amo_value(AmoOp::Swap, AmoWidth::D, v, src) == src,
        amo_value(AmoOp::Add, AmoWidth::D, v, src) == (v + src) % 0x1_0000_0000_0000_0000,
        amo_value(AmoOp::And, AmoWidth::D, v, src) == alu64_value(AluOp::And, v, src),
        amo_value(AmoOp::Or, AmoWidth::D, v, src) == alu64_value(AluOp::Or, v, src),
        amo_value(AmoOp::Xor, AmoWidth::D, v, src) == alu64_value(AluOp::Xor, v, src),
        ({
            let (lo, hi) = (
                amo_value(AmoOp::Minu, AmoWidth::D, v, src),
                amo_value(AmoOp::Maxu, AmoWidth::D, v, src),
            );
            lo <= hi && lo + hi == v + src && (lo == v || lo == src)
        }),
        ({
            let (lo, hi) = (
                amo_value(AmoOp::Min, AmoWidth::D, v, src),
                amo_value(AmoOp::Max, AmoWidth::D, v, src),
            );
            s64(lo) <= s64(hi) && lo + hi == v + src && (lo == v || lo == src)
        }),
{
}

/// What an atomic leaves in a word goes by the low words alone.
pub proof fn law_atomic_words(v: u64, src: u64)
    ensures
        ({
            let x = v % 0x1_0000_0000;
            let y = src % 0x1_0000_0000;
            let (lo, hi) = (
                amo_value(AmoOp::Minu, AmoWidth::W, v, src),
                amo_value(AmoOp::Maxu, AmoWidth::W, v, src),
            );
            let (least, most) = (
                amo_value(AmoOp::Min, AmoWidth::W, v, src),
                amo_value(AmoOp::Max, AmoWidth::W, v, src),
            );
            &&& amo_value(AmoOp::Swap, AmoWidth::W, v, src) == y
            &&& amo_value(AmoOp::Add, AmoWidth::W, v, src) == (x + y) % 0x1_0000_0000
            &&& lo <= hi && lo + hi == x + y && (lo == x || lo == y)
            &&& s32(least as u32) <= s32(most as u32) && least + most == x + y && (least == x
                || least == y)
        }),
        amo_value(AmoOp::And, AmoWidth::W, v, src) == alu64_value(
            AluOp::And,
            v % 0x1_0000_0000,
            src % 0x1_0000_0000,
        ),
        amo_value(AmoOp::Or, AmoWidth::W, v, src) == alu64_value(
            AluOp::Or,
            v % 0x1_0000_0000,
            src % 0x1_0000_0000,
        ),
        amo_value(AmoOp::Xor, AmoWidth::W, v, src) == alu64_value(
            AluOp::Xor,
            v % 0x1_0000_0000,
            src % 0x1_0000_0000,
        ),
{
    lemma_word_logic((v % 0x1_0000_0000) as u32, (src % 0x1_0000_0000) as u32, 0);
}

proof fn lemma_word_logic(a: u32, b: u32, s: u64)
    by (bit_vector)
    requires
        s < 32,
    ensures
        (a & b) as u64 == a as u64 & b as u64,
        (a | b) as u64 == a as u64 | b as u64,
        (a ^ b) as u64 == a as u64 ^ b as u64,
        (a << s) as u64 == ((a as u64) << s) % 0x1_0000_0000u64,
        (a >> s) as u64 == (a as u64) >> s,
        ((a as i32) >> s) as u32 as i32 as u64 == ((a as i32 as u64 as i64) >> s) as u64,
{
}

/// A left shift loses nothing that the low word would have kept.
proof fn lemma_low_shift(a: u64, s: u64)
    by (bit_vector)
    requires
        s < 32,
    ensures
        (a << s) % 0x1_0000_0000u64 == ((a % 0x1_0000_0000u64) << s) % 0x1_0000_0000u64,
{
}

} // verus!
