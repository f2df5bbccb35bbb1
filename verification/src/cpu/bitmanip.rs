//! Zbb / Zbc / Zbkb / Zknd / Zkne / Zknh semantics.
//!
//! The decoder ([`super::decode`]) turns the OP / OP-32 / OP-IMM / OP-IMM-32
//! encodings that these extensions share with the base ISA into [`BitOp`],
//! [`BitUnaryOp`] and [`BitImmOp`]; this module is the pure arithmetic behind
//! them. Every result is the full 64-bit value written to `rd` (the `*W` forms
//! sign-extend from bit 31 here).

use vstd::prelude::*;
use vstd::std_specs::bits::{
    axiom_u64_trailing_zeros, u32_leading_zeros, u32_trailing_zeros, u64_leading_zeros,
    u64_trailing_zeros,
};

verus! {

/// Register-register forms living under the OP (0x33) and OP-32 (0x3b) opcodes.
#[derive(Debug, Clone, Copy, PartialEq, Eq, Structural)]
pub enum BitOp {
    // Zbb / Zbkb logic-with-negate
    Andn,
    Orn,
    Xnor,
    // Zbb min/max
    Max,
    Maxu,
    Min,
    Minu,
    // Zbb / Zbkb rotates
    Rol,
    Ror,
    Rolw,
    Rorw,
    // Zbkb packing (`zext.h` decodes as `packw rd, rs1, x0`)
    Pack,
    Packh,
    Packw,
    // Zbc carry-less multiply
    Clmul,
    Clmulh,
    Clmulr,
    // Zkne / Zknd
    Aes64es,
    Aes64esm,
    Aes64ds,
    Aes64dsm,
    Aes64ks2,
}

/// Unary forms: OP-IMM / OP-IMM-32 encodings with a fixed 12-bit `funct12`.
#[derive(Debug, Clone, Copy, PartialEq, Eq, Structural)]
pub enum BitUnaryOp {
    // Zbb counting / extension / permutation
    Clz,
    Ctz,
    Cpop,
    Clzw,
    Ctzw,
    Cpopw,
    SextB,
    SextH,
    OrcB,
    Rev8,
    // Zbkb
    Brev8,
    // Zknd
    Aes64im,
    // Zknh
    Sha256sig0,
    Sha256sig1,
    Sha256sum0,
    Sha256sum1,
    Sha512sig0,
    Sha512sig1,
    Sha512sum0,
    Sha512sum1,
}

/// OP-IMM forms carrying a small immediate: a shift amount, or an AES round
/// number.
#[derive(Debug, Clone, Copy, PartialEq, Eq, Structural)]
pub enum BitImmOp {
    /// 6-bit shamt.
    Rori,
    /// 5-bit shamt, result sign-extended from bit 31.
    Roriw,
    /// 4-bit `rnum`, restricted to 0..=10 by the decoder.
    Aes64ks1i,
}

// ---------------------------------------------------------------------------
// Words and bytes
// ---------------------------------------------------------------------------

/// Byte `i` of a 64-bit word, least significant first.
pub open spec fn byte_of(x: u64, i: u32) -> u8 {
    (x >> ((8 * i) as u32)) as u8
}

/// The 32-bit word with the given bytes, least significant first.
pub open spec fn word32(b0: u8, b1: u8, b2: u8, b3: u8) -> u32 {
    (b0 as u32) | ((b1 as u32) << 8) | ((b2 as u32) << 16) | ((b3 as u32) << 24)
}

/// The 64-bit word with the given low and high halves.
pub open spec fn join(lo: u32, hi: u32) -> u64 {
    (lo as u64) | ((hi as u64) << 32)
}

/// The 64-bit word with the given bytes, least significant first.
pub open spec fn word64(b: (u8, u8, u8, u8, u8, u8, u8, u8)) -> u64 {
    join(word32(b.0, b.1, b.2, b.3), word32(b.4, b.5, b.6, b.7))
}

fn getbyte(x: u64, i: u32) -> (r: u8)
    requires
        i < 8,
    ensures
        r == byte_of(x, i),
{
    (x >> (8 * i)) as u8
}

fn pack32(b0: u8, b1: u8, b2: u8, b3: u8) -> (r: u32)
    ensures
        r == word32(b0, b1, b2, b3),
{
    (b0 as u32) | ((b1 as u32) << 8) | ((b2 as u32) << 16) | ((b3 as u32) << 24)
}

fn join_halves(lo: u32, hi: u32) -> (r: u64)
    ensures
        r == join(lo, hi),
{
    (lo as u64) | ((hi as u64) << 32)
}

/// Rotate right by `n` bit positions.
pub open spec fn ror64(x: u64, n: u32) -> u64 {
    if n == 0 {
        x
    } else {
        (x >> n) | (x << ((64 - n) as u32))
    }
}

/// Rotate right by `n` bit positions.
pub open spec fn ror32(x: u32, n: u32) -> u32 {
    if n == 0 {
        x
    } else {
        (x >> n) | (x << ((32 - n) as u32))
    }
}

fn rotate_right64(x: u64, n: u32) -> (r: u64)
    requires
        n < 64,
    ensures
        r == ror64(x, n),
{
    if n == 0 {
        x
    } else {
        (x >> n) | (x << (64 - n))
    }
}

fn rotate_right32(x: u32, n: u32) -> (r: u32)
    requires
        n < 32,
    ensures
        r == ror32(x, n),
{
    if n == 0 {
        x
    } else {
        (x >> n) | (x << (32 - n))
    }
}

/// A 32-bit result as an RV64 register holds it.
pub open spec fn sext32(x: u32) -> u64 {
    x as i32 as u64
}

/// Number of one bits.
pub open spec fn ones(x: u64) -> nat
    decreases x,
{
    if x == 0 {
        0
    } else {
        (x % 2) as nat + ones(x / 2)
    }
}

fn count_ones(x: u64) -> (r: u64)
    ensures
        r == ones(x),
        r <= 64,
{
    let mut rest: u64 = x;
    let mut n: u64 = 0;
    let mut i: u32 = 0;
    proof {
        lemma_shift_one(x, 0);
    }
    while i < 64
        invariant
            i <= 64,
            n <= i,
            rest == x >> i,
            n + ones(rest) == ones(x),
        decreases 64 - i,
    {
        proof {
            lemma_shift_one(x, i);
        }
        n = n + (rest & 1);
        rest = rest >> 1;
        i = i + 1;
    }
    proof {
        lemma_shift_one(x, 63);
    }
    n
}

proof fn lemma_shift_one(x: u64, i: u32)
    by (bit_vector)
    requires
        i < 64,
    ensures
        (x >> i) & 1 == (x >> i) % 2,
        (x >> i) >> 1 == (x >> i) / 2,
        (x >> i) >> 1 == x >> ((i + 1) as u32),
        x >> 64u32 == 0,
        x >> 0u32 == x,
        (0u64 >> i) & 1 == 0,
{
}

// ---------------------------------------------------------------------------
// Dispatch
// ---------------------------------------------------------------------------

/// What each register-register form computes.
pub open spec fn bit_rr_value(kind: BitOp, a: u64, b: u64) -> u64 {
    match kind {
        BitOp::Andn => a & !b,
        BitOp::Orn => a | !b,
        BitOp::Xnor => !(a ^ b),
        BitOp::Max => if (a as i64) < (b as i64) {
            b
        } else {
            a
        },
        BitOp::Maxu => if a < b {
            b
        } else {
            a
        },
        BitOp::Min => if (a as i64) < (b as i64) {
            a
        } else {
            b
        },
        BitOp::Minu => if a < b {
            a
        } else {
            b
        },
        // Left by n is right by the complement of n.
        BitOp::Rol => ror64(a, (64 - b % 64) as u32 % 64),
        BitOp::Ror => ror64(a, (b % 64) as u32),
        BitOp::Rolw => sext32(ror32(a as u32, (32 - b % 32) as u32 % 32)),
        BitOp::Rorw => sext32(ror32(a as u32, (b % 32) as u32)),
        BitOp::Pack => join(a as u32, b as u32),
        BitOp::Packh => word64((a as u8, b as u8, 0, 0, 0, 0, 0, 0)),
        BitOp::Packw => sext32((a as u16 as u32) | ((b as u16 as u32) << 16)),
        BitOp::Clmul => clmul_product(a, b) as u64,
        BitOp::Clmulh => (clmul_product(a, b) >> 64) as u64,
        BitOp::Clmulr => (clmul_product(a, b) >> 63) as u64,
        BitOp::Aes64es => sub_bytes(shift_rows(b, a), Dir::Fwd),
        BitOp::Aes64esm => mix_columns(sub_bytes(shift_rows(b, a), Dir::Fwd), Dir::Fwd),
        BitOp::Aes64ds => sub_bytes(unshift_rows(b, a), Dir::Inv),
        BitOp::Aes64dsm => mix_columns(sub_bytes(unshift_rows(b, a), Dir::Inv), Dir::Inv),
        BitOp::Aes64ks2 => {
            let w0 = ((a >> 32) as u32) ^ (b as u32);
            join(w0, w0 ^ ((b >> 32) as u32))
        },
    }
}

pub fn bit_rr(kind: BitOp, a: u64, b: u64) -> (r: u64)
    ensures
        r == bit_rr_value(kind, a, b),
{
    proof {
        lemma_pack_forms(a, b);
    }
    match kind {
        BitOp::Andn => a & !b,
        BitOp::Orn => a | !b,
        BitOp::Xnor => !(a ^ b),
        BitOp::Max => if (a as i64) < (b as i64) {
            b
        } else {
            a
        },
        BitOp::Maxu => if a < b {
            b
        } else {
            a
        },
        BitOp::Min => if (a as i64) < (b as i64) {
            a
        } else {
            b
        },
        BitOp::Minu => if a < b {
            a
        } else {
            b
        },
        BitOp::Rol => rotate_right64(a, (64 - (b & 63) as u32) % 64),
        BitOp::Ror => rotate_right64(a, (b & 63) as u32),
        BitOp::Rolw => rotate_right32(a as u32, (32 - (b & 31) as u32) % 32) as i32 as u64,
        BitOp::Rorw => rotate_right32(a as u32, (b & 31) as u32) as i32 as u64,
        // pack: rs2[31:0] : rs1[31:0]
        BitOp::Pack => (a & 0xffff_ffff) | (b << 32),
        // packh: zero-extended rs2[7:0] : rs1[7:0]
        BitOp::Packh => (a & 0xff) | ((b & 0xff) << 8),
        // packw: sign-extended rs2[15:0] : rs1[15:0]
        BitOp::Packw => (((a & 0xffff) | ((b & 0xffff) << 16)) as u32) as i32 as u64,
        BitOp::Clmul => clmul(a, b),
        BitOp::Clmulh => clmulh(a, b),
        BitOp::Clmulr => clmulr(a, b),
        BitOp::Aes64es => aes64_round(a, b, Dir::Fwd, false),
        BitOp::Aes64esm => aes64_round(a, b, Dir::Fwd, true),
        BitOp::Aes64ds => aes64_round(a, b, Dir::Inv, false),
        BitOp::Aes64dsm => aes64_round(a, b, Dir::Inv, true),
        BitOp::Aes64ks2 => aes64ks2(a, b),
    }
}

proof fn lemma_pack_forms(a: u64, b: u64)
    by (bit_vector)
    ensures
        b & 63 == b % 64,
        b & 31 == b % 32,
        (a & 0xffff_ffff) | (b << 32) == join(a as u32, b as u32),
        (a & 0xff) | ((b & 0xff) << 8) == join(
            word32(a as u8, b as u8, 0, 0),
            word32(0, 0, 0, 0),
        ),
        ((a & 0xffff) | ((b & 0xffff) << 16)) as u32 == (a as u16 as u32) | ((b as u16 as u32)
            << 16),
{
}

/// What each unary form computes.
pub open spec fn bit_unary_value(kind: BitUnaryOp, a: u64) -> u64 {
    let x = a as u32;
    match kind {
        BitUnaryOp::Clz => u64_leading_zeros(a) as u64,
        BitUnaryOp::Ctz => u64_trailing_zeros(a) as u64,
        BitUnaryOp::Cpop => ones(a) as u64,
        BitUnaryOp::Clzw => u32_leading_zeros(x) as u64,
        BitUnaryOp::Ctzw => u32_trailing_zeros(x) as u64,
        BitUnaryOp::Cpopw => ones(x as u64) as u64,
        BitUnaryOp::SextB => a as i8 as u64,
        BitUnaryOp::SextH => a as i16 as u64,
        BitUnaryOp::OrcB => orc_b_value(a),
        BitUnaryOp::Rev8 => word64(
            (
                byte_of(a, 7),
                byte_of(a, 6),
                byte_of(a, 5),
                byte_of(a, 4),
                byte_of(a, 3),
                byte_of(a, 2),
                byte_of(a, 1),
                byte_of(a, 0),
            ),
        ),
        BitUnaryOp::Brev8 => brev8_value(a),
        BitUnaryOp::Aes64im => mix_columns(a, Dir::Inv),
        BitUnaryOp::Sha256sig0 => sext32(ror32(x, 7) ^ ror32(x, 18) ^ (x >> 3)),
        BitUnaryOp::Sha256sig1 => sext32(ror32(x, 17) ^ ror32(x, 19) ^ (x >> 10)),
        BitUnaryOp::Sha256sum0 => sext32(ror32(x, 2) ^ ror32(x, 13) ^ ror32(x, 22)),
        BitUnaryOp::Sha256sum1 => sext32(ror32(x, 6) ^ ror32(x, 11) ^ ror32(x, 25)),
        BitUnaryOp::Sha512sig0 => ror64(a, 1) ^ ror64(a, 8) ^ (a >> 7),
        BitUnaryOp::Sha512sig1 => ror64(a, 19) ^ ror64(a, 61) ^ (a >> 6),
        BitUnaryOp::Sha512sum0 => ror64(a, 28) ^ ror64(a, 34) ^ ror64(a, 39),
        BitUnaryOp::Sha512sum1 => ror64(a, 14) ^ ror64(a, 18) ^ ror64(a, 41),
    }
}

pub fn bit_unary(kind: BitUnaryOp, a: u64) -> (r: u64)
    ensures
        r == bit_unary_value(kind, a),
{
    match kind {
        BitUnaryOp::Clz => a.leading_zeros() as u64,
        BitUnaryOp::Ctz => a.trailing_zeros() as u64,
        BitUnaryOp::Cpop => count_ones(a),
        BitUnaryOp::Clzw => (a as u32).leading_zeros() as u64,
        BitUnaryOp::Ctzw => (a as u32).trailing_zeros() as u64,
        BitUnaryOp::Cpopw => count_ones(a as u32 as u64),
        BitUnaryOp::SextB => a as i8 as u64,
        BitUnaryOp::SextH => a as i16 as u64,
        BitUnaryOp::OrcB => orc_b(a),
        BitUnaryOp::Rev8 => join_halves(
            pack32(getbyte(a, 7), getbyte(a, 6), getbyte(a, 5), getbyte(a, 4)),
            pack32(getbyte(a, 3), getbyte(a, 2), getbyte(a, 1), getbyte(a, 0)),
        ),
        BitUnaryOp::Brev8 => brev8(a),
        BitUnaryOp::Aes64im => {
            let lo: u32 = aes_mixcolumn_inv(a as u32);
            let hi: u32 = aes_mixcolumn_inv((a >> 32) as u32);
            join_halves(lo, hi)
        },
        BitUnaryOp::Sha256sig0 => {
            let x: u32 = a as u32;
            (rotate_right32(x, 7) ^ rotate_right32(x, 18) ^ (x >> 3)) as i32 as u64
        },
        BitUnaryOp::Sha256sig1 => {
            let x: u32 = a as u32;
            (rotate_right32(x, 17) ^ rotate_right32(x, 19) ^ (x >> 10)) as i32 as u64
        },
        BitUnaryOp::Sha256sum0 => {
            let x: u32 = a as u32;
            (rotate_right32(x, 2) ^ rotate_right32(x, 13) ^ rotate_right32(x, 22)) as i32 as u64
        },
        BitUnaryOp::Sha256sum1 => {
            let x: u32 = a as u32;
            (rotate_right32(x, 6) ^ rotate_right32(x, 11) ^ rotate_right32(x, 25)) as i32 as u64
        },
        BitUnaryOp::Sha512sig0 => rotate_right64(a, 1) ^ rotate_right64(a, 8) ^ (a >> 7),
        BitUnaryOp::Sha512sig1 => rotate_right64(a, 19) ^ rotate_right64(a, 61) ^ (a >> 6),
        BitUnaryOp::Sha512sum0 => rotate_right64(a, 28) ^ rotate_right64(a, 34) ^ rotate_right64(
            a,
            39,
        ),
        BitUnaryOp::Sha512sum1 => rotate_right64(a, 14) ^ rotate_right64(a, 18) ^ rotate_right64(
            a,
            41,
        ),
    }
}

/// What each immediate form computes.
pub open spec fn bit_imm_value(kind: BitImmOp, a: u64, imm: u32) -> u64 {
    match kind {
        BitImmOp::Rori => ror64(a, imm % 64),
        BitImmOp::Roriw => sext32(ror32(a as u32, imm % 32)),
        BitImmOp::Aes64ks1i => {
            let sub = sub_word((a >> 32) as u32);
            let w = if imm == 10 {
                sub
            } else {
                ror32(sub, 8) ^ RCON[imm as int]
            };
            join(w, w)
        },
    }
}

pub fn bit_imm(kind: BitImmOp, a: u64, imm: u32) -> (r: u64)
    requires
        kind is Aes64ks1i ==> imm <= 10,
    ensures
        r == bit_imm_value(kind, a, imm),
{
    proof {
        lemma_pack_forms(0, imm as u64);
    }
    match kind {
        BitImmOp::Rori => rotate_right64(a, imm & 63),
        BitImmOp::Roriw => rotate_right32(a as u32, imm & 31) as i32 as u64,
        BitImmOp::Aes64ks1i => aes64ks1i(a, imm),
    }
}

// ---------------------------------------------------------------------------
// Zbb / Zbkb helpers
// ---------------------------------------------------------------------------

/// `0xff` for a non-zero byte, zero for a zero one.
pub open spec fn saturated(b: u8) -> u8 {
    if b == 0 {
        0
    } else {
        0xff
    }
}

/// Every byte saturated.
pub open spec fn orc_b_value(a: u64) -> u64 {
    join(
        word32(
            saturated(a as u8),
            saturated((a >> 8) as u8),
            saturated((a >> 16) as u8),
            saturated((a >> 24) as u8),
        ),
        word32(
            saturated((a >> 32) as u8),
            saturated((a >> 40) as u8),
            saturated((a >> 48) as u8),
            saturated((a >> 56) as u8),
        ),
    )
}

/// The byte with its bits in the opposite order.
pub open spec fn reversed(b: u8) -> u8 {
    ((b & 0x01) << 7) | ((b & 0x02) << 5) | ((b & 0x04) << 3) | ((b & 0x08) << 1) | ((b & 0x10)
        >> 1) | ((b & 0x20) >> 3) | ((b & 0x40) >> 5) | ((b & 0x80) >> 7)
}

/// Every byte with its bits reversed.
pub open spec fn brev8_value(a: u64) -> u64 {
    join(
        word32(
            reversed(a as u8),
            reversed((a >> 8) as u8),
            reversed((a >> 16) as u8),
            reversed((a >> 24) as u8),
        ),
        word32(
            reversed((a >> 32) as u8),
            reversed((a >> 40) as u8),
            reversed((a >> 48) as u8),
            reversed((a >> 56) as u8),
        ),
    )
}

const LOW7: u64 = 0x7f7f_7f7f_7f7f_7f7f;

const ONES: u64 = 0x0101_0101_0101_0101;

/// `orc.b`: every zero byte stays zero, every non-zero byte becomes 0xff.
///
/// SWAR: `(x & 0x7f..) + 0x7f..` carries into each byte's bit 7 iff the low
/// seven bits are non-zero; OR-ing `x` back in covers bit 7 itself. The final
/// multiply smears that flag bit across its byte (no carries: `1 * 0xff` fits).
pub fn orc_b(a: u64) -> (r: u64)
    ensures
        r == orc_b_value(a),
{
    proof {
        lemma_orc_b(a);
    }
    let flags: u64 = (((a & LOW7) + LOW7) | a) >> 7;
    (flags & ONES) * 0xff
}

proof fn lemma_orc_b(a: u64)
    by (bit_vector)
    ensures
        (a & LOW7) + LOW7 <= 0xffff_ffff_ffff_ffff,
        ((((((a & LOW7) + LOW7) as u64) | a) >> 7) & ONES) * 0xff <= 0xffff_ffff_ffff_ffff,
        ((((((a & LOW7) + LOW7) as u64) | a) >> 7) & ONES) * 0xff == orc_b_value(a),
{
}

/// `brev8`: reverse the bit order within each byte, byte positions unchanged.
pub fn brev8(a: u64) -> (r: u64)
    ensures
        r == brev8_value(a),
{
    let x: u64 = ((a & 0x5555_5555_5555_5555) << 1) | ((a >> 1) & 0x5555_5555_5555_5555);
    let y: u64 = ((x & 0x3333_3333_3333_3333) << 2) | ((x >> 2) & 0x3333_3333_3333_3333);
    let z: u64 = ((y & 0x0f0f_0f0f_0f0f_0f0f) << 4) | ((y >> 4) & 0x0f0f_0f0f_0f0f_0f0f);
    proof {
        assert(z == brev8_value(a)) by (bit_vector)
            requires
                x == ((a & 0x5555_5555_5555_5555) << 1) | ((a >> 1) & 0x5555_5555_5555_5555),
                y == ((x & 0x3333_3333_3333_3333) << 2) | ((x >> 2) & 0x3333_3333_3333_3333),
                z == ((y & 0x0f0f_0f0f_0f0f_0f0f) << 4) | ((y >> 4) & 0x0f0f_0f0f_0f0f_0f0f),
        ;
    }
    z
}

// ---------------------------------------------------------------------------
// Zbc carry-less multiply
// ---------------------------------------------------------------------------

/// `a` shifted to position `i` where bit `i` of `b` is set, else nothing.
pub open spec fn clmul_term(a: u64, b: u64, i: u32) -> u128 {
    if (b >> i) & 1 == 1 {
        (a as u128) << i
    } else {
        0
    }
}

/// Exclusive-or of the first `n` terms.
pub open spec fn clmul_sum(a: u64, b: u64, n: nat) -> u128
    decreases n,
{
    if n == 0 {
        0
    } else {
        clmul_sum(a, b, (n - 1) as nat) ^ clmul_term(a, b, (n - 1) as u32)
    }
}

/// The full 128-bit carry-less product: one shifted copy of `a` for every set
/// bit of `b`, combined by exclusive or.
pub open spec fn clmul_product(a: u64, b: u64) -> u128 {
    clmul_sum(a, b, 64)
}

proof fn lemma_clear_lowest(b: u64, t: u32, i: u32)
    by (bit_vector)
    requires
        b != 0,
        t < 64,
        i < 64,
        (b >> t) & 1 == 1,
        i < t ==> (b >> i) & 1 == 0,
        b << ((64 - t) as u32) == 0 || t == 0,
    ensures
        ((b & ((b - 1) as u64)) >> i) & 1 == (if i == t {
            0u64
        } else {
            (b >> i) & 1
        }),
        (b & ((b - 1) as u64)) < b,
{
}

proof fn lemma_xor(x: u128, y: u128, z: u128)
    by (bit_vector)
    ensures
        (x ^ y) ^ z == (x ^ z) ^ y,
        (x ^ y) ^ z == x ^ (y ^ z),
        x ^ 0 == x,
        0 ^ x == x,
        x ^ y == y ^ x,
{
}

/// Clearing the lowest set bit `t` of `b` takes the term of `t` out.
proof fn lemma_clmul_drop(a: u64, b: u64, t: u32, n: nat)
    requires
        b != 0,
        t == u64_trailing_zeros(b),
        n <= 64,
    ensures
        clmul_sum(a, b, n) == clmul_sum(a, b & ((b - 1) as u64), n) ^ (if t < n {
            (a as u128) << t
        } else {
            0
        }),
        (b & ((b - 1) as u64)) < b,
        t < 64,
    decreases n,
{
    axiom_u64_trailing_zeros(b);
    let c = b & ((b - 1) as u64);
    lemma_clear_lowest(b, t, 0);
    if n == 0 {
        lemma_xor(0, 0, 0);
    } else {
        let i = (n - 1) as u32;
        lemma_clmul_drop(a, b, t, (n - 1) as nat);
        lemma_clear_lowest(b, t, i);
        let rest = clmul_sum(a, c, (n - 1) as nat);
        let top = clmul_term(a, b, i);
        let low = (a as u128) << t;
        lemma_xor(rest, low, top);
        lemma_xor(rest, 0, 0);
        lemma_xor(rest, top, 0);
        lemma_xor(rest, low, 0);
    }
}

proof fn lemma_clmul_zero(a: u64, n: nat)
    requires
        n <= 64,
    ensures
        clmul_sum(a, 0, n) == 0,
    decreases n,
{
    if n > 0 {
        lemma_clmul_zero(a, (n - 1) as nat);
        let i = (n - 1) as u32;
        lemma_shift_one(0, i);
        lemma_xor(0, 0, 0);
    }
}

/// The full 128-bit carry-less product; the three Zbc instructions are
/// different 64-bit windows onto it.
///
/// OpenSSL's GHASH issues several `clmul`s per 16 bytes of AEAD payload, so
/// this iterates once per *set* bit of `b` (`b &= b - 1` clears the lowest)
/// rather than once per bit position.
fn clmul_full(a: u64, b: u64) -> (r: u128)
    ensures
        r == clmul_product(a, b),
{
    let wide: u128 = a as u128;
    let mut out: u128 = 0;
    let mut bits: u64 = b;
    proof {
        lemma_xor(clmul_sum(a, b, 64), 0, 0);
    }
    while bits != 0
        invariant
            wide == a as u128,
            out ^ clmul_sum(a, bits, 64) == clmul_sum(a, b, 64),
        decreases bits,
    {
        let t: u32 = bits.trailing_zeros();
        proof {
            lemma_clmul_drop(a, bits, t, 64);
            let rest = clmul_sum(a, bits & ((bits - 1) as u64), 64);
            lemma_xor(out, wide << t, rest);
            lemma_xor(rest, wide << t, 0);
        }
        out = out ^ (wide << t);
        bits = bits & (bits - 1);
    }
    proof {
        lemma_clmul_zero(a, 64);
        lemma_xor(out, 0, 0);
    }
    out
}

/// `clmul`: product bits 63:0.
fn clmul(a: u64, b: u64) -> (r: u64)
    ensures
        r == clmul_product(a, b) as u64,
{
    clmul_full(a, b) as u64
}

/// `clmulh`: product bits 127:64.
fn clmulh(a: u64, b: u64) -> (r: u64)
    ensures
        r == (clmul_product(a, b) >> 64) as u64,
{
    (clmul_full(a, b) >> 64) as u64
}

/// `clmulr`: product bits 126:63.
fn clmulr(a: u64, b: u64) -> (r: u64)
    ensures
        r == (clmul_product(a, b) >> 63) as u64,
{
    (clmul_full(a, b) >> 63) as u64
}

// ---------------------------------------------------------------------------
// AES (Zknd / Zkne)
// ---------------------------------------------------------------------------

pub const SBOX_FWD: [u8; 256] = [
    0x63, 0x7c, 0x77, 0x7b, 0xf2, 0x6b, 0x6f, 0xc5, 0x30, 0x01, 0x67, 0x2b, 0xfe, 0xd7, 0xab, 0x76,
    0xca, 0x82, 0xc9, 0x7d, 0xfa, 0x59, 0x47, 0xf0, 0xad, 0xd4, 0xa2, 0xaf, 0x9c, 0xa4, 0x72, 0xc0,
    0xb7, 0xfd, 0x93, 0x26, 0x36, 0x3f, 0xf7, 0xcc, 0x34, 0xa5, 0xe5, 0xf1, 0x71, 0xd8, 0x31, 0x15,
    0x04, 0xc7, 0x23, 0xc3, 0x18, 0x96, 0x05, 0x9a, 0x07, 0x12, 0x80, 0xe2, 0xeb, 0x27, 0xb2, 0x75,
    0x09, 0x83, 0x2c, 0x1a, 0x1b, 0x6e, 0x5a, 0xa0, 0x52, 0x3b, 0xd6, 0xb3, 0x29, 0xe3, 0x2f, 0x84,
    0x53, 0xd1, 0x00, 0xed, 0x20, 0xfc, 0xb1, 0x5b, 0x6a, 0xcb, 0xbe, 0x39, 0x4a, 0x4c, 0x58, 0xcf,
    0xd0, 0xef, 0xaa, 0xfb, 0x43, 0x4d, 0x33, 0x85, 0x45, 0xf9, 0x02, 0x7f, 0x50, 0x3c, 0x9f, 0xa8,
    0x51, 0xa3, 0x40, 0x8f, 0x92, 0x9d, 0x38, 0xf5, 0xbc, 0xb6, 0xda, 0x21, 0x10, 0xff, 0xf3, 0xd2,
    0xcd, 0x0c, 0x13, 0xec, 0x5f, 0x97, 0x44, 0x17, 0xc4, 0xa7, 0x7e, 0x3d, 0x64, 0x5d, 0x19, 0x73,
    0x60, 0x81, 0x4f, 0xdc, 0x22, 0x2a, 0x90, 0x88, 0x46, 0xee, 0xb8, 0x14, 0xde, 0x5e, 0x0b, 0xdb,
    0xe0, 0x32, 0x3a, 0x0a, 0x49, 0x06, 0x24, 0x5c, 0xc2, 0xd3, 0xac, 0x62, 0x91, 0x95, 0xe4, 0x79,
    0xe7, 0xc8, 0x37, 0x6d, 0x8d, 0xd5, 0x4e, 0xa9, 0x6c, 0x56, 0xf4, 0xea, 0x65, 0x7a, 0xae, 0x08,
    0xba, 0x78, 0x25, 0x2e, 0x1c, 0xa6, 0xb4, 0xc6, 0xe8, 0xdd, 0x74, 0x1f, 0x4b, 0xbd, 0x8b, 0x8a,
    0x70, 0x3e, 0xb5, 0x66, 0x48, 0x03, 0xf6, 0x0e, 0x61, 0x35, 0x57, 0xb9, 0x86, 0xc1, 0x1d, 0x9e,
    0xe1, 0xf8, 0x98, 0x11, 0x69, 0xd9, 0x8e, 0x94, 0x9b, 0x1e, 0x87, 0xe9, 0xce, 0x55, 0x28, 0xdf,
    0x8c, 0xa1, 0x89, 0x0d, 0xbf, 0xe6, 0x42, 0x68, 0x41, 0x99, 0x2d, 0x0f, 0xb0, 0x54, 0xbb, 0x16,
];

pub const SBOX_INV: [u8; 256] = [
    0x52, 0x09, 0x6a, 0xd5, 0x30, 0x36, 0xa5, 0x38, 0xbf, 0x40, 0xa3, 0x9e, 0x81, 0xf3, 0xd7, 0xfb,
    0x7c, 0xe3, 0x39, 0x82, 0x9b, 0x2f, 0xff, 0x87, 0x34, 0x8e, 0x43, 0x44, 0xc4, 0xde, 0xe9, 0xcb,
    0x54, 0x7b, 0x94, 0x32, 0xa6, 0xc2, 0x23, 0x3d, 0xee, 0x4c, 0x95, 0x0b, 0x42, 0xfa, 0xc3, 0x4e,
    0x08, 0x2e, 0xa1, 0x66, 0x28, 0xd9, 0x24, 0xb2, 0x76, 0x5b, 0xa2, 0x49, 0x6d, 0x8b, 0xd1, 0x25,
    0x72, 0xf8, 0xf6, 0x64, 0x86, 0x68, 0x98, 0x16, 0xd4, 0xa4, 0x5c, 0xcc, 0x5d, 0x65, 0xb6, 0x92,
    0x6c, 0x70, 0x48, 0x50, 0xfd, 0xed, 0xb9, 0xda, 0x5e, 0x15, 0x46, 0x57, 0xa7, 0x8d, 0x9d, 0x84,
    0x90, 0xd8, 0xab, 0x00, 0x8c, 0xbc, 0xd3, 0x0a, 0xf7, 0xe4, 0x58, 0x05, 0xb8, 0xb3, 0x45, 0x06,
    0xd0, 0x2c, 0x1e, 0x8f, 0xca, 0x3f, 0x0f, 0x02, 0xc1, 0xaf, 0xbd, 0x03, 0x01, 0x13, 0x8a, 0x6b,
    0x3a, 0x91, 0x11, 0x41, 0x4f, 0x67, 0xdc, 0xea, 0x97, 0xf2, 0xcf, 0xce, 0xf0, 0xb4, 0xe6, 0x73,
    0x96, 0xac, 0x74, 0x22, 0xe7, 0xad, 0x35, 0x85, 0xe2, 0xf9, 0x37, 0xe8, 0x1c, 0x75, 0xdf, 0x6e,
    0x47, 0xf1, 0x1a, 0x71, 0x1d, 0x29, 0xc5, 0x89, 0x6f, 0xb7, 0x62, 0x0e, 0xaa, 0x18, 0xbe, 0x1b,
    0xfc, 0x56, 0x3e, 0x4b, 0xc6, 0xd2, 0x79, 0x20, 0x9a, 0xdb, 0xc0, 0xfe, 0x78, 0xcd, 0x5a, 0xf4,
    0x1f, 0xdd, 0xa8, 0x33, 0x88, 0x07, 0xc7, 0x31, 0xb1, 0x12, 0x10, 0x59, 0x27, 0x80, 0xec, 0x5f,
    0x60, 0x51, 0x7f, 0xa9, 0x19, 0xb5, 0x4a, 0x0d, 0x2d, 0xe5, 0x7a, 0x9f, 0x93, 0xc9, 0x9c, 0xef,
    0xa0, 0xe0, 0x3b, 0x4d, 0xae, 0x2a, 0xf5, 0xb0, 0xc8, 0xeb, 0xbb, 0x3c, 0x83, 0x53, 0x99, 0x61,
    0x17, 0x2b, 0x04, 0x7e, 0xba, 0x77, 0xd6, 0x26, 0xe1, 0x69, 0x14, 0x63, 0x55, 0x21, 0x0c, 0x7d,
];

/// Round constants of the AES-128/192 key schedule.
pub const RCON: [u32; 10] = [0x01, 0x02, 0x04, 0x08, 0x10, 0x20, 0x40, 0x80, 0x1b, 0x36];

#[derive(Clone, Copy, PartialEq, Eq, Structural)]
pub enum Dir {
    Fwd,
    Inv,
}

/// GF(2^8) multiply-by-x (the AES `xtime`).
pub open spec fn times2(x: u8) -> u8 {
    (x << 1) ^ (if x & 0x80 != 0 {
        0x1bu8
    } else {
        0x00u8
    })
}

/// GF(2^8) product with a 4-bit constant.
pub open spec fn times(x: u8, y: u8) -> u8 {
    (if y & 1 != 0 {
        x
    } else {
        0
    }) ^ (if y & 2 != 0 {
        times2(x)
    } else {
        0
    }) ^ (if y & 4 != 0 {
        times2(times2(x))
    } else {
        0
    }) ^ (if y & 8 != 0 {
        times2(times2(times2(x)))
    } else {
        0
    })
}

/// One row of a circulant 4x4 product over GF(2^8).
pub open spec fn dot(s: (u8, u8, u8, u8), c0: u8, c1: u8, c2: u8, c3: u8) -> u8 {
    times(s.0, c0) ^ times(s.1, c1) ^ times(s.2, c2) ^ times(s.3, c3)
}

/// The AES column mix: the circulant matrix of (2, 3, 1, 1), or for the
/// inverse of (14, 11, 13, 9).
pub open spec fn mix_column(x: u32, dir: Dir) -> u32 {
    let s = (x as u8, (x >> 8) as u8, (x >> 16) as u8, (x >> 24) as u8);
    match dir {
        Dir::Fwd => word32(
            dot(s, 2, 3, 1, 1),
            dot(s, 1, 2, 3, 1),
            dot(s, 1, 1, 2, 3),
            dot(s, 3, 1, 1, 2),
        ),
        Dir::Inv => word32(
            dot(s, 14, 11, 13, 9),
            dot(s, 9, 14, 11, 13),
            dot(s, 13, 9, 14, 11),
            dot(s, 11, 13, 9, 14),
        ),
    }
}

/// Both columns of a 64-bit half state mixed.
pub open spec fn mix_columns(x: u64, dir: Dir) -> u64 {
    join(mix_column(x as u32, dir), mix_column((x >> 32) as u32, dir))
}

pub open spec fn sbox(b: u8, dir: Dir) -> u8 {
    match dir {
        Dir::Fwd => SBOX_FWD[b as int],
        Dir::Inv => SBOX_INV[b as int],
    }
}

/// The S-box applied to each byte of a word.
pub open spec fn sub_word(x: u32) -> u32 {
    word32(
        sbox(x as u8, Dir::Fwd),
        sbox((x >> 8) as u8, Dir::Fwd),
        sbox((x >> 16) as u8, Dir::Fwd),
        sbox((x >> 24) as u8, Dir::Fwd),
    )
}

/// The S-box applied to each byte of a 64-bit half state.
pub open spec fn sub_bytes(x: u64, dir: Dir) -> u64 {
    word64(
        (
            sbox(byte_of(x, 0), dir),
            sbox(byte_of(x, 1), dir),
            sbox(byte_of(x, 2), dir),
            sbox(byte_of(x, 3), dir),
            sbox(byte_of(x, 4), dir),
            sbox(byte_of(x, 5), dir),
            sbox(byte_of(x, 6), dir),
            sbox(byte_of(x, 7), dir),
        ),
    )
}

/// The low half of the row-shifted state whose halves are `rs1` and `rs2`.
pub open spec fn shift_rows(rs2: u64, rs1: u64) -> u64 {
    word64(
        (
            byte_of(rs1, 0),
            byte_of(rs1, 5),
            byte_of(rs2, 2),
            byte_of(rs2, 7),
            byte_of(rs1, 4),
            byte_of(rs2, 1),
            byte_of(rs2, 6),
            byte_of(rs1, 3),
        ),
    )
}

/// The low half of the inversely row-shifted state.
pub open spec fn unshift_rows(rs2: u64, rs1: u64) -> u64 {
    word64(
        (
            byte_of(rs1, 0),
            byte_of(rs2, 5),
            byte_of(rs2, 2),
            byte_of(rs1, 7),
            byte_of(rs1, 4),
            byte_of(rs1, 1),
            byte_of(rs2, 6),
            byte_of(rs2, 3),
        ),
    )
}

/// GF(2^8) multiply-by-x (the AES `xtime`).
fn xt2(x: u8) -> (r: u8)
    ensures
        r == times2(x),
{
    (x << 1) ^ (if x & 0x80 != 0 {
        0x1bu8
    } else {
        0x00u8
    })
}

/// Multiply by x + 1.
fn xt3(x: u8) -> (r: u8)
    ensures
        r == x ^ times2(x),
{
    x ^ xt2(x)
}

/// Multiply an 8-bit field element by a 4-bit constant.
fn gfmul(x: u8, y: u8) -> (r: u8)
    ensures
        r == times(x, y),
{
    let t1: u8 = if y & 1 != 0 {
        x
    } else {
        0
    };
    let t2: u8 = if y & 2 != 0 {
        xt2(x)
    } else {
        0
    };
    let t4: u8 = if y & 4 != 0 {
        xt2(xt2(x))
    } else {
        0
    };
    let t8: u8 = if y & 8 != 0 {
        xt2(xt2(xt2(x)))
    } else {
        0
    };
    t1 ^ t2 ^ t4 ^ t8
}

proof fn lemma_small_products(s: u8)
    by (bit_vector)
    ensures
        times(s, 1) == s,
        times(s, 2) == times2(s),
        times(s, 3) == s ^ times2(s),
{
}

/// Column mix for encryption.
pub fn aes_mixcolumn_fwd(x: u32) -> (r: u32)
    ensures
        r == mix_column(x, Dir::Fwd),
{
    let s0: u8 = x as u8;
    let s1: u8 = (x >> 8) as u8;
    let s2: u8 = (x >> 16) as u8;
    let s3: u8 = (x >> 24) as u8;
    proof {
        lemma_small_products(s0);
        lemma_small_products(s1);
        lemma_small_products(s2);
        lemma_small_products(s3);
    }
    pack32(
        xt2(s0) ^ xt3(s1) ^ s2 ^ s3,
        s0 ^ xt2(s1) ^ xt3(s2) ^ s3,
        s0 ^ s1 ^ xt2(s2) ^ xt3(s3),
        xt3(s0) ^ s1 ^ s2 ^ xt2(s3),
    )
}

/// Column mix for decryption.
pub fn aes_mixcolumn_inv(x: u32) -> (r: u32)
    ensures
        r == mix_column(x, Dir::Inv),
{
    let s0: u8 = x as u8;
    let s1: u8 = (x >> 8) as u8;
    let s2: u8 = (x >> 16) as u8;
    let s3: u8 = (x >> 24) as u8;
    pack32(
        gfmul(s0, 0xe) ^ gfmul(s1, 0xb) ^ gfmul(s2, 0xd) ^ gfmul(s3, 0x9),
        gfmul(s0, 0x9) ^ gfmul(s1, 0xe) ^ gfmul(s2, 0xb) ^ gfmul(s3, 0xd),
        gfmul(s0, 0xd) ^ gfmul(s1, 0x9) ^ gfmul(s2, 0xe) ^ gfmul(s3, 0xb),
        gfmul(s0, 0xb) ^ gfmul(s1, 0xd) ^ gfmul(s2, 0x9) ^ gfmul(s3, 0xe),
    )
}

/// Multiplication by a constant distributes over exclusive or.
proof fn lemma_times_linear(a: u8, b: u8, k: u8)
    by (bit_vector)
    requires
        k < 16,
    ensures
        times(a ^ b, k) == times(a, k) ^ times(b, k),
{
}

/// The products of the two mixing matrices' entries, column by column.
proof fn lemma_mix_coefficients(s: u8)
    by (bit_vector)
    ensures
        times(times(s, 2), 14) ^ times(times(s, 1), 11) ^ times(times(s, 1), 13) ^ times(
            times(s, 3),
            9,
        ) == s,
        times(times(s, 3), 14) ^ times(times(s, 2), 11) ^ times(times(s, 1), 13) ^ times(
            times(s, 1),
            9,
        ) == 0,
        times(times(s, 1), 14) ^ times(times(s, 3), 11) ^ times(times(s, 2), 13) ^ times(
            times(s, 1),
            9,
        ) == 0,
        times(times(s, 1), 14) ^ times(times(s, 1), 11) ^ times(times(s, 3), 13) ^ times(
            times(s, 2),
            9,
        ) == 0,
        times(times(s, 14), 2) ^ times(times(s, 9), 3) ^ times(times(s, 13), 1) ^ times(
            times(s, 11),
            1,
        ) == s,
        times(times(s, 11), 2) ^ times(times(s, 14), 3) ^ times(times(s, 9), 1) ^ times(
            times(s, 13),
            1,
        ) == 0,
        times(times(s, 13), 2) ^ times(times(s, 11), 3) ^ times(times(s, 14), 1) ^ times(
            times(s, 9),
            1,
        ) == 0,
        times(times(s, 9), 2) ^ times(times(s, 13), 3) ^ times(times(s, 11), 1) ^ times(
            times(s, 14),
            1,
        ) == 0,
{
}

/// A sum of sixteen terms, by rows and by columns.
proof fn lemma_transposed(
    a0: u8, a1: u8, a2: u8, a3: u8,
    b0: u8, b1: u8, b2: u8, b3: u8,
    c0: u8, c1: u8, c2: u8, c3: u8,
    d0: u8, d1: u8, d2: u8, d3: u8,
)
    by (bit_vector)
    ensures
        (a0 ^ a1 ^ a2 ^ a3) ^ (b0 ^ b1 ^ b2 ^ b3) ^ (c0 ^ c1 ^ c2 ^ c3) ^ (d0 ^ d1 ^ d2 ^ d3)
            == (a0 ^ b0 ^ c0 ^ d0) ^ (a1 ^ b1 ^ c1 ^ d1) ^ (a2 ^ b2 ^ c2 ^ d2) ^ (a3 ^ b3 ^ c3
            ^ d3),
        a0 ^ a1 ^ a2 ^ a3 == a1 ^ a2 ^ a3 ^ a0,
        a0 ^ 0 ^ 0 ^ 0 == a0,
{
}

proof fn lemma_dot_times(s: (u8, u8, u8, u8), c0: u8, c1: u8, c2: u8, c3: u8, k: u8)
    requires
        k < 16,
    ensures
        times(dot(s, c0, c1, c2, c3), k) == times(times(s.0, c0), k) ^ times(times(s.1, c1), k)
            ^ times(times(s.2, c2), k) ^ times(times(s.3, c3), k),
{
    let (t0, t1, t2, t3) = (times(s.0, c0), times(s.1, c1), times(s.2, c2), times(s.3, c3));
    lemma_times_linear(t0 ^ t1 ^ t2, t3, k);
    lemma_times_linear(t0 ^ t1, t2, k);
    lemma_times_linear(t0, t1, k);
}

/// The first row of the product of two circulant matrices.
proof fn lemma_product_row(
    s: (u8, u8, u8, u8),
    c0: u8,
    c1: u8,
    c2: u8,
    c3: u8,
    k0: u8,
    k1: u8,
    k2: u8,
    k3: u8,
)
    requires
        k0 < 16,
        k1 < 16,
        k2 < 16,
        k3 < 16,
    ensures
        times(dot(s, c0, c1, c2, c3), k0) ^ times(dot(s, c3, c0, c1, c2), k1) ^ times(
            dot(s, c2, c3, c0, c1),
            k2,
        ) ^ times(dot(s, c1, c2, c3, c0), k3) == (times(times(s.0, c0), k0) ^ times(
            times(s.0, c3),
            k1,
        ) ^ times(times(s.0, c2), k2) ^ times(times(s.0, c1), k3)) ^ (times(times(s.1, c1), k0)
            ^ times(times(s.1, c0), k1) ^ times(times(s.1, c3), k2) ^ times(times(s.1, c2), k3))
            ^ (times(times(s.2, c2), k0) ^ times(times(s.2, c1), k1) ^ times(times(s.2, c0), k2)
            ^ times(times(s.2, c3), k3)) ^ (times(times(s.3, c3), k0) ^ times(times(s.3, c2), k1)
            ^ times(times(s.3, c1), k2) ^ times(times(s.3, c0), k3)),
{
    lemma_dot_times(s, c0, c1, c2, c3, k0);
    lemma_dot_times(s, c3, c0, c1, c2, k1);
    lemma_dot_times(s, c2, c3, c0, c1, k2);
    lemma_dot_times(s, c1, c2, c3, c0, k3);
    lemma_transposed(
        times(times(s.0, c0), k0),
        times(times(s.1, c1), k0),
        times(times(s.2, c2), k0),
        times(times(s.3, c3), k0),
        times(times(s.0, c3), k1),
        times(times(s.1, c0), k1),
        times(times(s.2, c1), k1),
        times(times(s.3, c2), k1),
        times(times(s.0, c2), k2),
        times(times(s.1, c3), k2),
        times(times(s.2, c0), k2),
        times(times(s.3, c1), k2),
        times(times(s.0, c1), k3),
        times(times(s.1, c2), k3),
        times(times(s.2, c3), k3),
        times(times(s.3, c0), k3),
    );
}

/// The first byte comes back from mixing both ways round.
proof fn lemma_first_byte(s: (u8, u8, u8, u8))
    ensures
        dot(
            (dot(s, 2, 3, 1, 1), dot(s, 1, 2, 3, 1), dot(s, 1, 1, 2, 3), dot(s, 3, 1, 1, 2)),
            14,
            11,
            13,
            9,
        ) == s.0,
        dot(
            (
                dot(s, 14, 11, 13, 9),
                dot(s, 9, 14, 11, 13),
                dot(s, 13, 9, 14, 11),
                dot(s, 11, 13, 9, 14),
            ),
            2,
            3,
            1,
            1,
        ) == s.0,
{
    lemma_product_row(s, 2, 3, 1, 1, 14, 11, 13, 9);
    lemma_product_row(s, 14, 11, 13, 9, 2, 3, 1, 1);
    lemma_mix_coefficients(s.0);
    lemma_mix_coefficients(s.1);
    lemma_mix_coefficients(s.2);
    lemma_mix_coefficients(s.3);
    lemma_transposed(s.0, 0, 0, 0, 0, 0, 0, 0, 0, 0, 0, 0, 0, 0, 0, 0);
}

/// Rotating the column rotates the rows.
proof fn lemma_rotated_dot(s: (u8, u8, u8, u8), c0: u8, c1: u8, c2: u8, c3: u8)
    ensures
        dot(s, c0, c1, c2, c3) == dot((s.1, s.2, s.3, s.0), c1, c2, c3, c0),
{
    let (t0, t1, t2, t3) = (times(s.0, c0), times(s.1, c1), times(s.2, c2), times(s.3, c3));
    lemma_transposed(t0, t1, t2, t3, 0, 0, 0, 0, 0, 0, 0, 0, 0, 0, 0, 0);
}

proof fn lemma_rotation(s: (u8, u8, u8, u8), c0: u8, c1: u8, c2: u8, c3: u8)
    ensures
        ({
            let t = (s.1, s.2, s.3, s.0);
            &&& dot(t, c0, c1, c2, c3) == dot(s, c3, c0, c1, c2)
            &&& dot(t, c3, c0, c1, c2) == dot(s, c2, c3, c0, c1)
            &&& dot(t, c2, c3, c0, c1) == dot(s, c1, c2, c3, c0)
            &&& dot(t, c1, c2, c3, c0) == dot(s, c0, c1, c2, c3)
        }),
{
    lemma_rotated_dot(s, c3, c0, c1, c2);
    lemma_rotated_dot(s, c2, c3, c0, c1);
    lemma_rotated_dot(s, c1, c2, c3, c0);
    lemma_rotated_dot(s, c0, c1, c2, c3);
}

/// The four bytes of a mixed column, as a column again.
spec fn mixed(s: (u8, u8, u8, u8), c0: u8, c1: u8, c2: u8, c3: u8) -> (u8, u8, u8, u8) {
    (
        dot(s, c0, c1, c2, c3),
        dot(s, c3, c0, c1, c2),
        dot(s, c2, c3, c0, c1),
        dot(s, c1, c2, c3, c0),
    )
}

proof fn lemma_mixed_twice(s: (u8, u8, u8, u8))
    ensures
        mixed(mixed(s, 2, 3, 1, 1), 14, 11, 13, 9) == s,
        mixed(mixed(s, 14, 11, 13, 9), 2, 3, 1, 1) == s,
{
    let s1 = (s.1, s.2, s.3, s.0);
    let s2 = (s.2, s.3, s.0, s.1);
    let s3 = (s.3, s.0, s.1, s.2);
    lemma_first_byte(s);
    lemma_first_byte(s1);
    lemma_first_byte(s2);
    lemma_first_byte(s3);
    lemma_rotation(s, 2, 3, 1, 1);
    lemma_rotation(s1, 2, 3, 1, 1);
    lemma_rotation(s2, 2, 3, 1, 1);
    lemma_rotation(s, 14, 11, 13, 9);
    lemma_rotation(s1, 14, 11, 13, 9);
    lemma_rotation(s2, 14, 11, 13, 9);
    let f = mixed(s, 2, 3, 1, 1);
    let g = mixed(s, 14, 11, 13, 9);
    let f1 = (f.1, f.2, f.3, f.0);
    let g1 = (g.1, g.2, g.3, g.0);
    let f2 = (f.2, f.3, f.0, f.1);
    let g2 = (g.2, g.3, g.0, g.1);
    assert(f1 == mixed(s1, 2, 3, 1, 1));
    assert(g1 == mixed(s1, 14, 11, 13, 9));
    assert(f2 == mixed(s2, 2, 3, 1, 1));
    assert(g2 == mixed(s2, 14, 11, 13, 9));
    lemma_rotation(f, 14, 11, 13, 9);
    lemma_rotation(f1, 14, 11, 13, 9);
    lemma_rotation(f2, 14, 11, 13, 9);
    lemma_rotation(g, 2, 3, 1, 1);
    lemma_rotation(g1, 2, 3, 1, 1);
    lemma_rotation(g2, 2, 3, 1, 1);
}

proof fn lemma_column_bytes(x: u32, b0: u8, b1: u8, b2: u8, b3: u8)
    by (bit_vector)
    ensures
        word32(x as u8, (x >> 8) as u8, (x >> 16) as u8, (x >> 24) as u8) == x,
        word32(b0, b1, b2, b3) as u8 == b0,
        (word32(b0, b1, b2, b3) >> 8) as u8 == b1,
        (word32(b0, b1, b2, b3) >> 16) as u8 == b2,
        (word32(b0, b1, b2, b3) >> 24) as u8 == b3,
{
}

/// The column mix of decryption undoes that of encryption, and the other way
/// round.
pub proof fn law_mix_column_inverse(x: u32)
    ensures
        mix_column(mix_column(x, Dir::Fwd), Dir::Inv) == x,
        mix_column(mix_column(x, Dir::Inv), Dir::Fwd) == x,
{
    let s = (x as u8, (x >> 8) as u8, (x >> 16) as u8, (x >> 24) as u8);
    let f = mixed(s, 2, 3, 1, 1);
    let g = mixed(s, 14, 11, 13, 9);
    lemma_column_bytes(x, f.0, f.1, f.2, f.3);
    lemma_column_bytes(x, g.0, g.1, g.2, g.3);
    lemma_mixed_twice(s);
}

/// Row shift for encryption, the half state in `rs1` first.
fn shiftrows_fwd(rs2: u64, rs1: u64) -> (r: u64)
    ensures
        r == shift_rows(rs2, rs1),
{
    join_halves(
        pack32(getbyte(rs1, 0), getbyte(rs1, 5), getbyte(rs2, 2), getbyte(rs2, 7)),
        pack32(getbyte(rs1, 4), getbyte(rs2, 1), getbyte(rs2, 6), getbyte(rs1, 3)),
    )
}

/// Row shift for decryption, the half state in `rs1` first.
fn shiftrows_inv(rs2: u64, rs1: u64) -> (r: u64)
    ensures
        r == unshift_rows(rs2, rs1),
{
    join_halves(
        pack32(getbyte(rs1, 0), getbyte(rs2, 5), getbyte(rs2, 2), getbyte(rs1, 7)),
        pack32(getbyte(rs1, 4), getbyte(rs1, 1), getbyte(rs2, 6), getbyte(rs2, 3)),
    )
}

fn substitute(b: u8, dir: Dir) -> (r: u8)
    ensures
        r == sbox(b, dir),
{
    match dir {
        Dir::Fwd => SBOX_FWD[b as usize],
        Dir::Inv => SBOX_INV[b as usize],
    }
}

fn sbox_each_byte(x: u64, dir: Dir) -> (r: u64)
    ensures
        r == sub_bytes(x, dir),
{
    join_halves(
        pack32(
            substitute(getbyte(x, 0), dir),
            substitute(getbyte(x, 1), dir),
            substitute(getbyte(x, 2), dir),
            substitute(getbyte(x, 3), dir),
        ),
        pack32(
            substitute(getbyte(x, 4), dir),
            substitute(getbyte(x, 5), dir),
            substitute(getbyte(x, 6), dir),
            substitute(getbyte(x, 7), dir),
        ),
    )
}

/// `aes64es` / `aes64esm` / `aes64ds` / `aes64dsm`.  `a` is rs1, `b` is rs2.
fn aes64_round(a: u64, b: u64, dir: Dir, mix: bool) -> (r: u64)
    ensures
        r == ({
            let sub = sub_bytes(
                match dir {
                    Dir::Fwd => shift_rows(b, a),
                    Dir::Inv => unshift_rows(b, a),
                },
                dir,
            );
            if mix {
                mix_columns(sub, dir)
            } else {
                sub
            }
        }),
{
    let sr: u64 = match dir {
        Dir::Fwd => shiftrows_fwd(b, a),
        Dir::Inv => shiftrows_inv(b, a),
    };
    let sb: u64 = sbox_each_byte(sr, dir);
    if !mix {
        return sb;
    }
    match dir {
        Dir::Fwd => join_halves(aes_mixcolumn_fwd(sb as u32), aes_mixcolumn_fwd((sb >> 32) as u32)),
        Dir::Inv => join_halves(aes_mixcolumn_inv(sb as u32), aes_mixcolumn_inv((sb >> 32) as u32)),
    }
}

/// The forward S-box on each byte of a word.
pub fn aes_subword_fwd(x: u32) -> (r: u32)
    ensures
        r == sub_word(x),
{
    pack32(
        substitute(x as u8, Dir::Fwd),
        substitute((x >> 8) as u8, Dir::Fwd),
        substitute((x >> 16) as u8, Dir::Fwd),
        substitute((x >> 24) as u8, Dir::Fwd),
    )
}

/// Round constant for `aes64ks1i`; `rnum` 0..=9 (10 is the AES-256 case, which
/// never reaches here).
fn aes_decode_rcon(rnum: u32) -> (r: u32)
    requires
        rnum < 10,
    ensures
        r == RCON[rnum as int],
{
    RCON[rnum as usize]
}

fn aes64ks1i(a: u64, rnum: u32) -> (r: u64)
    requires
        rnum <= 10,
    ensures
        r == bit_imm_value(BitImmOp::Aes64ks1i, a, rnum),
{
    let prev: u32 = (a >> 32) as u32;
    let subwords: u32 = aes_subword_fwd(prev);
    let result: u32 = if rnum == 0xa {
        subwords
    } else {
        rotate_right32(subwords, 8) ^ aes_decode_rcon(rnum)
    };
    join_halves(result, result)
}

/// `aes64ks2 rd, rs1, rs2`: `a` is rs1, `b` is rs2.
fn aes64ks2(a: u64, b: u64) -> (r: u64)
    ensures
        r == bit_rr_value(BitOp::Aes64ks2, a, b),
{
    let w0: u32 = ((a >> 32) as u32) ^ (b as u32);
    let w1: u32 = w0 ^ ((b >> 32) as u32);
    join_halves(w0, w1)
}

// ---------------------------------------------------------------------------
// Carry-less products do not depend on the order of their operands
// ---------------------------------------------------------------------------

/// What bit `j` of `a` and bit `i` of `b` contribute to the product.
spec fn clmul_cell(a: u64, b: u64, i: u32, j: u32) -> u128 {
    if (b >> i) & 1 == 1 && (a >> j) & 1 == 1 {
        1u128 << ((i + j) as u32)
    } else {
        0
    }
}

/// What the first `m` bits of `a` and bit `i` of `b` contribute.
spec fn clmul_row(a: u64, b: u64, i: u32, m: nat) -> u128
    decreases m,
{
    if m == 0 {
        0
    } else {
        clmul_row(a, b, i, (m - 1) as nat) ^ clmul_cell(a, b, i, (m - 1) as u32)
    }
}

/// What the first `m` bits of `a` and the first `n` of `b` contribute.
spec fn clmul_grid(a: u64, b: u64, n: nat, m: nat) -> u128
    decreases n,
{
    if n == 0 {
        0
    } else {
        clmul_grid(a, b, (n - 1) as nat, m) ^ clmul_row(a, b, (n - 1) as u32, m)
    }
}

proof fn lemma_next_bit(a: u64, i: u32, m: u32)
    by (bit_vector)
    requires
        i < 64,
        m < 64,
    ensures
        ((a as u128) & (((1u128 << ((m + 1) as u32)) - 1) as u128)) << i == (((a as u128) & (((
        1u128 << m) - 1) as u128)) << i) ^ (if (a >> m) & 1 == 1 {
            1u128 << ((i + m) as u32)
        } else {
            0u128
        }),
{
}

proof fn lemma_all_bits(a: u64, i: u32)
    by (bit_vector)
    requires
        i < 64,
    ensures
        ((a as u128) & (((1u128 << 64u32) - 1) as u128)) << i == (a as u128) << i,
        ((a as u128) & (((1u128 << 0u32) - 1) as u128)) << i == 0u128,
        0u128 ^ 0u128 == 0u128,
{
}

proof fn lemma_row(a: u64, b: u64, i: u32, m: nat)
    requires
        i < 64,
        m <= 64,
    ensures
        clmul_row(a, b, i, m) == (if (b >> i) & 1 == 1 {
            ((a as u128) & (((1u128 << (m as u32)) - 1) as u128)) << i
        } else {
            0u128
        }),
    decreases m,
{
    lemma_all_bits(a, i);
    if m > 0 {
        lemma_row(a, b, i, (m - 1) as nat);
        lemma_next_bit(a, i, (m - 1) as u32);
    }
}

proof fn lemma_grid(a: u64, b: u64, n: nat)
    requires
        n <= 64,
    ensures
        clmul_grid(a, b, n, 64) == clmul_sum(a, b, n),
    decreases n,
{
    if n > 0 {
        lemma_grid(a, b, (n - 1) as nat);
        lemma_row(a, b, (n - 1) as u32, 64);
        lemma_all_bits(a, (n - 1) as u32);
    }
}

/// One more bit of the inner operand adds a row of the other grid.
proof fn lemma_grid_widens(a: u64, b: u64, n: nat, m: nat)
    requires
        n <= 64,
        m < 64,
    ensures
        clmul_grid(a, b, n, m + 1) == clmul_grid(a, b, n, m) ^ clmul_row(b, a, m as u32, n),
    decreases n,
{
    if n == 0 {
        lemma_all_bits(a, 0);
    } else {
        let k = (n - 1) as nat;
        lemma_grid_widens(a, b, k, m);
        let (g, r) = (clmul_grid(a, b, k, m), clmul_row(a, b, k as u32, m));
        let (q, c) = (clmul_row(b, a, m as u32, k), clmul_cell(a, b, k as u32, m as u32));
        lemma_xor_swap(g, q, r, c);
    }
}

proof fn lemma_xor_swap(g: u128, q: u128, r: u128, c: u128)
    by (bit_vector)
    ensures
        (g ^ q) ^ (r ^ c) == (g ^ r) ^ (q ^ c),
{
}

proof fn lemma_grid_turns(a: u64, b: u64, n: nat, m: nat)
    requires
        n <= 64,
        m <= 64,
    ensures
        clmul_grid(a, b, n, m) == clmul_grid(b, a, m, n),
    decreases m,
{
    if m == 0 {
        lemma_empty_grid(a, b, n);
    } else {
        lemma_grid_widens(a, b, n, (m - 1) as nat);
        lemma_grid_turns(a, b, n, (m - 1) as nat);
    }
}

proof fn lemma_empty_grid(a: u64, b: u64, n: nat)
    requires
        n <= 64,
    ensures
        clmul_grid(a, b, n, 0) == 0,
    decreases n,
{
    if n > 0 {
        lemma_empty_grid(a, b, (n - 1) as nat);
        lemma_all_bits(a, 0);
    }
}

/// Exchanging the operands of a carry-less multiply changes none of its three
/// results.
pub proof fn law_clmul_commutes(a: u64, b: u64)
    ensures
        clmul_product(a, b) == clmul_product(b, a),
        bit_rr_value(BitOp::Clmul, a, b) == bit_rr_value(BitOp::Clmul, b, a),
        bit_rr_value(BitOp::Clmulh, a, b) == bit_rr_value(BitOp::Clmulh, b, a),
        bit_rr_value(BitOp::Clmulr, a, b) == bit_rr_value(BitOp::Clmulr, b, a),
{
    lemma_grid(a, b, 64);
    lemma_grid(b, a, 64);
    lemma_grid_turns(a, b, 64, 64);
}

/// The bit-level facts behind the laws below.
proof fn lemma_rearrangements(a: u64, b: u64)
    by (bit_vector)
    ensures
        ((a as i64) < (b as i64)) == ((a ^ 0x8000_0000_0000_0000) < (b ^ 0x8000_0000_0000_0000)),
        (a & !b) | (a & b) == a,
        (a & !b) & b == 0,
        (a | !b) == !(b & !a),
        !(a ^ b) ^ (a ^ b) == 0xffff_ffff_ffff_ffff,
        join(a as u32, b as u32) & 0xffff_ffff == a & 0xffff_ffff,
        join(a as u32, b as u32) >> 32u32 == b & 0xffff_ffff,
        a as i8 as u64 & 0xff == a & 0xff,
        a & 0x80 == 0 ==> a as i8 as u64 == a & 0xff,
        a & 0x80 != 0 ==> a as i8 as u64 >= 0xffff_ffff_ffff_ff80u64,
        a as i16 as u64 & 0xffff == a & 0xffff,
        a & 0x8000 == 0 ==> a as i16 as u64 == a & 0xffff,
        a & 0x8000 != 0 ==> a as i16 as u64 >= 0xffff_ffff_ffff_8000u64,
        (a as u32) as i32 as u64 & 0xffff_ffff == a & 0xffff_ffff,
        ((a as u16 as u32) | ((b as u16 as u32) << 16u32)) & 0xffff == (a & 0xffff) as u32,
        ((a as u16 as u32) | ((b as u16 as u32) << 16u32)) >> 16u32 == (b & 0xffff) as u32,
{
}

/// Rotations by `n` and by its complement `m`.
#[verifier::spinoff_prover]
#[verifier::rlimit(100)]
proof fn lemma_rotated(a: u64, w: u32, n: u32, m: u32)
    by (bit_vector)
    requires
        0 < n < 64,
        m == 64 - n,
    ensures
        (((a >> n) | (a << m)) >> m) | (((a >> n) | (a << m)) << n) == a,
        n < 63 ==> (((a >> n) | (a << m)) >> 1u32) | (((a >> n) | (a << m)) << 63u32) == (a >> ((n
            + 1) as u32)) | (a << ((m - 1) as u32)),
        (a >> 1u32) | (a << 63u32) == (a >> 1u32) | ((a & 1) << 63u32),
        (w >> 1u32) | (w << 31u32) == (w >> 1u32) | ((w & 1) << 31u32),
        n < 31 ==> (((w >> n) | (w << ((m - 32) as u32))) >> 1u32) | (((w >> n) | (w << ((m
            - 32) as u32))) << 31u32) == (w >> ((n + 1) as u32)) | (w << ((m - 33) as u32)),
{
}

/// The minimum and the maximum are the two operands, in order: as signed
/// numbers, or as unsigned ones.
pub proof fn law_minimum_and_maximum(a: u64, b: u64)
    ensures
        ({
            let (lo, hi) = (bit_rr_value(BitOp::Minu, a, b), bit_rr_value(BitOp::Maxu, a, b));
            lo <= hi && lo + hi == a + b && (lo == a || lo == b)
        }),
        ({
            let (lo, hi) = (bit_rr_value(BitOp::Min, a, b), bit_rr_value(BitOp::Max, a, b));
            &&& lo ^ 0x8000_0000_0000_0000 <= hi ^ 0x8000_0000_0000_0000
            &&& lo + hi == a + b && (lo == a || lo == b)
        }),
{
    lemma_rearrangements(a, b);
}

/// andn keeps of its first operand what the second lacks, orn is the
/// complement of andn the other way round, and xnor that of the exclusive or.
pub proof fn law_complemented_operands(a: u64, b: u64)
    ensures
        bit_rr_value(BitOp::Andn, a, b) | (a & b) == a,
        bit_rr_value(BitOp::Andn, a, b) & b == 0,
        bit_rr_value(BitOp::Orn, a, b) == !bit_rr_value(BitOp::Andn, b, a),
        bit_rr_value(BitOp::Xnor, a, b) ^ (a ^ b) == u64::MAX,
{
    lemma_rearrangements(a, b);
}

/// A right rotation by one moves bit 0 to the top and all others down; by more
/// it is so many rotations by one; by nothing it changes nothing. The left
/// rotation undoes it. Only the low six bits of the amount count, and the
/// immediate form agrees.
pub proof fn law_rotations(a: u64, n: u64)
    ensures
        bit_rr_value(BitOp::Ror, a, 0) == a,
        bit_rr_value(BitOp::Ror, a, 1) == (a >> 1u32) | ((a & 1) << 63u32),
        n % 64 < 63 ==> bit_rr_value(BitOp::Ror, a, ((n % 64) + 1) as u64) == bit_rr_value(
            BitOp::Ror,
            bit_rr_value(BitOp::Ror, a, n),
            1,
        ),
        bit_rr_value(BitOp::Rol, bit_rr_value(BitOp::Ror, a, n), n) == a,
        bit_rr_value(BitOp::Ror, bit_rr_value(BitOp::Rol, a, n), n) == a,
        bit_imm_value(BitImmOp::Rori, a, (n % 64) as u32) == bit_rr_value(BitOp::Ror, a, n),
{
    let k = (n % 64) as u32;
    lemma_rotated(a, 0, 1, 63);
    lemma_rotated(bit_rr_value(BitOp::Ror, a, n), 0, 1, 63);
    if k > 0 {
        lemma_rotated(a, 0, k, (64 - k) as u32);
        lemma_rotated(a, 0, (64 - k) as u32, k);
    }
}

/// The word rotations: the same of the low word, sign-extended.
pub proof fn law_word_rotations(a: u64, n: u64)
    ensures
        bit_rr_value(BitOp::Rorw, a, 0) == sext32(a as u32),
        bit_rr_value(BitOp::Rorw, a, 1) == sext32(
            ((a as u32) >> 1u32) | (((a as u32) & 1) << 31u32),
        ),
        ror32(a as u32, 0) == a as u32,
        n % 32 < 31 ==> ror32(a as u32, ((n % 32) + 1) as u32) == ror32(
            ror32(a as u32, (n % 32) as u32),
            1,
        ),
        bit_rr_value(BitOp::Rorw, a, n) == sext32(ror32(a as u32, (n % 32) as u32)),
        bit_rr_value(BitOp::Rolw, a, n) == bit_rr_value(BitOp::Rorw, a, ((32 - n % 32) % 32) as u64),
        bit_imm_value(BitImmOp::Roriw, a, (n % 32) as u32) == bit_rr_value(BitOp::Rorw, a, n),
{
    let k = (n % 32) as u32;
    lemma_rotated(0, a as u32, 1, 63);
    if k > 0 {
        lemma_rotated(0, a as u32, k, (64 - k) as u32);
    }
}

/// pack puts the second operand's low word above the first's, packw their low
/// halfwords, sign-extended.
pub proof fn law_packing(a: u64, b: u64)
    ensures
        bit_rr_value(BitOp::Pack, a, b) & 0xffff_ffff == a & 0xffff_ffff,
        bit_rr_value(BitOp::Pack, a, b) >> 32u32 == b & 0xffff_ffff,
        exists|w: u32|
            bit_rr_value(BitOp::Packw, a, b) == #[trigger] sext32(w) && w & 0xffff == (a
                & 0xffff) as u32 && w >> 16u32 == (b & 0xffff) as u32,
{
    lemma_rearrangements(a, b);
    let w = (a as u16 as u32) | ((b as u16 as u32) << 16u32);
    assert(bit_rr_value(BitOp::Packw, a, b) == sext32(w));
}

/// The sign extensions keep the low byte or halfword and repeat its top bit.
pub proof fn law_sign_extensions(a: u64)
    ensures
        ({
            let x = bit_unary_value(BitUnaryOp::SextB, a);
            &&& x & 0xff == a & 0xff
            &&& a & 0x80 == 0 ==> x == a & 0xff
            &&& a & 0x80 != 0 ==> x >= 0xffff_ffff_ffff_ff80
        }),
        ({
            let x = bit_unary_value(BitUnaryOp::SextH, a);
            &&& x & 0xffff == a & 0xffff
            &&& a & 0x8000 == 0 ==> x == a & 0xffff
            &&& a & 0x8000 != 0 ==> x >= 0xffff_ffff_ffff_8000
        }),
{
    lemma_rearrangements(a, 0);
}

/// Counting: zero has 64 leading and trailing zeros and no ones. Above the
/// leading zeros stands a one, below the trailing zeros nothing. A number has
/// the ones of its half, and one more if it is odd.
pub proof fn law_counts(a: u64)
    ensures
        bit_unary_value(BitUnaryOp::Clz, 0) == 64,
        bit_unary_value(BitUnaryOp::Ctz, 0) == 64,
        bit_unary_value(BitUnaryOp::Cpop, 0) == 0,
        a != 0 ==> {
            let n = bit_unary_value(BitUnaryOp::Clz, a);
            n < 64 && (a >> ((63 - n) as u64)) & 1 != 0 && (n > 0 ==> a >> ((64 - n) as u64) == 0)
        },
        a != 0 ==> {
            let n = bit_unary_value(BitUnaryOp::Ctz, a);
            n < 64 && (a >> n) & 1 == 1 && (n > 0 ==> a << ((64 - n) as u64) == 0)
        },
        ones(a) == ones(a / 2) + a % 2,
        bit_unary_value(BitUnaryOp::Cpop, a) == ones(a),
        bit_unary_value(BitUnaryOp::Cpopw, a) == ones(a as u32 as u64),
{
    broadcast use vstd::std_specs::bits::group_bits_axioms;

    vstd::arithmetic::power2::lemma2_to64();
    lemma_ones_below(a, 64);
    lemma_ones_below(a as u32 as u64, 64);
}

proof fn lemma_ones_below(x: u64, n: nat)
    requires
        x < vstd::arithmetic::power2::pow2(n),
    ensures
        ones(x) <= n,
    decreases n,
{
    if x != 0 {
        if n == 0 {
            vstd::arithmetic::power2::lemma2_to64();
        } else {
            vstd::arithmetic::power2::lemma_pow2_unfold(n);
            lemma_ones_below(x / 2, (n - 1) as nat);
        }
    }
}

} // verus!
