//! Little-endian numbers as byte sequences.
use vstd::prelude::*;

verus! {

/// 256 to the power `n`.
pub open spec fn pow256(n: nat) -> nat
    decreases n,
{
    if n == 0 {
        1
    } else {
        256 * pow256((n - 1) as nat)
    }
}

/// The number whose base-256 digits are `s`, least significant first.
pub open spec fn le_value(s: Seq<u8>) -> nat
    decreases s.len(),
{
    if s.len() == 0 {
        0
    } else {
        s[0] as nat + 256 * le_value(s.subrange(1, s.len() as int))
    }
}

/// The `n` low base-256 digits of `v`, least significant first.
pub open spec fn le_bytes(v: nat, n: nat) -> Seq<u8>
    decreases n,
{
    if n == 0 {
        Seq::empty()
    } else {
        seq![(v % 256) as u8] + le_bytes(v / 256, (n - 1) as nat)
    }
}

/// The powers a machine word needs, spelled out.
pub proof fn lemma_pow256()
    ensures
        pow256(0) == 1,
        pow256(1) == 0x100,
        pow256(2) == 0x1_0000,
        pow256(3) == 0x100_0000,
        pow256(4) == 0x1_0000_0000,
        pow256(5) == 0x100_0000_0000,
        pow256(6) == 0x1_0000_0000_0000,
        pow256(7) == 0x100_0000_0000_0000,
        pow256(8) == 0x1_0000_0000_0000_0000,
{
    reveal_with_fuel(pow256, 9);
}

pub proof fn lemma_pow256_monotonic(a: nat, b: nat)
    requires
        a <= b,
    ensures
        0 < pow256(a) <= pow256(b),
    decreases b,
{
    if a < b {
        lemma_pow256_monotonic(a, (b - 1) as nat);
    } else if b > 0 {
        lemma_pow256_monotonic((a - 1) as nat, (b - 1) as nat);
    }
}

/// `n` bytes hold numbers below 256 to the `n`.
pub proof fn lemma_le_value_bound(s: Seq<u8>)
    ensures
        le_value(s) < pow256(s.len()),
    decreases s.len(),
{
    if s.len() > 0 {
        lemma_le_value_bound(s.subrange(1, s.len() as int));
    }
}

pub proof fn lemma_le_bytes_len(v: nat, n: nat)
    ensures
        le_bytes(v, n).len() == n,
    decreases n,
{
    if n > 0 {
        lemma_le_bytes_len(v / 256, (n - 1) as nat);
    }
}

/// Reading back the digits of a number that fits gives the number.
pub proof fn lemma_le_round_trip(v: nat, n: nat)
    requires
        v < pow256(n),
    ensures
        le_value(le_bytes(v, n)) == v,
        le_bytes(v, n).len() == n,
    decreases n,
{
    lemma_le_bytes_len(v, n);
    if n > 0 {
        lemma_le_round_trip(v / 256, (n - 1) as nat);
        let s = le_bytes(v, n);
        assert(s.subrange(1, n as int) =~= le_bytes(v / 256, (n - 1) as nat));
        assert(s[0] == v % 256);
    }
}

/// The low digits of a number are its remainder.
pub proof fn lemma_le_low_part(v: nat, n: nat)
    ensures
        le_value(le_bytes(v, n)) == v % pow256(n),
    decreases n,
{
    lemma_le_bytes_len(v, n);
    if n > 0 {
        let m = (n - 1) as nat;
        lemma_le_low_part(v / 256, m);
        lemma_pow256_monotonic(0, m);
        vstd::arithmetic::div_mod::lemma_mod_breakdown(v as int, 256, pow256(m) as int);
        let s = le_bytes(v, n);
        assert(s.subrange(1, n as int) =~= le_bytes(v / 256, m));
        assert(s[0] == v % 256);
    }
}

/// The digits of the number read from `s` are `s`.
pub proof fn lemma_le_digits(s: Seq<u8>)
    ensures
        le_bytes(le_value(s), s.len()) =~= s,
    decreases s.len(),
{
    if s.len() > 0 {
        let rest = s.subrange(1, s.len() as int);
        lemma_le_digits(rest);
        let v = le_value(s);
        assert(v % 256 == s[0] && v / 256 == le_value(rest));
        assert(le_bytes(v, s.len()) =~= seq![s[0]] + rest);
    }
}

/// A number of at most eight bytes fits a `u64`.
pub proof fn lemma_le_fits(s: Seq<u8>)
    requires
        s.len() <= 8,
    ensures
        le_value(s) <= u64::MAX,
        s.len() <= 1 ==> le_value(s) <= u8::MAX,
        s.len() <= 2 ==> le_value(s) <= u16::MAX,
        s.len() <= 4 ==> le_value(s) <= u32::MAX,
{
    lemma_le_value_bound(s);
    lemma_pow256();
    lemma_pow256_monotonic(s.len(), 8);
    if s.len() <= 4 {
        lemma_pow256_monotonic(s.len(), 4);
    }
    if s.len() <= 2 {
        lemma_pow256_monotonic(s.len(), 2);
    }
    if s.len() <= 1 {
        lemma_pow256_monotonic(s.len(), 1);
    }
}

/// Read the `count` bytes at `start` as one number.
pub fn read_le(data: &[u8], start: usize, count: usize) -> (r: u64)
    requires
        count <= 8,
        start + count <= data@.len(),
    ensures
        r == le_value(data@.subrange(start as int, start + count)),
{
    let ghost whole = data@.subrange(start as int, start + count);
    let mut value: u64 = 0;
    let mut i: usize = count;
    assert(whole.subrange(count as int, count as int) =~= Seq::empty());
    while i > 0
        invariant
            i <= count <= 8,
            start + count <= data.len(),
            whole == data@.subrange(start as int, start + count),
            value == le_value(whole.subrange(i as int, count as int)),
        decreases i,
    {
        i = i - 1;
        let ghost tail = whole.subrange(i as int, count as int);
        proof {
            assert(tail.subrange(1, tail.len() as int) =~= whole.subrange(i + 1, count as int));
            lemma_le_fits(tail);
        }
        value = value * 256 + data[start + i] as u64;
    }
    assert(whole.subrange(0, count as int) =~= whole);
    value
}

/// Append the `count` low bytes of `value`.
pub fn push_le(out: &mut Vec<u8>, value: u64, count: usize)
    ensures
        final(out)@ == old(out)@ + le_bytes(value as nat, count as nat),
{
    let mut rest: u64 = value;
    let mut i: usize = 0;
    while i < count
        invariant
            i <= count,
            out@ + le_bytes(rest as nat, (count - i) as nat) == old(out)@ + le_bytes(
                value as nat,
                count as nat,
            ),
        decreases count - i,
    {
        proof {
            let tail = le_bytes(rest as nat / 256, (count - i - 1) as nat);
            assert(out@ + (seq![(rest as nat % 256) as u8] + tail) =~= out@.push(
                (rest as nat % 256) as u8,
            ) + tail);
        }
        out.push((rest % 256) as u8);
        rest = rest / 256;
        i = i + 1;
    }
    assert(out@ + Seq::<u8>::empty() =~= out@);
}

} // verus!
