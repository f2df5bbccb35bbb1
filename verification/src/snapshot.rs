//! The snapshot container: versioned, length-prefixed sections of
//! little-endian fields.
//!
//! A section is a `u16` version, a `u32` payload length and the payload. The
//! `and_*` functions say what reading a run of fields yields: each takes what
//! has been read so far and adds one field, or passes on the first error.
use vstd::prelude::*;

use crate::le::{
    le_bytes, le_value, lemma_le_bytes_len, lemma_le_fits, lemma_le_round_trip, lemma_pow256,
    push_le, read_le,
};

verus! {

/// Why a snapshot was refused.
#[derive(Debug, Clone, Copy, PartialEq, Eq, Structural)]
#[allow(inconsistent_fields)]
pub enum RestoreError {
    /// The data ends inside a field.
    Truncated,
    /// A section of a version this build does not read.
    Version { found: u16, expected: u16 },
    /// Bytes left over at the end of a section.
    Trailing { count: usize },
    /// A flag byte that is neither zero nor one.
    NotABool { found: u8 },
    /// A CSR file of another size.
    CsrSlots { found: u32 },
    /// Not a privilege mode.
    PrivilegeMode { found: u8 },
    /// An interrupt controller of another size.
    PlicGeometry { sources: u32, contexts: u32 },
    /// More received bytes than the FIFO holds.
    UartRx { count: usize },
    /// Interrupt levels outside the platform profile.
    PendingMask { found: u32 },
    /// A device with other queues.
    Queues { queues: u32, size_max: u16 },
    /// More input events than the backlog holds.
    InputEvents { count: u32 },
    /// More received frames than the inbox holds.
    Inbox { count: u32 },
    /// More transmitted frames than the outbox holds.
    Outbox { count: u32 },
    /// More entropy than the reservoir holds.
    Entropy { count: usize },
    /// More console bytes than a buffer holds.
    Console,
    /// A committed framebuffer of another size.
    FramebufferSize,
    /// A display mode out of range.
    FramebufferGeometry,
    /// A pending display mode out of range.
    PendingGeometry,
}

/// What has been read so far and the bytes still unread, or the first error.
pub type Parsed<A> = Result<(A, Seq<u8>), RestoreError>;

// ---------------------------------------------------------------------------
// Encoded fields
// ---------------------------------------------------------------------------

pub open spec fn enc_bool(v: bool) -> Seq<u8> {
    seq![if v {
        1u8
    } else {
        0u8
    }]
}

pub open spec fn enc_u16(v: u16) -> Seq<u8> {
    le_bytes(v as nat, 2)
}

pub open spec fn enc_u32(v: u32) -> Seq<u8> {
    le_bytes(v as nat, 4)
}

pub open spec fn enc_u64(v: u64) -> Seq<u8> {
    le_bytes(v as nat, 8)
}

/// A byte string: its length as a `u32`, then the bytes.
pub open spec fn enc_bytes(v: Seq<u8>) -> Seq<u8> {
    le_bytes(v.len(), 4) + v
}

pub open spec fn enc_u32s(v: Seq<u32>) -> Seq<u8>
    decreases v.len(),
{
    if v.len() == 0 {
        Seq::empty()
    } else {
        enc_u32(v[0]) + enc_u32s(v.subrange(1, v.len() as int))
    }
}

pub open spec fn enc_u64s(v: Seq<u64>) -> Seq<u8>
    decreases v.len(),
{
    if v.len() == 0 {
        Seq::empty()
    } else {
        enc_u64(v[0]) + enc_u64s(v.subrange(1, v.len() as int))
    }
}

pub open spec fn enc_section(version: u16, payload: Seq<u8>) -> Seq<u8> {
    enc_u16(version) + enc_bytes(payload)
}

// ---------------------------------------------------------------------------
// What reading yields
// ---------------------------------------------------------------------------

/// Nothing read yet.
pub open spec fn start(b: Seq<u8>) -> Parsed<()> {
    Ok(((), b))
}

/// The next `n` bytes.
pub open spec fn and_raw<A>(prev: Parsed<A>, n: nat) -> Parsed<(A, Seq<u8>)> {
    match prev {
        Err(e) => Err(e),
        Ok((a, b)) => if b.len() < n {
            Err(RestoreError::Truncated)
        } else {
            Ok(((a, b.subrange(0, n as int)), b.subrange(n as int, b.len() as int)))
        },
    }
}

pub open spec fn and_u8<A>(prev: Parsed<A>) -> Parsed<(A, u8)> {
    match and_raw(prev, 1) {
        Err(e) => Err(e),
        Ok(((a, s), rest)) => Ok(((a, s[0]), rest)),
    }
}

pub open spec fn and_bool<A>(prev: Parsed<A>) -> Parsed<(A, bool)> {
    match and_u8(prev) {
        Err(e) => Err(e),
        Ok(((a, v), rest)) => if v > 1 {
            Err(RestoreError::NotABool { found: v })
        } else {
            Ok(((a, v == 1), rest))
        },
    }
}

pub open spec fn and_u16<A>(prev: Parsed<A>) -> Parsed<(A, u16)> {
    match and_raw(prev, 2) {
        Err(e) => Err(e),
        Ok(((a, s), rest)) => Ok(((a, le_value(s) as u16), rest)),
    }
}

pub open spec fn and_u32<A>(prev: Parsed<A>) -> Parsed<(A, u32)> {
    match and_raw(prev, 4) {
        Err(e) => Err(e),
        Ok(((a, s), rest)) => Ok(((a, le_value(s) as u32), rest)),
    }
}

pub open spec fn and_u64<A>(prev: Parsed<A>) -> Parsed<(A, u64)> {
    match and_raw(prev, 8) {
        Err(e) => Err(e),
        Ok(((a, s), rest)) => Ok(((a, le_value(s) as u64), rest)),
    }
}

/// A length-prefixed byte string.
pub open spec fn and_bytes<A>(prev: Parsed<A>) -> Parsed<(A, Seq<u8>)> {
    match and_u32(prev) {
        Err(e) => Err(e),
        Ok(((a, n), rest)) => and_raw(Ok((a, rest)), n as nat),
    }
}

/// The `n` words at the front of the data.
pub open spec fn take_u32s(b: Seq<u8>, n: nat) -> Parsed<Seq<u32>>
    decreases n,
{
    if n == 0 {
        Ok((Seq::empty(), b))
    } else {
        match and_u32(take_u32s(b, (n - 1) as nat)) {
            Err(e) => Err(e),
            Ok(((s, v), rest)) => Ok((s.push(v), rest)),
        }
    }
}

pub open spec fn and_u32s<A>(prev: Parsed<A>, n: nat) -> Parsed<(A, Seq<u32>)> {
    match prev {
        Err(e) => Err(e),
        Ok((a, b)) => match take_u32s(b, n) {
            Err(e) => Err(e),
            Ok((s, rest)) => Ok(((a, s), rest)),
        },
    }
}

/// The `n` words at the front of the data.
pub open spec fn take_u64s(b: Seq<u8>, n: nat) -> Parsed<Seq<u64>>
    decreases n,
{
    if n == 0 {
        Ok((Seq::empty(), b))
    } else {
        match and_u64(take_u64s(b, (n - 1) as nat)) {
            Err(e) => Err(e),
            Ok(((s, v), rest)) => Ok((s.push(v), rest)),
        }
    }
}

pub open spec fn and_u64s<A>(prev: Parsed<A>, n: nat) -> Parsed<(A, Seq<u64>)> {
    match prev {
        Err(e) => Err(e),
        Ok((a, b)) => match take_u64s(b, n) {
            Err(e) => Err(e),
            Ok((s, rest)) => Ok(((a, s), rest)),
        },
    }
}

/// The payload of the next section, which must have the given version.
pub open spec fn and_section<A>(prev: Parsed<A>, version: u16) -> Parsed<(A, Seq<u8>)> {
    match and_u16(prev) {
        Err(e) => Err(e),
        Ok(((a, found), rest)) => if found != version {
            Err(RestoreError::Version { found, expected: version })
        } else {
            and_bytes(Ok((a, rest)))
        },
    }
}

/// The end of a section: nothing may be left.
pub open spec fn and_end<A>(prev: Parsed<A>) -> Result<A, RestoreError> {
    match prev {
        Err(e) => Err(e),
        Ok((a, rest)) => if rest.len() == 0 {
            Ok(a)
        } else {
            Err(RestoreError::Trailing { count: rest.len() as usize })
        },
    }
}

// ---------------------------------------------------------------------------
// Reading back what was written
// ---------------------------------------------------------------------------

pub proof fn lemma_read_raw<A>(a: A, v: Seq<u8>, tail: Seq<u8>)
    ensures
        and_raw(Ok((a, v + tail)), v.len()) == Parsed::<(A, Seq<u8>)>::Ok(((a, v), tail)),
{
    assert((v + tail).subrange(0, v.len() as int) =~= v);
    assert((v + tail).subrange(v.len() as int, (v + tail).len() as int) =~= tail);
}

pub proof fn lemma_read_u8<A>(a: A, v: u8, tail: Seq<u8>)
    ensures
        and_u8(Ok((a, seq![v] + tail))) == Parsed::<(A, u8)>::Ok(((a, v), tail)),
{
    lemma_read_raw(a, seq![v], tail);
}

pub proof fn lemma_read_bool<A>(a: A, v: bool, tail: Seq<u8>)
    ensures
        and_bool(Ok((a, enc_bool(v) + tail))) == Parsed::<(A, bool)>::Ok(((a, v), tail)),
{
    lemma_read_raw(a, enc_bool(v), tail);
}

pub proof fn lemma_read_u16<A>(a: A, v: u16, tail: Seq<u8>)
    ensures
        and_u16(Ok((a, enc_u16(v) + tail))) == Parsed::<(A, u16)>::Ok(((a, v), tail)),
{
    lemma_pow256();
    lemma_le_round_trip(v as nat, 2);
    lemma_read_raw(a, enc_u16(v), tail);
}

pub proof fn lemma_read_u32<A>(a: A, v: u32, tail: Seq<u8>)
    ensures
        and_u32(Ok((a, enc_u32(v) + tail))) == Parsed::<(A, u32)>::Ok(((a, v), tail)),
        enc_u32(v).len() == 4,
{
    lemma_pow256();
    lemma_le_round_trip(v as nat, 4);
    lemma_read_raw(a, enc_u32(v), tail);
}

pub proof fn lemma_read_u64<A>(a: A, v: u64, tail: Seq<u8>)
    ensures
        and_u64(Ok((a, enc_u64(v) + tail))) == Parsed::<(A, u64)>::Ok(((a, v), tail)),
        enc_u64(v).len() == 8,
{
    lemma_pow256();
    lemma_le_round_trip(v as nat, 8);
    lemma_read_raw(a, enc_u64(v), tail);
}

pub proof fn lemma_read_bytes<A>(a: A, v: Seq<u8>, tail: Seq<u8>)
    requires
        v.len() <= u32::MAX,
    ensures
        and_bytes(Ok((a, enc_bytes(v) + tail))) == Parsed::<(A, Seq<u8>)>::Ok(((a, v), tail)),
{
    lemma_read_u32(a, v.len() as u32, v + tail);
    assert(enc_bytes(v) + tail =~= enc_u32(v.len() as u32) + (v + tail));
    lemma_read_raw(a, v, tail);
}

pub proof fn lemma_read_section<A>(a: A, version: u16, v: Seq<u8>, tail: Seq<u8>)
    requires
        v.len() <= u32::MAX,
    ensures
        and_section(Ok((a, enc_section(version, v) + tail)), version) == Parsed::<(A, Seq<u8>)>::Ok(
            ((a, v), tail),
        ),
{
    lemma_read_u16(a, version, enc_bytes(v) + tail);
    assert(enc_section(version, v) + tail =~= enc_u16(version) + (enc_bytes(v) + tail));
    lemma_read_bytes(a, v, tail);
}

/// The encoding of a run of words ends with the encoding of its last.
pub proof fn lemma_enc_u32s_push(s: Seq<u32>, v: u32)
    ensures
        enc_u32s(s.push(v)) == enc_u32s(s) + enc_u32(v),
    decreases s.len(),
{
    if s.len() == 0 {
        reveal_with_fuel(enc_u32s, 2);
        assert(s.push(v).subrange(1, 1) =~= Seq::<u32>::empty());
        assert(enc_u32s(s.push(v)) =~= enc_u32(v));
        assert(enc_u32s(s) + enc_u32(v) =~= enc_u32(v));
    } else {
        let rest = s.subrange(1, s.len() as int);
        lemma_enc_u32s_push(rest, v);
        assert(s.push(v).subrange(1, s.len() as int + 1) =~= rest.push(v));
        assert(enc_u32(s[0]) + (enc_u32s(rest) + enc_u32(v)) =~= (enc_u32(s[0]) + enc_u32s(rest))
            + enc_u32(v));
    }
}

pub proof fn lemma_enc_u64s_push(s: Seq<u64>, v: u64)
    ensures
        enc_u64s(s.push(v)) == enc_u64s(s) + enc_u64(v),
    decreases s.len(),
{
    if s.len() == 0 {
        reveal_with_fuel(enc_u64s, 2);
        assert(s.push(v).subrange(1, 1) =~= Seq::<u64>::empty());
        assert(enc_u64s(s.push(v)) =~= enc_u64(v));
        assert(enc_u64s(s) + enc_u64(v) =~= enc_u64(v));
    } else {
        let rest = s.subrange(1, s.len() as int);
        lemma_enc_u64s_push(rest, v);
        assert(s.push(v).subrange(1, s.len() as int + 1) =~= rest.push(v));
        assert(enc_u64(s[0]) + (enc_u64s(rest) + enc_u64(v)) =~= (enc_u64(s[0]) + enc_u64s(rest))
            + enc_u64(v));
    }
}

proof fn lemma_take_u32s(s: Seq<u32>, tail: Seq<u8>)
    ensures
        take_u32s(enc_u32s(s) + tail, s.len()) == Parsed::<Seq<u32>>::Ok((s, tail)),
    decreases s.len(),
{
    if s.len() == 0 {
        assert(enc_u32s(s) + tail =~= tail);
        assert(s =~= Seq::empty());
    } else {
        let front = s.drop_last();
        lemma_enc_u32s_push(front, s.last());
        assert(front.push(s.last()) =~= s);
        lemma_take_u32s(front, enc_u32(s.last()) + tail);
        assert(enc_u32s(s) + tail =~= enc_u32s(front) + (enc_u32(s.last()) + tail));
        lemma_read_u32(front, s.last(), tail);
    }
}

pub proof fn lemma_read_u32s<A>(a: A, s: Seq<u32>, tail: Seq<u8>)
    ensures
        and_u32s(Ok((a, enc_u32s(s) + tail)), s.len()) == Parsed::<(A, Seq<u32>)>::Ok(
            ((a, s), tail),
        ),
{
    lemma_take_u32s(s, tail);
}

proof fn lemma_take_u64s(s: Seq<u64>, tail: Seq<u8>)
    ensures
        take_u64s(enc_u64s(s) + tail, s.len()) == Parsed::<Seq<u64>>::Ok((s, tail)),
    decreases s.len(),
{
    if s.len() == 0 {
        assert(enc_u64s(s) + tail =~= tail);
        assert(s =~= Seq::empty());
    } else {
        let front = s.drop_last();
        lemma_enc_u64s_push(front, s.last());
        assert(front.push(s.last()) =~= s);
        lemma_take_u64s(front, enc_u64(s.last()) + tail);
        assert(enc_u64s(s) + tail =~= enc_u64s(front) + (enc_u64(s.last()) + tail));
        lemma_read_u64(front, s.last(), tail);
    }
}

pub proof fn lemma_read_u64s<A>(a: A, s: Seq<u64>, tail: Seq<u8>)
    ensures
        and_u64s(Ok((a, enc_u64s(s) + tail)), s.len()) == Parsed::<(A, Seq<u64>)>::Ok(
            ((a, s), tail),
        ),
{
    lemma_take_u64s(s, tail);
}

/// Once a word of a run cannot be read, the run cannot.
proof fn lemma_u32s_error(b: Seq<u8>, n: nat, m: nat, e: RestoreError)
    requires
        n <= m,
        take_u32s(b, n) == Parsed::<Seq<u32>>::Err(e),
    ensures
        take_u32s(b, m) == Parsed::<Seq<u32>>::Err(e),
    decreases m,
{
    if n < m {
        lemma_u32s_error(b, n, (m - 1) as nat, e);
    }
}

pub proof fn lemma_enc_u32s_len(s: Seq<u32>)
    ensures
        enc_u32s(s).len() == 4 * s.len(),
    decreases s.len(),
{
    if s.len() > 0 {
        lemma_enc_u32s_len(s.subrange(1, s.len() as int));
        lemma_le_bytes_len(s[0] as nat, 4);
    }
}

/// Once a word of a run cannot be read, the run cannot.
proof fn lemma_u64s_error(b: Seq<u8>, n: nat, m: nat, e: RestoreError)
    requires
        n <= m,
        take_u64s(b, n) == Parsed::<Seq<u64>>::Err(e),
    ensures
        take_u64s(b, m) == Parsed::<Seq<u64>>::Err(e),
    decreases m,
{
    if n < m {
        lemma_u64s_error(b, n, (m - 1) as nat, e);
    }
}

pub proof fn lemma_enc_u64s_len(s: Seq<u64>)
    ensures
        enc_u64s(s).len() == 8 * s.len(),
    decreases s.len(),
{
    if s.len() > 0 {
        lemma_enc_u64s_len(s.subrange(1, s.len() as int));
        lemma_le_bytes_len(s[0] as nat, 8);
    }
}

// ---------------------------------------------------------------------------
// Writer
// ---------------------------------------------------------------------------

/// Accumulates encoded fields.
pub struct Writer {
    pub out: Vec<u8>,
}

impl View for Writer {
    type V = Seq<u8>;

    open spec fn view(&self) -> Seq<u8> {
        self.out@
    }
}

impl Writer {
    pub fn new() -> (r: Self)
        ensures
            r@ == Seq::<u8>::empty(),
    {
        Writer { out: Vec::new() }
    }

    pub fn into_bytes(self) -> (r: Vec<u8>)
        ensures
            r@ == self@,
    {
        self.out
    }

    pub fn u8(&mut self, v: u8)
        ensures
            final(self)@ == old(self)@ + seq![v],
    {
        self.out.push(v);
        assert(self@ =~= old(self)@ + seq![v]);
    }

    pub fn bool(&mut self, v: bool)
        ensures
            final(self)@ == old(self)@ + enc_bool(v),
    {
        self.out.push(if v {
            1
        } else {
            0
        });
        assert(self@ =~= old(self)@ + enc_bool(v));
    }

    pub fn u16(&mut self, v: u16)
        ensures
            final(self)@ == old(self)@ + enc_u16(v),
    {
        push_le(&mut self.out, v as u64, 2);
    }

    pub fn u32(&mut self, v: u32)
        ensures
            final(self)@ == old(self)@ + enc_u32(v),
    {
        push_le(&mut self.out, v as u64, 4);
    }

    pub fn u64(&mut self, v: u64)
        ensures
            final(self)@ == old(self)@ + enc_u64(v),
    {
        push_le(&mut self.out, v, 8);
    }

    /// A run of words.
    pub fn u32s(&mut self, v: &[u32])
        ensures
            final(self)@ == old(self)@ + enc_u32s(v@),
    {
        let mut i: usize = 0;
        assert(old(self)@ + enc_u32s(v@.subrange(0, 0)) =~= old(self)@);
        while i < v.len()
            invariant
                i <= v@.len(),
                self@ == old(self)@ + enc_u32s(v@.subrange(0, i as int)),
            decreases v.len() - i,
        {
            self.u32(v[i]);
            proof {
                let head = v@.subrange(0, i as int);
                lemma_enc_u32s_push(head, v@[i as int]);
                assert(v@.subrange(0, i + 1) =~= head.push(v@[i as int]));
                assert(self@ =~= old(self)@ + enc_u32s(v@.subrange(0, i + 1)));
            }
            i = i + 1;
        }
        assert(v@.subrange(0, v@.len() as int) =~= v@);
    }

    /// A run of words.
    pub fn u64s(&mut self, v: &[u64])
        ensures
            final(self)@ == old(self)@ + enc_u64s(v@),
    {
        let mut i: usize = 0;
        assert(old(self)@ + enc_u64s(v@.subrange(0, 0)) =~= old(self)@);
        while i < v.len()
            invariant
                i <= v@.len(),
                self@ == old(self)@ + enc_u64s(v@.subrange(0, i as int)),
            decreases v.len() - i,
        {
            self.u64(v[i]);
            proof {
                let head = v@.subrange(0, i as int);
                lemma_enc_u64s_push(head, v@[i as int]);
                assert(v@.subrange(0, i + 1) =~= head.push(v@[i as int]));
                assert(self@ =~= old(self)@ + enc_u64s(v@.subrange(0, i + 1)));
            }
            i = i + 1;
        }
        assert(v@.subrange(0, v@.len() as int) =~= v@);
    }

    /// Bytes as they are, without a length.
    pub fn raw(&mut self, v: &[u8])
        ensures
            final(self)@ == old(self)@ + v@,
    {
        let mut i: usize = 0;
        while i < v.len()
            invariant
                i <= v@.len(),
                self.out@ == old(self).out@ + v@.subrange(0, i as int),
            decreases v.len() - i,
        {
            self.out.push(v[i]);
            i = i + 1;
            assert(self.out@ =~= old(self).out@ + v@.subrange(0, i as int));
        }
        assert(v@.subrange(0, v@.len() as int) =~= v@);
        assert(self.out@ =~= old(self).out@ + v@);
    }

    /// A byte string with its length in front.
    pub fn bytes(&mut self, v: &[u8])
        requires
            v@.len() <= u32::MAX,
        ensures
            final(self)@ == old(self)@ + enc_bytes(v@),
    {
        self.u32(v.len() as u32);
        self.raw(v);
        assert(self@ =~= old(self)@ + enc_bytes(v@));
    }

    /// Wrap what `payload` accumulated as one section.
    pub fn section(&mut self, version: u16, payload: &Writer)
        requires
            payload@.len() <= u32::MAX,
        ensures
            final(self)@ == old(self)@ + enc_section(version, payload@),
    {
        self.u16(version);
        self.bytes(payload.out.as_slice());
        assert(self@ =~= old(self)@ + enc_section(version, payload@));
    }
}

impl Default for Writer {
    fn default() -> (r: Self)
        ensures
            r@ == Seq::<u8>::empty(),
    {
        Self::new()
    }
}

// ---------------------------------------------------------------------------
// Reader
// ---------------------------------------------------------------------------

/// A position in encoded data.
#[derive(Clone, Copy)]
pub struct Reader<'a> {
    pub data: &'a [u8],
    pub pos: usize,
}

impl<'a> Reader<'a> {
    pub open spec fn wf(&self) -> bool {
        self.pos <= self.data@.len()
    }

    /// The bytes still unread.
    pub open spec fn rest(&self) -> Seq<u8> {
        self.data@.subrange(self.pos as int, self.data@.len() as int)
    }

    pub fn new(data: &'a [u8]) -> (r: Reader<'a>)
        ensures
            r.wf(),
            r.rest() == data@,
    {
        let r = Reader { data, pos: 0 };
        assert(r.rest() =~= data@);
        r
    }

    /// The next `n` bytes. When fewer are left, none is consumed; nor is any by
    /// a number that runs short.
    pub fn raw(&mut self, n: usize) -> (r: Result<&'a [u8], RestoreError>)
        requires
            old(self).wf(),
        ensures
            final(self).wf(),
            match and_raw(start(old(self).rest()), n as nat) {
                Ok(((_, s), rest)) => r is Ok && r->Ok_0@ == s && final(self).rest() == rest,
                Err(e) => r == Err::<&'a [u8], RestoreError>(e) && *final(self) == *old(self),
            },
    {
        if self.data.len() - self.pos < n {
            return Err(RestoreError::Truncated);
        }
        let start: usize = self.pos;
        let s = vstd::slice::slice_subrange(self.data, start, start + n);
        self.pos = start + n;
        assert(s@ =~= old(self).rest().subrange(0, n as int));
        assert(self.rest() =~= old(self).rest().subrange(n as int, old(self).rest().len() as int));
        Ok(s)
    }

    /// The next `n` bytes as a number.
    fn number(&mut self, n: usize) -> (r: Result<u64, RestoreError>)
        requires
            old(self).wf(),
            n <= 8,
        ensures
            final(self).wf(),
            match and_raw(start(old(self).rest()), n as nat) {
                Ok(((_, s), rest)) => r == Ok::<u64, RestoreError>(le_value(s) as u64) && le_value(
                    s,
                ) <= u64::MAX && s.len() == n && final(self).rest() == rest,
                Err(e) => r == Err::<u64, RestoreError>(e) && *final(self) == *old(self),
            },
    {
        let s = self.raw(n)?;
        proof {
            lemma_le_fits(s@);
            assert(s@.subrange(0, n as int) =~= s@);
        }
        Ok(read_le(s, 0, n))
    }

    pub fn u8(&mut self) -> (r: Result<u8, RestoreError>)
        requires
            old(self).wf(),
        ensures
            final(self).wf(),
            match and_u8(start(old(self).rest())) {
                Ok(((_, v), rest)) => r == Ok::<u8, RestoreError>(v) && final(self).rest() == rest,
                Err(e) => r == Err::<u8, RestoreError>(e) && *final(self) == *old(self),
            },
    {
        let s = self.raw(1)?;
        Ok(s[0])
    }

    /// One byte, 0 or 1. Any other is refused, and consumed.
    pub fn bool(&mut self) -> (r: Result<bool, RestoreError>)
        requires
            old(self).wf(),
        ensures
            final(self).wf(),
            match and_bool(start(old(self).rest())) {
                Ok(((_, v), rest)) => r == Ok::<bool, RestoreError>(v) && final(self).rest()
                    == rest,
                Err(e) => r == Err::<bool, RestoreError>(e) && if old(self).rest().len() == 0 {
                    *final(self) == *old(self)
                } else {
                    final(self).rest() == old(self).rest().skip(1)
                },
            },
    {
        let v: u8 = self.u8()?;
        if v > 1 {
            return Err(RestoreError::NotABool { found: v });
        }
        Ok(v == 1)
    }

    pub fn u16(&mut self) -> (r: Result<u16, RestoreError>)
        requires
            old(self).wf(),
        ensures
            final(self).wf(),
            match and_u16(start(old(self).rest())) {
                Ok(((_, v), rest)) => r == Ok::<u16, RestoreError>(v) && final(self).rest()
                    == rest,
                Err(e) => r == Err::<u16, RestoreError>(e) && *final(self) == *old(self),
            },
    {
        proof {
            if old(self).rest().len() >= 2 {
                lemma_le_fits(old(self).rest().subrange(0, 2));
            }
        }
        let v: u64 = self.number(2)?;
        Ok(v as u16)
    }

    pub fn u32(&mut self) -> (r: Result<u32, RestoreError>)
        requires
            old(self).wf(),
        ensures
            final(self).wf(),
            match and_u32(start(old(self).rest())) {
                Ok(((_, v), rest)) => r == Ok::<u32, RestoreError>(v) && final(self).rest()
                    == rest,
                Err(e) => r == Err::<u32, RestoreError>(e) && *final(self) == *old(self),
            },
    {
        proof {
            if old(self).rest().len() >= 4 {
                lemma_le_fits(old(self).rest().subrange(0, 4));
            }
        }
        let v: u64 = self.number(4)?;
        Ok(v as u32)
    }

    pub fn u64(&mut self) -> (r: Result<u64, RestoreError>)
        requires
            old(self).wf(),
        ensures
            final(self).wf(),
            match and_u64(start(old(self).rest())) {
                Ok(((_, v), rest)) => r == Ok::<u64, RestoreError>(v) && final(self).rest()
                    == rest,
                Err(e) => r == Err::<u64, RestoreError>(e) && *final(self) == *old(self),
            },
    {
        self.number(8)
    }

    /// A length-prefixed byte string.
    pub fn bytes(&mut self) -> (r: Result<&'a [u8], RestoreError>)
        requires
            old(self).wf(),
        ensures
            final(self).wf(),
            match and_bytes(start(old(self).rest())) {
                Ok(((_, s), rest)) => r is Ok && r->Ok_0@ == s && final(self).rest() == rest,
                Err(e) => r == Err::<&'a [u8], RestoreError>(e),
            },
    {
        let n: u32 = self.u32()?;
        self.raw(n as usize)
    }

    /// A run of `n` words.
    pub fn u32s(&mut self, n: usize) -> (r: Result<Vec<u32>, RestoreError>)
        requires
            old(self).wf(),
        ensures
            final(self).wf(),
            match and_u32s(start(old(self).rest()), n as nat) {
                Ok(((_, s), rest)) => r is Ok && r->Ok_0@ == s && s.len() == n
                    && final(self).rest() == rest,
                Err(e) => r is Err && r->Err_0 == e,
            },
    {
        let mut out: Vec<u32> = Vec::new();
        let mut i: usize = 0;
        while i < n
            invariant
                i <= n,
                out@.len() == i,
                self.wf(),
                take_u32s(old(self).rest(), i as nat) == Parsed::<Seq<u32>>::Ok((out@, self.rest())),
            decreases n - i,
        {
            match self.u32() {
                Ok(v) => {
                    out.push(v);
                },
                Err(e) => {
                    proof {
                        lemma_u32s_error(old(self).rest(), (i + 1) as nat, n as nat, e);
                    }
                    return Err(e);
                },
            }
            i = i + 1;
        }
        Ok(out)
    }

    /// A run of `n` words.
    pub fn u64s(&mut self, n: usize) -> (r: Result<Vec<u64>, RestoreError>)
        requires
            old(self).wf(),
        ensures
            final(self).wf(),
            match and_u64s(start(old(self).rest()), n as nat) {
                Ok(((_, s), rest)) => r is Ok && r->Ok_0@ == s && s.len() == n
                    && final(self).rest() == rest,
                Err(e) => r is Err && r->Err_0 == e,
            },
    {
        let mut out: Vec<u64> = Vec::new();
        let mut i: usize = 0;
        while i < n
            invariant
                i <= n,
                out@.len() == i,
                self.wf(),
                take_u64s(old(self).rest(), i as nat) == Parsed::<Seq<u64>>::Ok((out@, self.rest())),
            decreases n - i,
        {
            match self.u64() {
                Ok(v) => {
                    out.push(v);
                },
                Err(e) => {
                    proof {
                        lemma_u64s_error(old(self).rest(), (i + 1) as nat, n as nat, e);
                    }
                    return Err(e);
                },
            }
            i = i + 1;
        }
        Ok(out)
    }

    /// The payload of the next section, which must have the given version.
    pub fn section(&mut self, version: u16) -> (r: Result<Reader<'a>, RestoreError>)
        requires
            old(self).wf(),
        ensures
            final(self).wf(),
            match and_section(start(old(self).rest()), version) {
                Ok(((_, s), rest)) => r is Ok && r->Ok_0.wf() && r->Ok_0.rest() == s
                    && final(self).rest() == rest,
                Err(e) => r == Err::<Reader<'a>, RestoreError>(e),
            },
    {
        let found: u16 = self.u16()?;
        if found != version {
            return Err(RestoreError::Version { found, expected: version });
        }
        let payload = self.bytes()?;
        Ok(Reader::new(payload))
    }

    /// The end of a section: nothing may be left.
    pub fn finish(&self) -> (r: Result<(), RestoreError>)
        requires
            self.wf(),
        ensures
            r == and_end(start(self.rest())),
    {
        if self.pos == self.data.len() {
            Ok(())
        } else {
            Err(RestoreError::Trailing { count: self.data.len() - self.pos })
        }
    }
}

} // verus!
