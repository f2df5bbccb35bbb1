//! Guest DRAM with a write generation per 4 KiB page.
//!
//! Every write bumps the generation of each page it touches, so a cache over
//! RAM contents (decoded instructions, a painted scanline) can tell whether
//! the bytes under it may have changed.
use vstd::prelude::*;

use crate::le::{le_bytes, le_value, lemma_le_bytes_len, lemma_le_fits, read_le};

verus! {

pub const PAGE_BYTES: usize = 4096;

pub struct Ram {
    pub bytes: Vec<u8>,
    /// One counter per page, the last page possibly partial.
    pub generations: Vec<u64>,
}

/// What a [`Ram`] holds.
#[verifier::ext_equal]
pub struct RamState {
    pub bytes: Seq<u8>,
    pub generations: Seq<u64>,
}

impl RamState {
    /// The generations after a write to `len` bytes at `offset`.
    pub open spec fn bumped(self, offset: int, len: int) -> Seq<u64> {
        Seq::new(
            self.generations.len(),
            |page: int|
                if len > 0 && offset / 4096 <= page <= (offset + len - 1) / 4096 {
                    self.generations[page].wrapping_add(1)
                } else {
                    self.generations[page]
                },
        )
    }

    pub open spec fn in_range(self, offset: int, len: int) -> bool {
        0 <= offset && 0 <= len && offset + len <= self.bytes.len()
    }

    /// The bytes of a range.
    pub open spec fn slice(self, offset: int, len: int) -> Seq<u8> {
        self.bytes.subrange(offset, offset + len)
    }

    /// The state after `data` is written at `offset`.
    pub open spec fn written(self, offset: int, data: Seq<u8>) -> RamState {
        RamState {
            bytes: self.bytes.subrange(0, offset) + data + self.bytes.subrange(
                offset + data.len(),
                self.bytes.len() as int,
            ),
            generations: self.bumped(offset, data.len() as int),
        }
    }

    /// A little-endian read of `size` bytes.
    pub open spec fn load(self, offset: u64, size: u8) -> Result<u64, ()> {
        if access_size(size) && self.in_range(offset as int, size as int) {
            Ok(le_value(self.slice(offset as int, size as int)) as u64)
        } else {
            Err(())
        }
    }

    /// The state after a little-endian write of the `size` low bytes of `val`.
    pub open spec fn stored(self, offset: u64, val: u64, size: u8) -> RamState {
        self.written(offset as int, le_bytes(val as nat, size as nat))
    }

    /// Number of pages, the last possibly partial.
    pub open spec fn page_count(self) -> nat {
        (self.bytes.len() + 4095) / 4096
    }
}

/// The widths a load or store instruction can have.
pub open spec fn access_size(size: u8) -> bool {
    size == 1 || size == 2 || size == 4 || size == 8
}

impl View for Ram {
    type V = RamState;

    open spec fn view(&self) -> RamState {
        RamState { bytes: self.bytes@, generations: self.generations@ }
    }
}

/// What is written can be read back.
pub proof fn law_write_then_read(ram: RamState, offset: int, data: Seq<u8>)
    requires
        ram.in_range(offset, data.len() as int),
    ensures
        ram.written(offset, data).slice(offset, data.len() as int) == data,
        ram.written(offset, data).bytes.len() == ram.bytes.len(),
{
    assert(ram.written(offset, data).slice(offset, data.len() as int) =~= data);
}

/// A write leaves the bytes outside its range alone.
pub proof fn law_write_elsewhere(ram: RamState, offset: int, data: Seq<u8>, at: int)
    requires
        ram.in_range(offset, data.len() as int),
        0 <= at < ram.bytes.len(),
        at < offset || offset + data.len() <= at,
    ensures
        ram.written(offset, data).bytes[at] == ram.bytes[at],
{
}

/// A write changes the generation of every page it touches, so a page whose
/// generation is unchanged by a write holds the bytes it held.
pub proof fn law_unchanged_generation_unchanged_page(
    ram: RamState,
    offset: int,
    data: Seq<u8>,
    page: int,
    at: int,
)
    requires
        ram.in_range(offset, data.len() as int),
        ram.generations.len() == ram.page_count(),
        0 <= page < ram.generations.len(),
        ram.written(offset, data).generations[page] == ram.generations[page],
        0 <= at < ram.bytes.len(),
        at / 4096 == page,
    ensures
        ram.written(offset, data).bytes[at] == ram.bytes[at],
{
    if offset <= at < offset + data.len() {
        assert(offset / 4096 <= page <= (offset + data.len() - 1) / 4096);
        assert(ram.generations[page].wrapping_add(1) != ram.generations[page]);
    }
}

/// RAM with one generation per page, and a size the host can address.
pub open spec fn paged(ram: RamState) -> bool {
    &&& ram.generations.len() == ram.page_count()
    &&& ram.bytes.len() <= isize::MAX
}

/// How far a counter has moved, around its end if need be.
pub open spec fn moved(from: u64, to: u64) -> int {
    if from <= to {
        to - from
    } else {
        to - from + 0x1_0000_0000_0000_0000
    }
}

impl RamState {
    /// This is `before` after at most `n` writes to any page: no counter moved
    /// further than that, and a page whose counter did not move holds the
    /// bytes it held.
    pub open spec fn follows(self, before: RamState, n: nat) -> bool {
        &&& self.bytes.len() == before.bytes.len()
        &&& self.generations.len() == before.generations.len()
        &&& forall|page: int|
            0 <= page < before.generations.len() ==> moved(
                before.generations[page],
                #[trigger] self.generations[page],
            ) <= n
        &&& forall|at: int|
            0 <= at < before.bytes.len() && before.generations[at / 4096] == self.generations[at
                / 4096] ==> #[trigger] self.bytes[at] == before.bytes[at]
    }
}

/// A write counts as one.
pub proof fn law_a_write_is_counted(ram: RamState, offset: int, data: Seq<u8>)
    requires
        paged(ram),
        ram.in_range(offset, data.len() as int),
    ensures
        ram.written(offset, data).follows(ram, 1),
{
    let later = ram.written(offset, data);
    assert forall|at: int|
        0 <= at < ram.bytes.len() && ram.generations[at / 4096] == later.generations[at
            / 4096] implies #[trigger] later.bytes[at] == ram.bytes[at] by {
        law_unchanged_generation_unchanged_page(ram, offset, data, at / 4096, at);
    }
}

/// Counts add up.
pub proof fn law_counts_add_up(a: RamState, b: RamState, c: RamState, n: nat, m: nat)
    requires
        paged(a),
        b.follows(a, n),
        c.follows(b, m),
        n + m < 0x1_0000_0000_0000_0000,
    ensures
        c.follows(a, n + m),
{
    assert forall|page: int| 0 <= page < a.generations.len() implies moved(
        a.generations[page],
        #[trigger] c.generations[page],
    ) <= n + m by {
        assert(moved(a.generations[page], b.generations[page]) <= n);
        assert(moved(b.generations[page], c.generations[page]) <= m);
    }
    assert forall|at: int|
        0 <= at < a.bytes.len() && a.generations[at / 4096] == c.generations[at
            / 4096] implies #[trigger] c.bytes[at] == a.bytes[at] by {
        assert(moved(a.generations[at / 4096], b.generations[at / 4096]) <= n);
        assert(moved(b.generations[at / 4096], c.generations[at / 4096]) <= m);
        assert(b.bytes[at] == a.bytes[at]);
    }
}

/// A larger bound holds as well, and what did not change follows itself.
pub proof fn lemma_follows(ram: RamState, later: RamState, n: nat, m: nat)
    requires
        n <= m,
    ensures
        ram.follows(ram, n),
        later.follows(ram, n) ==> later.follows(ram, m),
{
}

impl Ram {
    /// One generation per page, and a size the host can address.
    pub open spec fn wf(&self) -> bool {
        &&& self.generations@.len() == self@.page_count()
        &&& self.bytes@.len() <= isize::MAX
    }

    pub fn new(size: usize) -> (r: Self)
        requires
            size <= isize::MAX,
        ensures
            r.wf(),
            r.bytes@ == Seq::new(size as nat, |i: int| 0u8),
            r.generations@ == Seq::new(r@.page_count(), |i: int| 0u64),
    {
        let pages: usize = if size % PAGE_BYTES == 0 {
            size / PAGE_BYTES
        } else {
            size / PAGE_BYTES + 1
        };
        let r = Ram { bytes: vec![0u8; size], generations: vec![0u64; pages] };
        assert(r.bytes@ =~= Seq::new(size as nat, |i: int| 0u8));
        assert(r.generations@ =~= Seq::new(r@.page_count(), |i: int| 0u64));
        r
    }

    pub fn size(&self) -> (r: u64)
        ensures
            r == self@.bytes.len(),
    {
        self.bytes.len() as u64
    }

    /// The range as host indices, if it lies inside RAM.
    fn span(&self, offset: u64, len: usize) -> (r: Option<usize>)
        requires
            self.wf(),
        ensures
            match r {
                Some(start) => start == offset && self@.in_range(offset as int, len as int),
                None => !self@.in_range(offset as int, len as int),
            },
    {
        let total: usize = self.bytes.len();
        if len > total || offset > (total - len) as u64 {
            None
        } else {
            Some(offset as usize)
        }
    }

    /// Count a write to `len > 0` bytes at `start`.
    fn bump(&mut self, start: usize, len: usize)
        requires
            old(self).wf(),
            len > 0,
            start + len <= old(self).bytes@.len(),
        ensures
            final(self).wf(),
            final(self).bytes == old(self).bytes,
            final(self).generations@ == old(self)@.bumped(start as int, len as int),
    {
        let first: usize = start / PAGE_BYTES;
        let last: usize = (start + (len - 1)) / PAGE_BYTES;
        let mut page: usize = first;
        while page <= last
            invariant
                old(self).wf(),
                len > 0,
                start + len <= old(self).bytes@.len(),
                first == start / 4096,
                last == (start + len - 1) / 4096,
                first <= page <= last + 1,
                last < self.generations@.len(),
                self.bytes == old(self).bytes,
                self.generations@.len() == old(self).generations@.len(),
                forall|p: int|
                    0 <= p < self.generations@.len() ==> #[trigger] self.generations@[p] == (
                    if first <= p < page {
                        old(self).generations@[p].wrapping_add(1)
                    } else {
                        old(self).generations@[p]
                    }),
            decreases last + 1 - page,
        {
            let next: u64 = self.generations[page].wrapping_add(1);
            self.generations.set(page, next);
            page = page + 1;
        }
        assert(self.generations@ =~= old(self)@.bumped(start as int, len as int));
    }

    /// Little-endian read of 1/2/4/8 bytes.
    pub fn read(&self, offset: u64, size: u8) -> (r: Result<u64, ()>)
        requires
            self.wf(),
        ensures
            r == self@.load(offset, size),
    {
        if size != 1 && size != 2 && size != 4 && size != 8 {
            return Err(());
        }
        match self.span(offset, size as usize) {
            Some(start) => {
                proof {
                    lemma_le_fits(self@.slice(offset as int, size as int));
                }
                Ok(read_le(self.bytes.as_slice(), start, size as usize))
            },
            None => Err(()),
        }
    }

    /// Little-endian write of 1/2/4/8 bytes.
    pub fn write(&mut self, offset: u64, val: u64, size: u8) -> (r: Result<(), ()>)
        requires
            old(self).wf(),
        ensures
            final(self).wf(),
            r is Ok <==> access_size(size) && old(self)@.in_range(offset as int, size as int),
            r is Ok ==> final(self)@ == old(self)@.stored(offset, val, size),
            r is Err ==> *final(self) == *old(self),
    {
        if size != 1 && size != 2 && size != 4 && size != 8 {
            return Err(());
        }
        match self.span(offset, size as usize) {
            Some(start) => {
                let count: usize = size as usize;
                let mut rest: u64 = val;
                let mut i: usize = 0;
                proof {
                    lemma_le_bytes_len(val as nat, size as nat);
                }
                while i < count
                    invariant
                        i <= count,
                        start + count <= self.bytes.len(),
                        self.bytes@.len() == old(self).bytes@.len(),
                        self.generations == old(self).generations,
                        le_bytes(val as nat, count as nat).len() == count,
                        le_bytes(rest as nat, (count - i) as nat) == le_bytes(
                            val as nat,
                            count as nat,
                        ).subrange(i as int, count as int),
                        forall|k: int|
                            0 <= k < self.bytes@.len() ==> #[trigger] self.bytes@[k] == (if start
                                <= k < start + i {
                                le_bytes(val as nat, count as nat)[k - start]
                            } else {
                                old(self).bytes@[k]
                            }),
                    decreases count - i,
                {
                    proof {
                        let all = le_bytes(val as nat, count as nat);
                        let here = le_bytes(rest as nat, (count - i) as nat);
                        let tail = le_bytes(rest as nat / 256, (count - i - 1) as nat);
                        assert(here == seq![(rest as nat % 256) as u8] + tail);
                        assert(all[i as int] == here[0]);
                        lemma_le_bytes_len(rest as nat / 256, (count - i - 1) as nat);
                        assert(here.subrange(1, count - i) =~= tail);
                        assert(here.subrange(1, count - i) =~= all.subrange(i + 1, count as int));
                    }
                    self.bytes.set(start + i, (rest % 256) as u8);
                    rest = rest / 256;
                    i = i + 1;
                }
                self.bump(start, count);
                assert(self.bytes@ =~= old(self)@.stored(offset, val, size).bytes);
                assert(old(self)@.bytes == old(self).bytes@);
                Ok(())
            },
            None => Err(()),
        }
    }

    /// Borrow `len` bytes at `offset`.
    pub fn read_slice(&self, offset: u64, len: usize) -> (r: Result<&[u8], ()>)
        requires
            self.wf(),
        ensures
            r is Ok <==> self@.in_range(offset as int, len as int),
            r matches Ok(s) ==> s@ == self@.slice(offset as int, len as int),
    {
        match self.span(offset, len) {
            Some(start) => Ok(
                vstd::slice::slice_subrange(self.bytes.as_slice(), start, start + len),
            ),
            None => Err(()),
        }
    }

    /// Copy `data` to `offset`, counting one write per page touched.
    pub fn write_slice(&mut self, offset: u64, data: &[u8]) -> (r: Result<(), ()>)
        requires
            old(self).wf(),
        ensures
            final(self).wf(),
            r is Ok <==> old(self)@.in_range(offset as int, data@.len() as int),
            r is Ok ==> final(self)@ == old(self)@.written(offset as int, data@),
            r is Err ==> *final(self) == *old(self),
    {
        match self.span(offset, data.len()) {
            Some(start) => {
                let count: usize = data.len();
                let mut i: usize = 0;
                while i < count
                    invariant
                        i <= count,
                        count == data@.len(),
                        start + count <= self.bytes.len(),
                        self.bytes@.len() == old(self).bytes@.len(),
                        self.generations == old(self).generations,
                        forall|k: int|
                            0 <= k < self.bytes@.len() ==> #[trigger] self.bytes@[k] == (if start
                                <= k < start + i {
                                data@[k - start]
                            } else {
                                old(self).bytes@[k]
                            }),
                    decreases count - i,
                {
                    self.bytes.set(start + i, data[i]);
                    i = i + 1;
                }
                if count > 0 {
                    self.bump(start, count);
                }
                assert(self.bytes@ =~= old(self)@.written(offset as int, data@).bytes);
                assert(self.generations@ =~= old(self)@.written(offset as int, data@).generations);
                Ok(())
            },
            None => Err(()),
        }
    }

    /// Copy an image into place.
    pub fn load_blob(&mut self, offset: u64, data: &[u8]) -> (r: Result<(), ()>)
        requires
            old(self).wf(),
        ensures
            final(self).wf(),
            r is Ok <==> old(self)@.in_range(offset as int, data@.len() as int),
            r is Ok ==> final(self)@ == old(self)@.written(offset as int, data@),
            r is Err ==> *final(self) == *old(self),
    {
        self.write_slice(offset, data)
    }

    /// The page holding `offset` and its generation.
    pub fn page_generation(&self, offset: u64) -> (r: Option<(u64, u64)>)
        requires
            self.wf(),
        ensures
            r == (if offset < self@.bytes.len() {
                Some((offset / 4096, self@.generations[offset as int / 4096]))
            } else {
                None
            }),
    {
        if offset < self.bytes.len() as u64 {
            let page: usize = offset as usize / PAGE_BYTES;
            Some((page as u64, self.generations[page]))
        } else {
            None
        }
    }

    /// The generation of a page, if there is such a page.
    pub fn generation_for_page(&self, page: u64) -> (r: Option<u64>)
        requires
            self.wf(),
        ensures
            r == (if page < self@.generations.len() {
                Some(self@.generations[page as int])
            } else {
                None
            }),
    {
        if page < self.generations.len() as u64 {
            Some(self.generations[page as usize])
        } else {
            None
        }
    }

    /// The generations of `count` pages from `first` on; empty if they are not
    /// all there.
    pub fn page_generations(&self, first: u64, count: usize) -> (r: &[u64])
        requires
            self.wf(),
        ensures
            r@ == (if first + count <= self@.generations.len() {
                self@.generations.subrange(first as int, first + count)
            } else {
                Seq::empty()
            }),
    {
        let total: usize = self.generations.len();
        if count > total || first > (total - count) as u64 {
            assert(self.generations@.subrange(0, 0) =~= Seq::empty());
            vstd::slice::slice_subrange(self.generations.as_slice(), 0, 0)
        } else {
            vstd::slice::slice_subrange(
                self.generations.as_slice(),
                first as usize,
                first as usize + count,
            )
        }
    }
}

} // verus!
