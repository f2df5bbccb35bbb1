//! An in-memory sparse block device, plus the CRC used to check disk records.
//!
//! Only 4 KiB blocks holding non-zero bytes are stored; everything else reads
//! as zero, so a 512 MiB logical disk costs only what its live data costs.
use std::collections::HashMap;

use vstd::prelude::*;

use super::virtio_blk::{in_bytes, overwritten, BlockBackend, BlockCall, BlockError, Volume};

verus! {

broadcast use vstd::std_specs::hash::group_hash_axioms;

/// Sparse allocation granularity, and the record payload size of the browser's
/// persistent log.
pub const SPARSE_BLOCK_SIZE: usize = 4096;

/// One bit of a reflected CRC-32 (IEEE 802.3, polynomial 0xedb8_8320).
pub open spec fn crc_bit(crc: u32) -> u32 {
    if crc % 2 == 1 {
        crc / 2 ^ 0xedb8_8320
    } else {
        crc / 2
    }
}

pub open spec fn crc_bits(crc: u32, n: nat) -> u32
    decreases n,
{
    if n == 0 {
        crc
    } else {
        crc_bit(crc_bits(crc, (n - 1) as nat))
    }
}

/// The register after the bytes have been shifted in.
pub open spec fn crc_register(bytes: Seq<u8>) -> u32
    decreases bytes.len(),
{
    if bytes.len() == 0 {
        0xffff_ffff
    } else {
        crc_bits(crc_register(bytes.drop_last()) ^ bytes.last() as u32, 8)
    }
}

/// Reflected CRC-32 (IEEE 802.3) over `bytes`, as used by the browser's
/// persistent-log record checksums. `crc32(b"123456789") == 0xcbf4_3926`.
pub fn crc32(bytes: &[u8]) -> (r: u32)
    ensures
        r == !crc_register(bytes@),
{
    let mut crc: u32 = 0xffff_ffff;
    let mut i: usize = 0;
    while i < bytes.len()
        invariant
            i <= bytes.len(),
            crc == crc_register(bytes@.take(i as int)),
        decreases bytes.len() - i,
    {
        let ghost before = crc;
        crc = crc ^ bytes[i] as u32;
        let ghost mixed = crc;
        let mut bit: u32 = 0;
        while bit < 8
            invariant
                bit <= 8,
                crc == crc_bits(mixed, bit as nat),
            decreases 8 - bit,
        {
            crc = if crc % 2 == 1 {
                (crc / 2) ^ 0xedb8_8320
            } else {
                crc / 2
            };
            bit = bit + 1;
        }
        proof {
            let longer = bytes@.take(i + 1);
            assert(longer.drop_last() =~= bytes@.take(i as int));
            assert(longer.last() == bytes@[i as int]);
        }
        i = i + 1;
    }
    assert(bytes@.take(i as int) =~= bytes@);
    !crc
}

pub struct SparseMemBackend {
    pub logical_bytes: u64,
    pub blocks: HashMap<u32, Box<[u8; 4096]>>,
    pub calls: Ghost<Seq<BlockCall>>,
}

/// A block of zeros, which is never stored.
pub open spec fn is_zero(block: Seq<u8>) -> bool {
    forall|i: int| 0 <= i < block.len() ==> block[i] == 0
}

impl SparseMemBackend {
    /// A whole number of blocks, and only non-zero blocks inside the disk are
    /// stored.
    pub open spec fn wf(&self) -> bool {
        &&& self.logical_bytes > 0
        &&& self.logical_bytes % 4096 == 0
        &&& self.logical_bytes / 4096 <= u32::MAX
        &&& forall|k: u32| #[trigger]
            self.blocks@.contains_key(k) ==> k < self.logical_bytes / 4096 && !is_zero(
                self.blocks@[k]@,
            )
    }

    /// The byte at a position of the disk.
    pub open spec fn byte(&self, at: int) -> u8 {
        let k = (at / 4096) as u32;
        if self.blocks@.contains_key(k) {
            self.blocks@[k]@[at % 4096]
        } else {
            0
        }
    }

    /// The whole logical disk.
    pub open spec fn contents(&self) -> Seq<u8> {
        Seq::new(self.logical_bytes as nat, |i: int| self.byte(i))
    }

    /// An all-zero disk of `logical_bytes`, which must be a non-zero multiple
    /// of [`SPARSE_BLOCK_SIZE`] addressable by a `u32` block index.
    pub fn new(logical_bytes: u64) -> (r: Option<Self>)
        ensures
            r is Some <==> logical_bytes != 0 && logical_bytes % 4096 == 0 && logical_bytes / 4096
                <= u32::MAX,
            r matches Some(d) ==> d.wf() && d.logical_bytes == logical_bytes && d.blocks@
                == Map::<u32, Box<[u8; 4096]>>::empty() && d.contents() == Seq::new(
                logical_bytes as nat,
                |i: int| 0u8,
            ) && d.calls@ == Seq::<BlockCall>::empty(),
    {
        if logical_bytes == 0 || logical_bytes % 4096 != 0 || logical_bytes / 4096
            > u32::MAX as u64 {
            return None;
        }
        let d = Self { logical_bytes, blocks: HashMap::new(), calls: Ghost(Seq::empty()) };
        assert(d.contents() =~= Seq::new(logical_bytes as nat, |i: int| 0u8));
        Some(d)
    }

    /// Place one 4 KiB block. An all-zero block clears whatever was there, so
    /// a seeder can hand over every block it reads without growing the map.
    pub fn insert_block(&mut self, block_index: u32, block: &[u8; 4096]) -> (r: bool)
        requires
            old(self).wf(),
        ensures
            final(self).wf(),
            r == (block_index < old(self).logical_bytes / 4096),
            final(self).logical_bytes == old(self).logical_bytes,
            final(self).calls == old(self).calls,
            !r ==> *final(self) == *old(self),
            r ==> final(self).blocks@ == (if is_zero(block@) {
                old(self).blocks@.remove(block_index)
            } else {
                old(self).blocks@.insert(block_index, Box::new(*block))
            }),
            r ==> final(self).contents() == overwritten(
                old(self).contents(),
                block_index * 4096,
                block@,
            ),
    {
        if block_index as u64 >= self.logical_bytes / 4096 {
            return false;
        }
        if all_zero(block) {
            self.blocks.remove(&block_index);
        } else {
            self.blocks.insert(block_index, Box::new(*block));
        }
        proof {
            lemma_one_block(*old(self), *self, block_index, block@);
        }
        true
    }

    /// How many blocks are actually stored (zero blocks cost nothing).
    pub fn present_blocks(&self) -> (r: usize)
        ensures
            r == self.blocks@.len(),
    {
        self.blocks.len()
    }

    fn checked_byte_range(&self, sector: u64, len: usize) -> (r: Result<u64, BlockError>)
        ensures
            r == (if in_bytes(sector, len as int, self.logical_bytes as int) {
                Ok::<u64, BlockError>((sector * 512) as u64)
            } else {
                Err(BlockError::OutOfRange)
            }),
    {
        let start: u64 = match sector.checked_mul(512) {
            Some(v) => v,
            None => return Err(BlockError::OutOfRange),
        };
        let end: u64 = match start.checked_add(len as u64) {
            Some(v) => v,
            None => return Err(BlockError::OutOfRange),
        };
        if end > self.logical_bytes {
            return Err(BlockError::OutOfRange);
        }
        Ok(start)
    }
}

fn all_zero(block: &[u8; 4096]) -> (r: bool)
    ensures
        r == is_zero(block@),
{
    let mut i: usize = 0;
    while i < 4096
        invariant
            i <= 4096,
            forall|k: int| 0 <= k < i ==> block@[k] == 0,
        decreases 4096 - i,
    {
        if block[i] != 0 {
            return false;
        }
        i = i + 1;
    }
    true
}

/// Replacing one block, a zero block by dropping it, overwrites its bytes.
proof fn lemma_one_block(pre: SparseMemBackend, post: SparseMemBackend, k: u32, block: Seq<u8>)
    requires
        pre.wf(),
        k < pre.logical_bytes / 4096,
        block.len() == 4096,
        post.logical_bytes == pre.logical_bytes,
        is_zero(block) ==> post.blocks@ == pre.blocks@.remove(k),
        !is_zero(block) ==> post.blocks@ == pre.blocks@.insert(k, post.blocks@[k])
            && post.blocks@[k]@ == block,
    ensures
        post.wf(),
        post.contents() == overwritten(pre.contents(), k * 4096, block),
{
    let after = overwritten(pre.contents(), k * 4096, block);
    assert forall|i: int| 0 <= i < pre.logical_bytes implies #[trigger] post.byte(i)
        == after[i] by {
        let b = i / 4096;
        if b == k {
            assert(i - k * 4096 == i % 4096);
        } else {
            assert(b as u32 != k);
        }
    }
    assert(post.contents() =~= after);
}

/// The stored block, or zeros if there is none.
pub open spec fn block_bytes(blocks: Map<u32, Box<[u8; 4096]>>, k: u32) -> Seq<u8> {
    if blocks.contains_key(k) {
        blocks[k]@
    } else {
        Seq::new(4096, |i: int| 0u8)
    }
}

impl SparseMemBackend {
    fn block(&self, k: u32) -> (r: [u8; 4096])
        ensures
            r@ == block_bytes(self.blocks@, k),
    {
        match self.blocks.get(&k) {
            Some(b) => **b,
            None => {
                let zeros: [u8; 4096] = [0; 4096];
                assert(zeros@ =~= block_bytes(self.blocks@, k));
                zeros
            },
        }
    }
}

impl SparseMemBackend {
    fn fetch(&self, sector: u64, buf: &mut [u8]) -> (r: Result<(), BlockError>)
        ensures
            r == (if in_bytes(sector, old(buf)@.len() as int, self.logical_bytes as int) {
                Ok(())
            } else {
                Err(BlockError::OutOfRange)
            }),
            r is Ok ==> final(buf)@ == self.contents().subrange(
                sector * 512,
                sector * 512 + old(buf)@.len(),
            ),
            r is Err ==> final(buf)@ == old(buf)@,
    {
        let start: u64 = self.checked_byte_range(sector, buf.len())?;
        let total: usize = buf.len();
        let mut consumed: usize = 0;
        while consumed < total
            invariant
                total == buf@.len(),
                buf@.len() == old(buf)@.len(),
                start + total <= self.logical_bytes,
                consumed <= total,
                forall|i: int| 0 <= i < consumed ==> buf@[i] == self.byte(start + i),
            decreases total - consumed,
        {
            let byte_offset: u64 = start + consumed as u64;
            let block_index: u32 = (byte_offset / 4096) as u32;
            let within: usize = (byte_offset % 4096) as usize;
            let room: usize = SPARSE_BLOCK_SIZE - within;
            let left: usize = total - consumed;
            let copy_len: usize = if left < room {
                left
            } else {
                room
            };
            let block = self.block(block_index);
            let mut i: usize = 0;
            while i < copy_len
                invariant
                    total == buf@.len(),
                    buf@.len() == old(buf)@.len(),
                    byte_offset == start + consumed,
                    block_index == (byte_offset / 4096) as u32,
                    within == byte_offset % 4096,
                    within + copy_len <= 4096,
                    consumed + copy_len <= total,
                    i <= copy_len,
                    block@ == block_bytes(self.blocks@, block_index),
                    forall|j: int| 0 <= j < consumed + i ==> buf@[j] == self.byte(start + j),
                decreases copy_len - i,
            {
                buf[consumed + i] = block[within + i];
                assert((byte_offset + i) / 4096 == byte_offset / 4096);
                assert(self.byte(start + (consumed + i)) == block@[within + i]);
                i = i + 1;
            }
            consumed = consumed + copy_len;
        }
        assert(buf@ =~= self.contents().subrange(sector * 512, sector * 512 + buf@.len()));
        Ok(())
    }

    fn put(&mut self, sector: u64, buf: &[u8]) -> (r: Result<(), BlockError>)
        ensures
            final(self).calls == old(self).calls,
            r == (if in_bytes(sector, buf@.len() as int, old(self).logical_bytes as int) {
                Ok(())
            } else {
                Err(BlockError::OutOfRange)
            }),
            old(self).wf() ==> final(self).wf(),
            final(self).logical_bytes == old(self).logical_bytes,
            old(self).wf() && r is Ok ==> final(self).contents() == overwritten(
                old(self).contents(),
                sector * 512,
                buf@,
            ),
            r is Err ==> *final(self) == *old(self),
    {
        let start: u64 = self.checked_byte_range(sector, buf.len())?;
        let total: usize = buf.len();
        let mut consumed: usize = 0;
        assert(self.contents() =~= overwritten(
            old(self).contents(),
            start as int,
            buf@.take(0),
        ));
        while consumed < total
            invariant
                total == buf@.len(),
                start + total <= self.logical_bytes,
                self.logical_bytes == old(self).logical_bytes,
                self.calls == old(self).calls,
                consumed <= total,
                old(self).wf() ==> self.wf(),
                old(self).wf() ==> self.contents() == overwritten(
                    old(self).contents(),
                    start as int,
                    buf@.take(consumed as int),
                ),
            decreases total - consumed,
        {
            let byte_offset: u64 = start + consumed as u64;
            let block_index: u32 = (byte_offset / 4096) as u32;
            let within: usize = (byte_offset % 4096) as usize;
            let room: usize = SPARSE_BLOCK_SIZE - within;
            let left: usize = total - consumed;
            let copy_len: usize = if left < room {
                left
            } else {
                room
            };
            let ghost pre = *self;
            let mut block = self.block(block_index);
            let ghost stored = block@;
            let mut i: usize = 0;
            while i < copy_len
                invariant
                    total == buf@.len(),
                    within + copy_len <= 4096,
                    consumed + copy_len <= total,
                    i <= copy_len,
                    stored.len() == 4096,
                    forall|j: int|
                        0 <= j < 4096 ==> #[trigger] block@[j] == (if within <= j < within + i {
                            buf@[consumed + j - within]
                        } else {
                            stored[j]
                        }),
                decreases copy_len - i,
            {
                block[within + i] = buf[consumed + i];
                i = i + 1;
            }
            if all_zero(&block) {
                self.blocks.remove(&block_index);
            } else {
                self.blocks.insert(block_index, Box::new(block));
            }
            proof {
                if old(self).wf() {
                    assert(byte_offset < self.logical_bytes);
                    assert(block_index == byte_offset / 4096);
                    lemma_one_block(pre, *self, block_index, block@);
                    let goal = overwritten(
                        old(self).contents(),
                        start as int,
                        buf@.take(consumed + copy_len),
                    );
                    assert forall|p: int| 0 <= p < self.logical_bytes implies self.contents()[p]
                        == goal[p] by {
                        if block_index * 4096 <= p < block_index * 4096 + 4096 {
                            let j = p - block_index * 4096;
                            assert(p / 4096 == block_index && p % 4096 == j);
                            assert(self.contents()[p] == block@[j]);
                            assert(stored[j] == pre.byte(p));
                            assert(pre.contents()[p] == pre.byte(p));
                        } else {
                            assert(self.contents()[p] == pre.contents()[p]);
                        }
                    }
                    assert(self.contents() =~= goal);
                }
            }
            consumed = consumed + copy_len;
        }
        assert(buf@.take(consumed as int) =~= buf@);
        Ok(())
    }

}

impl BlockBackend for SparseMemBackend {
    open spec fn volume(&self) -> Volume {
        Volume { contents: self.contents(), calls: self.calls@ }
    }

    open spec fn intact(&self) -> bool {
        self.wf()
    }

    fn capacity_sectors(&self) -> (r: u64) {
        self.logical_bytes / 512
    }

    fn read_at(&mut self, sector: u64, buf: &mut [u8]) -> (r: Result<(), BlockError>)
        ensures
            final(self).blocks == old(self).blocks,
            final(self).logical_bytes == old(self).logical_bytes,
            r == (if in_bytes(sector, old(buf)@.len() as int, old(self).logical_bytes as int) {
                Ok(())
            } else {
                Err(BlockError::OutOfRange)
            }),
            r is Err ==> final(buf)@ == old(buf)@,
    {
        let ghost len = buf@.len();
        let result = self.fetch(sector, buf);
        self.calls = Ghost(self.calls@.push(BlockCall::Read { sector, len, result }));
        assert(self.contents() =~= old(self).contents());
        result
    }

    fn write_at(&mut self, sector: u64, buf: &[u8]) -> (r: Result<(), BlockError>)
        ensures
            final(self).logical_bytes == old(self).logical_bytes,
            r == (if in_bytes(sector, buf@.len() as int, old(self).logical_bytes as int) {
                Ok(())
            } else {
                Err(BlockError::OutOfRange)
            }),
            r is Err ==> final(self).blocks == old(self).blocks,
    {
        let result = self.put(sector, buf);
        let ghost contents = self.contents();
        self.calls = Ghost(self.calls@.push(BlockCall::Write { sector, data: buf@, result }));
        assert(self.contents() =~= contents);
        result
    }

    fn flush(&mut self) -> (r: Result<(), BlockError>)
        ensures
            final(self).blocks == old(self).blocks,
            final(self).logical_bytes == old(self).logical_bytes,
            r is Ok,
    {
        let result: Result<(), BlockError> = Ok(());
        self.calls = Ghost(self.calls@.push(BlockCall::Flush { result }));
        assert(self.contents() =~= old(self).contents());
        result
    }
}

/// A bit of the checksum comes in at the bottom: an even register halves, an
/// odd one halves and takes the polynomial in.
pub proof fn law_checksum_bits(crc: u32, n: nat)
    ensures
        crc % 2 == 0 ==> crc_bits(crc, 1) == crc / 2,
        crc % 2 == 1 ==> crc_bits(crc, 1) == (crc / 2) ^ 0xedb8_8320,
        crc_bits(crc, n + 1) == crc_bits(crc_bits(crc, n), 1),
        crc_bits(crc, 0) == crc,
{
    reveal_with_fuel(crc_bits, 3);
}

} // verus!
