//! Minimal VirtIO 1.x block device over the MMIO transport.
//!
//! This implements one split queue with direct descriptor chains, block
//! read/write/flush requests, and a level interrupt.
use vstd::prelude::*;

use super::byte_queue::copy_slice;
use super::virtio_mmio::{self, Transport, TransportState, TransportWrite};
use super::virtqueue::{
    self, all_in_ram, all_writable, bytes_of, chain_at, chain_from, counts_writes, gathered,
    law_drained_writes_are_counted, lemma_all_backed, lemma_chain_len,
    lemma_scattered_follows, may_drain, scattered, spans_ram, value_at, writes_per_drain,
    ChainHandler, ChainOutcome, Descriptor, Queue, QueueLayout, DESC_F_NEXT, DESC_F_WRITE,
};
use crate::bus::DRAM_BASE;
use crate::ram::{law_a_write_is_counted, law_counts_add_up, lemma_follows, paged, Ram, RamState};
use crate::snapshot::{
    and_end, and_section, and_u64, enc_section, enc_u64, lemma_read_section, lemma_read_u64, start,
    Parsed, Reader, RestoreError, Writer,
};

verus! {

pub const DEVICE_ID_BLOCK: u32 = 2;

pub const QUEUE_SIZE_MAX: u16 = 8;

/// Sole queue index (requests).
pub const QUEUE_REQUEST: usize = 0;

pub const BLK_T_IN: u32 = 0;

pub const BLK_T_OUT: u32 = 1;

pub const BLK_T_FLUSH: u32 = 4;

/// Indicates that `size_max` in the config space is valid.
pub const BLK_F_SIZE_MAX: u32 = 1;

pub const BLK_F_FLUSH: u32 = 9;

/// Offered features, low word: [`BLK_F_SIZE_MAX`] and [`BLK_F_FLUSH`].
pub const BLK_FEATURES: u32 = 0x202;

/// Offset of `size_max` within `struct virtio_blk_config`, in the MMIO
/// device-configuration window that starts at 0x100.
pub const BLK_CONFIG_SIZE_MAX: u64 = 0x108;

/// Upper bound on the data bytes carried by a single request chain.
///
/// Descriptor lengths are guest-controlled, so a buggy driver can describe a
/// request spanning the whole disk; sizing the bounce buffer from that aborts
/// the machine on a wasm allocation failure. Oversized requests fail IOERR.
///
/// The same number is published as `size_max` (see [`BLK_F_SIZE_MAX`]) so a
/// well-behaved driver never hits that IOERR: without it Linux builds
/// single-segment requests up to its own 1280 KiB `max_sectors` default and a
/// large writeback would take an unrecoverable EIO. The enforced bound and the
/// published bound must stay the same number.
pub const MAX_REQUEST_BYTES: usize = 1024 * 1024;

#[derive(Debug, Clone, Copy, PartialEq, Eq, Structural)]
pub enum BlockError {
    OutOfRange,
    Io,
}

/// One operation asked of a block backend, and what it answered.
#[allow(inconsistent_fields)]
pub enum BlockCall {
    Read { sector: u64, len: nat, result: Result<(), BlockError> },
    Write { sector: u64, data: Seq<u8>, result: Result<(), BlockError> },
    Flush { result: Result<(), BlockError> },
}

/// What a block backend holds, and every operation asked of it so far.
#[verifier::ext_equal]
pub struct Volume {
    pub contents: Seq<u8>,
    pub calls: Seq<BlockCall>,
}

impl Volume {
    pub open spec fn called(self, call: BlockCall) -> Volume {
        Volume { calls: self.calls.push(call), ..self }
    }

    /// What a read may do: nothing to the contents, and one that succeeds
    /// gives them.
    pub open spec fn may_read(
        self,
        sector: u64,
        len: nat,
        post: Volume,
        data: Seq<u8>,
        result: Result<(), BlockError>,
    ) -> bool {
        &&& post == self.called(BlockCall::Read { sector, len, result })
        &&& data.len() == len
        &&& result is Ok ==> in_bytes(sector, len as int, self.contents.len() as int) && data
            == self.contents.subrange(sector * 512, sector * 512 + len)
    }

    /// What a write may do: one that succeeds overwrites the contents, and
    /// one that fails may have done so in part.
    pub open spec fn may_write(
        self,
        sector: u64,
        data: Seq<u8>,
        post: Volume,
        result: Result<(), BlockError>,
    ) -> bool {
        &&& post.calls == self.calls.push(BlockCall::Write { sector, data, result })
        &&& post.contents.len() == self.contents.len()
        &&& result is Ok ==> in_bytes(sector, data.len() as int, self.contents.len() as int)
            && post.contents == overwritten(self.contents, sector * 512, data)
    }

    /// What a flush may do.
    pub open spec fn may_flush(self, post: Volume, result: Result<(), BlockError>) -> bool {
        post == self.called(BlockCall::Flush { result })
    }
}

/// Fixed-capacity random-access storage behind the VirtIO block device.
pub trait BlockBackend {
    spec fn volume(&self) -> Volume;

    /// The backend's own invariant, which every operation keeps.
    spec fn intact(&self) -> bool;

    fn capacity_sectors(&self) -> (r: u64)
        ensures
            r == self.volume().contents.len() / 512,
    ;

    fn read_at(&mut self, sector: u64, buf: &mut [u8]) -> (r: Result<(), BlockError>)
        requires
            old(self).intact(),
        ensures
            final(self).intact(),
            old(self).volume().may_read(
                sector,
                old(buf)@.len(),
                final(self).volume(),
                final(buf)@,
                r,
            ),
    ;

    fn write_at(&mut self, sector: u64, buf: &[u8]) -> (r: Result<(), BlockError>)
        requires
            old(self).intact(),
        ensures
            final(self).intact(),
            old(self).volume().may_write(sector, buf@, final(self).volume(), r),
    ;

    fn flush(&mut self) -> (r: Result<(), BlockError>)
        requires
            old(self).intact(),
        ensures
            final(self).intact(),
            old(self).volume().may_flush(final(self).volume(), r),
    ;
}

/// Whether a request for `len` bytes at `sector` lies in `capacity` bytes.
pub open spec fn in_bytes(sector: u64, len: int, capacity: int) -> bool {
    sector * 512 + len <= capacity
}

/// The contents after `data` is written at `start`.
pub open spec fn overwritten(disk: Seq<u8>, start: int, data: Seq<u8>) -> Seq<u8> {
    disk.take(start) + data + disk.skip(start + data.len())
}

/// The bytes `overwritten` put down are there, and the others are as they
/// were.
pub proof fn law_overwritten_reads_back(disk: Seq<u8>, start: int, data: Seq<u8>, at: int)
    requires
        0 <= start,
        start + data.len() <= disk.len(),
        0 <= at < disk.len(),
    ensures
        overwritten(disk, start, data).len() == disk.len(),
        overwritten(disk, start, data).subrange(start, start + data.len()) == data,
        overwritten(disk, start, data)[at] == (if start <= at < start + data.len() {
            data[at - start]
        } else {
            disk[at]
        }),
{
    assert(overwritten(disk, start, data).subrange(start, start + data.len()) =~= data);
}

/// The volatile in-memory disk.
pub struct MemBackend {
    pub disk: Vec<u8>,
    pub calls: Ghost<Seq<BlockCall>>,
}

impl MemBackend {
    pub fn new(image: &[u8]) -> (r: Self)
        ensures
            r.disk@ == image@,
            r.calls@ == Seq::<BlockCall>::empty(),
    {
        Self { disk: copy_slice(image), calls: Ghost(Seq::empty()) }
    }

    fn fetch(&self, sector: u64, buf: &mut [u8]) -> (r: Result<(), BlockError>)
        ensures
            r == (if in_bytes(sector, old(buf)@.len() as int, self.disk@.len() as int) {
                Ok(())
            } else {
                Err(BlockError::OutOfRange)
            }),
            final(buf)@ == (if r is Ok {
                self.disk@.subrange(sector * 512, sector * 512 + old(buf)@.len())
            } else {
                old(buf)@
            }),
    {
        let start: usize = checked_range(sector, buf.len(), self.disk.len())?;
        let mut i: usize = 0;
        while i < buf.len()
            invariant
                buf@.len() == old(buf)@.len(),
                start + buf@.len() <= self.disk.len(),
                i <= buf@.len(),
                forall|k: int| 0 <= k < i ==> buf@[k] == self.disk@[start + k],
            decreases buf@.len() - i,
        {
            buf[i] = self.disk[start + i];
            i = i + 1;
        }
        assert(buf@ =~= self.disk@.subrange(start as int, start + buf@.len()));
        Ok(())
    }

    fn put(&mut self, sector: u64, buf: &[u8]) -> (r: Result<(), BlockError>)
        ensures
            final(self).calls == old(self).calls,
            r == (if in_bytes(sector, buf@.len() as int, old(self).disk@.len() as int) {
                Ok(())
            } else {
                Err(BlockError::OutOfRange)
            }),
            final(self).disk@ == (if r is Ok {
                overwritten(old(self).disk@, sector * 512, buf@)
            } else {
                old(self).disk@
            }),
    {
        let start: usize = checked_range(sector, buf.len(), self.disk.len())?;
        let mut i: usize = 0;
        while i < buf.len()
            invariant
                self.calls == old(self).calls,
                self.disk@.len() == old(self).disk@.len(),
                start + buf@.len() <= self.disk.len(),
                i <= buf@.len(),
                forall|k: int|
                    0 <= k < self.disk@.len() ==> #[trigger] self.disk@[k] == (if start <= k < start
                        + i {
                        buf@[k - start]
                    } else {
                        old(self).disk@[k]
                    }),
            decreases buf@.len() - i,
        {
            self.disk.set(start + i, buf[i]);
            i = i + 1;
        }
        assert(self.disk@ =~= overwritten(old(self).disk@, sector * 512, buf@));
        Ok(())
    }

}

impl BlockBackend for MemBackend {
    open spec fn volume(&self) -> Volume {
        Volume { contents: self.disk@, calls: self.calls@ }
    }

    open spec fn intact(&self) -> bool {
        true
    }

    fn capacity_sectors(&self) -> (r: u64) {
        assert(self.volume().contents == self.disk@);
        self.disk.len() as u64 / 512
    }

    fn read_at(&mut self, sector: u64, buf: &mut [u8]) -> (r: Result<(), BlockError>)
        ensures
            final(self).disk == old(self).disk,
            r == (if in_bytes(sector, old(buf)@.len() as int, old(self).disk@.len() as int) {
                Ok(())
            } else {
                Err(BlockError::OutOfRange)
            }),
            final(buf)@ == (if r is Ok {
                old(self).disk@.subrange(sector * 512, sector * 512 + old(buf)@.len())
            } else {
                old(buf)@
            }),
    {
        let ghost len = buf@.len();
        let result = self.fetch(sector, buf);
        self.calls = Ghost(self.calls@.push(BlockCall::Read { sector, len, result }));
        result
    }

    fn write_at(&mut self, sector: u64, buf: &[u8]) -> (r: Result<(), BlockError>)
        ensures
            r == (if in_bytes(sector, buf@.len() as int, old(self).disk@.len() as int) {
                Ok(())
            } else {
                Err(BlockError::OutOfRange)
            }),
            final(self).disk@ == (if r is Ok {
                overwritten(old(self).disk@, sector * 512, buf@)
            } else {
                old(self).disk@
            }),
    {
        let result = self.put(sector, buf);
        self.calls = Ghost(self.calls@.push(BlockCall::Write { sector, data: buf@, result }));
        result
    }

    fn flush(&mut self) -> (r: Result<(), BlockError>)
        ensures
            final(self).disk == old(self).disk,
            r is Ok,
    {
        let result: Result<(), BlockError> = Ok(());
        self.calls = Ghost(self.calls@.push(BlockCall::Flush { result }));
        result
    }
}

fn checked_range(sector: u64, len: usize, capacity: usize) -> (r: Result<usize, BlockError>)
    ensures
        r == (if in_bytes(sector, len as int, capacity as int) {
            Ok::<usize, BlockError>((sector * 512) as usize)
        } else {
            Err(BlockError::OutOfRange)
        }),
{
    match sector.checked_mul(512) {
        Some(offset) if offset <= capacity as u64 => {
            let start: usize = offset as usize;
            match start.checked_add(len) {
                Some(end) if end <= capacity => Ok(start),
                _ => Err(BlockError::OutOfRange),
            }
        },
        _ => Err(BlockError::OutOfRange),
    }
}

/// The storage attached to a device: the volatile in-memory disk, or one the
/// host provides.
pub enum Storage<B> {
    Memory(MemBackend),
    External(B),
}

pub type Backend = Storage<Box<dyn BlockBackend>>;

/// The storage: the bytes of a volatile disk, or the volume of one the host
/// provides.
#[verifier::ext_equal]
pub enum Medium {
    Absent,
    Memory(Seq<u8>),
    External(Volume),
}

impl Medium {
    /// Whole sectors.
    pub open spec fn capacity(self) -> nat {
        match self {
            Medium::Absent => 0,
            Medium::Memory(disk) => disk.len() / 512,
            Medium::External(volume) => volume.contents.len() / 512,
        }
    }

    /// What is stored.
    pub open spec fn contents(self) -> Seq<u8> {
        match self {
            Medium::Absent => Seq::empty(),
            Medium::Memory(disk) => disk,
            Medium::External(volume) => volume.contents,
        }
    }

    /// A volatile disk never fails a read inside it, and gives its contents.
    /// Storage the host provides may fail.
    pub open spec fn answers_read(self, sector: u64, len: nat, reply: Reply) -> bool {
        match self {
            Medium::Absent => false,
            Medium::Memory(disk) => reply.result is Ok && reply.data == disk.subrange(
                sector * 512,
                sector * 512 + len,
            ),
            Medium::External(volume) => volume.may_read(
                sector,
                len,
                reply.volume,
                reply.data,
                reply.result,
            ),
        }
    }

    /// A volatile disk never fails a write inside it.
    pub open spec fn answers_write(self, sector: u64, data: Seq<u8>, reply: Reply) -> bool {
        match self {
            Medium::Absent => false,
            Medium::Memory(_) => reply.result is Ok,
            Medium::External(volume) => volume.may_write(
                sector,
                data,
                reply.volume,
                reply.result,
            ),
        }
    }

    /// A volatile disk never fails a flush.
    pub open spec fn answers_flush(self, reply: Reply) -> bool {
        match self {
            Medium::Absent => false,
            Medium::Memory(_) => reply.result is Ok,
            Medium::External(volume) => volume.may_flush(reply.volume, reply.result),
        }
    }

    /// The storage after it answered: the volume the reply leaves, where the
    /// host provides one.
    pub open spec fn after(self, reply: Reply) -> Medium {
        match self {
            Medium::External(_) => Medium::External(reply.volume),
            other => other,
        }
    }

    /// The storage after it answered a write of `data` at a sector.
    pub open spec fn stored(self, sector: u64, data: Seq<u8>, reply: Reply) -> Medium {
        match self {
            Medium::Memory(disk) => Medium::Memory(overwritten(disk, sector * 512, data)),
            other => other.after(reply),
        }
    }
}

pub struct VirtioBlock {
    pub backend: Option<Backend>,
    pub transport: Transport,
    /// Bounce buffer for request payloads, reused so steady-state I/O
    /// performs no allocations.
    pub scratch: Vec<u8>,
    /// Descriptor-chain buffer, reused for the same reason.
    pub chain: Vec<Descriptor>,
    /// Cumulative payload bytes handed to the guest by completed reads.
    pub bytes_read: u64,
    /// Cumulative payload bytes taken from the guest by completed writes.
    pub bytes_written: u64,
}

/// What a [`VirtioBlock`] holds, its reusable buffers aside.
#[verifier::ext_equal]
pub struct BlockState {
    pub medium: Medium,
    pub transport: TransportState,
    pub bytes_read: u64,
    pub bytes_written: u64,
}

/// What the storage contributes to one request: its answer, the bytes of a
/// read, and what the answer left of storage the host provides.
pub struct Reply {
    pub result: Result<(), BlockError>,
    pub data: Seq<u8>,
    pub volume: Volume,
}

/// A header descriptor the device reads, followed by more.
pub open spec fn header_valid(chain: Seq<Descriptor>) -> bool {
    chain.len() >= 2 && chain[0].len >= 16 && chain[0].chained() && !chain[0].device_writable()
}

/// The data segments of a request, between header and status.
pub open spec fn data_of(chain: Seq<Descriptor>) -> Seq<Descriptor> {
    chain.subrange(1, chain.len() - 1)
}

/// Type and first sector of the request a chain describes, if it is one.
pub open spec fn request_of(ram: RamState, chain: Seq<Descriptor>) -> Option<(u32, u64)> {
    let at = chain[0].addr;
    if header_valid(chain) && bytes_of(data_of(chain)) <= MAX_REQUEST_BYTES && spans_ram(ram, at, 4)
        && at + 8 <= u64::MAX && spans_ram(ram, (at + 8) as u64, 8) {
        Some((value_at(ram, at as int, 4) as u32, value_at(ram, at + 8, 8)))
    } else {
        None
    }
}

impl BlockState {
    /// No storage, and a transport out of reset.
    pub open spec fn fresh() -> BlockState {
        BlockState {
            medium: Medium::Absent,
            transport: TransportState::fresh(1, QUEUE_SIZE_MAX),
            bytes_read: 0,
            bytes_written: 0,
        }
    }

    /// The transfer lies inside the disk, and its buffers inside RAM.
    pub open spec fn transfer_valid(self, ram: RamState, sector: u64, data: Seq<Descriptor>) -> bool {
        &&& sector * 512 + bytes_of(data) <= u64::MAX
        &&& in_bytes(sector, bytes_of(data) as int, self.medium.capacity() as int * 512)
        &&& all_in_ram(ram, data)
    }

    /// The read, write or flush may be handed to the storage.
    pub open spec fn reaches_storage(self, ram: RamState, chain: Seq<Descriptor>) -> bool {
        let data = data_of(chain);
        self.medium !is Absent && match request_of(ram, chain) {
            Some((BLK_T_IN, sector)) => all_writable(data, true) && self.transfer_valid(
                ram,
                sector,
                data,
            ),
            Some((BLK_T_OUT, sector)) => all_writable(data, false) && self.transfer_valid(
                ram,
                sector,
                data,
            ),
            Some((BLK_T_FLUSH, _)) => data.len() == 0,
            _ => false,
        }
    }

    /// The reply is one that the storage may give, if it is asked.
    pub open spec fn may_answer(self, ram: RamState, chain: Seq<Descriptor>, reply: Reply) -> bool {
        let data = data_of(chain);
        self.reaches_storage(ram, chain) ==> match request_of(ram, chain) {
            Some((BLK_T_IN, sector)) => self.medium.answers_read(
                sector,
                bytes_of(data),
                reply,
            ),
            Some((BLK_T_OUT, sector)) => self.medium.answers_write(
                sector,
                gathered(ram, data),
                reply,
            ),
            _ => self.medium.answers_flush(reply),
        }
    }

    /// The request a chain describes, carried out: bytes written into guest
    /// buffers (`None` on any failure), RAM and device afterwards.
    pub open spec fn executed(self, ram: RamState, chain: Seq<Descriptor>, reply: Reply) -> (
        Option<u32>,
        RamState,
        BlockState,
    ) {
        let data = data_of(chain);
        let total = bytes_of(data);
        let asked = BlockState { medium: self.medium.after(reply), ..self };
        if !self.reaches_storage(ram, chain) {
            (None, ram, self)
        } else if reply.result is Err {
            (None, ram, asked)
        } else {
            match request_of(ram, chain) {
                Some((BLK_T_IN, sector)) => (
                    Some(total as u32),
                    scattered(ram, data, reply.data),
                    BlockState {
                        bytes_read: self.bytes_read.wrapping_add(total as u64),
                        ..asked
                    },
                ),
                Some((BLK_T_OUT, sector)) => (
                    Some(0),
                    ram,
                    BlockState {
                        medium: self.medium.stored(sector, gathered(ram, data), reply),
                        bytes_written: self.bytes_written.wrapping_add(total as u64),
                        ..self
                    },
                ),
                _ => (Some(0), ram, asked),
            }
        }
    }

    /// The whole answer to the chain at `head`. Without a usable status byte
    /// nothing is done or published; otherwise the status byte tells success
    /// (0) from failure (1).
    pub open spec fn served(self, ram: RamState, layout: QueueLayout, head: u16, reply: Reply) -> (
        BlockState,
        RamState,
        ChainOutcome,
    ) {
        match chain_at(ram, layout, head) {
            None => (self, ram, ChainOutcome::Skip),
            Some(chain) => {
                let status = chain.last();
                if status.len < 1 || !status.device_writable() || !spans_ram(ram, status.addr, 1) {
                    (self, ram, ChainOutcome::Skip)
                } else {
                    let (used, ram1, st) = self.executed(ram, chain, reply);
                    let ok = used is Some;
                    (
                        st,
                        ram1.stored(
                            (status.addr - DRAM_BASE) as u64,
                            if ok {
                                0
                            } else {
                                1
                            },
                            1,
                        ),
                        ChainOutcome::Used(
                            match used {
                                Some(n) => n,
                                None => 0,
                            },
                        ),
                    )
                }
            },
        }
    }

    /// What draining the request queue may do.
    pub open spec fn may_process(self, ram: RamState, post: BlockState, ram2: RamState) -> bool {
        exists|queue: Queue, mid: BlockState| #[trigger]
            self.drained_to(ram, queue, mid, post, ram2)
    }

    pub open spec fn drained_to(
        self,
        ram: RamState,
        queue: Queue,
        mid: BlockState,
        post: BlockState,
        ram2: RamState,
    ) -> bool {
        ||| may_drain::<VirtioBlock>(
            0,
            self.transport.queues[0],
            ram,
            self,
            queue,
            ram2,
            mid,
            false,
        ) && post == mid.completed(queue, false)
        ||| may_drain::<VirtioBlock>(0, self.transport.queues[0], ram, self, queue, ram2, mid, true)
            && post == mid.completed(queue, true)
    }

    pub open spec fn completed(self, queue: Queue, published: bool) -> BlockState {
        BlockState { transport: self.transport.completed(0, queue, published), ..self }
    }

    /// The value of a register, read with an access of 4 or 8 bytes.
    pub open spec fn seen(self, offset: u64, size: u8) -> u64 {
        match self.transport.seen(offset, DEVICE_ID_BLOCK, seq![BLK_FEATURES, 1u32]) {
            Some(v) => v,
            None => if offset == 0x100 && size == 8 {
                self.medium.capacity() as u64
            } else if offset == 0x100 {
                (self.medium.capacity() % 0x1_0000_0000) as u64
            } else if offset == 0x104 {
                (self.medium.capacity() / 0x1_0000_0000) as u64
            } else if offset == BLK_CONFIG_SIZE_MAX {
                MAX_REQUEST_BYTES as u64
            } else {
                0
            },
        }
    }
}

impl View for VirtioBlock {
    type V = BlockState;

    open spec fn view(&self) -> BlockState {
        BlockState {
            medium: medium(self.backend),
            transport: self.transport@,
            bytes_read: self.bytes_read,
            bytes_written: self.bytes_written,
        }
    }
}

/// The storage attached.
pub open spec fn medium(backend: Option<Backend>) -> Medium {
    match backend {
        None => Medium::Absent,
        Some(Storage::Memory(m)) => Medium::Memory(m.disk@),
        Some(Storage::External(b)) => Medium::External(b.volume()),
    }
}

impl ChainHandler for VirtioBlock {
    type State = BlockState;

    open spec fn state(&self) -> BlockState {
        self@
    }

    open spec fn serving(&self) -> bool {
        self.wf()
    }

    open spec fn may_handle(
        pre: BlockState,
        index: usize,
        ram: RamState,
        layout: QueueLayout,
        head: u16,
        post: BlockState,
        ram2: RamState,
        outcome: ChainOutcome,
    ) -> bool {
        exists|reply: Reply|
            (match chain_at(ram, layout, head) {
                Some(chain) => pre.may_answer(ram, chain, reply),
                None => true,
            }) && #[trigger] pre.served(ram, layout, head, reply) == (post, ram2, outcome)
    }

    /// No status byte means no used entry: publishing one would claim
    /// completion while leaving the status uninitialized. The queue still
    /// advances so it does not wedge on the bad chain.
    fn handle(&mut self, _index: usize, ram: &mut Ram, layout: QueueLayout, head: u16) -> (r:
        ChainOutcome) {
        match self.process_request(ram, layout, head) {
            Some(used_len) => ChainOutcome::Used(used_len),
            None => ChainOutcome::Skip,
        }
    }
}

impl VirtioBlock {
    /// The device has its one queue, and its storage is intact.
    pub open spec fn wf(self) -> bool {
        &&& self@.transport.queues.len() == 1
        &&& match self.backend {
            Some(Storage::External(b)) => b.intact(),
            _ => true,
        }
    }

    pub fn new() -> (r: Self)
        ensures
            r.wf(),
            r@ == BlockState::fresh(),
    {
        Self {
            backend: None,
            transport: Transport::new(1, QUEUE_SIZE_MAX),
            scratch: Vec::new(),
            chain: Vec::new(),
            bytes_read: 0,
            bytes_written: 0,
        }
    }

    /// Cumulative payload bytes read from the disk since construction.
    pub fn bytes_read(&self) -> (r: u64)
        ensures
            r == self@.bytes_read,
    {
        self.bytes_read
    }

    /// Cumulative payload bytes written to the disk since construction.
    pub fn bytes_written(&self) -> (r: u64)
        ensures
            r == self@.bytes_written,
    {
        self.bytes_written
    }

    /// Replace the volatile, in-memory disk contents.
    pub fn set_disk(&mut self, image: &[u8])
        ensures
            old(self).wf() ==> final(self).wf(),
            final(self)@ == (BlockState { medium: Medium::Memory(image@), ..old(self)@ }),
    {
        self.backend = Some(Storage::Memory(MemBackend::new(image)));
    }

    pub fn set_backend(&mut self, backend: Box<dyn BlockBackend>)
        ensures
            old(self).wf() && backend.intact() ==> final(self).wf(),
            final(self)@ == (BlockState {
                medium: Medium::External(backend.volume()),
                ..old(self)@
            }),
    {
        let held = backend;
        let storage = Storage::External(held);
        let attached = Some(storage);
        self.backend = attached;
    }

    /// Ask the storage to make what was written durable.
    pub fn flush(&mut self) -> (r: Result<(), BlockError>)
        requires
            old(self).wf(),
        ensures
            final(self).wf(),
            final(self)@ == (BlockState { medium: final(self)@.medium, ..old(self)@ }),
            match old(self)@.medium {
                Medium::External(volume) => match final(self)@.medium {
                    Medium::External(post) => volume.may_flush(post, r),
                    _ => false,
                },
                Medium::Memory(_) => r is Ok && final(self)@ == old(self)@,
                Medium::Absent => r == Err::<(), BlockError>(BlockError::Io) && final(self)@
                    == old(self)@,
            },
    {
        match &mut self.backend {
            Some(Storage::Memory(m)) => m.flush(),
            Some(Storage::External(b)) => b.flush(),
            None => Err(BlockError::Io),
        }
    }

    pub fn irq_pending(&self) -> (r: bool)
        ensures
            r == self@.transport.irq(),
    {
        self.transport.irq_pending()
    }

    pub fn read(&self, offset: u64, size: u8) -> (r: Result<u64, ()>)
        ensures
            r == (if size == 4 || size == 8 {
                Ok::<u64, ()>(self@.seen(offset, size))
            } else {
                Err(())
            }),
    {
        if size != 4 && size != 8 {
            return Err(());
        }
        // VIRTIO_F_VERSION_1 lives in bit 32, i.e. bit 0 of the second word.
        let features: [u32; 2] = [BLK_FEATURES, 1];
        assert(features@ =~= seq![BLK_FEATURES, 1u32]);
        match self.transport.read(offset, DEVICE_ID_BLOCK, features) {
            Some(value) => return Ok(value),
            None => {},
        }
        let capacity: u64 = self.capacity_sectors();
        let value: u64 = if offset == 0x100 && size == 8 {
            // Block configuration: capacity in 512-byte sectors.
            capacity
        } else if offset == 0x100 {
            capacity % 0x1_0000_0000
        } else if offset == 0x104 {
            capacity / 0x1_0000_0000
        } else if offset == BLK_CONFIG_SIZE_MAX {
            // `size_max`: the largest segment this device will accept. `seg_max`
            // sits in the next word and is not advertised, so it stays zero.
            MAX_REQUEST_BYTES as u64
        } else {
            0
        };
        Ok(value)
    }

    pub fn write(&mut self, offset: u64, val: u64, size: u8, ram: &mut Ram) -> (r: Result<(), ()>)
        requires
            old(self).wf(),
            old(ram).wf(),
        ensures
            final(self).wf(),
            final(ram).wf(),
            final(ram)@.bytes.len() == old(ram)@.bytes.len(),
            r is Ok <==> size == 4,
            old(self)@.may_write(offset, val as u32, size, old(ram)@, final(self)@, final(ram)@),
    {
        if size != 4 {
            return Err(());
        }
        match self.transport.write(offset, val as u32) {
            TransportWrite::Notify(0) => self.process_queue(ram),
            _ => {},
        }
        Ok(())
    }

    fn capacity_sectors(&self) -> (r: u64)
        ensures
            r == self@.medium.capacity(),
    {
        match &self.backend {
            Some(Storage::Memory(m)) => m.capacity_sectors(),
            Some(Storage::External(b)) => b.capacity_sectors(),
            None => 0,
        }
    }

    fn process_queue(&mut self, ram: &mut Ram)
        requires
            old(self).wf(),
            old(ram).wf(),
        ensures
            final(self).wf(),
            final(ram).wf(),
            final(ram)@.bytes.len() == old(ram)@.bytes.len(),
            old(self)@.may_process(old(ram)@, final(self)@, final(ram)@),
    {
        let work = self.transport.queue(QUEUE_REQUEST);
        let done = work.drain(ram, self);
        let ghost mid = self@;
        let ghost queue = done.queue;
        self.transport.complete_queue(done);
        assert(old(self)@.drained_to(old(ram)@, queue, mid, self@, ram@));
    }

    /// Runs one descriptor chain.
    ///
    /// Returns `Some(used_len)` when a used entry should be published (the
    /// status byte has been written: 0 on success, 1 on any failure) and
    /// `None` when no status descriptor could be located, in which case the
    /// caller must not publish anything for this chain.
    fn process_request(&mut self, ram: &mut Ram, layout: QueueLayout, head: u16) -> (r: Option<u32>)
        requires
            old(self).wf(),
            old(ram).wf(),
        ensures
            final(self).wf(),
            final(ram).wf(),
            final(ram)@.bytes.len() == old(ram)@.bytes.len(),
            VirtioBlock::may_handle(
                old(self)@,
                QUEUE_REQUEST,
                old(ram)@,
                layout,
                head,
                final(self)@,
                final(ram)@,
                match r {
                    Some(n) => ChainOutcome::Used(n),
                    None => ChainOutcome::Skip,
                },
            ),
    {
        let mut chain: Vec<Descriptor> = Vec::new();
        core::mem::swap(&mut chain, &mut self.chain);
        let outcome = self.process_chain(ram, layout, head, &mut chain);
        chain.clear();
        self.chain = chain;
        outcome
    }

    fn process_chain(
        &mut self,
        ram: &mut Ram,
        layout: QueueLayout,
        head: u16,
        chain: &mut Vec<Descriptor>,
    ) -> (r: Option<u32>)
        requires
            old(self).wf(),
            old(ram).wf(),
        ensures
            final(self).wf(),
            final(ram).wf(),
            final(ram)@.bytes.len() == old(ram)@.bytes.len(),
            VirtioBlock::may_handle(
                old(self)@,
                QUEUE_REQUEST,
                old(ram)@,
                layout,
                head,
                final(self)@,
                final(ram)@,
                match r {
                    Some(n) => ChainOutcome::Used(n),
                    None => ChainOutcome::Skip,
                },
            ),
    {
        let ghost silent = Reply {
            result: Ok(()),
            data: Seq::empty(),
            volume: volume_of(self@.medium),
        };
        if !virtqueue::collect_chain(ram, layout, head, chain) {
            assert(self@.served(ram@, layout, head, silent) == (self@, ram@, ChainOutcome::Skip));
            return None;
        }
        proof {
            reveal_with_fuel(chain_from, 2);
        }
        // The last descriptor carries the status byte. If it is not writable,
        // non-empty and RAM-backed there is nowhere to report a failure, so
        // the whole chain is unpublishable.
        let status = chain[chain.len() - 1];
        if status.len < 1 || status.flags & DESC_F_WRITE == 0 || virtqueue::ram_offset(
            ram,
            status.addr,
            1,
        ).is_none() {
            proof {
                let quiet = quiet_reply(self@, ram@, chain@);
                assert(self@.may_answer(ram@, chain@, quiet));
                assert(self@.served(ram@, layout, head, quiet) == (
                    self@,
                    ram@,
                    ChainOutcome::Skip,
                ));
            }
            return None;
        }
        // Past this point every failure is reported through the status byte
        // rather than dropped silently.
        let (used_len, reply) = self.execute(ram, chain.as_slice());
        let failed: u64 = if used_len.is_some() {
            0
        } else {
            1
        };
        // 0 = OK, 1 = IOERR. xv6 treats every non-zero value as fatal.
        let ghost ram1 = ram@;
        let _ = ram.write(status.addr - DRAM_BASE, failed, 1);
        proof {
            crate::le::lemma_le_bytes_len(failed as nat, 1);
        }
        let used: u32 = match used_len {
            Some(n) => n,
            None => 0,
        };
        assert(old(self)@.served(old(ram)@, layout, head, reply@) == (
            self@,
            ram@,
            ChainOutcome::Used(used),
        ));
        Some(used)
    }

    /// Performs the request described by `chain`, returning the number of
    /// bytes written into guest buffers on success and `None` on any failure.
    fn execute(&mut self, ram: &mut Ram, chain: &[Descriptor]) -> (r: (Option<u32>, Ghost<Reply>))
        requires
            old(self).wf(),
            old(ram).wf(),
        ensures
            final(self).wf(),
            final(ram).wf(),
            final(ram)@.bytes.len() == old(ram)@.bytes.len(),
            old(self)@.may_answer(old(ram)@, chain@, r.1@),
            old(self)@.executed(old(ram)@, chain@, r.1@) == (r.0, final(ram)@, final(self)@),
    {
        let ghost none = Reply {
            result: Ok(()),
            data: Seq::empty(),
            volume: volume_of(self@.medium),
        };
        if chain.len() < 2 {
            return (None, Ghost(none));
        }
        let header = chain[0];
        if header.len < 16 || header.flags & DESC_F_NEXT == 0 || header.flags & DESC_F_WRITE != 0 {
            return (None, Ghost(none));
        }
        let data = vstd::slice::slice_subrange(chain, 1, chain.len() - 1);
        assert(data@ =~= data_of(chain@));
        let data_len: usize = match virtqueue::total_len(data) {
            Some(n) => n,
            None => return (None, Ghost(none)),
        };
        if data_len > MAX_REQUEST_BYTES {
            return (None, Ghost(none));
        }
        let request_type: u32 = match virtqueue::read_u32(ram, header.addr) {
            Some(v) => v,
            None => return (None, Ghost(none)),
        };
        let sector: u64 = match header.addr.checked_add(8) {
            Some(at) => match virtqueue::read_u64(ram, at) {
                Some(v) => v,
                None => return (None, Ghost(none)),
            },
            None => return (None, Ghost(none)),
        };
        assert(request_of(ram@, chain@) == Some((request_type, sector)));
        match request_type {
            BLK_T_IN => {
                let (result, reply) = self.read_segments(ram, sector, data);
                match result {
                    Ok(_) => {
                        self.bytes_read = self.bytes_read.wrapping_add(data_len as u64);
                        (Some(data_len as u32), reply)
                    },
                    Err(_) => (None, reply),
                }
            },
            BLK_T_OUT => {
                let (result, reply) = self.write_segments(ram, sector, data);
                match result {
                    Ok(_) => {
                        self.bytes_written = self.bytes_written.wrapping_add(data_len as u64);
                        (Some(0), reply)
                    },
                    Err(_) => (None, reply),
                }
            },
            BLK_T_FLUSH => {
                if data.len() != 0 {
                    return (None, Ghost(none));
                }
                let result = self.flush();
                let ghost reply = Reply {
                    result,
                    data: Seq::empty(),
                    volume: volume_of(self@.medium),
                };
                match result {
                    Ok(_) => (Some(0), Ghost(reply)),
                    Err(_) => (None, Ghost(reply)),
                }
            },
            _ => (None, Ghost(none)),
        }
    }

    /// Move `segments`' worth of disk into them.
    fn read_segments(&mut self, ram: &mut Ram, sector: u64, segments: &[Descriptor]) -> (r: (
        Result<(), BlockError>,
        Ghost<Reply>,
    ))
        requires
            old(self).wf(),
            old(ram).wf(),
            bytes_of(segments@) <= MAX_REQUEST_BYTES,
        ensures
            final(self).wf(),
            final(ram).wf(),
            final(ram)@.bytes.len() == old(ram)@.bytes.len(),
            ({
                let reply = r.1@;
                let asked = all_writable(segments@, true) && old(self)@.transfer_valid(
                    old(ram)@,
                    sector,
                    segments@,
                ) && old(self)@.medium !is Absent;
                &&& r.0 is Ok <==> asked && reply.result is Ok
                &&& asked ==> old(self)@.medium.answers_read(sector, bytes_of(segments@), reply)
                &&& final(self)@ == (if asked {
                    BlockState { medium: old(self)@.medium.after(reply), ..old(self)@ }
                } else {
                    old(self)@
                })
                &&& final(ram)@ == (if r.0 is Ok {
                    scattered(old(ram)@, segments@, reply.data)
                } else {
                    old(ram)@
                })
            }),
    {
        let ghost none = Reply {
            result: Ok(()),
            data: Seq::empty(),
            volume: volume_of(self@.medium),
        };
        let total: usize = match virtqueue::total_len(segments) {
            Some(n) => n,
            None => return (Err(BlockError::OutOfRange), Ghost(none)),
        };
        if !virtqueue::buffers_writable(segments, true) {
            return (Err(BlockError::Io), Ghost(none));
        }
        match self.validate_transfer(ram, sector, total, segments) {
            Ok(_) => {},
            Err(e) => return (Err(e), Ghost(none)),
        }
        // clear + resize keeps the allocation, so steady-state I/O never
        // allocates. A request is bounded, and so is the buffer.
        let mut data: Vec<u8> = Vec::new();
        core::mem::swap(&mut data, &mut self.scratch);
        data.clear();
        data.resize(total, 0);
        let result = match &mut self.backend {
            Some(Storage::Memory(m)) => m.read_at(sector, data.as_mut_slice()),
            Some(Storage::External(b)) => b.read_at(sector, data.as_mut_slice()),
            None => Err(BlockError::Io),
        };
        let ghost reply = Reply {
            result,
            data: data@,
            volume: volume_of(self@.medium),
        };
        if result.is_ok() {
            proof {
                virtqueue::lemma_all_backed(ram@, segments@, total as nat);
            }
            virtqueue::scatter(ram, segments, data.as_slice());
        }
        self.scratch = data;
        (result, Ghost(reply))
    }

    /// Move the segments' bytes onto the disk.
    fn write_segments(&mut self, ram: &Ram, sector: u64, segments: &[Descriptor]) -> (r: (
        Result<(), BlockError>,
        Ghost<Reply>,
    ))
        requires
            old(self).wf(),
            ram.wf(),
            bytes_of(segments@) <= MAX_REQUEST_BYTES,
        ensures
            final(self).wf(),
            ({
                let reply = r.1@;
                let asked = all_writable(segments@, false) && old(self)@.transfer_valid(
                    ram@,
                    sector,
                    segments@,
                ) && old(self)@.medium !is Absent;
                let data = gathered(ram@, segments@);
                &&& r.0 is Ok <==> asked && reply.result is Ok
                &&& asked ==> old(self)@.medium.answers_write(sector, data, reply)
                &&& final(self)@ == (if r.0 is Ok {
                    BlockState {
                        medium: old(self)@.medium.stored(sector, data, reply),
                        ..old(self)@
                    }
                } else if asked {
                    BlockState { medium: old(self)@.medium.after(reply), ..old(self)@ }
                } else {
                    old(self)@
                })
            }),
    {
        let ghost none = Reply {
            result: Ok(()),
            data: Seq::empty(),
            volume: volume_of(self@.medium),
        };
        let total: usize = match virtqueue::total_len(segments) {
            Some(n) => n,
            None => return (Err(BlockError::OutOfRange), Ghost(none)),
        };
        if !virtqueue::buffers_writable(segments, false) {
            return (Err(BlockError::Io), Ghost(none));
        }
        match self.validate_transfer(ram, sector, total, segments) {
            Ok(_) => {},
            Err(e) => return (Err(e), Ghost(none)),
        }
        let mut data: Vec<u8> = Vec::new();
        core::mem::swap(&mut data, &mut self.scratch);
        data.clear();
        virtqueue::gather(ram, segments, &mut data);
        proof {
            assert(data@ =~= gathered(ram@, segments@));
            virtqueue::law_gathered_length(ram@, segments@);
        }
        let result = match &mut self.backend {
            Some(Storage::Memory(m)) => m.write_at(sector, data.as_slice()),
            Some(Storage::External(b)) => b.write_at(sector, data.as_slice()),
            None => Err(BlockError::Io),
        };
        self.scratch = data;
        let ghost reply = Reply {
            result,
            data: Seq::empty(),
            volume: volume_of(self@.medium),
        };
        (result, Ghost(reply))
    }

    fn validate_transfer(&self, ram: &Ram, sector: u64, total: usize, segments: &[Descriptor]) -> (r:
        Result<(), BlockError>)
        requires
            ram.wf(),
            total == bytes_of(segments@),
        ensures
            r == (if self@.transfer_valid(ram@, sector, segments@) {
                Ok(())
            } else {
                Err(BlockError::OutOfRange)
            }),
    {
        let begin: u64 = match sector.checked_mul(512) {
            Some(v) => v,
            None => return Err(BlockError::OutOfRange),
        };
        let end: u64 = match begin.checked_add(total as u64) {
            Some(v) => v,
            None => return Err(BlockError::OutOfRange),
        };
        let limit: u64 = match self.capacity_sectors().checked_mul(512) {
            Some(v) => v,
            None => u64::MAX,
        };
        if end > limit || !virtqueue::buffers_in_ram(ram, segments) {
            return Err(BlockError::OutOfRange);
        }
        Ok(())
    }
}

/// A reply the storage may give to the request of a chain: a volatile disk
/// does as it is asked, and storage the host provides fails.
spec fn quiet_reply(st: BlockState, ram: RamState, chain: Seq<Descriptor>) -> Reply {
    let result = if st.medium is External {
        Err(BlockError::Io)
    } else {
        Ok(())
    };
    let len = bytes_of(data_of(chain));
    let volume = volume_of(st.medium);
    match request_of(ram, chain) {
        Some((BLK_T_IN, sector)) => Reply {
            result,
            data: match st.medium {
                Medium::Memory(disk) => disk.subrange(sector * 512, sector * 512 + len),
                _ => Seq::new(len, |i: int| 0u8),
            },
            volume: volume.called(BlockCall::Read { sector, len, result }),
        },
        Some((BLK_T_OUT, sector)) => Reply {
            result,
            data: Seq::empty(),
            volume: volume.called(
                BlockCall::Write { sector, data: gathered(ram, data_of(chain)), result },
            ),
        },
        _ => Reply {
            result,
            data: Seq::empty(),
            volume: volume.called(BlockCall::Flush { result }),
        },
    }
}

/// The volume of storage the host provides, as it stands.
spec fn volume_of(medium: Medium) -> Volume {
    match medium {
        Medium::External(volume) => volume,
        _ => arbitrary(),
    }
}

impl BlockState {
    /// What a register write may do.
    pub open spec fn may_write(
        self,
        offset: u64,
        val: u32,
        size: u8,
        ram: RamState,
        post: BlockState,
        ram2: RamState,
    ) -> bool {
        let pre = BlockState { transport: self.transport.written(offset, val), ..self };
        if size != 4 {
            post == self && ram2 == ram
        } else if offset == 0x050 && val == 0 {
            pre.may_process(ram, post, ram2)
        } else {
            post == pre && ram2 == ram
        }
    }
}

impl Default for VirtioBlock {
    fn default() -> (r: Self)
        ensures
            r.wf(),
            r@ == BlockState::fresh(),
    {
        Self::new()
    }
}

/// What a write request put on the storage, a later read request for the same
/// sectors gives back, whoever provides the storage.
pub proof fn law_read_returns_written(
    st: BlockState,
    ram: RamState,
    write: Seq<Descriptor>,
    written: Reply,
    ram2: RamState,
    read: Seq<Descriptor>,
    answer: Reply,
    sector: u64,
)
    requires
        request_of(ram, write) == Some((BLK_T_OUT, sector)),
        st.may_answer(ram, write, written),
        st.executed(ram, write, written).0 is Some,
        request_of(ram2, read) == Some((BLK_T_IN, sector)),
        bytes_of(data_of(read)) == bytes_of(data_of(write)),
        st.executed(ram, write, written).2.may_answer(ram2, read, answer),
        st.executed(ram, write, written).2.executed(ram2, read, answer).0 is Some,
    ensures
        answer.data == gathered(ram, data_of(write)),
        st.executed(ram, write, written).2.executed(ram2, read, answer).1 == scattered(
            ram2,
            data_of(read),
            gathered(ram, data_of(write)),
        ),
{
    let disk = st.medium.contents();
    let data = gathered(ram, data_of(write));
    virtqueue::law_gathered_length(ram, data_of(write));
    assert(overwritten(disk, sector * 512, data).subrange(sector * 512, sector * 512 + data.len())
        =~= data);
}

/// A request that fails leaves RAM and the byte counters as they were, and a
/// volatile disk too.
pub proof fn law_failed_request_changes_nothing(
    st: BlockState,
    ram: RamState,
    chain: Seq<Descriptor>,
    reply: Reply,
)
    requires
        st.executed(ram, chain, reply).0 is None,
    ensures
        st.executed(ram, chain, reply).1 == ram,
        st.executed(ram, chain, reply).2 == (BlockState {
            medium: st.executed(ram, chain, reply).2.medium,
            ..st
        }),
        st.medium !is External ==> st.executed(ram, chain, reply).2 == st,
        !st.reaches_storage(ram, chain) ==> st.executed(ram, chain, reply).2 == st,
{
}

/// A well-formed in-range request to the volatile disk succeeds. A read puts
/// the sectors into the guest buffers and reports how much that was; a write
/// puts the guest buffers on the disk; both are counted.
pub proof fn law_memory_requests_succeed(
    st: BlockState,
    ram: RamState,
    chain: Seq<Descriptor>,
    reply: Reply,
)
    requires
        st.medium is Memory,
        st.reaches_storage(ram, chain),
        st.may_answer(ram, chain, reply),
    ensures
        st.executed(ram, chain, reply).0 == Some(
            match request_of(ram, chain) {
                Some((BLK_T_IN, _)) => bytes_of(data_of(chain)) as u32,
                _ => 0,
            },
        ),
        match request_of(ram, chain) {
            Some((BLK_T_IN, sector)) => st.executed(ram, chain, reply).1 == scattered(
                ram,
                data_of(chain),
                st.medium->Memory_0.subrange(
                    sector * 512,
                    sector * 512 + bytes_of(data_of(chain)),
                ),
            ) && st.executed(ram, chain, reply).2 == (BlockState {
                bytes_read: st.bytes_read.wrapping_add(bytes_of(data_of(chain)) as u64),
                ..st
            }),
            Some((BLK_T_OUT, sector)) => st.executed(ram, chain, reply).1 == ram
                && st.executed(ram, chain, reply).2 == (BlockState {
                medium: Medium::Memory(
                    overwritten(
                        st.medium->Memory_0,
                        sector * 512,
                        gathered(ram, data_of(chain)),
                    ),
                ),
                bytes_written: st.bytes_written.wrapping_add(bytes_of(data_of(chain)) as u64),
                ..st
            }),
            _ => st.executed(ram, chain, reply).1 == ram && st.executed(ram, chain, reply).2 == st,
        },
{
}

/// A flush request reaches the storage the host provides, once, and succeeds
/// if and only if the storage says so.
pub proof fn law_flush_reaches_the_backend(
    st: BlockState,
    ram: RamState,
    chain: Seq<Descriptor>,
    reply: Reply,
    sector: u64,
)
    requires
        st.medium is External,
        request_of(ram, chain) == Some((BLK_T_FLUSH, sector)),
        data_of(chain).len() == 0,
        st.may_answer(ram, chain, reply),
    ensures
        st.executed(ram, chain, reply).2.medium == Medium::External(
            st.medium->External_0.called(BlockCall::Flush { result: reply.result }),
        ),
        st.executed(ram, chain, reply).0 == (if reply.result is Ok {
            Some(0u32)
        } else {
            None
        }),
{
}

proof fn lemma_executed_follows(st: BlockState, ram: RamState, chain: Seq<Descriptor>, reply: Reply)
    requires
        paged(ram),
        1 <= chain.len() <= 0xffff,
        st.may_answer(ram, chain, reply),
    ensures
        st.executed(ram, chain, reply).1.follows(ram, 0xffff),
{
    lemma_follows(ram, ram, 0, 0xffff);
    let after = st.executed(ram, chain, reply).1;
    if after != ram {
        let data = data_of(chain);
        lemma_all_backed(ram, data, reply.data.len());
        lemma_scattered_follows(ram, data, reply.data);
        lemma_follows(ram, after, data.len(), 0xffff);
    }
}

proof fn lemma_counts_writes()
    ensures
        counts_writes::<VirtioBlock>(),
{
    assert forall|
        pre: BlockState,
        index: usize,
        ram: RamState,
        layout: QueueLayout,
        head: u16,
        post: BlockState,
        ram2: RamState,
        outcome: ChainOutcome,
    |
        paged(ram) && #[trigger] <VirtioBlock as ChainHandler>::may_handle(
            pre,
            index,
            ram,
            layout,
            head,
            post,
            ram2,
            outcome,
        ) implies ram2.follows(ram, 0x1_0001) by {
        lemma_follows(ram, ram, 0, 0x1_0001);
        lemma_chain_len(ram, layout, head, layout.num as nat);
        let reply = choose|reply: Reply|
            (match chain_at(ram, layout, head) {
                Some(chain) => pre.may_answer(ram, chain, reply),
                None => true,
            }) && #[trigger] pre.served(ram, layout, head, reply) == (post, ram2, outcome);
        match chain_at(ram, layout, head) {
            Some(chain) => {
                let status = chain.last();
                if status.len >= 1 && status.device_writable() && spans_ram(ram, status.addr, 1) {
                    lemma_executed_follows(pre, ram, chain, reply);
                    let (used, ram1, st) = pre.executed(ram, chain, reply);
                    let code: u64 = if used is Some {
                        0
                    } else {
                        1
                    };
                    crate::le::lemma_le_bytes_len(code as nat, 1);
                    law_a_write_is_counted(
                        ram1,
                        status.addr - DRAM_BASE,
                        crate::le::le_bytes(code as nat, 1),
                    );
                    law_counts_add_up(ram, ram1, ram2, 0xffff, 1);
                    lemma_follows(ram, ram2, 0x1_0000, 0x1_0001);
                }
            },
            None => {},
        }
    }
}

/// Whatever serving a queue does to RAM is counted there.
pub proof fn law_served_writes_are_counted(
    st: BlockState,
    ram: RamState,
    post: BlockState,
    ram2: RamState,
)
    requires
        paged(ram),
        st.may_process(ram, post, ram2),
    ensures
        ram2.follows(ram, writes_per_drain()),
{
    lemma_counts_writes();
    let (queue, mid) = choose|queue: Queue, mid: BlockState| #[trigger]
        st.drained_to(ram, queue, mid, post, ram2);
    let q = st.transport.queues[0];
    if may_drain::<VirtioBlock>(0, q, ram, st, queue, ram2, mid, false) {
        law_drained_writes_are_counted::<VirtioBlock>(0, q, ram, st, queue, ram2, mid, false);
    } else {
        law_drained_writes_are_counted::<VirtioBlock>(0, q, ram, st, queue, ram2, mid, true);
    }
}

/// Whatever a register write makes the device do to RAM is counted there.
pub proof fn law_device_writes_are_counted(
    st: BlockState,
    offset: u64,
    val: u32,
    size: u8,
    ram: RamState,
    post: BlockState,
    ram2: RamState,
)
    requires
        paged(ram),
        st.may_write(offset, val, size, ram, post, ram2),
    ensures
        ram2.follows(ram, writes_per_drain()),
{
    lemma_follows(ram, ram, 0, writes_per_drain());
    if ram2 != ram {
        let pre = BlockState { transport: st.transport.written(offset, val), ..st };
        law_served_writes_are_counted(pre, ram, post, ram2);
    }
}

// ---------------------------------------------------------------------------
// State snapshot
// ---------------------------------------------------------------------------

pub const SNAPSHOT_VERSION: u16 = 1;

impl BlockState {
    pub open spec fn counters(self) -> Seq<u8> {
        enc_u64(self.bytes_read) + enc_u64(self.bytes_written)
    }

    pub open spec fn snapshot(self) -> Seq<u8> {
        enc_section(SNAPSHOT_VERSION, self.counters()) + self.transport.snapshot()
    }

    /// The device after a restore from the data, and what is left of it. The
    /// storage is not part of a snapshot.
    pub open spec fn restored(self, data: Seq<u8>) -> Parsed<BlockState> {
        match and_section(start(data), SNAPSHOT_VERSION) {
            Err(e) => Err(e),
            Ok(((_, payload), rest)) => match and_end(and_u64(and_u64(start(payload)))) {
                Err(e) => Err(e),
                Ok(((_, bytes_read), bytes_written)) => match self.transport.restored(rest) {
                    Err(e) => Err(e),
                    Ok((transport, left)) => Ok(
                        (BlockState { transport, bytes_read, bytes_written, ..self }, left),
                    ),
                },
            },
        }
    }
}

impl VirtioBlock {
    /// Write one block straight to the backend, bypassing the virtqueue.
    ///
    /// Used only to lay a snapshot's disk overlay down before the guest
    /// resumes; the byte counters stay untouched, since the guest did not do
    /// this I/O and a host-applied overlay must not read as guest writes.
    pub fn host_write(&mut self, sector: u64, data: &[u8]) -> (r: Result<(), BlockError>)
        requires
            old(self).wf(),
        ensures
            final(self).wf(),
            match old(self)@.medium {
                Medium::Absent => r == Err::<(), BlockError>(BlockError::Io) && final(self)@
                    == old(self)@,
                Medium::Memory(disk) => if in_bytes(sector, data@.len() as int, disk.len() as int) {
                    r is Ok && final(self)@ == (BlockState {
                        medium: Medium::Memory(overwritten(disk, sector * 512, data@)),
                        ..old(self)@
                    })
                } else {
                    r == Err::<(), BlockError>(BlockError::OutOfRange) && final(self)@
                        == old(self)@
                },
                Medium::External(volume) => match final(self)@.medium {
                    Medium::External(post) => volume.may_write(sector, data@, post, r)
                        && final(self)@ == (BlockState {
                        medium: Medium::External(post),
                        ..old(self)@
                    }),
                    _ => false,
                },
            },
    {
        match &mut self.backend {
            Some(Storage::Memory(m)) => m.write_at(sector, data),
            Some(Storage::External(b)) => b.write_at(sector, data),
            None => Err(BlockError::Io),
        }
    }

    pub fn snapshot(&self, out: &mut Writer)
        requires
            self.wf(),
        ensures
            final(out)@ == old(out)@ + self@.snapshot(),
    {
        let mut w = Writer::new();
        w.u64(self.bytes_read);
        w.u64(self.bytes_written);
        assert(w@ =~= self@.counters());
        proof {
            crate::le::lemma_le_bytes_len(self.bytes_read as nat, 8);
            crate::le::lemma_le_bytes_len(self.bytes_written as nat, 8);
        }
        out.section(SNAPSHOT_VERSION, &w);
        self.transport.snapshot(out);
        assert(out@ =~= old(out)@ + self@.snapshot());
    }

    /// Take the state back from a snapshot. Data that does not parse leaves
    /// the device as it was.
    pub fn restore(&mut self, input: &mut Reader<'_>) -> (r: Result<(), RestoreError>)
        requires
            old(self).wf(),
            old(input).wf(),
        ensures
            final(self).wf(),
            final(input).wf(),
            match old(self)@.restored(old(input).rest()) {
                Err(e) => r == Err::<(), RestoreError>(e) && *final(self) == *old(self),
                Ok((st, rest)) => r is Ok && final(self)@ == st && final(input).rest() == rest,
            },
    {
        let mut section = input.section(SNAPSHOT_VERSION)?;
        let bytes_read: u64 = section.u64()?;
        let bytes_written: u64 = section.u64()?;
        section.finish()?;
        self.transport.restore(input)?;
        self.bytes_read = bytes_read;
        self.bytes_written = bytes_written;
        // Reusable scratch, not state: a request in flight cannot straddle a
        // capture, which only happens between instructions.
        self.scratch.clear();
        self.chain.clear();
        Ok(())
    }
}

/// Reading a snapshot back gives the state it was taken from, on whatever
/// storage is attached.
pub proof fn law_snapshot_round_trip(st: BlockState, into: BlockState, tail: Seq<u8>)
    requires
        st.transport.queues.len() == 1,
        into.transport.queues.len() == 1,
        st.transport.queue_size_max == into.transport.queue_size_max,
        st.transport.driver_features.len() == 2,
    ensures
        into.restored(st.snapshot() + tail) == Parsed::<BlockState>::Ok(
            (BlockState { medium: into.medium, ..st }, tail),
        ),
{
    crate::le::lemma_le_bytes_len(st.bytes_read as nat, 8);
    crate::le::lemma_le_bytes_len(st.bytes_written as nat, 8);
    let rest = st.transport.snapshot() + tail;
    assert(st.snapshot() + tail =~= enc_section(SNAPSHOT_VERSION, st.counters()) + rest);
    lemma_read_section((), SNAPSHOT_VERSION, st.counters(), rest);
    let t1 = Seq::<u8>::empty();
    let t0 = enc_u64(st.bytes_written) + t1;
    assert(st.counters() =~= enc_u64(st.bytes_read) + t0);
    lemma_read_u64((), st.bytes_read, t0);
    lemma_read_u64(((), st.bytes_read), st.bytes_written, t1);
    virtio_mmio::law_snapshot_round_trip(st.transport, into.transport, tail);
}

} // verus!
