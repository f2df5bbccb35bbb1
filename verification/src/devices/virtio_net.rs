//! Minimal VirtIO 1.x network device over the MMIO transport.
//!
//! Two split queues (RX = 0, TX = 1). The device holds no backend: frames sit
//! in a bounded inbox and outbox, and the machine moves them across the
//! [`super::net::NetBackend`] boundary on its network tick, keeping host I/O
//! out of every MMIO store.
//!
//! No offloads are negotiated (no checksum/TSO/mergeable buffers) and the MTU
//! is 1500, so every frame fits one descriptor chain.
use std::collections::VecDeque;

use vstd::prelude::*;

use super::byte_queue::{append, copy_slice};
use super::virtio_mmio::{self, Transport, TransportState, TransportWrite};
use super::virtqueue::{
    self, all_in_ram, all_writable, backed, bytes_of, chain_at, counts_writes, gathered,
    law_drained_writes_are_counted, lemma_chain_len, lemma_scattered_follows, may_drain,
    scattered, writes_per_drain, ChainHandler, ChainOutcome, Descriptor, Queue, QueueLayout,
    DESC_F_WRITE,
};
use crate::le::{le_value, lemma_le_fits, read_le};
use crate::ram::{access_size, lemma_follows, paged, Ram, RamState};
use crate::snapshot::{
    and_bytes, and_end, and_raw, and_section, and_u32, and_u64, enc_bytes, enc_section, enc_u32,
    enc_u64, lemma_read_bytes, lemma_read_raw, lemma_read_section, lemma_read_u32, lemma_read_u64,
    start, Parsed, Reader, RestoreError, Writer,
};

verus! {

pub const DEVICE_ID_NET: u32 = 1;

/// Ring size offered per queue.
///
/// Not a free choice: Linux's virtio_net stops the transmit queue whenever
/// fewer than `MAX_SKB_FRAGS + 2` descriptors are free (19 on 4K-page riscv64)
/// and only restarts it from a completion callback, so a ring of 16 stops
/// after one frame and never wakes. QEMU offers 256 for the same reason.
pub const QUEUE_SIZE_MAX: u16 = 256;

/// Receive queue (device writes frames into guest-posted buffers).
pub const QUEUE_RX: usize = 0;

/// Transmit queue (guest hands frames to the device).
pub const QUEUE_TX: usize = 1;

/// `VIRTIO_NET_F_MAC` — the MAC below is authoritative, not guest-generated.
pub const NET_F_MAC: u32 = 5;

/// Offered features, low word: [`NET_F_MAC`] alone.
pub const NET_FEATURES: u32 = 0x20;

/// Size of `struct virtio_net_hdr`. Under VIRTIO_F_VERSION_1 `num_buffers` is
/// in the layout even without MRG_RXBUF, and must read as 1.
pub const HDR_LEN: usize = 12;

/// Offset of `num_buffers` inside the header.
pub const HDR_NUM_BUFFERS: usize = 10;

/// Largest Ethernet frame carried, excluding FCS (1500 MTU + 14 header).
pub const MAX_FRAME_BYTES: usize = 1514;

/// Upper bound on the bytes a single TX chain may describe.
///
/// Descriptor lengths are guest-controlled and sixteen of them can name
/// 64 GiB. Real frames are under 1526 bytes, so anything past 64 KiB is
/// dropped without allocating.
pub const MAX_CHAIN_BYTES: usize = 64 * 1024;

/// Frames held per direction before the oldest is dropped; Ethernet is
/// allowed to lose frames, an unbounded queue is not allowed to grow.
pub const FRAME_QUEUE_CAPACITY: usize = 64;

/// Locally-administered MAC advertised in configuration space, matching the
/// address QEMU's user-mode networking hands out.
pub const DEFAULT_MAC: [u8; 6] = [0x52, 0x54, 0x00, 0x12, 0x34, 0x56];

/// Two-queue VirtIO-MMIO Ethernet device.
pub struct VirtioNet {
    pub transport: Transport,
    pub mac: [u8; 6],
    /// Frames received from the host, awaiting guest RX buffers.
    pub inbox: VecDeque<Vec<u8>>,
    /// Frames the guest transmitted, awaiting the machine's network tick.
    pub outbox: VecDeque<Vec<u8>>,
    /// Chain and payload buffers, reused so steady-state traffic performs no
    /// per-frame allocations.
    pub chain: Vec<Descriptor>,
    pub scratch: Vec<u8>,
    /// Cumulative frame bytes delivered into guest RX buffers.
    pub rx_bytes: u64,
    /// Cumulative frame bytes handed to the host backend.
    pub tx_bytes: u64,
}

/// What a [`VirtioNet`] holds, its reusable buffers aside.
#[verifier::ext_equal]
pub struct NetState {
    pub transport: TransportState,
    pub mac: Seq<u8>,
    pub inbox: Seq<Seq<u8>>,
    pub outbox: Seq<Seq<u8>>,
    pub rx_bytes: u64,
    pub tx_bytes: u64,
}

/// The frames' contents.
pub open spec fn frames(queue: Seq<Vec<u8>>) -> Seq<Seq<u8>> {
    Seq::new(queue.len(), |i: int| queue[i]@)
}

impl View for VirtioNet {
    type V = NetState;

    open spec fn view(&self) -> NetState {
        NetState {
            transport: self.transport@,
            mac: self.mac@,
            inbox: frames(self.inbox@),
            outbox: frames(self.outbox@),
            rx_bytes: self.rx_bytes,
            tx_bytes: self.tx_bytes,
        }
    }
}

/// A bounded queue with one more frame, the oldest dropped to make room.
pub open spec fn enqueued(queue: Seq<Seq<u8>>, frame: Seq<u8>) -> Seq<Seq<u8>> {
    if queue.len() == FRAME_QUEUE_CAPACITY {
        queue.skip(1).push(frame)
    } else {
        queue.push(frame)
    }
}

/// A frame the device carries.
pub open spec fn carries(frame: Seq<u8>) -> bool {
    0 < frame.len() <= MAX_FRAME_BYTES
}

/// The device-writable buffers of a chain.
pub open spec fn writable_part(chain: Seq<Descriptor>) -> Seq<Descriptor>
    decreases chain.len(),
{
    if chain.len() == 0 {
        Seq::empty()
    } else if chain.last().device_writable() {
        writable_part(chain.drop_last()).push(chain.last())
    } else {
        writable_part(chain.drop_last())
    }
}

/// The receive header: all zero but for one buffer.
pub open spec fn rx_header() -> Seq<u8> {
    seq![0u8, 0u8, 0u8, 0u8, 0u8, 0u8, 0u8, 0u8, 0u8, 0u8, 1u8, 0u8]
}

/// The bytes the buffers have room for, as far as the host can count.
pub open spec fn room_in(chain: Seq<Descriptor>) -> nat {
    if bytes_of(chain) <= usize::MAX {
        bytes_of(chain)
    } else {
        0
    }
}

impl NetState {
    /// No frames, and a transport out of reset.
    pub open spec fn fresh() -> NetState {
        NetState {
            transport: TransportState::fresh(2, QUEUE_SIZE_MAX),
            mac: DEFAULT_MAC@,
            inbox: Seq::empty(),
            outbox: Seq::empty(),
            rx_bytes: 0,
            tx_bytes: 0,
        }
    }

    /// The device after the guest transmits the chain at `head`. The driver
    /// chooses how to split the header from the frame across descriptors, so
    /// the chain is one byte stream with the header skipped.
    pub open spec fn transmitted(self, ram: RamState, layout: QueueLayout, head: u16) -> (
        NetState,
        RamState,
        ChainOutcome,
    ) {
        match chain_at(ram, layout, head) {
            None => (self, ram, ChainOutcome::Skip),
            Some(chain) => if all_writable(chain, false) && HDR_LEN <= bytes_of(chain)
                <= MAX_CHAIN_BYTES && all_in_ram(ram, chain) && carries(
                gathered(ram, chain).skip(12),
            ) {
                (
                    NetState {
                        outbox: enqueued(self.outbox, gathered(ram, chain).skip(12)),
                        ..self
                    },
                    ram,
                    ChainOutcome::Used(0),
                )
            } else {
                (self, ram, ChainOutcome::Used(0))
            },
        }
    }

    /// The device after the oldest host frame is put into the chain at
    /// `head`. A chain that cannot hold the frame costs the frame, not the
    /// queue.
    pub open spec fn received(self, ram: RamState, layout: QueueLayout, head: u16) -> (
        NetState,
        RamState,
        ChainOutcome,
    ) {
        if self.inbox.len() == 0 {
            (self, ram, ChainOutcome::Retry)
        } else {
            match chain_at(ram, layout, head) {
                None => (self, ram, ChainOutcome::Skip),
                Some(chain) => {
                    let buffers = writable_part(chain);
                    let frame = self.inbox[0];
                    let needed = HDR_LEN as nat + frame.len();
                    let rest = self.inbox.skip(1);
                    if room_in(buffers) < needed || !backed(ram, buffers, needed) {
                        (NetState { inbox: rest, ..self }, ram, ChainOutcome::Used(0))
                    } else {
                        (
                            NetState {
                                inbox: rest,
                                rx_bytes: self.rx_bytes.wrapping_add(frame.len() as u64),
                                ..self
                            },
                            scattered(ram, buffers, rx_header() + frame),
                            ChainOutcome::Used(needed as u32),
                        )
                    }
                },
            }
        }
    }

    pub open spec fn served(self, index: usize, ram: RamState, layout: QueueLayout, head: u16) -> (
        NetState,
        RamState,
        ChainOutcome,
    ) {
        if index == QUEUE_TX {
            self.transmitted(ram, layout, head)
        } else {
            self.received(ram, layout, head)
        }
    }

    pub open spec fn completed(self, index: int, queue: Queue, published: bool) -> NetState {
        NetState { transport: self.transport.completed(index, queue, published), ..self }
    }

    pub open spec fn drained_to(
        self,
        index: usize,
        ram: RamState,
        queue: Queue,
        mid: NetState,
        post: NetState,
        ram2: RamState,
    ) -> bool {
        let q = self.transport.queues[index as int];
        ||| may_drain::<VirtioNet>(index, q, ram, self, queue, ram2, mid, false) && post
            == mid.completed(index as int, queue, false)
        ||| may_drain::<VirtioNet>(index, q, ram, self, queue, ram2, mid, true) && post
            == mid.completed(index as int, queue, true)
    }

    /// What draining a queue may do.
    pub open spec fn may_process(
        self,
        index: usize,
        ram: RamState,
        post: NetState,
        ram2: RamState,
    ) -> bool {
        exists|queue: Queue, mid: NetState| #[trigger]
            self.drained_to(index, ram, queue, mid, post, ram2)
    }

    /// What handing waiting frames to the guest may do.
    pub open spec fn may_deliver(self, ram: RamState, post: NetState, ram2: RamState) -> bool {
        if self.inbox.len() == 0 {
            post == self && ram2 == ram
        } else {
            self.may_process(QUEUE_RX, ram, post, ram2)
        }
    }

    /// What a register write may do.
    pub open spec fn may_write(
        self,
        offset: u64,
        val: u32,
        size: u8,
        ram: RamState,
        post: NetState,
        ram2: RamState,
    ) -> bool {
        let pre = NetState { transport: self.transport.written(offset, val), ..self };
        if size != 4 {
            post == self && ram2 == ram
        } else if offset == 0x050 && val == 1 {
            pre.may_process(QUEUE_TX, ram, post, ram2)
        } else if offset == 0x050 && val == 0 {
            pre.may_deliver(ram, post, ram2)
        } else if offset == 0x070 && val == 0 {
            post == (NetState { inbox: Seq::empty(), outbox: Seq::empty(), ..pre }) && ram2 == ram
        } else {
            post == pre && ram2 == ram
        }
    }

    /// The configuration bytes at an offset: the MAC, then zeros.
    pub open spec fn config(self, offset: u64, size: u8) -> Seq<u8> {
        Seq::new(
            size as nat,
            |i: int|
                if offset - 0x100 + i < 6 {
                    self.mac[offset - 0x100 + i]
                } else {
                    0u8
                },
        )
    }

    pub open spec fn seen(self, offset: u64, size: u8) -> Result<u64, ()> {
        if offset >= 0x100 {
            if access_size(size) {
                Ok(le_value(self.config(offset, size)) as u64)
            } else {
                Err(())
            }
        } else if size == 4 || size == 8 {
            match self.transport.seen(offset, DEVICE_ID_NET, seq![NET_FEATURES, 1u32]) {
                Some(v) => Ok(v),
                None => Ok(0),
            }
        } else {
            Err(())
        }
    }
}

impl ChainHandler for VirtioNet {
    type State = NetState;

    open spec fn state(&self) -> NetState {
        self@
    }

    open spec fn serving(&self) -> bool {
        self.wf()
    }

    open spec fn may_handle(
        pre: NetState,
        index: usize,
        ram: RamState,
        layout: QueueLayout,
        head: u16,
        post: NetState,
        ram2: RamState,
        outcome: ChainOutcome,
    ) -> bool {
        pre.served(index, ram, layout, head) == (post, ram2, outcome)
    }

    fn handle(&mut self, index: usize, ram: &mut Ram, layout: QueueLayout, head: u16) -> (r:
        ChainOutcome) {
        if index == QUEUE_TX {
            self.transmit_chain(ram, layout, head)
        } else if self.inbox.len() == 0 {
            // No frame to place: leave the chain posted for a later frame.
            ChainOutcome::Retry
        } else {
            self.receive_chain(ram, layout, head)
        }
    }
}

/// Queue a frame, dropping the oldest when the bounded queue is full.
fn enqueue(queue: &mut VecDeque<Vec<u8>>, frame: Vec<u8>)
    requires
        old(queue)@.len() <= FRAME_QUEUE_CAPACITY,
    ensures
        final(queue)@.len() <= FRAME_QUEUE_CAPACITY,
        frames(final(queue)@) == enqueued(frames(old(queue)@), frame@),
{
    if queue.len() == FRAME_QUEUE_CAPACITY {
        let _ = queue.pop_front();
    }
    queue.push_back(frame);
    assert(frames(queue@) =~= enqueued(frames(old(queue)@), frame@));
}

impl VirtioNet {
    pub open spec fn wf(self) -> bool {
        &&& self@.transport.queues.len() == 2
        &&& self@.inbox.len() <= FRAME_QUEUE_CAPACITY
        &&& self@.outbox.len() <= FRAME_QUEUE_CAPACITY
    }

    pub fn new() -> (r: Self)
        ensures
            r.wf(),
            r@ == NetState::fresh(),
    {
        let r = Self {
            transport: Transport::new(2, QUEUE_SIZE_MAX),
            mac: DEFAULT_MAC,
            inbox: VecDeque::new(),
            outbox: VecDeque::new(),
            chain: Vec::new(),
            scratch: Vec::new(),
            rx_bytes: 0,
            tx_bytes: 0,
        };
        assert(frames(r.inbox@) =~= Seq::empty());
        assert(frames(r.outbox@) =~= Seq::empty());
        r
    }

    /// Cumulative frame bytes delivered to the guest since construction.
    pub fn rx_bytes(&self) -> (r: u64)
        ensures
            r == self@.rx_bytes,
    {
        self.rx_bytes
    }

    /// Cumulative frame bytes handed to the host backend since construction.
    pub fn tx_bytes(&self) -> (r: u64)
        ensures
            r == self@.tx_bytes,
    {
        self.tx_bytes
    }

    pub fn irq_pending(&self) -> (r: bool)
        ensures
            r == self@.transport.irq(),
    {
        self.transport.irq_pending()
    }

    /// Removes the oldest frame the guest transmitted, if any. The machine
    /// drains this into the attached [`super::net::NetBackend`].
    pub fn pop_transmitted(&mut self) -> (r: Option<Vec<u8>>)
        requires
            old(self).wf(),
        ensures
            final(self).wf(),
            r is Some <==> old(self)@.outbox.len() > 0,
            match r {
                Some(frame) => frame@ == old(self)@.outbox[0] && final(self)@ == (NetState {
                    outbox: old(self)@.outbox.skip(1),
                    tx_bytes: old(self)@.tx_bytes.wrapping_add(frame@.len() as u64),
                    ..old(self)@
                }),
                None => final(self)@ == old(self)@,
            },
    {
        match self.outbox.pop_front() {
            Some(frame) => {
                self.tx_bytes = self.tx_bytes.wrapping_add(frame.len() as u64);
                assert(self@.outbox =~= old(self)@.outbox.skip(1));
                Some(frame)
            },
            None => None,
        }
    }

    /// Queues a host frame for delivery to the guest, dropping the oldest
    /// pending frame when the bounded inbox is full.
    pub fn receive_frame(&mut self, frame: Vec<u8>)
        requires
            old(self).wf(),
        ensures
            final(self).wf(),
            final(self)@ == (if carries(frame@) {
                NetState { inbox: enqueued(old(self)@.inbox, frame@), ..old(self)@ }
            } else {
                old(self)@
            }),
    {
        if frame.len() == 0 || frame.len() > MAX_FRAME_BYTES {
            return;
        }
        enqueue(&mut self.inbox, frame);
    }

    pub fn pending_rx(&self) -> (r: usize)
        ensures
            r == self@.inbox.len(),
    {
        self.inbox.len()
    }

    pub fn pending_tx(&self) -> (r: usize)
        ensures
            r == self@.outbox.len(),
    {
        self.outbox.len()
    }

    pub fn read(&self, offset: u64, size: u8) -> (r: Result<u64, ()>)
        ensures
            r == self@.seen(offset, size),
    {
        if offset >= 0x100 {
            // Configuration space is read byte-wise by virtio_mmio for the MAC,
            // so unlike the transport registers it must accept 1/2-byte loads.
            if size != 1 && size != 2 && size != 4 && size != 8 {
                return Err(());
            }
            let mut bytes: [u8; 8] = [0; 8];
            let mut i: usize = 0;
            while i < size as usize
                invariant
                    offset >= 0x100,
                    i <= size <= 8,
                    forall|k: int|
                        0 <= k < i ==> #[trigger] bytes@[k] == self@.config(offset, size)[k],
                decreases size - i,
            {
                let at: u64 = offset - 0x100;
                if at < 6 && at + (i as u64) < 6 {
                    bytes[i] = self.mac[at as usize + i];
                } else {
                    bytes[i] = 0;
                }
                i = i + 1;
            }
            proof {
                assert(bytes@.subrange(0, size as int) =~= self@.config(offset, size));
                lemma_le_fits(self@.config(offset, size));
            }
            return Ok(read_le(bytes.as_slice(), 0, size as usize));
        }
        if size != 4 && size != 8 {
            return Err(());
        }
        // VIRTIO_NET_F_MAC in the low word, VIRTIO_F_VERSION_1 (bit 32) in the
        // high one. No offloads, no mergeable buffers, no MQ.
        let features: [u32; 2] = [NET_FEATURES, 1];
        assert(features@ =~= seq![NET_FEATURES, 1u32]);
        match self.transport.read(offset, DEVICE_ID_NET, features) {
            Some(v) => Ok(v),
            None => Ok(0),
        }
    }

    pub fn write(&mut self, offset: u64, val: u64, size: u8, ram: &mut Ram) -> (r: Result<(), ()>)
        requires
            old(self).wf(),
            old(ram).wf(),
        ensures
            final(self).wf(),
            final(ram).wf(),
            final(ram)@.bytes.len() == old(ram)@.bytes.len(),
            r is Ok <==> size == 4,
            old(self)@.may_write(offset, val as u32, size, old(ram)@, final(self)@, final(ram)@),
    {
        if size != 4 {
            return Err(());
        }
        match self.transport.write(offset, val as u32) {
            TransportWrite::Notify(queue) => {
                if queue == 1 {
                    self.process_tx(ram);
                } else if queue == 0 {
                    self.deliver_rx(ram);
                }
            },
            TransportWrite::Reset => {
                self.inbox.clear();
                self.outbox.clear();
                assert(frames(self.inbox@) =~= Seq::empty());
                assert(frames(self.outbox@) =~= Seq::empty());
            },
            _ => {},
        }
        Ok(())
    }

    /// Consumes available TX chains, moving each frame into the outbox.
    fn process_tx(&mut self, ram: &mut Ram)
        requires
            old(self).wf(),
            old(ram).wf(),
        ensures
            final(self).wf(),
            final(ram).wf(),
            final(ram)@.bytes.len() == old(ram)@.bytes.len(),
            old(self)@.may_process(QUEUE_TX, old(ram)@, final(self)@, final(ram)@),
    {
        let work = self.transport.queue(QUEUE_TX);
        let done = work.drain(ram, self);
        let ghost mid = self@;
        let ghost queue = done.queue;
        self.transport.complete_queue(done);
        assert(old(self)@.drained_to(QUEUE_TX, old(ram)@, queue, mid, self@, ram@));
    }

    fn transmit_chain(&mut self, ram: &mut Ram, layout: QueueLayout, head: u16) -> (r: ChainOutcome)
        requires
            old(self).wf(),
            old(ram).wf(),
        ensures
            final(self).wf(),
            *final(ram) == *old(ram),
            old(self)@.transmitted(old(ram)@, layout, head) == (final(self)@, final(ram)@, r),
    {
        let mut chain: Vec<Descriptor> = Vec::new();
        core::mem::swap(&mut chain, &mut self.chain);
        let mut scratch: Vec<u8> = Vec::new();
        core::mem::swap(&mut scratch, &mut self.scratch);
        // The driver chooses how to split the header from the frame across
        // descriptors, so the chain is read as one byte stream with the first
        // HDR_LEN bytes skipped. A failure past a well-formed chain drops the
        // frame but still publishes a zero-length used entry; withholding the
        // descriptor would stall the driver's ring.
        let outcome = if !virtqueue::collect_chain(ram, layout, head, &mut chain) {
            ChainOutcome::Skip
        } else if !virtqueue::buffers_writable(chain.as_slice(), false) {
            ChainOutcome::Used(0)
        } else {
            match virtqueue::total_len(chain.as_slice()) {
                Some(total) => {
                    if HDR_LEN <= total && total <= MAX_CHAIN_BYTES {
                        scratch.clear();
                        if read_segments(ram, chain.as_slice(), &mut scratch) {
                            proof {
                                virtqueue::law_gathered_length(ram@, chain@);
                            }
                            let frame = vstd::slice::slice_subrange(
                                scratch.as_slice(),
                                HDR_LEN,
                                scratch.len(),
                            );
                            assert(frame@ =~= gathered(ram@, chain@).skip(12));
                            if frame.len() != 0 && frame.len() <= MAX_FRAME_BYTES {
                                enqueue(&mut self.outbox, copy_slice(frame));
                            }
                        }
                    }
                    ChainOutcome::Used(0)
                },
                None => ChainOutcome::Used(0),
            }
        };
        chain.clear();
        self.chain = chain;
        self.scratch = scratch;
        outcome
    }

    /// Copies queued host frames into guest-posted RX buffers while both a
    /// frame and a chain exist. Safe to call when either side is empty.
    pub fn deliver_rx(&mut self, ram: &mut Ram)
        requires
            old(self).wf(),
            old(ram).wf(),
        ensures
            final(self).wf(),
            final(ram).wf(),
            final(ram)@.bytes.len() == old(ram)@.bytes.len(),
            old(self)@.may_deliver(old(ram)@, final(self)@, final(ram)@),
    {
        if self.inbox.len() == 0 {
            return;
        }
        let work = self.transport.queue(QUEUE_RX);
        let done = work.drain(ram, self);
        let ghost mid = self@;
        let ghost queue = done.queue;
        self.transport.complete_queue(done);
        assert(old(self)@.drained_to(QUEUE_RX, old(ram)@, queue, mid, self@, ram@));
    }

    fn receive_chain(&mut self, ram: &mut Ram, layout: QueueLayout, head: u16) -> (r: ChainOutcome)
        requires
            old(self).wf(),
            old(ram).wf(),
            old(self)@.inbox.len() > 0,
        ensures
            final(self).wf(),
            final(ram).wf(),
            final(ram)@.bytes.len() == old(ram)@.bytes.len(),
            old(self)@.received(old(ram)@, layout, head) == (final(self)@, final(ram)@, r),
    {
        let mut chain: Vec<Descriptor> = Vec::new();
        core::mem::swap(&mut chain, &mut self.chain);
        let mut scratch: Vec<u8> = Vec::new();
        core::mem::swap(&mut scratch, &mut self.scratch);
        let outcome = if !virtqueue::collect_chain(ram, layout, head, &mut chain) {
            ChainOutcome::Skip
        } else {
            // Only device-writable descriptors may receive; a chain that mixes
            // in readable ones simply offers less room.
            let buffers = keep_writable(chain.as_slice());
            let capacity: usize = match virtqueue::total_len(buffers.as_slice()) {
                Some(n) => n,
                None => 0,
            };
            let frame = match self.inbox.pop_front() {
                Some(f) => f,
                None => Vec::new(),
            };
            assert(self@.inbox =~= old(self)@.inbox.skip(1));
            assert(frame@ == old(self)@.inbox[0]);
            if capacity < HDR_LEN || capacity - HDR_LEN < frame.len() || !segments_in_ram(
                ram,
                buffers.as_slice(),
                HDR_LEN + frame.len(),
            ) {
                // The chain cannot hold this frame (or points outside RAM):
                // drop the frame and recycle the buffer rather than wedging.
                ChainOutcome::Used(0)
            } else {
                scratch.clear();
                scratch.resize(HDR_LEN, 0);
                // num_buffers must read as 1 even without MRG_RXBUF, because
                // VIRTIO_F_VERSION_1 puts the field in the layout regardless.
                scratch.set(HDR_NUM_BUFFERS, 1);
                assert(scratch@ =~= rx_header());
                append(&mut scratch, frame.as_slice());
                virtqueue::scatter(ram, buffers.as_slice(), scratch.as_slice());
                self.rx_bytes = self.rx_bytes.wrapping_add(frame.len() as u64);
                ChainOutcome::Used(scratch.len() as u32)
            }
        };
        chain.clear();
        self.chain = chain;
        self.scratch = scratch;
        outcome
    }
}

impl Default for VirtioNet {
    fn default() -> (r: Self)
        ensures
            r.wf(),
            r@ == NetState::fresh(),
    {
        Self::new()
    }
}

fn keep_writable(chain: &[Descriptor]) -> (r: Vec<Descriptor>)
    ensures
        r@ == writable_part(chain@),
{
    let mut out: Vec<Descriptor> = Vec::new();
    let mut i: usize = 0;
    assert(chain@.take(0) =~= Seq::empty());
    while i < chain.len()
        invariant
            i <= chain.len(),
            out@ == writable_part(chain@.take(i as int)),
        decreases chain.len() - i,
    {
        let ghost longer = chain@.take(i + 1);
        assert(longer.drop_last() =~= chain@.take(i as int));
        if chain[i].flags & DESC_F_WRITE != 0 {
            out.push(chain[i]);
        }
        i = i + 1;
    }
    assert(chain@.take(i as int) =~= chain@);
    out
}

/// Concatenates every descriptor's bytes into `out`, failing on a bad address.
fn read_segments(ram: &Ram, chain: &[Descriptor], out: &mut Vec<u8>) -> (r: bool)
    requires
        ram.wf(),
    ensures
        r == all_in_ram(ram@, chain@),
        r ==> final(out)@ == old(out)@ + gathered(ram@, chain@),
{
    if !virtqueue::buffers_in_ram(ram, chain) {
        return false;
    }
    virtqueue::gather(ram, chain, out);
    true
}

/// Whether the first `needed` bytes described by `chain` are all backed by RAM.
/// Checked before any write so a bad trailing segment cannot leave the guest
/// with half a frame.
fn segments_in_ram(ram: &Ram, chain: &[Descriptor], needed: usize) -> (r: bool)
    requires
        ram.wf(),
    ensures
        r == backed(ram@, chain@, needed as nat),
{
    let mut remaining: usize = needed;
    let mut i: usize = 0;
    assert(chain@.skip(0) =~= chain@);
    while i < chain.len()
        invariant
            ram.wf(),
            i <= chain.len(),
            backed(ram@, chain@, needed as nat) == backed(
                ram@,
                chain@.skip(i as int),
                remaining as nat,
            ),
        decreases chain.len() - i,
    {
        if remaining == 0 {
            return true;
        }
        assert(chain@.skip(i as int).skip(1) =~= chain@.skip(i + 1));
        let size: usize = chain[i].len as usize;
        let len: usize = if remaining < size {
            remaining
        } else {
            size
        };
        if virtqueue::ram_offset(ram, chain[i].addr, len as u64).is_none() {
            return false;
        }
        remaining = remaining - len;
        i = i + 1;
    }
    remaining == 0
}

/// A queue never holds more than its bound, and keeps the newest frames in
/// order.
pub proof fn law_frame_queue_bounded(queue: Seq<Seq<u8>>, frame: Seq<u8>)
    requires
        queue.len() <= FRAME_QUEUE_CAPACITY,
    ensures
        enqueued(queue, frame).len() <= FRAME_QUEUE_CAPACITY,
        enqueued(queue, frame).last() == frame,
        forall|i: int|
            0 < i < queue.len() ==> #[trigger] queue[i] == enqueued(
                queue,
                frame,
            )[i - (if queue.len() == FRAME_QUEUE_CAPACITY {
                1int
            } else {
                0int
            })],
{
}

proof fn lemma_writable_part_len(chain: Seq<Descriptor>)
    ensures
        writable_part(chain).len() <= chain.len(),
    decreases chain.len(),
{
    if chain.len() > 0 {
        lemma_writable_part_len(chain.drop_last());
    }
}

proof fn lemma_counts_writes()
    ensures
        counts_writes::<VirtioNet>(),
{
    assert forall|
        pre: NetState,
        index: usize,
        ram: RamState,
        layout: QueueLayout,
        head: u16,
        post: NetState,
        ram2: RamState,
        outcome: ChainOutcome,
    |
        paged(ram) && #[trigger] <VirtioNet as ChainHandler>::may_handle(
            pre,
            index,
            ram,
            layout,
            head,
            post,
            ram2,
            outcome,
        ) implies ram2.follows(ram, 0x1_0001) by {
        lemma_follows(ram, ram, 0, 0x1_0001);
        lemma_chain_len(ram, layout, head, layout.num as nat);
        match chain_at(ram, layout, head) {
            Some(chain) => if ram2 != ram {
                let buffers = writable_part(chain);
                lemma_writable_part_len(chain);
                lemma_scattered_follows(ram, buffers, rx_header() + pre.inbox[0]);
                lemma_follows(ram, ram2, buffers.len(), 0x1_0001);
            },
            None => {},
        }
    }
}

/// Whatever serving a queue does to RAM is counted there.
pub proof fn law_served_writes_are_counted(
    st: NetState,
    index: usize,
    ram: RamState,
    post: NetState,
    ram2: RamState,
)
    requires
        paged(ram),
        st.may_process(index, ram, post, ram2),
    ensures
        ram2.follows(ram, writes_per_drain()),
{
    lemma_counts_writes();
    let (queue, mid) = choose|queue: Queue, mid: NetState| #[trigger]
        st.drained_to(index, ram, queue, mid, post, ram2);
    let q = st.transport.queues[index as int];
    if may_drain::<VirtioNet>(index, q, ram, st, queue, ram2, mid, false) {
        law_drained_writes_are_counted::<VirtioNet>(index, q, ram, st, queue, ram2, mid, false);
    } else {
        law_drained_writes_are_counted::<VirtioNet>(index, q, ram, st, queue, ram2, mid, true);
    }
}

/// Whatever a register write makes the device do to RAM is counted there.
pub proof fn law_device_writes_are_counted(
    st: NetState,
    offset: u64,
    val: u32,
    size: u8,
    ram: RamState,
    post: NetState,
    ram2: RamState,
)
    requires
        paged(ram),
        st.may_write(offset, val, size, ram, post, ram2),
    ensures
        ram2.follows(ram, writes_per_drain()),
{
    lemma_follows(ram, ram, 0, writes_per_drain());
    if ram2 != ram {
        let index = if val == 1 {
            QUEUE_TX
        } else {
            QUEUE_RX
        };
        let pre = NetState { transport: st.transport.written(offset, val), ..st };
        law_served_writes_are_counted(pre, index, ram, post, ram2);
    }
}

// ---------------------------------------------------------------------------
// State snapshot
// ---------------------------------------------------------------------------

pub const SNAPSHOT_VERSION: u16 = 1;

pub open spec fn enc_frames(list: Seq<Seq<u8>>) -> Seq<u8>
    decreases list.len(),
{
    if list.len() == 0 {
        Seq::empty()
    } else {
        enc_frames(list.drop_last()) + enc_bytes(list.last())
    }
}

/// The `n` byte strings at the front of the data.
pub open spec fn take_frames(b: Seq<u8>, n: nat) -> Parsed<Seq<Seq<u8>>>
    decreases n,
{
    if n == 0 {
        Ok((Seq::empty(), b))
    } else {
        match and_bytes(take_frames(b, (n - 1) as nat)) {
            Err(e) => Err(e),
            Ok(((s, v), rest)) => Ok((s.push(v), rest)),
        }
    }
}

impl NetState {
    pub open spec fn encoding(self) -> Seq<u8> {
        self.mac + enc_u64(self.rx_bytes) + enc_u64(self.tx_bytes) + enc_u32(
            self.inbox.len() as u32,
        ) + enc_frames(self.inbox) + enc_u32(self.outbox.len() as u32) + enc_frames(self.outbox)
    }

    pub open spec fn snapshot(self) -> Seq<u8> {
        enc_section(SNAPSHOT_VERSION, self.encoding()) + self.transport.snapshot()
    }

    /// The state a payload describes.
    pub open spec fn decoded(self, payload: Seq<u8>) -> Result<NetState, RestoreError> {
        match and_u32(and_u64(and_u64(and_raw(start(payload), 6)))) {
            Err(e) => Err(e),
            Ok((((((_, mac), rx_bytes), tx_bytes), inbox_count), rest)) => if inbox_count > 64 {
                Err(RestoreError::Inbox { count: inbox_count })
            } else {
                match and_u32(take_frames(rest, inbox_count as nat)) {
                    Err(e) => Err(e),
                    Ok(((inbox, outbox_count), rest2)) => if outbox_count > 64 {
                        Err(RestoreError::Outbox { count: outbox_count })
                    } else {
                        match and_end(take_frames(rest2, outbox_count as nat)) {
                            Err(e) => Err(e),
                            Ok(outbox) => Ok(
                                NetState { mac, rx_bytes, tx_bytes, inbox, outbox, ..self },
                            ),
                        }
                    },
                }
            },
        }
    }

    /// The device after a restore from the data, and what is left of it.
    pub open spec fn restored(self, data: Seq<u8>) -> Parsed<NetState> {
        match and_section(start(data), SNAPSHOT_VERSION) {
            Err(e) => Err(e),
            Ok(((_, payload), rest)) => match self.decoded(payload) {
                Err(e) => Err(e),
                Ok(st) => match self.transport.restored(rest) {
                    Err(e) => Err(e),
                    Ok((transport, left)) => Ok((NetState { transport, ..st }, left)),
                },
            },
        }
    }
}

proof fn lemma_frame_fits(list: Seq<Seq<u8>>, i: int)
    requires
        0 <= i < list.len(),
    ensures
        list[i].len() <= enc_frames(list).len(),
    decreases list.len(),
{
    if i < list.len() - 1 {
        lemma_frame_fits(list.drop_last(), i);
    }
}

fn write_frames(w: &mut Writer, queue: &VecDeque<Vec<u8>>)
    requires
        enc_frames(frames(queue@)).len() <= u32::MAX,
    ensures
        final(w)@ == old(w)@ + enc_frames(frames(queue@)),
{
    let ghost all = frames(queue@);
    let mut i: usize = 0;
    assert(all.take(0) =~= Seq::empty());
    assert(w@ =~= old(w)@ + enc_frames(all.take(0)));
    while i < queue.len()
        invariant
            i <= queue@.len(),
            all == frames(queue@),
            enc_frames(all).len() <= u32::MAX,
            w@ == old(w)@ + enc_frames(all.take(i as int)),
        decreases queue@.len() - i,
    {
        proof {
            lemma_frame_fits(all, i as int);
        }
        w.bytes(queue[i].as_slice());
        proof {
            let longer = all.take(i + 1);
            assert(longer.drop_last() =~= all.take(i as int));
            assert(w@ =~= old(w)@ + enc_frames(longer));
        }
        i = i + 1;
    }
    assert(all.take(i as int) =~= all);
}

/// Once a frame of a run cannot be read, the run cannot.
proof fn lemma_frames_error(b: Seq<u8>, n: nat, m: nat, e: RestoreError)
    requires
        n <= m,
        take_frames(b, n) == Parsed::<Seq<Seq<u8>>>::Err(e),
    ensures
        take_frames(b, m) == Parsed::<Seq<Seq<u8>>>::Err(e),
    decreases m,
{
    if n < m {
        lemma_frames_error(b, n, (m - 1) as nat, e);
    }
}

fn read_frames(r: &mut Reader<'_>, n: usize) -> (res: Result<VecDeque<Vec<u8>>, RestoreError>)
    requires
        old(r).wf(),
    ensures
        final(r).wf(),
        match take_frames(old(r).rest(), n as nat) {
            Err(e) => res is Err && res->Err_0 == e,
            Ok((s, rest)) => res is Ok && res->Ok_0@.len() == n && frames(res->Ok_0@) == s
                && final(r).rest() == rest,
        },
{
    let mut out: VecDeque<Vec<u8>> = VecDeque::new();
    let mut i: usize = 0;
    assert(frames(out@) =~= Seq::empty());
    while i < n
        invariant
            i <= n,
            r.wf(),
            out@.len() == i,
            take_frames(old(r).rest(), i as nat) == Parsed::<Seq<Seq<u8>>>::Ok(
                (frames(out@), r.rest()),
            ),
        decreases n - i,
    {
        let ghost before = frames(out@);
        match r.bytes() {
            Ok(v) => {
                out.push_back(copy_slice(v));
                assert(frames(out@) =~= before.push(v@));
            },
            Err(e) => {
                proof {
                    lemma_frames_error(old(r).rest(), (i + 1) as nat, n as nat, e);
                }
                return Err(e);
            },
        }
        i = i + 1;
    }
    Ok(out)
}

/// What a snapshot's device section holds.
struct Payload {
    mac: [u8; 6],
    rx_bytes: u64,
    tx_bytes: u64,
    inbox: VecDeque<Vec<u8>>,
    outbox: VecDeque<Vec<u8>>,
}

fn read_mac(section: &mut Reader<'_>) -> (r: Result<[u8; 6], RestoreError>)
    requires
        old(section).wf(),
    ensures
        final(section).wf(),
        match and_raw(start(old(section).rest()), 6) {
            Err(e) => r is Err && r->Err_0 == e,
            Ok(((_, mac), rest)) => r is Ok && r->Ok_0@ == mac && final(section).rest() == rest,
        },
{
    let b = section.raw(6)?;
    let mac: [u8; 6] = [b[0], b[1], b[2], b[3], b[4], b[5]];
    assert(mac@ =~= b@);
    Ok(mac)
}

#[verifier::rlimit(40)]
fn read_payload(section: &mut Reader<'_>) -> (r: Result<Payload, RestoreError>)
    requires
        old(section).wf(),
    ensures
        forall|st: NetState|
            match #[trigger] st.decoded(old(section).rest()) {
                Err(e) => r is Err && r->Err_0 == e,
                Ok(post) => r is Ok && r->Ok_0.inbox@.len() <= 64 && r->Ok_0.outbox@.len() <= 64
                    && post == (NetState {
                    mac: r->Ok_0.mac@,
                    rx_bytes: r->Ok_0.rx_bytes,
                    tx_bytes: r->Ok_0.tx_bytes,
                    inbox: frames(r->Ok_0.inbox@),
                    outbox: frames(r->Ok_0.outbox@),
                    ..st
                }),
            },
{
    let mac = read_mac(section)?;
    let rx_bytes: u64 = section.u64()?;
    let tx_bytes: u64 = section.u64()?;
    let inbox_count: u32 = section.u32()?;
    if inbox_count > 64 {
        return Err(RestoreError::Inbox { count: inbox_count });
    }
    let inbox = read_frames(section, inbox_count as usize)?;
    let outbox_count: u32 = section.u32()?;
    if outbox_count > 64 {
        return Err(RestoreError::Outbox { count: outbox_count });
    }
    let outbox = read_frames(section, outbox_count as usize)?;
    section.finish()?;
    Ok(Payload { mac, rx_bytes, tx_bytes, inbox, outbox })
}

impl VirtioNet {
    pub fn snapshot(&self, out: &mut Writer)
        requires
            self.wf(),
            self@.encoding().len() <= u32::MAX,
        ensures
            final(out)@ == old(out)@ + self@.snapshot(),
    {
        let mut w = Writer::new();
        w.raw(self.mac.as_slice());
        w.u64(self.rx_bytes);
        w.u64(self.tx_bytes);
        w.u32(self.inbox.len() as u32);
        write_frames(&mut w, &self.inbox);
        w.u32(self.outbox.len() as u32);
        write_frames(&mut w, &self.outbox);
        assert(w@ =~= self@.encoding());
        out.section(SNAPSHOT_VERSION, &w);
        self.transport.snapshot(out);
        assert(out@ =~= old(out)@ + self@.snapshot());
    }

    /// Take the state back from a snapshot. Data that does not parse leaves
    /// the device as it was.
    pub fn restore(&mut self, input: &mut Reader<'_>) -> (r: Result<(), RestoreError>)
        requires
            old(self).wf(),
            old(input).wf(),
        ensures
            final(self).wf(),
            final(input).wf(),
            match old(self)@.restored(old(input).rest()) {
                Err(e) => r == Err::<(), RestoreError>(e) && *final(self) == *old(self),
                Ok((st, rest)) => r is Ok && final(self)@ == st && final(input).rest() == rest,
            },
    {
        let mut section = input.section(SNAPSHOT_VERSION)?;
        let payload = read_payload(&mut section)?;
        self.transport.restore(input)?;
        self.mac = payload.mac;
        self.rx_bytes = payload.rx_bytes;
        self.tx_bytes = payload.tx_bytes;
        self.inbox = payload.inbox;
        self.outbox = payload.outbox;
        self.chain.clear();
        self.scratch.clear();
        Ok(())
    }
}

/// The snapshot of a device that carried only its own frames is small.
pub proof fn law_own_frames_fit_a_snapshot(st: NetState)
    requires
        st.mac.len() == 6,
        st.inbox.len() <= FRAME_QUEUE_CAPACITY,
        st.outbox.len() <= FRAME_QUEUE_CAPACITY,
        forall|i: int| 0 <= i < st.inbox.len() ==> carries(#[trigger] st.inbox[i]),
        forall|i: int| 0 <= i < st.outbox.len() ==> carries(#[trigger] st.outbox[i]),
    ensures
        st.encoding().len() <= 0x4_0000,
{
    lemma_frames_len(st.inbox);
    lemma_frames_len(st.outbox);
    lemma_read_u64((), st.rx_bytes, Seq::empty());
    lemma_read_u64((), st.tx_bytes, Seq::empty());
    lemma_read_u32((), st.inbox.len() as u32, Seq::empty());
    lemma_read_u32((), st.outbox.len() as u32, Seq::empty());
}

proof fn lemma_frames_len(list: Seq<Seq<u8>>)
    requires
        forall|i: int| 0 <= i < list.len() ==> carries(#[trigger] list[i]),
    ensures
        enc_frames(list).len() <= 1518 * list.len(),
    decreases list.len(),
{
    if list.len() > 0 {
        let front = list.drop_last();
        assert forall|i: int| 0 <= i < front.len() implies carries(#[trigger] front[i]) by {
            assert(front[i] == list[i]);
        }
        lemma_frames_len(front);
        assert(carries(list[list.len() - 1]));
        crate::le::lemma_le_bytes_len(list.last().len(), 4);
    }
}

proof fn lemma_take_frames(list: Seq<Seq<u8>>, tail: Seq<u8>)
    requires
        enc_frames(list).len() <= u32::MAX,
    ensures
        take_frames(enc_frames(list) + tail, list.len()) == Parsed::<Seq<Seq<u8>>>::Ok(
            (list, tail),
        ),
    decreases list.len(),
{
    if list.len() == 0 {
        assert(enc_frames(list) + tail =~= tail);
        assert(list =~= Seq::empty());
    } else {
        let front = list.drop_last();
        assert(enc_frames(list) + tail =~= enc_frames(front) + (enc_bytes(list.last()) + tail));
        lemma_frame_fits(list, list.len() - 1);
        lemma_take_frames(front, enc_bytes(list.last()) + tail);
        lemma_read_bytes(front, list.last(), tail);
        assert(front.push(list.last()) =~= list);
    }
}

/// Reading a snapshot back gives the state it was taken from.
#[verifier::spinoff_prover]
#[verifier::rlimit(50)]
pub proof fn law_snapshot_round_trip(st: NetState, into: NetState, tail: Seq<u8>)
    requires
        st.mac.len() == 6,
        st.inbox.len() <= FRAME_QUEUE_CAPACITY,
        st.outbox.len() <= FRAME_QUEUE_CAPACITY,
        st.encoding().len() <= u32::MAX,
        st.transport.queues.len() == 2,
        into.transport.queues.len() == 2,
        st.transport.queue_size_max == into.transport.queue_size_max,
        st.transport.driver_features.len() == 2,
    ensures
        into.restored(st.snapshot() + tail) == Parsed::<NetState>::Ok((st, tail)),
{
    let rest = st.transport.snapshot() + tail;
    assert(st.snapshot() + tail =~= enc_section(SNAPSHOT_VERSION, st.encoding()) + rest);
    lemma_read_section((), SNAPSHOT_VERSION, st.encoding(), rest);
    lemma_decode_encoding(st, into);
    virtio_mmio::law_snapshot_round_trip(st.transport, into.transport, tail);
}

#[verifier::spinoff_prover]
#[verifier::rlimit(60)]
proof fn lemma_decode_encoding(st: NetState, into: NetState)
    requires
        st.mac.len() == 6,
        st.inbox.len() <= FRAME_QUEUE_CAPACITY,
        st.outbox.len() <= FRAME_QUEUE_CAPACITY,
        st.encoding().len() <= u32::MAX,
    ensures
        into.decoded(st.encoding()) == Ok::<NetState, RestoreError>(
            NetState { transport: into.transport, ..st },
        ),
{
    let inbox_count = st.inbox.len() as u32;
    let outbox_count = st.outbox.len() as u32;
    let t5 = Seq::<u8>::empty();
    let t4 = enc_frames(st.outbox) + t5;
    let t3 = enc_u32(outbox_count) + t4;
    let t2 = enc_frames(st.inbox) + t3;
    let t1 = enc_u32(inbox_count) + t2;
    let t0 = enc_u64(st.tx_bytes) + t1;
    assert(st.encoding() =~= st.mac + (enc_u64(st.rx_bytes) + t0));
    lemma_read_raw((), st.mac, enc_u64(st.rx_bytes) + t0);
    lemma_read_u64(((), st.mac), st.rx_bytes, t0);
    lemma_read_u64((((), st.mac), st.rx_bytes), st.tx_bytes, t1);
    lemma_read_u32(((((), st.mac), st.rx_bytes), st.tx_bytes), inbox_count, t2);
    lemma_take_frames(st.inbox, t3);
    lemma_read_u32(st.inbox, outbox_count, t4);
    lemma_take_frames(st.outbox, t5);
}

/// What the guest transmits after the twelve-byte header is the newest frame
/// for the host, where it is a frame of at most 1514 bytes; anything else is
/// taken and dropped. Transmitting leaves RAM and the received frames.
pub proof fn law_transmitted_frame_reaches_the_host(
    s: NetState,
    ram: RamState,
    layout: QueueLayout,
    head: u16,
    chain: Seq<Descriptor>,
)
    requires
        chain_at(ram, layout, head) == Some(chain),
    ensures
        ({
            let (t, ram2, outcome) = s.served(1, ram, layout, head);
            let frame = gathered(ram, chain).skip(12);
            let good = (forall|i: int|
                0 <= i < chain.len() ==> (#[trigger] chain[i]).flags & 2 == 0) && all_in_ram(
                ram,
                chain,
            ) && 12 < bytes_of(chain) <= 12 + 1514;
            &&& outcome == ChainOutcome::Used(0)
            &&& ram2 == ram
            &&& t.inbox == s.inbox
            &&& good ==> t.outbox.len() > 0 && t.outbox.last() == frame
            &&& good && s.outbox.len() < 64 ==> t.outbox == s.outbox.push(frame)
            &&& good && s.outbox.len() == 64 ==> t.outbox == s.outbox.skip(1).push(frame)
            &&& bytes_of(chain) <= 12 || bytes_of(chain) > 12 + 1514 ==> t == s
        }),
{
    if all_in_ram(ram, chain) {
        virtqueue::law_gathered_length(ram, chain);
    }
}

/// The oldest frame waiting goes to the guest behind a header that counts one
/// buffer and is else zero, into buffers that hold both exactly; it is counted
/// and gone. With no frame the buffers wait.
pub proof fn law_received_frame_reaches_the_guest(
    s: NetState,
    ram: RamState,
    layout: QueueLayout,
    head: u16,
    chain: Seq<Descriptor>,
)
    requires
        chain_at(ram, layout, head) == Some(chain),
        all_in_ram(ram, chain),
        virtqueue::disjoint(chain),
        forall|i: int| 0 <= i < chain.len() ==> (#[trigger] chain[i]).flags & 2 != 0,
        s.inbox.len() > 0 ==> bytes_of(chain) == 12 + s.inbox[0].len() && s.inbox[0].len() <= 1514,
    ensures
        ({
            let (t, ram2, outcome) = s.served(0, ram, layout, head);
            &&& s.inbox.len() == 0 ==> outcome is Retry && t == s && ram2 == ram
            &&& s.inbox.len() > 0 ==> {
                &&& outcome == ChainOutcome::Used((12 + s.inbox[0].len()) as u32)
                &&& gathered(ram2, chain) == seq![
                    0u8,
                    0u8,
                    0u8,
                    0u8,
                    0u8,
                    0u8,
                    0u8,
                    0u8,
                    0u8,
                    0u8,
                    1u8,
                    0u8,
                ] + s.inbox[0]
                &&& t.inbox == s.inbox.skip(1)
                &&& t.rx_bytes == s.rx_bytes.wrapping_add(s.inbox[0].len() as u64)
                &&& t.outbox == s.outbox
            }
        }),
{
    if s.inbox.len() > 0 {
        lemma_all_writable_part(chain);
        let data = rx_header() + s.inbox[0];
        virtqueue::lemma_all_backed(ram, chain, data.len());
        virtqueue::law_scattered_can_be_gathered(ram, chain, data);
    }
}

proof fn lemma_all_writable_part(chain: Seq<Descriptor>)
    requires
        forall|i: int| 0 <= i < chain.len() ==> (#[trigger] chain[i]).flags & 2 != 0,
    ensures
        writable_part(chain) == chain,
    decreases chain.len(),
{
    if chain.len() > 0 {
        lemma_all_writable_part(chain.drop_last());
        assert(chain.last() == chain[chain.len() - 1]);
        assert(chain.drop_last().push(chain.last()) =~= chain);
    } else {
        assert(writable_part(chain) =~= chain);
    }
}

} // verus!
