//! Minimal VirtIO 1.x entropy device over the MMIO transport.
//!
//! The device owns no generator: hosts inject bytes from their platform
//! CSPRNG, so the core stays deterministic in tests and never exposes a weak
//! fallback to the guest.
use std::collections::VecDeque;

use vstd::prelude::*;

use super::byte_queue::{from_slice, push_all, take_front, to_vec};
use super::virtio_mmio::{self, Transport, TransportState, TransportWrite};
use super::virtqueue::{
    self, all_in_ram, all_writable, bytes_of, chain_at, counts_writes,
    law_drained_writes_are_counted, lemma_all_backed, lemma_chain_len,
    lemma_scattered_follows, may_drain, none_indirect, scattered, writes_per_drain,
    ChainHandler, ChainOutcome, Descriptor, Queue, QueueLayout,
};
use crate::ram::{lemma_follows, paged, Ram, RamState};
use crate::snapshot::{
    and_bytes, and_end, and_section, enc_bytes, enc_section, lemma_read_bytes, lemma_read_section,
    start, Parsed, Reader, RestoreError, Writer,
};

verus! {

pub const DEVICE_ID_ENTROPY: u32 = 4;

pub const QUEUE_SIZE_MAX: u16 = 8;

/// Sole queue index (entropy requests).
pub const QUEUE_ENTROPY: usize = 0;

pub const ENTROPY_CAPACITY: usize = 64 * 1024;

pub const MAX_REQUEST_BYTES: usize = 1024 * 1024;

/// One-queue VirtIO-MMIO entropy device backed by host-injected bytes.
pub struct VirtioEntropy {
    pub entropy: VecDeque<u8>,
    pub transport: Transport,
    pub chain: Vec<Descriptor>,
}

/// What a [`VirtioEntropy`] holds, its reusable buffer aside.
#[verifier::ext_equal]
pub struct EntropyState {
    pub entropy: Seq<u8>,
    pub transport: TransportState,
}

impl View for VirtioEntropy {
    type V = EntropyState;

    open spec fn view(&self) -> EntropyState {
        EntropyState { entropy: self.entropy@, transport: self.transport@ }
    }
}

/// A request the device can serve: direct, device-writable buffers inside
/// RAM, of a sensible size.
pub open spec fn request_valid(ram: RamState, chain: Seq<Descriptor>) -> bool {
    &&& all_writable(chain, true)
    &&& none_indirect(chain)
    &&& 0 < bytes_of(chain) <= MAX_REQUEST_BYTES
    &&& all_in_ram(ram, chain)
}

impl EntropyState {
    /// No entropy, and a transport out of reset.
    pub open spec fn fresh() -> EntropyState {
        EntropyState {
            entropy: Seq::empty(),
            transport: TransportState::fresh(1, QUEUE_SIZE_MAX),
        }
    }

    /// The bytes a request of `total` gets now.
    pub open spec fn share(self, total: nat) -> int {
        if total < self.entropy.len() {
            total as int
        } else {
            self.entropy.len() as int
        }
    }

    /// The answer to the chain at `head`: as many buffered bytes as it has
    /// room for, each byte used once. Requests that cannot be served yet stay
    /// available; the next refill retries them from the same ring position.
    pub open spec fn served(self, ram: RamState, layout: QueueLayout, head: u16) -> (
        EntropyState,
        RamState,
        ChainOutcome,
    ) {
        match chain_at(ram, layout, head) {
            None => (self, ram, ChainOutcome::Skip),
            Some(chain) => if !request_valid(ram, chain) {
                (self, ram, ChainOutcome::Skip)
            } else if self.entropy.len() == 0 {
                (self, ram, ChainOutcome::Retry)
            } else {
                let n = self.share(bytes_of(chain));
                (
                    EntropyState { entropy: self.entropy.skip(n), ..self },
                    scattered(ram, chain, self.entropy.take(n)),
                    ChainOutcome::Used(n as u32),
                )
            },
        }
    }

    pub open spec fn completed(self, queue: Queue, published: bool) -> EntropyState {
        EntropyState { transport: self.transport.completed(0, queue, published), ..self }
    }

    pub open spec fn drained_to(
        self,
        ram: RamState,
        queue: Queue,
        mid: EntropyState,
        post: EntropyState,
        ram2: RamState,
    ) -> bool {
        let q = self.transport.queues[0];
        ||| may_drain::<VirtioEntropy>(0, q, ram, self, queue, ram2, mid, false) && post
            == mid.completed(queue, false)
        ||| may_drain::<VirtioEntropy>(0, q, ram, self, queue, ram2, mid, true) && post
            == mid.completed(queue, true)
    }

    /// What draining the request queue may do.
    pub open spec fn may_process(self, ram: RamState, post: EntropyState, ram2: RamState) -> bool {
        exists|queue: Queue, mid: EntropyState| #[trigger]
            self.drained_to(ram, queue, mid, post, ram2)
    }

    /// What a register write may do.
    pub open spec fn may_write(
        self,
        offset: u64,
        val: u32,
        size: u8,
        ram: RamState,
        post: EntropyState,
        ram2: RamState,
    ) -> bool {
        let pre = EntropyState { transport: self.transport.written(offset, val), ..self };
        if size != 4 {
            post == self && ram2 == ram
        } else if offset == 0x050 && val == 0 {
            pre.may_process(ram, post, ram2)
        } else {
            post == pre && ram2 == ram
        }
    }

    pub open spec fn seen(self, offset: u64, size: u8) -> Result<u64, ()> {
        if size == 4 || size == 8 {
            match self.transport.seen(offset, DEVICE_ID_ENTROPY, seq![0u32, 1u32]) {
                Some(v) => Ok(v),
                None => Ok(0),
            }
        } else {
            Err(())
        }
    }
}

impl ChainHandler for VirtioEntropy {
    type State = EntropyState;

    open spec fn state(&self) -> EntropyState {
        self@
    }

    open spec fn serving(&self) -> bool {
        self.wf()
    }

    open spec fn may_handle(
        pre: EntropyState,
        index: usize,
        ram: RamState,
        layout: QueueLayout,
        head: u16,
        post: EntropyState,
        ram2: RamState,
        outcome: ChainOutcome,
    ) -> bool {
        pre.served(ram, layout, head) == (post, ram2, outcome)
    }

    fn handle(&mut self, _index: usize, ram: &mut Ram, layout: QueueLayout, head: u16) -> (r:
        ChainOutcome) {
        self.process_request(ram, layout, head)
    }
}

impl VirtioEntropy {
    pub open spec fn wf(self) -> bool {
        &&& self@.transport.queues.len() == 1
        &&& self@.entropy.len() <= ENTROPY_CAPACITY
    }

    pub fn new() -> (r: Self)
        ensures
            r.wf(),
            r@ == EntropyState::fresh(),
    {
        Self {
            entropy: VecDeque::with_capacity(ENTROPY_CAPACITY),
            transport: Transport::new(1, QUEUE_SIZE_MAX),
            chain: Vec::new(),
        }
    }

    /// Number of bytes the bounded entropy buffer can currently accept.
    pub fn entropy_needed(&self) -> (r: usize)
        requires
            self.wf(),
        ensures
            r == ENTROPY_CAPACITY - self@.entropy.len(),
    {
        ENTROPY_CAPACITY - self.entropy.len()
    }

    /// Adds as many bytes as fit and services any queue requests waiting for
    /// entropy. Returns the number of bytes accepted.
    pub fn add_entropy(&mut self, bytes: &[u8], ram: &mut Ram) -> (r: usize)
        requires
            old(self).wf(),
            old(ram).wf(),
        ensures
            final(self).wf(),
            final(ram).wf(),
            final(ram)@.bytes.len() == old(ram)@.bytes.len(),
            r == (if bytes@.len() < ENTROPY_CAPACITY - old(self)@.entropy.len() {
                bytes@.len() as int
            } else {
                ENTROPY_CAPACITY - old(self)@.entropy.len()
            }),
            (EntropyState {
                entropy: old(self)@.entropy + bytes@.take(r as int),
                ..old(self)@
            }).may_process(old(ram)@, final(self)@, final(ram)@),
    {
        let needed: usize = self.entropy_needed();
        let accepted: usize = if bytes.len() < needed {
            bytes.len()
        } else {
            needed
        };
        let taken = vstd::slice::slice_subrange(bytes, 0, accepted);
        assert(taken@ =~= bytes@.take(accepted as int));
        push_all(&mut self.entropy, taken);
        self.process_queue(ram);
        accepted
    }

    pub fn irq_pending(&self) -> (r: bool)
        ensures
            r == self@.transport.irq(),
    {
        self.transport.irq_pending()
    }

    pub fn read(&self, offset: u64, size: u8) -> (r: Result<u64, ()>)
        ensures
            r == self@.seen(offset, size),
    {
        if size != 4 && size != 8 {
            return Err(());
        }
        // VIRTIO_F_VERSION_1 (bit 32) is the only offered feature.
        let features: [u32; 2] = [0, 1];
        assert(features@ =~= seq![0u32, 1u32]);
        match self.transport.read(offset, DEVICE_ID_ENTROPY, features) {
            Some(v) => Ok(v),
            None => Ok(0),
        }
    }

    pub fn write(&mut self, offset: u64, val: u64, size: u8, ram: &mut Ram) -> (r: Result<(), ()>)
        requires
            old(self).wf(),
            old(ram).wf(),
        ensures
            final(self).wf(),
            final(ram).wf(),
            final(ram)@.bytes.len() == old(ram)@.bytes.len(),
            r is Ok <==> size == 4,
            old(self)@.may_write(offset, val as u32, size, old(ram)@, final(self)@, final(ram)@),
    {
        if size != 4 {
            return Err(());
        }
        match self.transport.write(offset, val as u32) {
            TransportWrite::Notify(0) => self.process_queue(ram),
            _ => {},
        }
        Ok(())
    }

    fn process_queue(&mut self, ram: &mut Ram)
        requires
            old(self).wf(),
            old(ram).wf(),
        ensures
            final(self).wf(),
            final(ram).wf(),
            final(ram)@.bytes.len() == old(ram)@.bytes.len(),
            old(self)@.may_process(old(ram)@, final(self)@, final(ram)@),
    {
        let work = self.transport.queue(QUEUE_ENTROPY);
        let done = work.drain(ram, self);
        let ghost mid = self@;
        let ghost queue = done.queue;
        self.transport.complete_queue(done);
        assert(old(self)@.drained_to(old(ram)@, queue, mid, self@, ram@));
    }

    fn process_request(&mut self, ram: &mut Ram, layout: QueueLayout, head: u16) -> (r:
        ChainOutcome)
        requires
            old(self).wf(),
            old(ram).wf(),
        ensures
            final(self).wf(),
            final(ram).wf(),
            final(ram)@.bytes.len() == old(ram)@.bytes.len(),
            old(self)@.served(old(ram)@, layout, head) == (final(self)@, final(ram)@, r),
    {
        let mut chain: Vec<Descriptor> = Vec::new();
        core::mem::swap(&mut chain, &mut self.chain);
        let outcome = self.process_chain(ram, layout, head, &mut chain);
        chain.clear();
        self.chain = chain;
        outcome
    }

    fn process_chain(
        &mut self,
        ram: &mut Ram,
        layout: QueueLayout,
        head: u16,
        chain: &mut Vec<Descriptor>,
    ) -> (r: ChainOutcome)
        requires
            old(self).wf(),
            old(ram).wf(),
        ensures
            final(self).wf(),
            final(ram).wf(),
            final(ram)@.bytes.len() == old(ram)@.bytes.len(),
            old(self)@.served(old(ram)@, layout, head) == (final(self)@, final(ram)@, r),
    {
        if !virtqueue::collect_chain(ram, layout, head, chain) {
            return ChainOutcome::Skip;
        }
        if !virtqueue::buffers_writable(chain.as_slice(), true) || !virtqueue::buffers_direct(
            chain.as_slice(),
        ) {
            return ChainOutcome::Skip;
        }
        let total: usize = match virtqueue::total_len(chain.as_slice()) {
            Some(n) => n,
            None => return ChainOutcome::Skip,
        };
        if total == 0 || total > MAX_REQUEST_BYTES {
            return ChainOutcome::Skip;
        }
        if !virtqueue::buffers_in_ram(ram, chain.as_slice()) {
            return ChainOutcome::Skip;
        }
        if self.entropy.len() == 0 {
            return ChainOutcome::Retry;
        }
        let written: usize = if total < self.entropy.len() {
            total
        } else {
            self.entropy.len()
        };
        let bytes = take_front(&mut self.entropy, written);
        proof {
            assert(bytes@ =~= old(self)@.entropy.take(written as int));
            assert(self@.entropy =~= old(self)@.entropy.skip(written as int));
            virtqueue::lemma_all_backed(ram@, chain@, written as nat);
        }
        virtqueue::scatter(ram, chain.as_slice(), bytes.as_slice());
        ChainOutcome::Used(written as u32)
    }
}

impl Default for VirtioEntropy {
    fn default() -> (r: Self)
        ensures
            r.wf(),
            r@ == EntropyState::fresh(),
    {
        Self::new()
    }
}

/// A byte handed to the guest leaves the buffer: what a request got and what
/// is left make up what was there.
pub proof fn law_entropy_used_once(st: EntropyState, total: nat)
    ensures
        st.entropy.take(st.share(total)) + st.entropy.skip(st.share(total)) == st.entropy,
{
    assert(st.entropy.take(st.share(total)) + st.entropy.skip(st.share(total)) =~= st.entropy);
}

proof fn lemma_counts_writes()
    ensures
        counts_writes::<VirtioEntropy>(),
{
    assert forall|
        pre: EntropyState,
        index: usize,
        ram: RamState,
        layout: QueueLayout,
        head: u16,
        post: EntropyState,
        ram2: RamState,
        outcome: ChainOutcome,
    |
        paged(ram) && #[trigger] <VirtioEntropy as ChainHandler>::may_handle(
            pre,
            index,
            ram,
            layout,
            head,
            post,
            ram2,
            outcome,
        ) implies ram2.follows(ram, 0x1_0001) by {
        lemma_follows(ram, ram, 0, 0x1_0001);
        lemma_chain_len(ram, layout, head, layout.num as nat);
        match chain_at(ram, layout, head) {
            Some(chain) => if ram2 != ram {
                let n = pre.share(bytes_of(chain));
                lemma_all_backed(ram, chain, n as nat);
                lemma_scattered_follows(ram, chain, pre.entropy.take(n));
                lemma_follows(ram, ram2, chain.len(), 0x1_0001);
            },
            None => {},
        }
    }
}

/// Whatever serving a queue does to RAM is counted there.
pub proof fn law_served_writes_are_counted(
    st: EntropyState,
    ram: RamState,
    post: EntropyState,
    ram2: RamState,
)
    requires
        paged(ram),
        st.may_process(ram, post, ram2),
    ensures
        ram2.follows(ram, writes_per_drain()),
{
    lemma_counts_writes();
    let (queue, mid) = choose|queue: Queue, mid: EntropyState| #[trigger]
        st.drained_to(ram, queue, mid, post, ram2);
    let q = st.transport.queues[0];
    if may_drain::<VirtioEntropy>(0, q, ram, st, queue, ram2, mid, false) {
        law_drained_writes_are_counted::<VirtioEntropy>(0, q, ram, st, queue, ram2, mid, false);
    } else {
        law_drained_writes_are_counted::<VirtioEntropy>(0, q, ram, st, queue, ram2, mid, true);
    }
}

/// Whatever a register write makes the device do to RAM is counted there.
pub proof fn law_device_writes_are_counted(
    st: EntropyState,
    offset: u64,
    val: u32,
    size: u8,
    ram: RamState,
    post: EntropyState,
    ram2: RamState,
)
    requires
        paged(ram),
        st.may_write(offset, val, size, ram, post, ram2),
    ensures
        ram2.follows(ram, writes_per_drain()),
{
    lemma_follows(ram, ram, 0, writes_per_drain());
    if ram2 != ram {
        let pre = EntropyState { transport: st.transport.written(offset, val), ..st };
        law_served_writes_are_counted(pre, ram, post, ram2);
    }
}

// ---------------------------------------------------------------------------
// State snapshot
// ---------------------------------------------------------------------------

pub const SNAPSHOT_VERSION: u16 = 1;

impl EntropyState {
    pub open spec fn snapshot(self) -> Seq<u8> {
        enc_section(SNAPSHOT_VERSION, enc_bytes(self.entropy)) + self.transport.snapshot()
    }

    /// The device after a restore from the data, and what is left of it.
    pub open spec fn restored(self, data: Seq<u8>) -> Parsed<EntropyState> {
        match and_section(start(data), SNAPSHOT_VERSION) {
            Err(e) => Err(e),
            Ok(((_, payload), rest)) => match and_bytes(start(payload)) {
                Err(e) => Err(e),
                Ok(((_, entropy), left)) => if entropy.len() > ENTROPY_CAPACITY {
                    Err(RestoreError::Entropy { count: entropy.len() as usize })
                } else {
                    match and_end(start(left)) {
                        Err(e) => Err(e),
                        Ok(_) => match self.transport.restored(rest) {
                            Err(e) => Err(e),
                            Ok((transport, tail)) => Ok(
                                (EntropyState { entropy, transport }, tail),
                            ),
                        },
                    }
                },
            },
        }
    }
}

impl VirtioEntropy {
    pub fn snapshot(&self, out: &mut Writer)
        requires
            self.wf(),
        ensures
            final(out)@ == old(out)@ + self@.snapshot(),
    {
        let mut w = Writer::new();
        let entropy = to_vec(&self.entropy);
        w.bytes(entropy.as_slice());
        proof {
            crate::le::lemma_le_bytes_len(entropy@.len(), 4);
        }
        assert(w@ =~= enc_bytes(self@.entropy));
        out.section(SNAPSHOT_VERSION, &w);
        self.transport.snapshot(out);
        assert(out@ =~= old(out)@ + self@.snapshot());
    }

    /// Take the state back from a snapshot. Data that does not parse leaves
    /// the device as it was.
    pub fn restore(&mut self, input: &mut Reader<'_>) -> (r: Result<(), RestoreError>)
        requires
            old(self).wf(),
            old(input).wf(),
        ensures
            final(self).wf(),
            final(input).wf(),
            match old(self)@.restored(old(input).rest()) {
                Err(e) => r == Err::<(), RestoreError>(e) && *final(self) == *old(self),
                Ok((st, rest)) => r is Ok && final(self)@ == st && final(input).rest() == rest,
            },
    {
        let mut section = input.section(SNAPSHOT_VERSION)?;
        let entropy = section.bytes()?;
        if entropy.len() > ENTROPY_CAPACITY {
            return Err(RestoreError::Entropy { count: entropy.len() });
        }
        section.finish()?;
        self.transport.restore(input)?;
        self.entropy = from_slice(entropy);
        self.chain.clear();
        Ok(())
    }
}

/// Reading a snapshot back gives the state it was taken from.
pub proof fn law_snapshot_round_trip(st: EntropyState, into: EntropyState, tail: Seq<u8>)
    requires
        st.entropy.len() <= ENTROPY_CAPACITY,
        st.transport.queues.len() == 1,
        into.transport.queues.len() == 1,
        st.transport.queue_size_max == into.transport.queue_size_max,
        st.transport.driver_features.len() == 2,
    ensures
        into.restored(st.snapshot() + tail) == Parsed::<EntropyState>::Ok((st, tail)),
{
    crate::le::lemma_le_bytes_len(st.entropy.len(), 4);
    let rest = st.transport.snapshot() + tail;
    assert(st.snapshot() + tail =~= enc_section(SNAPSHOT_VERSION, enc_bytes(st.entropy)) + rest);
    lemma_read_section((), SNAPSHOT_VERSION, enc_bytes(st.entropy), rest);
    assert(enc_bytes(st.entropy) + Seq::<u8>::empty() =~= enc_bytes(st.entropy));
    lemma_read_bytes((), st.entropy, Seq::empty());
    virtio_mmio::law_snapshot_round_trip(st.transport, into.transport, tail);
}

/// A request gets the next bytes of entropy, as many as it has room for; they
/// leave the device. With none at hand it waits.
pub proof fn law_requests_get_entropy(
    s: EntropyState,
    ram: RamState,
    layout: QueueLayout,
    head: u16,
    chain: Seq<Descriptor>,
)
    requires
        chain_at(ram, layout, head) == Some(chain),
        all_in_ram(ram, chain),
        virtqueue::disjoint(chain),
        forall|i: int|
            0 <= i < chain.len() ==> (#[trigger] chain[i]).flags & 2 != 0 && chain[i].flags & 4
                == 0,
        0 < bytes_of(chain) <= 0x10_0000,
    ensures
        ({
            let (t, ram2, outcome) = s.served(ram, layout, head);
            let total = bytes_of(chain) as int;
            &&& s.entropy.len() == 0 ==> outcome is Retry && t == s && ram2 == ram
            &&& s.entropy.len() >= total ==> outcome == ChainOutcome::Used(total as u32)
                && t.entropy == s.entropy.skip(total) && virtqueue::gathered(ram2, chain)
                == s.entropy.take(total)
            &&& 0 < s.entropy.len() < total ==> outcome == ChainOutcome::Used(
                s.entropy.len() as u32,
            ) && t.entropy == Seq::<u8>::empty() && ram2 == scattered(ram, chain, s.entropy)
        }),
{
    let total = bytes_of(chain) as int;
    if s.entropy.len() >= total {
        virtqueue::law_scattered_can_be_gathered(ram, chain, s.entropy.take(total));
    } else {
        assert(s.entropy.take(s.entropy.len() as int) =~= s.entropy);
        assert(s.entropy.skip(s.entropy.len() as int) =~= Seq::empty());
    }
}

} // verus!
