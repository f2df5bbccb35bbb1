//! Single-port VirtIO console for the guest control service, separate from UART.
use std::collections::VecDeque;

use vstd::prelude::*;

use super::byte_queue::{from_slice, push_all, take_front, to_vec};
use super::virtio_mmio::{self, Transport, TransportState, TransportWrite};
use super::virtqueue::{
    self, all_in_ram, all_writable, bytes_of, chain_at, counts_writes, gathered,
    law_drained_writes_are_counted, lemma_all_backed, lemma_chain_len,
    lemma_scattered_follows, may_drain, none_indirect, scattered, writes_per_drain,
    ChainHandler, ChainOutcome, Descriptor, Queue, QueueLayout,
};
use crate::ram::{lemma_follows, paged, Ram, RamState};
use crate::snapshot::{
    and_bytes, and_end, and_section, enc_bytes, enc_section, lemma_read_bytes, lemma_read_section,
    start, Parsed, Reader, RestoreError, Writer,
};

verus! {

pub const DEVICE_ID_CONSOLE: u32 = 3;

pub const QUEUE_SIZE_MAX: u16 = 128;

/// Host to guest bytes.
pub const QUEUE_INPUT: usize = 0;

/// Guest to host bytes.
pub const QUEUE_OUTPUT: usize = 1;

pub const CAPACITY: usize = 64 * 1024;

pub struct VirtioConsole {
    pub input: VecDeque<u8>,
    pub output: VecDeque<u8>,
    pub transport: Transport,
    pub chain: Vec<Descriptor>,
}

/// What a [`VirtioConsole`] holds, its reusable buffer aside.
#[verifier::ext_equal]
pub struct ConsoleState {
    pub input: Seq<u8>,
    pub output: Seq<u8>,
    pub transport: TransportState,
}

impl View for VirtioConsole {
    type V = ConsoleState;

    open spec fn view(&self) -> ConsoleState {
        ConsoleState { input: self.input@, output: self.output@, transport: self.transport@ }
    }
}

/// A chain fit for the queue: direct buffers inside RAM, all in the queue's
/// direction, of a sensible size.
pub open spec fn chain_valid(index: usize, ram: RamState, chain: Seq<Descriptor>) -> bool {
    &&& none_indirect(chain)
    &&& all_writable(chain, index == QUEUE_INPUT)
    &&& all_in_ram(ram, chain)
    &&& 0 < bytes_of(chain) <= CAPACITY
}

impl ConsoleState {
    pub open spec fn fresh() -> ConsoleState {
        ConsoleState {
            input: Seq::empty(),
            output: Seq::empty(),
            transport: TransportState::fresh(2, QUEUE_SIZE_MAX),
        }
    }

    /// The answer to the chain at `head` of a queue. Nothing to say, or no
    /// room for all of what the guest says, leaves the chain for later.
    pub open spec fn served(self, index: usize, ram: RamState, layout: QueueLayout, head: u16) -> (
        ConsoleState,
        RamState,
        ChainOutcome,
    ) {
        match chain_at(ram, layout, head) {
            None => (self, ram, ChainOutcome::Skip),
            Some(chain) => {
                let total = bytes_of(chain);
                if !chain_valid(index, ram, chain) {
                    (self, ram, ChainOutcome::Skip)
                } else if index == QUEUE_INPUT {
                    if self.input.len() == 0 {
                        (self, ram, ChainOutcome::Retry)
                    } else {
                        let n = if total < self.input.len() {
                            total as int
                        } else {
                            self.input.len() as int
                        };
                        (
                            ConsoleState { input: self.input.skip(n), ..self },
                            scattered(ram, chain, self.input.take(n)),
                            ChainOutcome::Used(n as u32),
                        )
                    }
                } else {
                    if total > CAPACITY - self.output.len() {
                        (self, ram, ChainOutcome::Retry)
                    } else {
                        (
                            ConsoleState { output: self.output + gathered(ram, chain), ..self },
                            ram,
                            ChainOutcome::Used(0),
                        )
                    }
                }
            },
        }
    }

    pub open spec fn completed(self, index: int, queue: Queue, published: bool) -> ConsoleState {
        ConsoleState { transport: self.transport.completed(index, queue, published), ..self }
    }

    pub open spec fn drained_to(
        self,
        index: usize,
        ram: RamState,
        queue: Queue,
        mid: ConsoleState,
        post: ConsoleState,
        ram2: RamState,
    ) -> bool {
        let q = self.transport.queues[index as int];
        ||| may_drain::<VirtioConsole>(index, q, ram, self, queue, ram2, mid, false) && post
            == mid.completed(index as int, queue, false)
        ||| may_drain::<VirtioConsole>(index, q, ram, self, queue, ram2, mid, true) && post
            == mid.completed(index as int, queue, true)
    }

    /// What draining a queue may do.
    pub open spec fn may_process(
        self,
        index: usize,
        ram: RamState,
        post: ConsoleState,
        ram2: RamState,
    ) -> bool {
        exists|queue: Queue, mid: ConsoleState| #[trigger]
            self.drained_to(index, ram, queue, mid, post, ram2)
    }

    /// What a register write may do.
    pub open spec fn may_write(
        self,
        offset: u64,
        val: u64,
        size: u8,
        ram: RamState,
        post: ConsoleState,
        ram2: RamState,
    ) -> bool {
        let pre = ConsoleState { transport: self.transport.written(offset, val as u32), ..self };
        if size != 4 {
            post == self && ram2 == ram
        } else if offset == 0x050 && val as u32 <= 1 {
            pre.may_process(val as u32 as usize, ram, post, ram2)
        } else if offset == 0x070 && val as u32 == 0 {
            post == (ConsoleState { input: Seq::empty(), output: Seq::empty(), ..pre }) && ram2
                == ram
        } else if offset == 0x108 && self.output.len() < CAPACITY {
            // The emergency-write register.
            post == (ConsoleState { output: self.output.push(val as u8), ..pre }) && ram2 == ram
        } else {
            post == pre && ram2 == ram
        }
    }

    pub open spec fn seen(self, offset: u64, size: u8) -> Result<u64, ()> {
        if size == 4 || size == 8 {
            match self.transport.seen(offset, DEVICE_ID_CONSOLE, seq![0u32, 1u32]) {
                Some(v) => Ok(v),
                None => Ok(0),
            }
        } else {
            Err(())
        }
    }
}

impl ChainHandler for VirtioConsole {
    type State = ConsoleState;

    open spec fn state(&self) -> ConsoleState {
        self@
    }

    open spec fn serving(&self) -> bool {
        self.wf()
    }

    open spec fn may_handle(
        pre: ConsoleState,
        index: usize,
        ram: RamState,
        layout: QueueLayout,
        head: u16,
        post: ConsoleState,
        ram2: RamState,
        outcome: ChainOutcome,
    ) -> bool {
        pre.served(index, ram, layout, head) == (post, ram2, outcome)
    }

    fn handle(&mut self, index: usize, ram: &mut Ram, layout: QueueLayout, head: u16) -> (r:
        ChainOutcome) {
        let mut chain: Vec<Descriptor> = Vec::new();
        core::mem::swap(&mut chain, &mut self.chain);
        let outcome = self.process_chain(index, ram, layout, head, &mut chain);
        chain.clear();
        self.chain = chain;
        outcome
    }
}

impl Default for VirtioConsole {
    fn default() -> (r: Self)
        ensures
            r.wf(),
            r@ == ConsoleState::fresh(),
    {
        Self {
            input: VecDeque::new(),
            output: VecDeque::new(),
            transport: Transport::new(2, QUEUE_SIZE_MAX),
            chain: Vec::new(),
        }
    }
}

impl VirtioConsole {
    pub open spec fn wf(self) -> bool {
        &&& self@.transport.queues.len() == 2
        &&& self@.input.len() <= CAPACITY
        &&& self@.output.len() <= CAPACITY
    }

    /// Enqueue a complete host message, or reject it without consuming any bytes.
    pub fn input(&mut self, bytes: &[u8], ram: &mut Ram) -> (r: bool)
        requires
            old(self).wf(),
            old(ram).wf(),
        ensures
            final(self).wf(),
            final(ram).wf(),
            final(ram)@.bytes.len() == old(ram)@.bytes.len(),
            r == (bytes@.len() <= CAPACITY - old(self)@.input.len()),
            if r {
                (ConsoleState { input: old(self)@.input + bytes@, ..old(self)@ }).may_process(
                    QUEUE_INPUT,
                    old(ram)@,
                    final(self)@,
                    final(ram)@,
                )
            } else {
                final(self)@ == old(self)@ && final(ram)@ == old(ram)@
            },
    {
        if bytes.len() > CAPACITY - self.input.len() {
            return false;
        }
        push_all(&mut self.input, bytes);
        self.process_queue(QUEUE_INPUT, ram);
        true
    }

    pub fn output(&mut self, ram: &mut Ram) -> (r: Vec<u8>)
        requires
            old(self).wf(),
            old(ram).wf(),
        ensures
            final(self).wf(),
            final(ram).wf(),
            final(ram)@.bytes.len() == old(ram)@.bytes.len(),
            r@ == old(self)@.output,
            (ConsoleState { output: Seq::empty(), ..old(self)@ }).may_process(
                QUEUE_OUTPUT,
                old(ram)@,
                final(self)@,
                final(ram)@,
            ),
    {
        let bytes = to_vec(&self.output);
        self.output.clear();
        self.process_queue(QUEUE_OUTPUT, ram);
        bytes
    }

    pub fn irq_pending(&self) -> (r: bool)
        ensures
            r == self@.transport.irq(),
    {
        self.transport.irq_pending()
    }

    pub fn read(&self, offset: u64, size: u8) -> (r: Result<u64, ()>)
        ensures
            r == self@.seen(offset, size),
    {
        if size != 4 && size != 8 {
            return Err(());
        }
        let features: [u32; 2] = [0, 1];
        assert(features@ =~= seq![0u32, 1u32]);
        match self.transport.read(offset, DEVICE_ID_CONSOLE, features) {
            Some(v) => Ok(v),
            None => Ok(0),
        }
    }

    pub fn write(&mut self, offset: u64, val: u64, size: u8, ram: &mut Ram) -> (r: Result<(), ()>)
        requires
            old(self).wf(),
            old(ram).wf(),
        ensures
            final(self).wf(),
            final(ram).wf(),
            final(ram)@.bytes.len() == old(ram)@.bytes.len(),
            r is Ok <==> size == 4,
            old(self)@.may_write(offset, val, size, old(ram)@, final(self)@, final(ram)@),
    {
        if size != 4 {
            return Err(());
        }
        match self.transport.write(offset, val as u32) {
            TransportWrite::Notify(queue) => {
                if queue <= 1 {
                    self.process_queue(queue as usize, ram);
                }
            },
            TransportWrite::Reset => {
                self.input.clear();
                self.output.clear();
            },
            TransportWrite::Unhandled => {
                if offset == 0x108 && self.output.len() < CAPACITY {
                    self.output.push_back(val as u8);
                }
            },
            TransportWrite::Handled => {},
        }
        Ok(())
    }

    fn process_queue(&mut self, index: usize, ram: &mut Ram)
        requires
            old(self).wf(),
            old(ram).wf(),
            index < 2,
        ensures
            final(self).wf(),
            final(ram).wf(),
            final(ram)@.bytes.len() == old(ram)@.bytes.len(),
            old(self)@.may_process(index, old(ram)@, final(self)@, final(ram)@),
    {
        let work = self.transport.queue(index);
        let done = work.drain(ram, self);
        let ghost mid = self@;
        let ghost queue = done.queue;
        self.transport.complete_queue(done);
        assert(old(self)@.drained_to(index, old(ram)@, queue, mid, self@, ram@));
    }

    fn process_chain(
        &mut self,
        index: usize,
        ram: &mut Ram,
        layout: QueueLayout,
        head: u16,
        chain: &mut Vec<Descriptor>,
    ) -> (r: ChainOutcome)
        requires
            old(self).wf(),
            old(ram).wf(),
        ensures
            final(self).wf(),
            final(ram).wf(),
            final(ram)@.bytes.len() == old(ram)@.bytes.len(),
            old(self)@.served(index, old(ram)@, layout, head) == (final(self)@, final(ram)@, r),
    {
        if !virtqueue::collect_chain(ram, layout, head, chain) {
            return ChainOutcome::Skip;
        }
        if !virtqueue::buffers_direct(chain.as_slice()) || !virtqueue::buffers_writable(
            chain.as_slice(),
            index == QUEUE_INPUT,
        ) || !virtqueue::buffers_in_ram(ram, chain.as_slice()) {
            return ChainOutcome::Skip;
        }
        let total: usize = match virtqueue::total_len(chain.as_slice()) {
            Some(n) => n,
            None => return ChainOutcome::Skip,
        };
        if total == 0 || total > CAPACITY {
            return ChainOutcome::Skip;
        }
        if index == QUEUE_INPUT {
            if self.input.len() == 0 {
                return ChainOutcome::Retry;
            }
            let count: usize = if total < self.input.len() {
                total
            } else {
                self.input.len()
            };
            let bytes = take_front(&mut self.input, count);
            proof {
                assert(bytes@ =~= old(self)@.input.take(count as int));
                assert(self@.input =~= old(self)@.input.skip(count as int));
                virtqueue::lemma_all_backed(ram@, chain@, count as nat);
            }
            virtqueue::scatter(ram, chain.as_slice(), bytes.as_slice());
            ChainOutcome::Used(count as u32)
        } else {
            if total > CAPACITY - self.output.len() {
                return ChainOutcome::Retry;
            }
            let mut bytes: Vec<u8> = Vec::new();
            virtqueue::gather(ram, chain.as_slice(), &mut bytes);
            proof {
                assert(bytes@ =~= gathered(ram@, chain@));
                virtqueue::law_gathered_length(ram@, chain@);
            }
            push_all(&mut self.output, bytes.as_slice());
            ChainOutcome::Used(0)
        }
    }
}

/// Bytes reach the guest in the order the host sent them: what a chain got and
/// what still waits make up what was queued.
pub proof fn law_input_delivered_in_order(
    st: ConsoleState,
    ram: RamState,
    layout: QueueLayout,
    head: u16,
)
    requires
        st.served(QUEUE_INPUT, ram, layout, head).2 is Used,
    ensures
        ({
            let (post, ram2, outcome) = st.served(QUEUE_INPUT, ram, layout, head);
            let n = outcome->Used_0 as int;
            st.input.len() <= u32::MAX ==> {
                &&& 0 < n <= st.input.len()
                &&& st.input.take(n) + post.input == st.input
                &&& ram2 == scattered(ram, chain_at(ram, layout, head)->0, st.input.take(n))
            }
        }),
{
    let (post, _, outcome) = st.served(QUEUE_INPUT, ram, layout, head);
    assert(st.input.take(outcome->Used_0 as int) + st.input.skip(outcome->Used_0 as int)
        =~= st.input);
}

proof fn lemma_counts_writes()
    ensures
        counts_writes::<VirtioConsole>(),
{
    assert forall|
        pre: ConsoleState,
        index: usize,
        ram: RamState,
        layout: QueueLayout,
        head: u16,
        post: ConsoleState,
        ram2: RamState,
        outcome: ChainOutcome,
    |
        paged(ram) && #[trigger] <VirtioConsole as ChainHandler>::may_handle(
            pre,
            index,
            ram,
            layout,
            head,
            post,
            ram2,
            outcome,
        ) implies ram2.follows(ram, 0x1_0001) by {
        lemma_follows(ram, ram, 0, 0x1_0001);
        lemma_chain_len(ram, layout, head, layout.num as nat);
        match chain_at(ram, layout, head) {
            Some(chain) => if ram2 != ram {
                let n = if bytes_of(chain) < pre.input.len() {
                    bytes_of(chain) as int
                } else {
                    pre.input.len() as int
                };
                lemma_all_backed(ram, chain, n as nat);
                lemma_scattered_follows(ram, chain, pre.input.take(n));
                lemma_follows(ram, ram2, chain.len(), 0x1_0001);
            },
            None => {},
        }
    }
}

/// Whatever serving a queue does to RAM is counted there.
pub proof fn law_served_writes_are_counted(
    st: ConsoleState,
    index: usize,
    ram: RamState,
    post: ConsoleState,
    ram2: RamState,
)
    requires
        paged(ram),
        st.may_process(index, ram, post, ram2),
    ensures
        ram2.follows(ram, writes_per_drain()),
{
    lemma_counts_writes();
    let (queue, mid) = choose|queue: Queue, mid: ConsoleState| #[trigger]
        st.drained_to(index, ram, queue, mid, post, ram2);
    let q = st.transport.queues[index as int];
    if may_drain::<VirtioConsole>(index, q, ram, st, queue, ram2, mid, false) {
        law_drained_writes_are_counted::<VirtioConsole>(index, q, ram, st, queue, ram2, mid, false);
    } else {
        law_drained_writes_are_counted::<VirtioConsole>(index, q, ram, st, queue, ram2, mid, true);
    }
}

/// Whatever a register write makes the device do to RAM is counted there.
pub proof fn law_device_writes_are_counted(
    st: ConsoleState,
    offset: u64,
    val: u64,
    size: u8,
    ram: RamState,
    post: ConsoleState,
    ram2: RamState,
)
    requires
        paged(ram),
        st.may_write(offset, val, size, ram, post, ram2),
    ensures
        ram2.follows(ram, writes_per_drain()),
{
    lemma_follows(ram, ram, 0, writes_per_drain());
    if ram2 != ram {
        let index = val as u32 as usize;
        let pre = ConsoleState { transport: st.transport.written(offset, val as u32), ..st };
        law_served_writes_are_counted(pre, index, ram, post, ram2);
    }
}

// ---------------------------------------------------------------------------
// State snapshot
// ---------------------------------------------------------------------------

pub const SNAPSHOT_VERSION: u16 = 1;

impl ConsoleState {
    pub open spec fn encoding(self) -> Seq<u8> {
        enc_bytes(self.input) + enc_bytes(self.output)
    }

    pub open spec fn snapshot(self) -> Seq<u8> {
        enc_section(SNAPSHOT_VERSION, self.encoding()) + self.transport.snapshot()
    }

    /// The device after a restore from the data, and what is left of it.
    pub open spec fn restored(self, data: Seq<u8>) -> Parsed<ConsoleState> {
        match and_section(start(data), SNAPSHOT_VERSION) {
            Err(e) => Err(e),
            Ok(((_, payload), rest)) => match and_bytes(and_bytes(start(payload))) {
                Err(e) => Err(e),
                Ok((((_, input), output), left)) => if input.len() > CAPACITY || output.len()
                    > CAPACITY {
                    Err(RestoreError::Console)
                } else {
                    match and_end(start(left)) {
                        Err(e) => Err(e),
                        Ok(_) => match self.transport.restored(rest) {
                            Err(e) => Err(e),
                            Ok((transport, tail)) => Ok(
                                (ConsoleState { input, output, transport }, tail),
                            ),
                        },
                    }
                },
            },
        }
    }
}

impl VirtioConsole {
    pub fn snapshot(&self, out: &mut Writer)
        requires
            self.wf(),
        ensures
            final(out)@ == old(out)@ + self@.snapshot(),
    {
        let mut w = Writer::new();
        let input = to_vec(&self.input);
        let output = to_vec(&self.output);
        w.bytes(input.as_slice());
        w.bytes(output.as_slice());
        proof {
            crate::le::lemma_le_bytes_len(input@.len(), 4);
            crate::le::lemma_le_bytes_len(output@.len(), 4);
        }
        assert(w@ =~= self@.encoding());
        out.section(SNAPSHOT_VERSION, &w);
        self.transport.snapshot(out);
        assert(out@ =~= old(out)@ + self@.snapshot());
    }

    /// Take the state back from a snapshot. Data that does not parse leaves
    /// the device as it was.
    pub fn restore(&mut self, input: &mut Reader<'_>) -> (r: Result<(), RestoreError>)
        requires
            old(self).wf(),
            old(input).wf(),
        ensures
            final(self).wf(),
            final(input).wf(),
            match old(self)@.restored(old(input).rest()) {
                Err(e) => r == Err::<(), RestoreError>(e) && *final(self) == *old(self),
                Ok((st, rest)) => r is Ok && final(self)@ == st && final(input).rest() == rest,
            },
    {
        let mut section = input.section(SNAPSHOT_VERSION)?;
        let incoming = section.bytes()?;
        let outgoing = section.bytes()?;
        if incoming.len() > CAPACITY || outgoing.len() > CAPACITY {
            return Err(RestoreError::Console);
        }
        section.finish()?;
        self.transport.restore(input)?;
        self.input = from_slice(incoming);
        self.output = from_slice(outgoing);
        self.chain.clear();
        Ok(())
    }
}

/// Reading a snapshot back gives the state it was taken from.
#[verifier::spinoff_prover]
#[verifier::rlimit(40)]
pub proof fn law_snapshot_round_trip(st: ConsoleState, into: ConsoleState, tail: Seq<u8>)
    requires
        st.input.len() <= CAPACITY,
        st.output.len() <= CAPACITY,
        st.transport.queues.len() == 2,
        into.transport.queues.len() == 2,
        st.transport.queue_size_max == into.transport.queue_size_max,
        st.transport.driver_features.len() == 2,
    ensures
        into.restored(st.snapshot() + tail) == Parsed::<ConsoleState>::Ok((st, tail)),
{
    crate::le::lemma_le_bytes_len(st.input.len(), 4);
    crate::le::lemma_le_bytes_len(st.output.len(), 4);
    let rest = st.transport.snapshot() + tail;
    assert(st.snapshot() + tail =~= enc_section(SNAPSHOT_VERSION, st.encoding()) + rest);
    lemma_read_section((), SNAPSHOT_VERSION, st.encoding(), rest);
    let t1 = enc_bytes(st.output) + Seq::<u8>::empty();
    assert(st.encoding() =~= enc_bytes(st.input) + t1);
    lemma_read_bytes((), st.input, t1);
    lemma_read_bytes(((), st.input), st.output, Seq::empty());
    virtio_mmio::law_snapshot_round_trip(st.transport, into.transport, tail);
}

/// Waiting input goes to the guest in order. Buffers it fills hold its first
/// bytes afterwards, which have left the device; with less input than room all
/// of it goes; with none the buffers wait.
pub proof fn law_input_reaches_the_guest(
    s: ConsoleState,
    ram: RamState,
    layout: QueueLayout,
    head: u16,
    chain: Seq<Descriptor>,
)
    requires
        chain_at(ram, layout, head) == Some(chain),
        all_in_ram(ram, chain),
        virtqueue::disjoint(chain),
        forall|i: int|
            0 <= i < chain.len() ==> (#[trigger] chain[i]).flags & 2 != 0 && chain[i].flags & 4
                == 0,
        0 < bytes_of(chain) <= 0x1_0000,
    ensures
        ({
            let (t, ram2, outcome) = s.served(0, ram, layout, head);
            let total = bytes_of(chain) as int;
            &&& s.input.len() == 0 ==> outcome is Retry && t == s && ram2 == ram
            &&& s.input.len() >= total ==> outcome == ChainOutcome::Used(total as u32) && t.input
                == s.input.skip(total) && gathered(ram2, chain) == s.input.take(total)
            &&& 0 < s.input.len() < total ==> outcome == ChainOutcome::Used(
                s.input.len() as u32,
            ) && t.input == Seq::<u8>::empty() && ram2 == scattered(ram, chain, s.input)
            &&& t.output == s.output
        }),
{
    let total = bytes_of(chain) as int;
    if s.input.len() >= total {
        virtqueue::law_scattered_can_be_gathered(ram, chain, s.input.take(total));
    } else {
        assert(s.input.take(s.input.len() as int) =~= s.input);
        assert(s.input.skip(s.input.len() as int) =~= Seq::empty());
    }
}

/// What the guest says is kept in order, all of it or, where it does not fit,
/// none yet.
pub proof fn law_output_reaches_the_host(
    s: ConsoleState,
    ram: RamState,
    layout: QueueLayout,
    head: u16,
    chain: Seq<Descriptor>,
)
    requires
        chain_at(ram, layout, head) == Some(chain),
        all_in_ram(ram, chain),
        forall|i: int|
            0 <= i < chain.len() ==> (#[trigger] chain[i]).flags & 2 == 0 && chain[i].flags & 4
                == 0,
        0 < bytes_of(chain) <= 0x1_0000,
    ensures
        ({
            let (t, ram2, outcome) = s.served(1, ram, layout, head);
            &&& ram2 == ram
            &&& t.input == s.input
            &&& s.output.len() + bytes_of(chain) <= 0x1_0000 ==> outcome == ChainOutcome::Used(0)
                && t.output == s.output + gathered(ram, chain)
            &&& s.output.len() + bytes_of(chain) > 0x1_0000 ==> outcome is Retry && t == s
        }),
{
}

} // verus!
