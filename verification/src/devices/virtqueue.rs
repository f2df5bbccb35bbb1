//! Split-virtqueue traversal, descriptor validation, and used-ring publication.
use vstd::prelude::*;

use super::byte_queue::append;
use crate::bus::DRAM_BASE;
use crate::le::lemma_le_bytes_len;
use crate::ram::{
    law_a_write_is_counted, law_counts_add_up, lemma_follows, paged, Ram, RamState,
};

verus! {

pub const DESC_F_NEXT: u16 = 1;

pub const DESC_F_WRITE: u16 = 2;

pub const DESC_F_INDIRECT: u16 = 4;

#[derive(Clone, Copy)]
pub struct Descriptor {
    pub addr: u64,
    pub len: u32,
    pub flags: u16,
    pub next: u16,
}

impl Descriptor {
    /// Another descriptor follows this one.
    pub open spec fn chained(self) -> bool {
        self.flags & DESC_F_NEXT != 0
    }

    /// The device may write the buffer.
    pub open spec fn device_writable(self) -> bool {
        self.flags & DESC_F_WRITE != 0
    }
}

/// Guest-programmed state of one split virtqueue.
///
/// `Copy` so device code can lift the queue out of the transport for a
/// [`drain`], letting the chain handler borrow the rest of the device mutably,
/// then store the advanced copy back.
#[derive(Clone, Copy)]
pub struct Queue {
    pub num: u16,
    pub ready: bool,
    pub desc: u64,
    pub avail: u64,
    pub used: u64,
    pub last_avail_idx: u16,
}

/// A queue the driver has not set up.
pub open spec fn idle_queue() -> Queue {
    Queue { num: 0, ready: false, desc: 0, avail: 0, used: 0, last_avail_idx: 0 }
}

impl Default for Queue {
    fn default() -> (r: Self)
        ensures
            r == idle_queue(),
    {
        Queue { num: 0, ready: false, desc: 0, avail: 0, used: 0, last_avail_idx: 0 }
    }
}

/// Descriptor-table location and size, handed to chain handlers by value so a
/// handler may borrow its device mutably while the queue is being drained.
#[derive(Clone, Copy)]
pub struct QueueLayout {
    pub desc: u64,
    pub num: u16,
}

/// What a device decided about one available chain.
pub enum ChainOutcome {
    /// Publish a used entry of this length and raise the interrupt.
    Used(u32),
    /// Consume the chain without publishing anything: nothing could be
    /// reported to the driver, but the queue must not wedge on it either.
    Skip,
    /// Leave the chain available and stop draining; a later call retries it
    /// (the entropy device parks requests this way until bytes arrive).
    Retry,
}

/// A device's answer to available chains. `index` is the queue's number within
/// the device, which may treat its queues differently.
pub trait ChainHandler: Sized {
    /// What the device's answers depend on.
    type State;

    spec fn state(&self) -> Self::State;

    /// The device's own invariant.
    spec fn serving(&self) -> bool;

    /// Whether handling the chain at `head` may take the device from `pre`
    /// to `post` and RAM from `ram` to `ram2`, with the given outcome.
    spec fn may_handle(
        pre: Self::State,
        index: usize,
        ram: RamState,
        layout: QueueLayout,
        head: u16,
        post: Self::State,
        ram2: RamState,
        outcome: ChainOutcome,
    ) -> bool;

    fn handle(&mut self, index: usize, ram: &mut Ram, layout: QueueLayout, head: u16) -> (r:
        ChainOutcome)
        requires
            old(self).serving(),
            old(ram).wf(),
        ensures
            final(self).serving(),
            final(ram).wf(),
            final(ram)@.bytes.len() == old(ram)@.bytes.len(),
            Self::may_handle(
                old(self).state(),
                index,
                old(ram)@,
                layout,
                head,
                final(self).state(),
                final(ram)@,
                r,
            ),
    ;
}

/// Whether guest addresses `addr .. addr + len` are all RAM.
pub open spec fn spans_ram(ram: RamState, addr: u64, len: int) -> bool {
    DRAM_BASE <= addr && addr - DRAM_BASE + len <= ram.bytes.len()
}

/// The little-endian value at a guest address inside RAM.
pub open spec fn value_at(ram: RamState, addr: int, size: u8) -> u64 {
    ram.load((addr - DRAM_BASE) as u64, size)->Ok_0
}

/// RAM after a little-endian store at a guest address inside RAM.
pub open spec fn stored_at(ram: RamState, addr: int, val: u64, size: u8) -> RamState {
    ram.stored((addr - DRAM_BASE) as u64, val, size)
}

impl Queue {
    pub open spec fn table(self) -> QueueLayout {
        QueueLayout { desc: self.desc, num: self.num }
    }

    /// The immutable half of the queue a chain handler needs.
    pub fn layout(&self) -> (r: QueueLayout)
        ensures
            r == self.table(),
    {
        QueueLayout { desc: self.desc, num: self.num }
    }

    /// The driver has set the queue up, with all three rings inside RAM.
    pub open spec fn runnable(self, ram: RamState) -> bool {
        &&& self.ready
        &&& self.num != 0
        &&& self.desc != 0
        &&& self.avail != 0
        &&& self.used != 0
        &&& spans_ram(ram, self.desc, self.num * 16)
        &&& spans_ram(ram, self.avail, 4 + self.num * 2)
        &&& spans_ram(ram, self.used, 4 + self.num * 8)
    }

    /// The index up to which the driver has made chains available.
    pub open spec fn avail_idx(self, ram: RamState) -> u16 {
        value_at(ram, self.avail + 2, 2) as u16
    }

    /// The next chain's first descriptor.
    pub open spec fn next_head(self, ram: RamState) -> u16 {
        value_at(ram, self.avail + 4 + (self.last_avail_idx % self.num) * 2, 2) as u16
    }

    pub open spec fn used_idx(self, ram: RamState) -> u16 {
        value_at(ram, self.used + 2, 2) as u16
    }

    /// The queue with one more chain taken.
    pub open spec fn advanced(self) -> Queue {
        Queue { last_avail_idx: self.last_avail_idx.wrapping_add(1), ..self }
    }

    /// RAM after a used entry is published in the slot of `used_idx`.
    pub open spec fn published(self, ram: RamState, used_idx: u16, head: u16, len: u32) -> RamState {
        let slot = (used_idx % self.num) * 8;
        let with_id = stored_at(ram, self.used + 4 + slot, head as u64, 4);
        let with_len = stored_at(with_id, self.used + 8 + slot, len as u64, 4);
        stored_at(with_len, self.used + 2, used_idx.wrapping_add(1) as u64, 2)
    }
}

/// Whether draining at most `n` chains, the driver's index being `avail_idx`,
/// may lead from one queue, RAM and device to another, `before` and `after`
/// telling whether an entry has been published.
pub open spec fn drained<H: ChainHandler>(
    index: usize,
    n: nat,
    avail_idx: u16,
    queue: Queue,
    ram: RamState,
    handler: H::State,
    before: bool,
    queue2: Queue,
    ram2: RamState,
    handler2: H::State,
    after: bool,
) -> bool
    decreases n,
{
    if n == 0 || queue.last_avail_idx == avail_idx {
        queue2 == queue && ram2 == ram && handler2 == handler && after == before
    } else {
        let head = queue.next_head(ram);
        exists|h: H::State, r: RamState, outcome: ChainOutcome| #[trigger]
            H::may_handle(handler, index, ram, queue.table(), head, h, r, outcome) && match outcome {
                ChainOutcome::Retry => queue2 == queue && ram2 == r && handler2 == h && after
                    == before,
                ChainOutcome::Skip => drained::<H>(
                    index,
                    (n - 1) as nat,
                    avail_idx,
                    queue.advanced(),
                    r,
                    h,
                    before,
                    queue2,
                    ram2,
                    handler2,
                    after,
                ),
                ChainOutcome::Used(len) => drained::<H>(
                    index,
                    (n - 1) as nat,
                    avail_idx,
                    queue.advanced(),
                    queue.published(r, queue.used_idx(ram), head, len),
                    h,
                    true,
                    queue2,
                    ram2,
                    handler2,
                    after,
                ),
            }
    }
}

/// What a whole [`drain`] may do.
pub open spec fn may_drain<H: ChainHandler>(
    index: usize,
    queue: Queue,
    ram: RamState,
    handler: H::State,
    queue2: Queue,
    ram2: RamState,
    handler2: H::State,
    published: bool,
) -> bool {
    if !queue.runnable(ram) || queue.avail_idx(ram).wrapping_sub(queue.last_avail_idx) > queue.num {
        queue2 == queue && ram2 == ram && handler2 == handler && !published
    } else {
        drained::<H>(
            index,
            queue.num as nat,
            queue.avail_idx(ram),
            queue,
            ram,
            handler,
            false,
            queue2,
            ram2,
            handler2,
            published,
        )
    }
}

/// Consumes available chains from `queue`, bounded to one ring's worth of
/// work, calling `handler` once per chain and publishing used entries for the
/// outcomes that ask for one. Returns true when at least one used entry was
/// published, i.e. when the caller should raise its interrupt.
///
/// `avail_idx` is guest-controlled, and a driver may never
/// have more than `queue_num` chains outstanding. A larger backlog is a driver
/// protocol error, so nothing is processed and `last_avail_idx` is left alone
/// for a later sane notify; replaying up to 65,535 requests inside one MMIO
/// store would hang the browser worker. The loop is separately capped at
/// `queue_num` iterations.
pub fn drain<H: ChainHandler>(
    queue: &mut Queue,
    index: usize,
    ram: &mut Ram,
    handler: &mut H,
) -> (r: bool)
    requires
        old(ram).wf(),
        old(handler).serving(),
    ensures
        final(ram).wf(),
        final(ram)@.bytes.len() == old(ram)@.bytes.len(),
        final(handler).serving(),
        may_drain::<H>(
            index,
            *old(queue),
            old(ram)@,
            old(handler).state(),
            *final(queue),
            final(ram)@,
            final(handler).state(),
            r,
        ),
{
    let qn: u16 = queue.num;
    if !queue.ready || qn == 0 || queue.desc == 0 || queue.avail == 0 || queue.used == 0 {
        return false;
    }
    // Validate complete spans before adding guest-controlled ring offsets.
    if ram_offset(ram, queue.desc, qn as u64 * 16).is_none() || ram_offset(
        ram,
        queue.avail,
        4 + qn as u64 * 2,
    ).is_none() || ram_offset(ram, queue.used, 4 + qn as u64 * 8).is_none() {
        return false;
    }
    let avail_idx: u16 = match read_u16(ram, queue.avail + 2) {
        Some(v) => v,
        None => return false,
    };
    if avail_idx.wrapping_sub(queue.last_avail_idx) > qn {
        return false;
    }
    let layout = queue.layout();
    let mut published = false;
    let mut i: u16 = 0;
    let ghost (q0, r0, h0) = (*queue, ram@, handler.state());
    loop
        invariant_except_break
            i <= qn,
            qn != 0,
            layout == queue.table(),
            layout == old(queue).table(),
            q0 == *old(queue),
            q0.runnable(r0),
            q0.num == qn,
            queue.num == qn,
            queue.runnable(ram@),
            queue.avail == q0.avail,
            queue.used == q0.used,
            ram.wf(),
            ram@.bytes.len() == old(ram)@.bytes.len(),
            handler.serving(),
            forall|q: Queue, m: RamState, h: H::State, p: bool| #[trigger]
                drained::<H>(index, (qn - i) as nat, avail_idx, *queue, ram@, handler.state(), published, q, m, h, p)
                    ==> drained::<H>(index, qn as nat, avail_idx, q0, r0, h0, false, q, m, h, p),
        ensures
            drained::<H>(
                index,
                qn as nat,
                avail_idx,
                q0,
                r0,
                h0,
                false,
                *queue,
                ram@,
                handler.state(),
                published,
            ),
            ram.wf(),
            ram@.bytes.len() == old(ram)@.bytes.len(),
            handler.serving(),
        decreases qn - i,
    {
        if i == qn || queue.last_avail_idx == avail_idx {
            assert(drained::<H>(
                index,
                (qn - i) as nat,
                avail_idx,
                *queue,
                ram@,
                handler.state(),
                published,
                *queue,
                ram@,
                handler.state(),
                published,
            ));
            break;
        }
        let ghost (q, m, h, p) = (*queue, ram@, handler.state(), published);
        let slot: u64 = (queue.last_avail_idx % qn) as u64;
        let head: u16 = match read_u16(ram, queue.avail + 4 + slot * 2) {
            Some(v) => v,
            None => return published,
        };
        // Check the used entry is writable before doing any work: a device
        // must never perform an operation whose completion it cannot report.
        let used_idx: u16 = match read_u16(ram, queue.used + 2) {
            Some(v) => v,
            None => return published,
        };
        let used_slot: u64 = (used_idx % qn) as u64;
        if ram_offset(ram, queue.used + 4 + used_slot * 8, 8).is_none() {
            return published;
        }
        let outcome = handler.handle(index, ram, layout, head);
        assert(H::may_handle(h, index, m, q.table(), q.next_head(m), handler.state(), ram@, outcome));
        match outcome {
            ChainOutcome::Retry => {
                assert(drained::<H>(
                    index,
                    (qn - i) as nat,
                    avail_idx,
                    q,
                    m,
                    h,
                    p,
                    *queue,
                    ram@,
                    handler.state(),
                    published,
                ));
                break;
            },
            ChainOutcome::Skip => {
                queue.last_avail_idx = queue.last_avail_idx.wrapping_add(1);
            },
            ChainOutcome::Used(used_len) => {
                if write_u32(ram, queue.used + 4 + used_slot * 8, head as u32).is_none()
                    || write_u32(ram, queue.used + 8 + used_slot * 8, used_len).is_none()
                    || write_u16(ram, queue.used + 2, used_idx.wrapping_add(1)).is_none() {
                    return published;
                }
                queue.last_avail_idx = queue.last_avail_idx.wrapping_add(1);
                published = true;
            },
        }
        i = i + 1;
        proof {
            assert forall|q2: Queue, m2: RamState, h2: H::State, p2: bool| #[trigger]
                drained::<H>(
                    index,
                    (qn - i) as nat,
                    avail_idx,
                    *queue,
                    ram@,
                    handler.state(),
                    published,
                    q2,
                    m2,
                    h2,
                    p2,
                ) implies drained::<H>(index, qn as nat, avail_idx, q0, r0, h0, false, q2, m2, h2, p2) by {
                assert(drained::<H>(index, (qn - i + 1) as nat, avail_idx, q, m, h, p, q2, m2, h2, p2));
            }
        }
    }
    published
}

/// However a drain goes, it takes no more chains than the driver made
/// available, and leaves the rest of the queue as the driver set it up.
pub proof fn law_drain_takes_available_chains<H: ChainHandler>(
    index: usize,
    n: nat,
    avail_idx: u16,
    queue: Queue,
    ram: RamState,
    handler: H::State,
    before: bool,
    queue2: Queue,
    ram2: RamState,
    handler2: H::State,
    after: bool,
)
    requires
        drained::<H>(index, n, avail_idx, queue, ram, handler, before, queue2, ram2, handler2, after),
        n <= u16::MAX,
    ensures
        queue2 == (Queue { last_avail_idx: queue2.last_avail_idx, ..queue }),
        queue2.last_avail_idx.wrapping_sub(queue.last_avail_idx) <= n,
        queue2.last_avail_idx.wrapping_sub(queue.last_avail_idx) <= avail_idx.wrapping_sub(
            queue.last_avail_idx,
        ),
        before ==> after,
    decreases n,
{
    if n != 0 && queue.last_avail_idx != avail_idx {
        let head = queue.next_head(ram);
        let (h, r, outcome) = choose|h: H::State, r: RamState, outcome: ChainOutcome| #[trigger]
            H::may_handle(handler, index, ram, queue.table(), head, h, r, outcome) && match outcome {
                ChainOutcome::Retry => queue2 == queue && ram2 == r && handler2 == h && after
                    == before,
                ChainOutcome::Skip => drained::<H>(
                    index,
                    (n - 1) as nat,
                    avail_idx,
                    queue.advanced(),
                    r,
                    h,
                    before,
                    queue2,
                    ram2,
                    handler2,
                    after,
                ),
                ChainOutcome::Used(len) => drained::<H>(
                    index,
                    (n - 1) as nat,
                    avail_idx,
                    queue.advanced(),
                    queue.published(r, queue.used_idx(ram), head, len),
                    h,
                    true,
                    queue2,
                    ram2,
                    handler2,
                    after,
                ),
            };
        match outcome {
            ChainOutcome::Retry => {},
            ChainOutcome::Skip => {
                law_drain_takes_available_chains::<H>(
                    index,
                    (n - 1) as nat,
                    avail_idx,
                    queue.advanced(),
                    r,
                    h,
                    before,
                    queue2,
                    ram2,
                    handler2,
                    after,
                );
            },
            ChainOutcome::Used(len) => {
                law_drain_takes_available_chains::<H>(
                    index,
                    (n - 1) as nat,
                    avail_idx,
                    queue.advanced(),
                    queue.published(r, queue.used_idx(ram), head, len),
                    h,
                    true,
                    queue2,
                    ram2,
                    handler2,
                    after,
                );
            },
        }
    }
}

pub fn ram_offset(ram: &Ram, addr: u64, len: u64) -> (r: Option<u64>)
    requires
        ram.wf(),
    ensures
        r == (if spans_ram(ram@, addr, len as int) {
            Some((addr - DRAM_BASE) as u64)
        } else {
            None
        }),
{
    if addr < DRAM_BASE {
        return None;
    }
    let offset: u64 = addr - DRAM_BASE;
    match offset.checked_add(len) {
        Some(end) if end <= ram.size() => Some(offset),
        _ => None,
    }
}

pub fn read_u16(ram: &Ram, addr: u64) -> (r: Option<u16>)
    requires
        ram.wf(),
    ensures
        r == (if spans_ram(ram@, addr, 2) {
            Some(value_at(ram@, addr as int, 2) as u16)
        } else {
            None
        }),
{
    match ram_offset(ram, addr, 2) {
        Some(offset) => match ram.read(offset, 2) {
            Ok(v) => Some(v as u16),
            Err(_) => None,
        },
        None => None,
    }
}

pub fn read_u32(ram: &Ram, addr: u64) -> (r: Option<u32>)
    requires
        ram.wf(),
    ensures
        r == (if spans_ram(ram@, addr, 4) {
            Some(value_at(ram@, addr as int, 4) as u32)
        } else {
            None
        }),
{
    match ram_offset(ram, addr, 4) {
        Some(offset) => match ram.read(offset, 4) {
            Ok(v) => Some(v as u32),
            Err(_) => None,
        },
        None => None,
    }
}

pub fn read_u64(ram: &Ram, addr: u64) -> (r: Option<u64>)
    requires
        ram.wf(),
    ensures
        r == (if spans_ram(ram@, addr, 8) {
            Some(value_at(ram@, addr as int, 8))
        } else {
            None
        }),
{
    match ram_offset(ram, addr, 8) {
        Some(offset) => match ram.read(offset, 8) {
            Ok(v) => Some(v),
            Err(_) => None,
        },
        None => None,
    }
}

proof fn lemma_stored_len(ram: RamState, offset: u64, val: u64, size: u8)
    requires
        ram.in_range(offset as int, size as int),
    ensures
        ram.stored(offset, val, size).bytes.len() == ram.bytes.len(),
{
    lemma_le_bytes_len(val as nat, size as nat);
}

pub fn write_u16(ram: &mut Ram, addr: u64, val: u16) -> (r: Option<()>)
    requires
        old(ram).wf(),
    ensures
        final(ram).wf(),
        final(ram)@.bytes.len() == old(ram)@.bytes.len(),
        r is Some <==> spans_ram(old(ram)@, addr, 2),
        final(ram)@ == (if r is Some {
            stored_at(old(ram)@, addr as int, val as u64, 2)
        } else {
            old(ram)@
        }),
{
    match ram_offset(ram, addr, 2) {
        Some(offset) => {
            proof {
                lemma_stored_len(ram@, offset, val as u64, 2);
            }
            match ram.write(offset, val as u64, 2) {
                Ok(_) => Some(()),
                Err(_) => None,
            }
        },
        None => None,
    }
}

pub fn write_u32(ram: &mut Ram, addr: u64, val: u32) -> (r: Option<()>)
    requires
        old(ram).wf(),
    ensures
        final(ram).wf(),
        final(ram)@.bytes.len() == old(ram)@.bytes.len(),
        r is Some <==> spans_ram(old(ram)@, addr, 4),
        final(ram)@ == (if r is Some {
            stored_at(old(ram)@, addr as int, val as u64, 4)
        } else {
            old(ram)@
        }),
{
    match ram_offset(ram, addr, 4) {
        Some(offset) => {
            proof {
                lemma_stored_len(ram@, offset, val as u64, 4);
            }
            match ram.write(offset, val as u64, 4) {
                Ok(_) => Some(()),
                Err(_) => None,
            }
        },
        None => None,
    }
}

/// The descriptor at an index of a table, if there is one inside RAM.
pub open spec fn descriptor_at(ram: RamState, table: u64, queue_num: u16, index: u16) -> Option<
    Descriptor,
> {
    let addr = table + index * 16;
    if index < queue_num && addr <= u64::MAX && spans_ram(ram, addr as u64, 16) {
        Some(
            Descriptor {
                addr: value_at(ram, addr, 8),
                len: value_at(ram, addr + 8, 4) as u32,
                flags: value_at(ram, addr + 12, 2) as u16,
                next: value_at(ram, addr + 14, 2) as u16,
            },
        )
    } else {
        None
    }
}

pub fn descriptor(ram: &Ram, table: u64, queue_num: u16, index: u16) -> (r: Option<Descriptor>)
    requires
        ram.wf(),
    ensures
        r == descriptor_at(ram@, table, queue_num, index),
{
    if index >= queue_num {
        return None;
    }
    let addr: u64 = match table.checked_add(index as u64 * 16) {
        Some(a) => a,
        None => return None,
    };
    if ram_offset(ram, addr, 16).is_none() {
        return None;
    }
    match (read_u64(ram, addr), read_u32(ram, addr + 8), read_u16(ram, addr + 12), read_u16(
        ram,
        addr + 14,
    )) {
        (Some(a), Some(len), Some(flags), Some(next)) => Some(
            Descriptor { addr: a, len, flags, next },
        ),
        _ => None,
    }
}

/// The descriptors of the chain that starts at `index`, if it stays in the
/// table and ends within `n` descriptors.
pub open spec fn chain_from(ram: RamState, layout: QueueLayout, index: u16, n: nat) -> Option<
    Seq<Descriptor>,
>
    decreases n,
{
    if n == 0 {
        None
    } else {
        match descriptor_at(ram, layout.desc, layout.num, index) {
            None => None,
            Some(d) => if !d.chained() {
                Some(seq![d])
            } else {
                match chain_from(ram, layout, d.next, (n - 1) as nat) {
                    None => None,
                    Some(rest) => Some(seq![d] + rest),
                }
            },
        }
    }
}

/// The chain at `head`, if it is well formed.
pub open spec fn chain_at(ram: RamState, layout: QueueLayout, head: u16) -> Option<
    Seq<Descriptor>,
> {
    chain_from(ram, layout, head, layout.num as nat)
}

/// Walks a descriptor chain from `head` into `chain`, returning false if the
/// chain contains an out-of-range index or fails to terminate within
/// `queue_num` descriptors (a cycle, or a chain longer than the queue).
pub fn collect_chain(ram: &Ram, layout: QueueLayout, head: u16, chain: &mut Vec<Descriptor>) -> (r:
    bool)
    requires
        ram.wf(),
    ensures
        r <==> chain_at(ram@, layout, head) is Some,
        r ==> Some(final(chain)@) == chain_at(ram@, layout, head),
{
    chain.clear();
    let mut index: u16 = head;
    let mut i: u16 = 0;
    while i < layout.num
        invariant
            ram.wf(),
            i <= layout.num,
            chain_at(ram@, layout, head) == (match chain_from(
                ram@,
                layout,
                index,
                (layout.num - i) as nat,
            ) {
                Some(rest) => Some(chain@ + rest),
                None => None,
            }),
        decreases layout.num - i,
    {
        let ghost before = chain@;
        let desc = match descriptor(ram, layout.desc, layout.num, index) {
            Some(d) => d,
            None => return false,
        };
        chain.push(desc);
        if desc.flags & DESC_F_NEXT == 0 {
            assert(before + seq![desc] =~= chain@);
            return true;
        }
        proof {
            match chain_from(ram@, layout, desc.next, (layout.num - i - 1) as nat) {
                Some(rest) => {
                    assert(before + (seq![desc] + rest) =~= chain@ + rest);
                },
                None => {},
            }
        }
        index = desc.next;
        i = i + 1;
    }
    false
}

/// The bytes a list of buffers holds.
pub open spec fn bytes_of(chain: Seq<Descriptor>) -> nat
    decreases chain.len(),
{
    if chain.len() == 0 {
        0
    } else {
        chain[0].len as nat + bytes_of(chain.skip(1))
    }
}

/// Total byte length of a descriptor list, or `None` on overflow.
pub fn total_len(chain: &[Descriptor]) -> (r: Option<usize>)
    ensures
        match r {
            Some(n) => n == bytes_of(chain@),
            None => bytes_of(chain@) > usize::MAX,
        },
{
    let mut total: usize = 0;
    let mut i: usize = 0;
    assert(chain@.skip(0) =~= chain@);
    while i < chain.len()
        invariant
            i <= chain.len(),
            total + bytes_of(chain@.skip(i as int)) == bytes_of(chain@),
        decreases chain.len() - i,
    {
        assert(chain@.skip(i as int).skip(1) =~= chain@.skip(i + 1));
        match total.checked_add(chain[i].len as usize) {
            Some(t) => {
                total = t;
            },
            None => return None,
        }
        i = i + 1;
    }
    Some(total)
}

/// Every buffer lies inside RAM.
pub open spec fn all_in_ram(ram: RamState, chain: Seq<Descriptor>) -> bool {
    forall|i: int|
        0 <= i < chain.len() ==> spans_ram(ram, (#[trigger] chain[i]).addr, chain[i].len as int)
}

pub fn buffers_in_ram(ram: &Ram, chain: &[Descriptor]) -> (r: bool)
    requires
        ram.wf(),
    ensures
        r == all_in_ram(ram@, chain@),
{
    let mut i: usize = 0;
    while i < chain.len()
        invariant
            ram.wf(),
            i <= chain.len(),
            forall|k: int|
                0 <= k < i ==> spans_ram(ram@, (#[trigger] chain@[k]).addr, chain@[k].len as int),
        decreases chain.len() - i,
    {
        if ram_offset(ram, chain[i].addr, chain[i].len as u64).is_none() {
            assert(!spans_ram(ram@, chain@[i as int].addr, chain@[i as int].len as int));
            return false;
        }
        i = i + 1;
    }
    true
}

/// Every buffer is for the device to write, or every one for it to read.
pub open spec fn all_writable(chain: Seq<Descriptor>, writable: bool) -> bool {
    forall|i: int| 0 <= i < chain.len() ==> (#[trigger] chain[i]).device_writable() == writable
}

pub fn buffers_writable(chain: &[Descriptor], writable: bool) -> (r: bool)
    ensures
        r == all_writable(chain@, writable),
{
    let mut i: usize = 0;
    while i < chain.len()
        invariant
            i <= chain.len(),
            forall|k: int| 0 <= k < i ==> (#[trigger] chain@[k]).device_writable() == writable,
        decreases chain.len() - i,
    {
        if (chain[i].flags & DESC_F_WRITE != 0) != writable {
            assert(chain@[i as int].device_writable() != writable);
            return false;
        }
        i = i + 1;
    }
    true
}

/// No buffer is an indirect table.
pub open spec fn none_indirect(chain: Seq<Descriptor>) -> bool {
    forall|i: int| 0 <= i < chain.len() ==> (#[trigger] chain[i]).flags & DESC_F_INDIRECT == 0
}

pub fn buffers_direct(chain: &[Descriptor]) -> (r: bool)
    ensures
        r == none_indirect(chain@),
{
    let mut i: usize = 0;
    while i < chain.len()
        invariant
            i <= chain.len(),
            forall|k: int| 0 <= k < i ==> (#[trigger] chain@[k]).flags & DESC_F_INDIRECT == 0,
        decreases chain.len() - i,
    {
        if chain[i].flags & DESC_F_INDIRECT != 0 {
            assert(chain@[i as int].flags & DESC_F_INDIRECT != 0);
            return false;
        }
        i = i + 1;
    }
    true
}

/// How much of `remaining` bytes the first buffer of a list takes.
pub open spec fn share(chain: Seq<Descriptor>, remaining: nat) -> nat {
    if remaining < chain[0].len {
        remaining
    } else {
        chain[0].len as nat
    }
}

/// The first `needed` bytes the buffers describe are all in RAM.
pub open spec fn backed(ram: RamState, chain: Seq<Descriptor>, needed: nat) -> bool
    decreases chain.len(),
{
    if needed == 0 {
        true
    } else if chain.len() == 0 {
        false
    } else {
        let n = share(chain, needed);
        spans_ram(ram, chain[0].addr, n as int) && backed(ram, chain.skip(1), (needed - n) as nat)
    }
}

/// RAM after `data` is spread across the buffers in order.
pub open spec fn scattered(ram: RamState, chain: Seq<Descriptor>, data: Seq<u8>) -> RamState
    decreases chain.len(),
{
    if data.len() == 0 || chain.len() == 0 {
        ram
    } else {
        let n = share(chain, data.len()) as int;
        scattered(
            ram.written(chain[0].addr - DRAM_BASE, data.take(n)),
            chain.skip(1),
            data.skip(n),
        )
    }
}

/// The bytes of the buffers, in order.
pub open spec fn gathered(ram: RamState, chain: Seq<Descriptor>) -> Seq<u8>
    decreases chain.len(),
{
    if chain.len() == 0 {
        Seq::empty()
    } else {
        ram.slice(chain[0].addr - DRAM_BASE, chain[0].len as int) + gathered(ram, chain.skip(1))
    }
}

pub proof fn lemma_all_backed(ram: RamState, chain: Seq<Descriptor>, needed: nat)
    requires
        all_in_ram(ram, chain),
        needed <= bytes_of(chain),
    ensures
        backed(ram, chain, needed),
    decreases chain.len(),
{
    if needed > 0 && chain.len() > 0 {
        let n = share(chain, needed);
        assert(chain[0] == chain[0]);
        let rest = chain.skip(1);
        assert forall|i: int| 0 <= i < rest.len() implies spans_ram(
            ram,
            (#[trigger] rest[i]).addr,
            rest[i].len as int,
        ) by {
            assert(rest[i] == chain[i + 1]);
        }
        lemma_all_backed(ram, rest, (needed - n) as nat);
    }
}

/// What lies in RAM depends on its size alone.
pub proof fn lemma_backed_by_size(
    ram: RamState,
    other: RamState,
    chain: Seq<Descriptor>,
    needed: nat,
)
    requires
        ram.bytes.len() == other.bytes.len(),
    ensures
        backed(ram, chain, needed) == backed(other, chain, needed),
    decreases chain.len(),
{
    if needed > 0 && chain.len() > 0 {
        lemma_backed_by_size(ram, other, chain.skip(1), (needed - share(chain, needed)) as nat);
    }
}

/// A chain has a descriptor, and no more than the table.
pub proof fn lemma_chain_len(ram: RamState, layout: QueueLayout, index: u16, n: nat)
    ensures
        match chain_from(ram, layout, index, n) {
            Some(chain) => 1 <= chain.len() <= n,
            None => true,
        },
    decreases n,
{
    if n > 0 {
        match descriptor_at(ram, layout.desc, layout.num, index) {
            Some(d) => lemma_chain_len(ram, layout, d.next, (n - 1) as nat),
            None => {},
        }
    }
}

/// Spreading data writes to each buffer once at most.
pub proof fn lemma_scattered_follows(ram: RamState, chain: Seq<Descriptor>, data: Seq<u8>)
    requires
        paged(ram),
        backed(ram, chain, data.len()),
        chain.len() <= 0xffff,
    ensures
        scattered(ram, chain, data).follows(ram, chain.len()),
    decreases chain.len(),
{
    lemma_follows(ram, ram, 0, chain.len());
    if data.len() > 0 && chain.len() > 0 {
        let n = share(chain, data.len()) as int;
        let first = data.take(n);
        let rest = data.skip(n);
        let mid = ram.written(chain[0].addr - DRAM_BASE, first);
        law_a_write_is_counted(ram, chain[0].addr - DRAM_BASE, first);
        lemma_backed_by_size(ram, mid, chain.skip(1), rest.len());
        lemma_scattered_follows(mid, chain.skip(1), rest);
        law_counts_add_up(
            ram,
            mid,
            scattered(mid, chain.skip(1), rest),
            1,
            (chain.len() - 1) as nat,
        );
    }
}

/// The most writes to a page that one chain takes: one to each buffer, one
/// for the status, and three to publish it.
pub open spec fn writes_per_chain() -> nat {
    0x1_0004
}

/// The most writes to a page that draining a queue takes.
pub open spec fn writes_per_drain() -> nat {
    0x1_0004_0000
}

/// Whatever the device does to RAM for a chain goes through counted writes.
pub open spec fn counts_writes<H: ChainHandler>() -> bool {
    forall|
        pre: H::State,
        index: usize,
        ram: RamState,
        layout: QueueLayout,
        head: u16,
        post: H::State,
        ram2: RamState,
        outcome: ChainOutcome,
    |
        paged(ram) && #[trigger] H::may_handle(
            pre,
            index,
            ram,
            layout,
            head,
            post,
            ram2,
            outcome,
        ) ==> ram2.follows(ram, 0x1_0001)
}

proof fn lemma_stored_at_follows(ram: RamState, addr: int, val: u64, size: u8)
    requires
        paged(ram),
        DRAM_BASE <= addr <= u64::MAX,
        addr - DRAM_BASE + size <= ram.bytes.len(),
    ensures
        stored_at(ram, addr, val, size).follows(ram, 1),
{
    crate::le::lemma_le_bytes_len(val as nat, size as nat);
    law_a_write_is_counted(
        ram,
        addr - DRAM_BASE,
        crate::le::le_bytes(val as nat, size as nat),
    );
}

proof fn lemma_published_follows(q: Queue, ram: RamState, used_idx: u16, head: u16, len: u32)
    requires
        paged(ram),
        q.num != 0,
        spans_ram(ram, q.used, 4 + q.num * 8),
    ensures
        q.published(ram, used_idx, head, len).follows(ram, 3),
{
    let slot = (used_idx % q.num) * 8;
    assert(0 <= slot <= (q.num - 1) * 8);
    let with_id = stored_at(ram, q.used + 4 + slot, head as u64, 4);
    let with_len = stored_at(with_id, q.used + 8 + slot, len as u64, 4);
    let done = q.published(ram, used_idx, head, len);
    lemma_stored_at_follows(ram, q.used + 4 + slot, head as u64, 4);
    lemma_stored_at_follows(with_id, q.used + 8 + slot, len as u64, 4);
    lemma_stored_at_follows(with_len, q.used + 2, used_idx.wrapping_add(1) as u64, 2);
    law_counts_add_up(ram, with_id, with_len, 1, 1);
    law_counts_add_up(ram, with_len, done, 2, 1);
}

proof fn lemma_drained_follows<H: ChainHandler>(
    index: usize,
    n: nat,
    avail_idx: u16,
    queue: Queue,
    ram: RamState,
    handler: H::State,
    before: bool,
    queue2: Queue,
    ram2: RamState,
    handler2: H::State,
    after: bool,
)
    requires
        counts_writes::<H>(),
        paged(ram),
        n <= 0xffff,
        queue.num != 0,
        spans_ram(ram, queue.used, 4 + queue.num * 8),
        drained::<H>(
            index,
            n,
            avail_idx,
            queue,
            ram,
            handler,
            before,
            queue2,
            ram2,
            handler2,
            after,
        ),
    ensures
        ram2.follows(ram, n * writes_per_chain()),
    decreases n,
{
    lemma_follows(ram, ram, 0, n * writes_per_chain());
    if n != 0 && queue.last_avail_idx != avail_idx {
        let head = queue.next_head(ram);
        let (h, r, outcome) = choose|h: H::State, r: RamState, outcome: ChainOutcome| #[trigger]
            H::may_handle(handler, index, ram, queue.table(), head, h, r, outcome) && match outcome {
                ChainOutcome::Retry => queue2 == queue && ram2 == r && handler2 == h && after
                    == before,
                ChainOutcome::Skip => drained::<H>(
                    index,
                    (n - 1) as nat,
                    avail_idx,
                    queue.advanced(),
                    r,
                    h,
                    before,
                    queue2,
                    ram2,
                    handler2,
                    after,
                ),
                ChainOutcome::Used(len) => drained::<H>(
                    index,
                    (n - 1) as nat,
                    avail_idx,
                    queue.advanced(),
                    queue.published(r, queue.used_idx(ram), head, len),
                    h,
                    true,
                    queue2,
                    ram2,
                    handler2,
                    after,
                ),
            };
        assert(r.follows(ram, 0x1_0001));
        lemma_follows(ram, r, 0x1_0001, writes_per_chain());
        let left = ((n - 1) as nat) * writes_per_chain();
        match outcome {
            ChainOutcome::Retry => {
                lemma_follows(ram, r, writes_per_chain(), n * writes_per_chain());
            },
            ChainOutcome::Skip => {
                lemma_drained_follows::<H>(
                    index,
                    (n - 1) as nat,
                    avail_idx,
                    queue.advanced(),
                    r,
                    h,
                    before,
                    queue2,
                    ram2,
                    handler2,
                    after,
                );
                law_counts_add_up(ram, r, ram2, writes_per_chain(), left);
            },
            ChainOutcome::Used(len) => {
                let used_idx = queue.used_idx(ram);
                let p = queue.published(r, used_idx, head, len);
                lemma_published_follows(queue, r, used_idx, head, len);
                law_counts_add_up(ram, r, p, 0x1_0001, 3);
                lemma_drained_follows::<H>(
                    index,
                    (n - 1) as nat,
                    avail_idx,
                    queue.advanced(),
                    p,
                    h,
                    true,
                    queue2,
                    ram2,
                    handler2,
                    after,
                );
                law_counts_add_up(ram, p, ram2, writes_per_chain(), left);
            },
        }
    }
}

/// Draining a queue changes RAM through counted writes, and not many to a
/// page, if answering a chain does.
pub proof fn law_drained_writes_are_counted<H: ChainHandler>(
    index: usize,
    queue: Queue,
    ram: RamState,
    handler: H::State,
    queue2: Queue,
    ram2: RamState,
    handler2: H::State,
    published: bool,
)
    requires
        counts_writes::<H>(),
        paged(ram),
        may_drain::<H>(index, queue, ram, handler, queue2, ram2, handler2, published),
    ensures
        ram2.follows(ram, writes_per_drain()),
{
    lemma_follows(ram, ram, 0, writes_per_drain());
    if queue.runnable(ram) && queue.avail_idx(ram).wrapping_sub(queue.last_avail_idx) <= queue.num {
        lemma_drained_follows::<H>(
            index,
            queue.num as nat,
            queue.avail_idx(ram),
            queue,
            ram,
            handler,
            false,
            queue2,
            ram2,
            handler2,
            published,
        );
        lemma_follows(ram, ram2, queue.num as nat * writes_per_chain(), writes_per_drain());
    }
}

/// Spreads `data` across the chain's descriptors in order.
pub fn scatter(ram: &mut Ram, chain: &[Descriptor], data: &[u8])
    requires
        old(ram).wf(),
        backed(old(ram)@, chain@, data@.len()),
    ensures
        final(ram).wf(),
        final(ram)@.bytes.len() == old(ram)@.bytes.len(),
        final(ram)@ == scattered(old(ram)@, chain@, data@),
{
    let mut done: usize = 0;
    let mut i: usize = 0;
    assert(chain@.skip(0) =~= chain@);
    assert(data@.skip(0) =~= data@);
    while done < data.len() && i < chain.len()
        invariant
            ram.wf(),
            ram@.bytes.len() == old(ram)@.bytes.len(),
            i <= chain.len(),
            done <= data.len(),
            backed(ram@, chain@.skip(i as int), (data@.len() - done) as nat),
            scattered(ram@, chain@.skip(i as int), data@.skip(done as int)) == scattered(
                old(ram)@,
                chain@,
                data@,
            ),
        decreases chain.len() - i,
    {
        let left: usize = data.len() - done;
        let size: usize = chain[i].len as usize;
        let len: usize = if left < size {
            left
        } else {
            size
        };
        let part = vstd::slice::slice_subrange(data, done, done + len);
        proof {
            let rest = chain@.skip(i as int);
            assert(rest.skip(1) =~= chain@.skip(i + 1));
            assert(data@.skip(done as int).take(len as int) =~= part@);
            assert(data@.skip(done as int).skip(len as int) =~= data@.skip(done + len));
            lemma_backed_by_size(
                ram@,
                ram@.written(rest[0].addr - DRAM_BASE, part@),
                rest.skip(1),
                (left - len) as nat,
            );
        }
        let _ = ram.write_slice(chain[i].addr - DRAM_BASE, part);
        done = done + len;
        i = i + 1;
    }
}

/// Appends the buffers' bytes to `out`.
pub fn gather(ram: &Ram, chain: &[Descriptor], out: &mut Vec<u8>)
    requires
        ram.wf(),
        all_in_ram(ram@, chain@),
    ensures
        final(out)@ == old(out)@ + gathered(ram@, chain@),
{
    let mut i: usize = 0;
    assert(chain@.skip(0) =~= chain@);
    while i < chain.len()
        invariant
            ram.wf(),
            all_in_ram(ram@, chain@),
            i <= chain.len(),
            out@ + gathered(ram@, chain@.skip(i as int)) == old(out)@ + gathered(ram@, chain@),
        decreases chain.len() - i,
    {
        let ghost before = out@;
        proof {
            assert(chain@.skip(i as int).skip(1) =~= chain@.skip(i + 1));
            assert(spans_ram(ram@, chain@[i as int].addr, chain@[i as int].len as int));
        }
        match ram.read_slice(chain[i].addr - DRAM_BASE, chain[i].len as usize) {
            Ok(bytes) => {
                append(out, bytes);
                proof {
                    let rest = gathered(ram@, chain@.skip(i + 1));
                    assert(before + (bytes@ + rest) =~= out@ + rest);
                }
            },
            Err(_) => {},
        }
        i = i + 1;
    }
    assert(out@ + gathered(ram@, chain@.skip(i as int)) =~= out@);
}

proof fn lemma_gathered_len(ram: RamState, chain: Seq<Descriptor>)
    requires
        all_in_ram(ram, chain),
    ensures
        gathered(ram, chain).len() == bytes_of(chain),
    decreases chain.len(),
{
    if chain.len() > 0 {
        assert(spans_ram(ram, chain[0].addr, chain[0].len as int));
        let rest = chain.skip(1);
        assert forall|i: int| 0 <= i < rest.len() implies spans_ram(
            ram,
            (#[trigger] rest[i]).addr,
            rest[i].len as int,
        ) by {
            assert(rest[i] == chain[i + 1]);
        }
        lemma_gathered_len(ram, rest);
    }
}

/// Buffers hold as many bytes as they describe.
pub proof fn law_gathered_length(ram: RamState, chain: Seq<Descriptor>)
    requires
        all_in_ram(ram, chain),
    ensures
        gathered(ram, chain).len() == bytes_of(chain),
{
    lemma_gathered_len(ram, chain);
}

/// A chain starts at its head and follows each descriptor's link while its
/// flags say that one follows (bit 0); the last says that none does. It is
/// never empty and never longer than the table.
pub proof fn law_chains_follow_their_links(
    ram: RamState,
    layout: QueueLayout,
    head: u16,
    n: nat,
    chain: Seq<Descriptor>,
)
    requires
        chain_from(ram, layout, head, n) == Some(chain),
    ensures
        0 < chain.len() <= n,
        descriptor_at(ram, layout.desc, layout.num, head) == Some(chain[0]),
        chain.last().flags & 1 == 0,
        forall|i: int|
            0 <= i < chain.len() - 1 ==> (#[trigger] chain[i]).flags & 1 != 0 && descriptor_at(
                ram,
                layout.desc,
                layout.num,
                chain[i].next,
            ) == Some(chain[i + 1]),
    decreases n,
{
    let d = descriptor_at(ram, layout.desc, layout.num, head)->Some_0;
    if d.chained() {
        let rest = chain_from(ram, layout, d.next, (n - 1) as nat)->Some_0;
        law_chains_follow_their_links(ram, layout, d.next, (n - 1) as nat, rest);
        assert(chain == seq![d] + rest);
        assert(chain.last() == rest.last());
        assert forall|i: int| 0 <= i < chain.len() - 1 implies (#[trigger] chain[i]).flags & 1 != 0
            && descriptor_at(ram, layout.desc, layout.num, chain[i].next) == Some(chain[i + 1]) by {
            if i > 0 {
                assert(chain[i] == rest[i - 1]);
                assert(chain[i + 1] == rest[i - 1 + 1]);
            } else {
                assert(chain[1] == rest[0]);
            }
        }
    }
}

/// A descriptor is sixteen bytes of the table: address, length, flags and
/// link, the lowest byte first. One past the table, or outside RAM, is none.
pub proof fn law_descriptor_layout(ram: RamState, table: u64, num: u16, index: u16)
    ensures
        index >= num ==> descriptor_at(ram, table, num, index) is None,
        ({
            let at = table + index * 16;
            index < num && DRAM_BASE <= at && at - DRAM_BASE + 16 <= ram.bytes.len() && at
                <= u64::MAX ==> {
                let d = descriptor_at(ram, table, num, index)->Some_0;
                &&& descriptor_at(ram, table, num, index) is Some
                &&& ram.load((at - DRAM_BASE) as u64, 8) == Ok::<u64, ()>(d.addr)
                &&& ram.load((at + 8 - DRAM_BASE) as u64, 4)->Ok_0 as u32 == d.len
                &&& ram.load((at + 12 - DRAM_BASE) as u64, 2)->Ok_0 as u16 == d.flags
                &&& ram.load((at + 14 - DRAM_BASE) as u64, 2)->Ok_0 as u16 == d.next
            }
        }),
{
}

/// A used entry that is published can be read in the ring: the chain's head
/// and the length in its slot, and the index one further.
pub proof fn law_published_entry_reads_back(
    queue: Queue,
    ram: RamState,
    used_idx: u16,
    head: u16,
    len: u32,
)
    requires
        queue.num != 0,
        spans_ram(ram, queue.used, 4 + queue.num * 8),
    ensures
        ({
            let after = queue.published(ram, used_idx, head, len);
            let slot = queue.used + 4 + (used_idx as int % queue.num as int) * 8;
            &&& value_at(after, slot, 4) == head
            &&& value_at(after, slot + 4, 4) == len
            &&& value_at(after, queue.used + 2, 2) == used_idx.wrapping_add(1)
            &&& after.bytes.len() == ram.bytes.len()
        }),
{
    let slot = (used_idx as int % queue.num as int) * 8;
    assert(0 <= slot <= (queue.num - 1) * 8) by (nonlinear_arith)
        requires
            queue.num > 0,
            slot == (used_idx as int % queue.num as int) * 8,
    ;
    let base = queue.used - DRAM_BASE;
    let (id, size, index) = (
        crate::le::le_bytes(head as nat, 4),
        crate::le::le_bytes(len as nat, 4),
        crate::le::le_bytes(used_idx.wrapping_add(1) as nat, 2),
    );
    crate::le::lemma_pow256();
    crate::le::lemma_le_round_trip(head as nat, 4);
    crate::le::lemma_le_round_trip(len as nat, 4);
    crate::le::lemma_le_round_trip(used_idx.wrapping_add(1) as nat, 2);
    let one = ram.written(base + 4 + slot, id);
    let two = one.written(base + 8 + slot, size);
    let three = two.written(base + 2, index);
    assert(queue.published(ram, used_idx, head, len) == three);
    assert(three.slice(base + 4 + slot, 4) =~= id);
    assert(three.slice(base + 8 + slot, 4) =~= size);
    assert(three.slice(base + 2, 2) =~= index);
}

/// A queue that is not set up, lies outside RAM, or claims a longer backlog
/// than it has entries is left alone, and so are RAM and the device.
pub proof fn law_unusable_queue_is_left_alone<H: ChainHandler>(
    index: usize,
    queue: Queue,
    ram: RamState,
    handler: H::State,
    queue2: Queue,
    ram2: RamState,
    handler2: H::State,
    published: bool,
)
    requires
        may_drain::<H>(index, queue, ram, handler, queue2, ram2, handler2, published),
        !queue.ready || queue.num == 0 || queue.desc == 0 || queue.avail == 0 || queue.used == 0
            || queue.used < DRAM_BASE || queue.used - DRAM_BASE + 4 + queue.num * 8
            > ram.bytes.len() || queue.avail_idx(ram).wrapping_sub(queue.last_avail_idx)
            > queue.num || queue.avail_idx(ram) == queue.last_avail_idx,
    ensures
        queue2 == queue,
        ram2 == ram,
        handler2 == handler,
        !published,
{
}

/// The bytes outside the buffers stay.
proof fn lemma_scattered_elsewhere(
    ram: RamState,
    chain: Seq<Descriptor>,
    data: Seq<u8>,
    at: int,
)
    requires
        all_in_ram(ram, chain),
        0 <= at < ram.bytes.len(),
        forall|i: int|
            0 <= i < chain.len() ==> at < (#[trigger] chain[i]).addr - DRAM_BASE || at
                >= chain[i].addr - DRAM_BASE + chain[i].len,
    ensures
        scattered(ram, chain, data).bytes.len() == ram.bytes.len(),
        scattered(ram, chain, data).bytes[at] == ram.bytes[at],
    decreases chain.len(),
{
    if data.len() > 0 && chain.len() > 0 {
        let n = share(chain, data.len()) as int;
        assert(spans_ram(ram, chain[0].addr, chain[0].len as int));
        let first = ram.written(chain[0].addr - DRAM_BASE, data.take(n));
        assert(first.bytes.len() == ram.bytes.len());
        let rest = chain.skip(1);
        assert forall|i: int| 0 <= i < rest.len() implies spans_ram(
            first,
            (#[trigger] rest[i]).addr,
            rest[i].len as int,
        ) && (at < rest[i].addr - DRAM_BASE || at >= rest[i].addr - DRAM_BASE + rest[i].len) by {
            assert(rest[i] == chain[i + 1]);
            assert(spans_ram(ram, chain[i + 1].addr, chain[i + 1].len as int));
        }
        lemma_scattered_elsewhere(first, rest, data.skip(n), at);
    }
}

/// What is scattered into buffers that do not overlap can be gathered from
/// them again.
#[verifier::spinoff_prover]
#[verifier::rlimit(60)]
pub proof fn law_scattered_can_be_gathered(ram: RamState, chain: Seq<Descriptor>, data: Seq<u8>)
    requires
        all_in_ram(ram, chain),
        data.len() == bytes_of(chain),
        forall|i: int, j: int|
            0 <= i < j < chain.len() ==> (#[trigger] chain[i]).addr + chain[i].len
                <= (#[trigger] chain[j]).addr || chain[j].addr + chain[j].len <= chain[i].addr,
    ensures
        gathered(scattered(ram, chain, data), chain) == data,
        scattered(ram, chain, data).bytes.len() == ram.bytes.len(),
    decreases chain.len(),
{
    if chain.len() == 0 {
        assert(data =~= Seq::empty());
    } else {
        let n = chain[0].len as int;
        let rest = chain.skip(1);
        let base = chain[0].addr - DRAM_BASE;
        assert(spans_ram(ram, chain[0].addr, n));
        let first = ram.written(base, data.take(n));
        assert(first.bytes.len() == ram.bytes.len());
        assert forall|i: int| 0 <= i < rest.len() implies spans_ram(
            first,
            (#[trigger] rest[i]).addr,
            rest[i].len as int,
        ) by {
            assert(rest[i] == chain[i + 1]);
            assert(spans_ram(ram, chain[i + 1].addr, chain[i + 1].len as int));
        }
        assert forall|i: int, j: int| 0 <= i < j < rest.len() implies (#[trigger] rest[i]).addr
            + rest[i].len <= (#[trigger] rest[j]).addr || rest[j].addr + rest[j].len
            <= rest[i].addr by {
            assert(rest[i] == chain[i + 1] && rest[j] == chain[j + 1]);
        }
        law_scattered_can_be_gathered(first, rest, data.skip(n));
        let done = scattered(first, rest, data.skip(n));
        assert(scattered(ram, chain, data) == done) by {
            if data.len() == 0 {
                assert(ram.written(base, data.take(n)).bytes =~= ram.bytes);
                lemma_empty_scatter(first, rest, data.skip(n));
                assert(first.generations =~= ram.generations);
                assert(first == ram);
            } else {
                assert(share(chain, data.len()) == n);
            }
        }
        assert forall|k: int| 0 <= k < n implies done.bytes[base + k] == data[k] by {
            assert forall|i: int| 0 <= i < rest.len() implies base + k < (#[trigger] rest[i]).addr
                - DRAM_BASE || base + k >= rest[i].addr - DRAM_BASE + rest[i].len by {
                assert(rest[i] == chain[i + 1]);
                assert(chain[0].addr + chain[0].len <= chain[i + 1].addr || chain[i + 1].addr
                    + chain[i + 1].len <= chain[0].addr);
            }
            lemma_scattered_elsewhere(first, rest, data.skip(n), base + k);
            assert(first.bytes[base + k] == data.take(n)[k]);
        }
        assert(done.slice(base, n) =~= data.take(n));
        assert(data.take(n) + data.skip(n) =~= data);
    }
}

proof fn lemma_empty_scatter(ram: RamState, chain: Seq<Descriptor>, data: Seq<u8>)
    requires
        data.len() == 0,
    ensures
        scattered(ram, chain, data) == ram,
{
}

/// No two buffers share a byte.
pub open spec fn disjoint(chain: Seq<Descriptor>) -> bool {
    forall|i: int, j: int|
        0 <= i < j < chain.len() ==> (#[trigger] chain[i]).addr + chain[i].len
            <= (#[trigger] chain[j]).addr || chain[j].addr + chain[j].len <= chain[i].addr
}

} // verus!
