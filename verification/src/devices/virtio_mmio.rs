//! VirtIO-MMIO registers, queue completion bookkeeping, and transport snapshots.
use vstd::prelude::*;

use super::virtqueue::{self, idle_queue, may_drain, ChainHandler, Queue};
use crate::ram::Ram;
use crate::snapshot::{
    and_bool, and_end, and_section, and_u16, and_u32, and_u64, enc_bool, enc_section, enc_u16,
    enc_u32, enc_u64, lemma_read_bool, lemma_read_section, lemma_read_u16, lemma_read_u32,
    lemma_read_u64, start, Parsed, Reader, RestoreError, Writer,
};

verus! {

pub const MAGIC: u32 = 0x7472_6976;

pub const VERSION: u32 = 2;

pub const VENDOR_ID_QEMU: u32 = 0x554d_4551;

/// Owns a queue copy so its handler can borrow device state during the drain.
#[must_use]
pub struct QueueWork {
    pub index: usize,
    pub queue: Queue,
    pub published: bool,
}

impl QueueWork {
    pub fn drain<H: ChainHandler>(self, ram: &mut Ram, handler: &mut H) -> (r: Self)
        requires
            old(ram).wf(),
            old(handler).serving(),
        ensures
            final(ram).wf(),
            final(ram)@.bytes.len() == old(ram)@.bytes.len(),
            final(handler).serving(),
            r.index == self.index,
            self.published ==> r.published,
            r.published == self.published && may_drain::<H>(
                self.index,
                self.queue,
                old(ram)@,
                old(handler).state(),
                r.queue,
                final(ram)@,
                final(handler).state(),
                false,
            ) || r.published && may_drain::<H>(
                self.index,
                self.queue,
                old(ram)@,
                old(handler).state(),
                r.queue,
                final(ram)@,
                final(handler).state(),
                true,
            ),
    {
        let mut queue = self.queue;
        let published = virtqueue::drain(&mut queue, self.index, ram, handler);
        QueueWork { index: self.index, queue, published: self.published || published }
    }
}

/// What a transport register write asked the device to do.
pub enum TransportWrite {
    /// Fully handled by the transport.
    Handled,
    /// QueueNotify: the value is the guest-supplied queue index.
    Notify(u32),
    /// Status was written zero: the transport reset itself and the device
    /// should clear any state of its own.
    Reset,
    /// Not a transport register (device configuration space).
    Unhandled,
}

/// The VirtIO-MMIO register file shared by every device in this crate.
pub struct Transport {
    pub queues: Vec<Queue>,
    pub queue_size_max: u16,
    pub device_features_sel: u32,
    pub driver_features_sel: u32,
    pub driver_features: [u32; 2],
    pub queue_sel: u32,
    pub status: u32,
    pub interrupt_status: u32,
}

/// What a [`Transport`] holds.
#[verifier::ext_equal]
pub struct TransportState {
    pub queues: Seq<Queue>,
    pub queue_size_max: u16,
    pub device_features_sel: u32,
    pub driver_features_sel: u32,
    pub driver_features: Seq<u32>,
    pub queue_sel: u32,
    pub status: u32,
    pub interrupt_status: u32,
}

impl View for Transport {
    type V = TransportState;

    open spec fn view(&self) -> TransportState {
        TransportState {
            queues: self.queues@,
            queue_size_max: self.queue_size_max,
            device_features_sel: self.device_features_sel,
            driver_features_sel: self.driver_features_sel,
            driver_features: self.driver_features@,
            queue_sel: self.queue_sel,
            status: self.status,
            interrupt_status: self.interrupt_status,
        }
    }
}

/// The register with its low half replaced.
pub open spec fn with_low(old_value: u64, val: u32) -> u64 {
    (old_value / 0x1_0000_0000 * 0x1_0000_0000 + val) as u64
}

/// The register with its high half replaced.
pub open spec fn with_high(old_value: u64, val: u32) -> u64 {
    (old_value % 0x1_0000_0000 + val * 0x1_0000_0000) as u64
}

impl TransportState {
    /// A transport no driver has touched.
    pub open spec fn fresh(queues: nat, queue_size_max: u16) -> TransportState {
        TransportState {
            queues: Seq::new(queues, |i: int| idle_queue()),
            queue_size_max,
            device_features_sel: 0,
            driver_features_sel: 0,
            driver_features: seq![0u32, 0u32],
            queue_sel: 0,
            status: 0,
            interrupt_status: 0,
        }
    }

    pub open spec fn cleared(self) -> TransportState {
        TransportState::fresh(self.queues.len(), self.queue_size_max)
    }

    pub open spec fn irq(self) -> bool {
        self.interrupt_status != 0
    }

    pub open spec fn selected(self) -> bool {
        self.queue_sel < self.queues.len()
    }

    /// The selected queue replaced; nothing if no queue is selected.
    pub open spec fn with_selected(self, queue: Queue) -> TransportState {
        if self.selected() {
            TransportState { queues: self.queues.update(self.queue_sel as int, queue), ..self }
        } else {
            self
        }
    }

    pub open spec fn selected_queue(self) -> Queue {
        self.queues[self.queue_sel as int]
    }

    /// The value of a transport register, `None` for the device's own offsets.
    pub open spec fn seen(self, offset: u64, device_id: u32, features: Seq<u32>) -> Option<u64> {
        match offset {
            0x000 => Some(MAGIC as u64),
            0x004 => Some(VERSION as u64),
            0x008 => Some(device_id as u64),
            0x00c => Some(VENDOR_ID_QEMU as u64),
            0x010 => Some(
                if self.device_features_sel < features.len() {
                    features[self.device_features_sel as int] as u64
                } else {
                    0
                },
            ),
            0x034 => Some(
                if self.selected() {
                    self.queue_size_max as u64
                } else {
                    0
                },
            ),
            0x044 => Some(
                if self.selected() && self.selected_queue().ready {
                    1
                } else {
                    0
                },
            ),
            0x060 => Some(self.interrupt_status as u64),
            0x070 => Some(self.status as u64),
            _ => None,
        }
    }

    /// The transport after a register write.
    pub open spec fn written(self, offset: u64, val: u32) -> TransportState {
        let q = self.selected_queue();
        match offset {
            0x014 => TransportState { device_features_sel: val, ..self },
            0x020 => if self.driver_features_sel < 2 {
                TransportState {
                    driver_features: self.driver_features.update(
                        self.driver_features_sel as int,
                        val,
                    ),
                    ..self
                }
            } else {
                self
            },
            0x024 => TransportState { driver_features_sel: val, ..self },
            0x030 => TransportState { queue_sel: val, ..self },
            0x038 => self.with_selected(
                Queue {
                    num: if val as u16 <= self.queue_size_max {
                        val as u16
                    } else {
                        self.queue_size_max
                    },
                    ..q
                },
            ),
            0x044 => self.with_selected(Queue { ready: val % 2 == 1, ..q }),
            0x064 => TransportState { interrupt_status: self.interrupt_status & !val, ..self },
            0x070 => if val == 0 {
                self.cleared()
            } else {
                TransportState { status: val, ..self }
            },
            0x080 => self.with_selected(Queue { desc: with_low(q.desc, val), ..q }),
            0x084 => self.with_selected(Queue { desc: with_high(q.desc, val), ..q }),
            0x090 => self.with_selected(Queue { avail: with_low(q.avail, val), ..q }),
            0x094 => self.with_selected(Queue { avail: with_high(q.avail, val), ..q }),
            0x0a0 => self.with_selected(Queue { used: with_low(q.used, val), ..q }),
            0x0a4 => self.with_selected(Queue { used: with_high(q.used, val), ..q }),
            _ => self,
        }
    }

    /// What a register write asks of the device.
    pub open spec fn request(offset: u64, val: u32) -> TransportWrite {
        match offset {
            0x014 | 0x020 | 0x024 | 0x030 | 0x038 | 0x044 | 0x064 | 0x080 | 0x084 | 0x090 | 0x094
            | 0x0a0 | 0x0a4 => TransportWrite::Handled,
            0x050 => TransportWrite::Notify(val),
            0x070 => if val == 0 {
                TransportWrite::Reset
            } else {
                TransportWrite::Handled
            },
            _ => TransportWrite::Unhandled,
        }
    }

    /// The transport with a drained queue put back.
    pub open spec fn completed(self, index: int, queue: Queue, published: bool) -> TransportState {
        TransportState {
            queues: self.queues.update(index, queue),
            interrupt_status: if published {
                self.interrupt_status | 1
            } else {
                self.interrupt_status
            },
            ..self
        }
    }
}

proof fn lemma_halves(v: u64, val: u64)
    by (bit_vector)
    requires
        val < 0x1_0000_0000,
    ensures
        ((v & 0xffff_ffff_0000_0000) | val) / 0x1_0000_0000 == v / 0x1_0000_0000,
        ((v & 0xffff_ffff_0000_0000) | val) % 0x1_0000_0000 == val,
        ((v & 0x0000_0000_ffff_ffff) | (val << 32)) / 0x1_0000_0000 == val,
        ((v & 0x0000_0000_ffff_ffff) | (val << 32)) % 0x1_0000_0000 == v % 0x1_0000_0000,
{
}

proof fn lemma_flags(val: u32)
    by (bit_vector)
    ensures
        (val & 1 != 0) == (val % 2 == 1),
        val | 1 != 0,
        val & !0xffff_ffffu32 == 0,
        val & !val == 0,
        val & !0u32 == val,
{
}

impl Transport {
    pub fn new(queues: usize, queue_size_max: u16) -> (r: Self)
        ensures
            r@ == TransportState::fresh(queues as nat, queue_size_max),
    {
        let mut list: Vec<Queue> = Vec::new();
        let mut i: usize = 0;
        while i < queues
            invariant
                i <= queues,
                list@ == Seq::new(i as nat, |k: int| idle_queue()),
            decreases queues - i,
        {
            list.push(Queue::default());
            i = i + 1;
            assert(list@ =~= Seq::new(i as nat, |k: int| idle_queue()));
        }
        let r = Self {
            queues: list,
            queue_size_max,
            device_features_sel: 0,
            driver_features_sel: 0,
            driver_features: [0; 2],
            queue_sel: 0,
            status: 0,
            interrupt_status: 0,
        };
        assert(r@ =~= TransportState::fresh(queues as nat, queue_size_max));
        r
    }

    pub fn queue(&self, index: usize) -> (r: QueueWork)
        requires
            index < self@.queues.len(),
        ensures
            r == (QueueWork { index, queue: self@.queues[index as int], published: false }),
    {
        QueueWork { index, queue: self.queues[index], published: false }
    }

    pub fn complete_queue(&mut self, work: QueueWork)
        requires
            work.index < old(self)@.queues.len(),
        ensures
            final(self)@ == old(self)@.completed(work.index as int, work.queue, work.published),
    {
        self.queues.set(work.index, work.queue);
        if work.published {
            self.interrupt_status = self.interrupt_status | 1;
        }
        assert(self@ =~= old(self)@.completed(work.index as int, work.queue, work.published));
    }

    pub fn irq_pending(&self) -> (r: bool)
        ensures
            r == self@.irq(),
    {
        self.interrupt_status != 0
    }

    /// Reads a transport register. `features` is the device's offered feature
    /// bitmap split into 32-bit words, selected by DeviceFeaturesSel.
    /// Returns `None` for offsets the device owns (configuration space).
    pub fn read(&self, offset: u64, device_id: u32, features: [u32; 2]) -> (r: Option<u64>)
        ensures
            r == self@.seen(offset, device_id, features@),
    {
        let value: u64 = match offset {
            0x000 => MAGIC as u64,
            0x004 => VERSION as u64,
            0x008 => device_id as u64,
            0x00c => VENDOR_ID_QEMU as u64,
            0x010 => if self.device_features_sel < 2 {
                features[self.device_features_sel as usize] as u64
            } else {
                0
            },
            0x034 => if (self.queue_sel as usize) < self.queues.len() {
                self.queue_size_max as u64
            } else {
                0
            },
            0x044 => if (self.queue_sel as usize) < self.queues.len()
                && self.queues[self.queue_sel as usize].ready {
                1
            } else {
                0
            },
            0x060 => self.interrupt_status as u64,
            0x070 => self.status as u64,
            _ => return None,
        };
        Some(value)
    }

    /// Applies a transport register write.
    pub fn write(&mut self, offset: u64, val: u32) -> (r: TransportWrite)
        ensures
            r == TransportState::request(offset, val),
            final(self)@ == old(self)@.written(offset, val),
    {
        proof {
            lemma_flags(val);
        }
        match offset {
            0x014 => {
                self.device_features_sel = val;
            },
            0x020 => {
                if self.driver_features_sel < 2 {
                    self.driver_features[self.driver_features_sel as usize] = val;
                }
            },
            0x024 => {
                self.driver_features_sel = val;
            },
            0x030 => {
                self.queue_sel = val;
            },
            0x038 => {
                let max: u16 = self.queue_size_max;
                let num: u16 = if val as u16 <= max {
                    val as u16
                } else {
                    max
                };
                let q = self.selected();
                self.set_selected(Queue { num, ..q });
            },
            0x044 => {
                let q = self.selected();
                self.set_selected(Queue { ready: val & 1 != 0, ..q });
            },
            0x050 => return TransportWrite::Notify(val),
            0x064 => {
                self.interrupt_status = self.interrupt_status & !val;
            },
            0x070 => {
                if val == 0 {
                    self.reset();
                    return TransportWrite::Reset;
                }
                self.status = val;
            },
            0x080 => {
                let q = self.selected();
                self.set_selected(Queue { desc: set_low(q.desc, val), ..q });
            },
            0x084 => {
                let q = self.selected();
                self.set_selected(Queue { desc: set_high(q.desc, val), ..q });
            },
            0x090 => {
                let q = self.selected();
                self.set_selected(Queue { avail: set_low(q.avail, val), ..q });
            },
            0x094 => {
                let q = self.selected();
                self.set_selected(Queue { avail: set_high(q.avail, val), ..q });
            },
            0x0a0 => {
                let q = self.selected();
                self.set_selected(Queue { used: set_low(q.used, val), ..q });
            },
            0x0a4 => {
                let q = self.selected();
                self.set_selected(Queue { used: set_high(q.used, val), ..q });
            },
            _ => return TransportWrite::Unhandled,
        }
        assert(self@ =~= old(self)@.written(offset, val));
        TransportWrite::Handled
    }

    /// The selected queue, an idle one if the selector is out of range.
    fn selected(&self) -> (r: Queue)
        ensures
            self@.selected() ==> r == self@.selected_queue(),
    {
        if (self.queue_sel as usize) < self.queues.len() {
            self.queues[self.queue_sel as usize]
        } else {
            Queue::default()
        }
    }

    /// Replace the selected queue; a selector out of range is ignored.
    fn set_selected(&mut self, queue: Queue)
        ensures
            final(self)@ == old(self)@.with_selected(queue),
    {
        if (self.queue_sel as usize) < self.queues.len() {
            self.queues.set(self.queue_sel as usize, queue);
        }
        assert(self@ =~= old(self)@.with_selected(queue));
    }

    pub fn reset(&mut self)
        ensures
            final(self)@ == old(self)@.cleared(),
    {
        self.device_features_sel = 0;
        self.driver_features_sel = 0;
        self.driver_features = [0; 2];
        self.queue_sel = 0;
        self.status = 0;
        self.interrupt_status = 0;
        let mut i: usize = 0;
        while i < self.queues.len()
            invariant
                self.queues@.len() == old(self).queues@.len(),
                self.queue_size_max == old(self).queue_size_max,
                self.device_features_sel == 0,
                self.driver_features_sel == 0,
                self.driver_features@ == seq![0u32, 0u32],
                self.queue_sel == 0,
                self.status == 0,
                self.interrupt_status == 0,
                forall|k: int| 0 <= k < i ==> self.queues@[k] == idle_queue(),
            decreases self.queues@.len() - i,
        {
            self.queues.set(i, Queue::default());
            i = i + 1;
        }
        assert(self@ =~= old(self)@.cleared());
    }
}

fn set_low(dst: u64, val: u32) -> (r: u64)
    ensures
        r == with_low(dst, val),
{
    proof {
        lemma_halves(dst, val as u64);
    }
    (dst & 0xffff_ffff_0000_0000) | (val as u64)
}

fn set_high(dst: u64, val: u32) -> (r: u64)
    ensures
        r == with_high(dst, val),
{
    proof {
        lemma_halves(dst, val as u64);
    }
    (dst & 0x0000_0000_ffff_ffff) | ((val as u64) << 32)
}

/// Publishing an entry raises the interrupt, and acknowledging every bit
/// drops it.
pub proof fn law_interrupt_follows_publication(t: TransportState, index: int, queue: Queue)
    ensures
        t.completed(index, queue, true).irq(),
        t.completed(index, queue, false).irq() == t.irq(),
        !t.written(0x064, u32::MAX).irq(),
{
    lemma_flags(t.interrupt_status);
}

/// A selector out of range reaches no queue.
pub proof fn law_unselected_queues_untouched(t: TransportState, offset: u64, val: u32, index: int)
    requires
        0 <= index < t.queues.len(),
        index != t.queue_sel,
        offset != 0x070 || val != 0,
    ensures
        t.written(offset, val).queues[index] == t.queues[index],
{
}

// ---------------------------------------------------------------------------
// State snapshot
// ---------------------------------------------------------------------------

pub const SNAPSHOT_VERSION: u16 = 1;

pub open spec fn enc_queue(q: Queue) -> Seq<u8> {
    enc_u16(q.num) + enc_bool(q.ready) + enc_u64(q.desc) + enc_u64(q.avail) + enc_u64(q.used)
        + enc_u16(q.last_avail_idx)
}

pub open spec fn enc_queues(queues: Seq<Queue>) -> Seq<u8>
    decreases queues.len(),
{
    if queues.len() == 0 {
        Seq::empty()
    } else {
        enc_queues(queues.drop_last()) + enc_queue(queues.last())
    }
}

pub open spec fn and_queue<A>(prev: Parsed<A>) -> Parsed<(A, Queue)> {
    match and_u16(and_u64(and_u64(and_u64(and_bool(and_u16(prev)))))) {
        Err(e) => Err(e),
        Ok((((((((a, num), ready), desc), avail), used), last_avail_idx), rest)) => Ok(
            ((a, Queue { num, ready, desc, avail, used, last_avail_idx }), rest),
        ),
    }
}

/// The `n` queues at the front of the data.
pub open spec fn take_queues(b: Seq<u8>, n: nat) -> Parsed<Seq<Queue>>
    decreases n,
{
    if n == 0 {
        Ok((Seq::empty(), b))
    } else {
        match and_queue(take_queues(b, (n - 1) as nat)) {
            Err(e) => Err(e),
            Ok(((s, q), rest)) => Ok((s.push(q), rest)),
        }
    }
}

impl TransportState {
    pub open spec fn encoding(self) -> Seq<u8> {
        enc_u32(self.queues.len() as u32) + enc_u16(self.queue_size_max) + enc_queues(self.queues)
            + enc_u32(self.device_features_sel) + enc_u32(self.driver_features_sel) + enc_u32(
            self.driver_features[0],
        ) + enc_u32(self.driver_features[1]) + enc_u32(self.queue_sel) + enc_u32(self.status)
            + enc_u32(self.interrupt_status)
    }

    /// The state a payload describes; the geometry must be this transport's.
    pub open spec fn decoded(self, payload: Seq<u8>) -> Result<TransportState, RestoreError> {
        match and_u16(and_u32(start(payload))) {
            Err(e) => Err(e),
            Ok((((_, count), max), rest)) => if count != self.queues.len() || max
                != self.queue_size_max {
                Err(RestoreError::Queues { queues: count, size_max: max })
            } else {
                match and_end(
                    and_u32(
                        and_u32(
                            and_u32(
                                and_u32(
                                    and_u32(and_u32(and_u32(take_queues(rest, self.queues.len())))),
                                ),
                            ),
                        ),
                    ),
                ) {
                    Err(e) => Err(e),
                    Ok(
                        (((((((queues, device_sel), driver_sel), f0), f1), sel), status), interrupt),
                    ) => Ok(
                        TransportState {
                            queues,
                            queue_size_max: max,
                            device_features_sel: device_sel,
                            driver_features_sel: driver_sel,
                            driver_features: seq![f0, f1],
                            queue_sel: sel,
                            status,
                            interrupt_status: interrupt,
                        },
                    ),
                }
            },
        }
    }

    /// The transport after a restore from the data, and what is left of it.
    pub open spec fn restored(self, data: Seq<u8>) -> Parsed<TransportState> {
        match and_section(start(data), SNAPSHOT_VERSION) {
            Err(e) => Err(e),
            Ok(((_, payload), rest)) => match self.decoded(payload) {
                Err(e) => Err(e),
                Ok(t) => Ok((t, rest)),
            },
        }
    }

    pub open spec fn snapshot(self) -> Seq<u8> {
        enc_section(SNAPSHOT_VERSION, self.encoding())
    }
}

fn write_queue(w: &mut Writer, q: Queue)
    ensures
        final(w)@ == old(w)@ + enc_queue(q),
{
    w.u16(q.num);
    w.bool(q.ready);
    w.u64(q.desc);
    w.u64(q.avail);
    w.u64(q.used);
    w.u16(q.last_avail_idx);
    assert(w@ =~= old(w)@ + enc_queue(q));
}

fn read_queue(r: &mut Reader<'_>) -> (res: Result<Queue, RestoreError>)
    requires
        old(r).wf(),
    ensures
        final(r).wf(),
        match and_queue(start(old(r).rest())) {
            Err(e) => res == Err::<Queue, RestoreError>(e),
            Ok(((_, q), rest)) => res == Ok::<Queue, RestoreError>(q) && final(r).rest() == rest,
        },
{
    let num: u16 = r.u16()?;
    let ready = r.bool()?;
    let desc: u64 = r.u64()?;
    let avail: u64 = r.u64()?;
    let used: u64 = r.u64()?;
    let last_avail_idx: u16 = r.u16()?;
    Ok(Queue { num, ready, desc, avail, used, last_avail_idx })
}

/// Once a queue of a run cannot be read, the run cannot.
proof fn lemma_queues_error(b: Seq<u8>, n: nat, m: nat, e: RestoreError)
    requires
        n <= m,
        take_queues(b, n) == Parsed::<Seq<Queue>>::Err(e),
    ensures
        take_queues(b, m) == Parsed::<Seq<Queue>>::Err(e),
    decreases m,
{
    if n < m {
        lemma_queues_error(b, n, (m - 1) as nat, e);
    }
}

fn read_queues(r: &mut Reader<'_>, n: usize) -> (res: Result<Vec<Queue>, RestoreError>)
    requires
        old(r).wf(),
    ensures
        final(r).wf(),
        match take_queues(old(r).rest(), n as nat) {
            Err(e) => res is Err && res->Err_0 == e,
            Ok((s, rest)) => res is Ok && res->Ok_0@ == s && s.len() == n && final(r).rest() == rest,
        },
{
    let mut out: Vec<Queue> = Vec::new();
    let mut i: usize = 0;
    while i < n
        invariant
            i <= n,
            r.wf(),
            out@.len() == i,
            take_queues(old(r).rest(), i as nat) == Parsed::<Seq<Queue>>::Ok((out@, r.rest())),
        decreases n - i,
    {
        match read_queue(r) {
            Ok(q) => {
                out.push(q);
            },
            Err(e) => {
                proof {
                    lemma_queues_error(old(r).rest(), (i + 1) as nat, n as nat, e);
                }
                return Err(e);
            },
        }
        i = i + 1;
    }
    Ok(out)
}

impl Transport {
    /// Serialize the MMIO register file and every queue's guest-programmed
    /// state. The descriptor/available/used rings themselves live in guest RAM
    /// and are carried by the RAM section, so only the pointers are here.
    pub fn snapshot(&self, out: &mut Writer)
        requires
            self@.queues.len() <= 0xffff,
        ensures
            final(out)@ == old(out)@ + self@.snapshot(),
    {
        let mut w = Writer::new();
        w.u32(self.queues.len() as u32);
        w.u16(self.queue_size_max);
        let ghost head = w@;
        let mut i: usize = 0;
        assert(self.queues@.subrange(0, 0) =~= Seq::<Queue>::empty());
        assert(w@ =~= head + enc_queues(self.queues@.subrange(0, 0)));
        while i < self.queues.len()
            invariant
                i <= self.queues.len(),
                w@ == head + enc_queues(self.queues@.subrange(0, i as int)),
            decreases self.queues.len() - i,
        {
            write_queue(&mut w, self.queues[i]);
            proof {
                let longer = self.queues@.subrange(0, i + 1);
                assert(longer.drop_last() =~= self.queues@.subrange(0, i as int));
                assert(w@ =~= head + enc_queues(longer));
            }
            i = i + 1;
        }
        assert(self.queues@.subrange(0, i as int) =~= self.queues@);
        w.u32(self.device_features_sel);
        w.u32(self.driver_features_sel);
        w.u32(self.driver_features[0]);
        w.u32(self.driver_features[1]);
        w.u32(self.queue_sel);
        w.u32(self.status);
        w.u32(self.interrupt_status);
        assert(w@ =~= self@.encoding());
        proof {
            lemma_encoding_len(self@);
        }
        out.section(SNAPSHOT_VERSION, &w);
    }

    /// Take the state back from a snapshot section. Data that does not parse
    /// leaves the transport as it was.
    pub fn restore(&mut self, input: &mut Reader<'_>) -> (r: Result<(), RestoreError>)
        requires
            old(input).wf(),
        ensures
            final(input).wf(),
            final(self)@.queues.len() == old(self)@.queues.len(),
            match old(self)@.restored(old(input).rest()) {
                Err(e) => r == Err::<(), RestoreError>(e) && *final(self) == *old(self),
                Ok((t, rest)) => r is Ok && final(self)@ == t && final(input).rest() == rest,
            },
    {
        let mut section = input.section(SNAPSHOT_VERSION)?;
        let count: u32 = section.u32()?;
        let max: u16 = section.u16()?;
        if count as usize != self.queues.len() || max != self.queue_size_max {
            return Err(RestoreError::Queues { queues: count, size_max: max });
        }
        let queues = read_queues(&mut section, count as usize)?;
        let device_features_sel: u32 = section.u32()?;
        let driver_features_sel: u32 = section.u32()?;
        let f0: u32 = section.u32()?;
        let f1: u32 = section.u32()?;
        let queue_sel: u32 = section.u32()?;
        let status: u32 = section.u32()?;
        let interrupt_status: u32 = section.u32()?;
        section.finish()?;
        self.queues = queues;
        self.device_features_sel = device_features_sel;
        self.driver_features_sel = driver_features_sel;
        self.driver_features = [f0, f1];
        self.queue_sel = queue_sel;
        self.status = status;
        self.interrupt_status = interrupt_status;
        assert(self.driver_features@ =~= seq![f0, f1]);
        Ok(())
    }
}

proof fn lemma_enc_queue_len(q: Queue)
    ensures
        enc_queue(q).len() == 29,
{
    let t = Seq::<u8>::empty();
    crate::le::lemma_le_bytes_len(q.num as nat, 2);
    crate::le::lemma_le_bytes_len(q.desc as nat, 8);
    crate::le::lemma_le_bytes_len(q.avail as nat, 8);
    crate::le::lemma_le_bytes_len(q.used as nat, 8);
    crate::le::lemma_le_bytes_len(q.last_avail_idx as nat, 2);
}

proof fn lemma_enc_queues_len(s: Seq<Queue>)
    ensures
        enc_queues(s).len() == 29 * s.len(),
    decreases s.len(),
{
    if s.len() > 0 {
        lemma_enc_queues_len(s.drop_last());
        lemma_enc_queue_len(s.last());
    }
}

pub proof fn lemma_encoding_len(t: TransportState)
    ensures
        t.encoding().len() == 34 + 29 * t.queues.len(),
{
    lemma_enc_queues_len(t.queues);
    crate::le::lemma_le_bytes_len(t.queues.len() as u32 as nat, 4);
    crate::le::lemma_le_bytes_len(t.queue_size_max as nat, 2);
    crate::le::lemma_le_bytes_len(t.device_features_sel as nat, 4);
    crate::le::lemma_le_bytes_len(t.driver_features_sel as nat, 4);
    crate::le::lemma_le_bytes_len(t.driver_features[0] as nat, 4);
    crate::le::lemma_le_bytes_len(t.driver_features[1] as nat, 4);
    crate::le::lemma_le_bytes_len(t.queue_sel as nat, 4);
    crate::le::lemma_le_bytes_len(t.status as nat, 4);
    crate::le::lemma_le_bytes_len(t.interrupt_status as nat, 4);
}

proof fn lemma_read_queue<A>(a: A, q: Queue, tail: Seq<u8>)
    ensures
        and_queue(Parsed::<A>::Ok((a, enc_queue(q) + tail))) == Parsed::<(A, Queue)>::Ok(
            ((a, q), tail),
        ),
{
    let t5 = enc_u16(q.last_avail_idx) + tail;
    let t4 = enc_u64(q.used) + t5;
    let t3 = enc_u64(q.avail) + t4;
    let t2 = enc_u64(q.desc) + t3;
    let t1 = enc_bool(q.ready) + t2;
    assert(enc_queue(q) + tail =~= enc_u16(q.num) + t1);
    let a1 = (a, q.num);
    let a2 = (a1, q.ready);
    let a3 = (a2, q.desc);
    let a4 = (a3, q.avail);
    let a5 = (a4, q.used);
    lemma_read_u16(a, q.num, t1);
    lemma_read_bool(a1, q.ready, t2);
    lemma_read_u64(a2, q.desc, t3);
    lemma_read_u64(a3, q.avail, t4);
    lemma_read_u64(a4, q.used, t5);
    lemma_read_u16(a5, q.last_avail_idx, tail);
}

proof fn lemma_take_queues(s: Seq<Queue>, tail: Seq<u8>)
    ensures
        take_queues(enc_queues(s) + tail, s.len()) == Parsed::<Seq<Queue>>::Ok((s, tail)),
    decreases s.len(),
{
    if s.len() == 0 {
        assert(enc_queues(s) + tail =~= tail);
        assert(s =~= Seq::empty());
    } else {
        let front = s.drop_last();
        assert(enc_queues(s) + tail =~= enc_queues(front) + (enc_queue(s.last()) + tail));
        lemma_take_queues(front, enc_queue(s.last()) + tail);
        lemma_read_queue(front, s.last(), tail);
        assert(front.push(s.last()) =~= s);
    }
}

/// A transport of the same shape takes a snapshot back whole.
#[verifier::rlimit(40)]
pub proof fn law_snapshot_round_trip(t: TransportState, into: TransportState, tail: Seq<u8>)
    requires
        t.queues.len() == into.queues.len(),
        t.queue_size_max == into.queue_size_max,
        t.queues.len() <= 0xffff,
        t.driver_features.len() == 2,
    ensures
        into.restored(t.snapshot() + tail) == Parsed::<TransportState>::Ok((t, tail)),
{
    lemma_encoding_len(t);
    lemma_read_section((), SNAPSHOT_VERSION, t.encoding(), tail);
    let t9 = Seq::<u8>::empty();
    let t8 = enc_u32(t.interrupt_status) + t9;
    let t7 = enc_u32(t.status) + t8;
    let t6 = enc_u32(t.queue_sel) + t7;
    let t5 = enc_u32(t.driver_features[1]) + t6;
    let t4 = enc_u32(t.driver_features[0]) + t5;
    let t3 = enc_u32(t.driver_features_sel) + t4;
    let t2 = enc_u32(t.device_features_sel) + t3;
    let t1 = enc_queues(t.queues) + t2;
    let t0 = enc_u16(t.queue_size_max) + t1;
    let count = t.queues.len() as u32;
    assert(t.encoding() =~= enc_u32(count) + t0);
    lemma_read_u32((), count, t0);
    lemma_read_u16(((), count), t.queue_size_max, t1);
    lemma_take_queues(t.queues, t2);
    let a0 = t.queues;
    let a1 = (a0, t.device_features_sel);
    let a2 = (a1, t.driver_features_sel);
    let a3 = (a2, t.driver_features[0]);
    let a4 = (a3, t.driver_features[1]);
    let a5 = (a4, t.queue_sel);
    let a6 = (a5, t.status);
    lemma_read_u32(a0, t.device_features_sel, t3);
    lemma_read_u32(a1, t.driver_features_sel, t4);
    lemma_read_u32(a2, t.driver_features[0], t5);
    lemma_read_u32(a3, t.driver_features[1], t6);
    lemma_read_u32(a4, t.queue_sel, t7);
    lemma_read_u32(a5, t.status, t8);
    lemma_read_u32(a6, t.interrupt_status, t9);
    assert(seq![t.driver_features[0], t.driver_features[1]] =~= t.driver_features);
}

/// Writing zero to the status register resets the device: no queue is ready or
/// placed, no interrupt is up, nothing is negotiated, and the status reads
/// zero. Any other value reads back and resets nothing.
pub proof fn law_device_reset(t: TransportState, val: u32, i: int)
    requires
        0 <= i < t.queues.len(),
    ensures
        ({
            let z = t.written(0x070, 0);
            &&& z.status == 0 && z.interrupt_status == 0 && z.queue_sel == 0
            &&& z.driver_features == seq![0u32, 0u32]
            &&& z.queues.len() == t.queues.len()
            &&& !z.queues[i].ready && z.queues[i].num == 0 && z.queues[i].desc == 0
                && z.queues[i].avail == 0 && z.queues[i].used == 0
            &&& z.queue_size_max == t.queue_size_max
            &&& !z.irq()
        }),
        val != 0 ==> t.written(0x070, val) == (TransportState { status: val, ..t }),
{
}

/// The interrupt line is up while a bit of the interrupt status is set; an
/// acknowledgement takes away exactly the bits it names.
pub proof fn law_interrupt_acknowledgement(t: TransportState, device_id: u32, features: Seq<u32>)
    ensures
        t.irq() == (t.interrupt_status != 0),
        t.seen(0x060, device_id, features) == Some(t.interrupt_status as u64),
        t.written(0x064, t.interrupt_status).interrupt_status == 0,
        t.written(0x064, 0) == t,
        !t.written(0x064, u32::MAX).irq(),
        t.written(0x064, 1).queues == t.queues,
{
    lemma_flags(t.interrupt_status);
}

/// The addresses of the selected queue are placed by halves.
#[verifier::spinoff_prover]
#[verifier::rlimit(40)]
pub proof fn law_queue_addresses(t: TransportState, low: u32, high: u32)
    requires
        t.queue_sel < t.queues.len(),
    ensures
        ({
            let q = t.queues[t.queue_sel as int];
            let address = (high * 0x1_0000_0000 + low) as u64;
            let at = t.queue_sel as int;
            &&& t.written(0x080, low).written(0x084, high).queues[at] == (Queue {
                desc: address,
                ..q
            })
            &&& t.written(0x090, low).written(0x094, high).queues[at] == (Queue {
                avail: address,
                ..q
            })
            &&& t.written(0x0a0, low).written(0x0a4, high).queues[at] == (Queue {
                used: address,
                ..q
            })
        }),
{
    let q = t.queues[t.queue_sel as int];
    lemma_placed(q.desc, low, high);
    lemma_placed(q.avail, low, high);
    lemma_placed(q.used, low, high);
}

proof fn lemma_placed(v: u64, low: u32, high: u32)
    ensures
        with_high(with_low(v, low), high) == high * 0x1_0000_0000 + low,
{
    assert((v / 0x1_0000_0000 * 0x1_0000_0000 + low) % 0x1_0000_0000 == low);
}

/// The size of the selected queue is held to the device's maximum, and bit 0
/// makes the queue ready.
pub proof fn law_queue_size_and_readiness(
    t: TransportState,
    val: u32,
    device_id: u32,
    features: Seq<u32>,
)
    requires
        t.queue_sel < t.queues.len(),
    ensures
        ({
            let at = t.queue_sel as int;
            &&& t.written(0x044, val).queues[at].ready == (val % 2 == 1)
            &&& t.written(0x044, val).seen(0x044, device_id, features) == Some((val % 2) as u64)
            &&& t.written(0x038, val).queues[at].num <= t.queue_size_max
            &&& val <= t.queue_size_max ==> t.written(0x038, val).queues[at].num == val
            &&& t.queue_size_max < val <= 0xffff ==> t.written(0x038, val).queues[at].num
                == t.queue_size_max
            &&& t.seen(0x034, device_id, features) == Some(t.queue_size_max as u64)
        }),
{
}

/// With no queue selected its registers take nothing, and read as zero.
pub proof fn law_no_queue_selected(
    t: TransportState,
    offset: u64,
    val: u32,
    device_id: u32,
    features: Seq<u32>,
)
    requires
        t.queue_sel >= t.queues.len(),
    ensures
        offset == 0x038 || offset == 0x044 || 0x080 <= offset < 0x100 ==> t.written(offset, val)
            == t,
        t.seen(0x034, device_id, features) == Some(0u64),
        t.seen(0x044, device_id, features) == Some(0u64),
        t.written(0x030, val).queue_sel == val,
        t.written(0x030, val).queues == t.queues,
{
}

/// The identification registers, the same for every device but for its kind;
/// the features are shown and taken a word at a time, by selector.
pub proof fn law_identification_and_features(
    t: TransportState,
    device_id: u32,
    features: Seq<u32>,
    sel: u32,
    val: u32,
)
    requires
        t.driver_features.len() == 2,
    ensures
        t.seen(0x000, device_id, features) == Some(0x7472_6976u64),
        t.seen(0x004, device_id, features) == Some(2u64),
        t.seen(0x008, device_id, features) == Some(device_id as u64),
        t.written(0x014, sel).seen(0x010, device_id, features) == Some(
            if sel < features.len() {
                features[sel as int] as u64
            } else {
                0
            },
        ),
        sel < 2 ==> t.written(0x024, sel).written(0x020, val).driver_features[sel as int] == val,
        sel < 2 ==> t.written(0x024, sel).written(0x020, val).driver_features[1 - sel]
            == t.driver_features[1 - sel],
        sel >= 2 ==> t.written(0x024, sel).written(0x020, val).driver_features
            == t.driver_features,
{
}

/// Only the notify register asks the device to look at a queue, and only a
/// zero status to reset.
pub proof fn law_requests(offset: u64, val: u32)
    ensures
        TransportState::request(0x050, val) == TransportWrite::Notify(val),
        TransportState::request(0x070, 0) == TransportWrite::Reset,
        offset != 0x050 ==> !(TransportState::request(offset, val) is Notify),
        offset != 0x070 || val != 0 ==> !(TransportState::request(offset, val) is Reset),
        offset >= 0x100 ==> TransportState::request(offset, val) is Unhandled,
{
}

} // verus!
