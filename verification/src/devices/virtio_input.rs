//! VirtIO 1.x input device over the MMIO transport.
//!
//! Two of these are instantiated: a keyboard advertising `EV_KEY`, and a
//! *tablet* advertising `EV_ABS` `ABS_X`/`ABS_Y` over 0..[`ABS_MAX`] plus the
//! three mouse buttons and a wheel. Absolute coordinates are what a browser
//! hands us (`pointermove` gives a position, not a delta), so the tablet needs
//! no pointer lock, no capture and no relative-motion accumulation.
//!
//! The device is host→guest on the eventq and guest→host on the statusq. Host
//! events queue here until the guest posts buffers; the backlog is bounded and
//! drops oldest, because a guest that never drains (no `evdev` loaded, say)
//! must not grow the emulator's memory with keystrokes nobody will read.
use std::collections::VecDeque;

use vstd::prelude::*;

use super::virtio_mmio::{self, Transport, TransportState, TransportWrite};
use super::virtqueue::{
    self, chain_at, chain_from, counts_writes, law_drained_writes_are_counted,
    lemma_chain_len, may_drain, spans_ram, writes_per_drain, ChainHandler, ChainOutcome,
    Descriptor, Queue, QueueLayout, DESC_F_INDIRECT, DESC_F_WRITE,
};
use crate::bus::DRAM_BASE;
use crate::le::{le_bytes, le_value, lemma_le_bytes_len, lemma_le_fits, push_le, read_le};
use crate::ram::{access_size, law_a_write_is_counted, lemma_follows, paged, Ram, RamState};
use crate::snapshot::{
    and_end, and_section, and_u16, and_u32, and_u64, and_u8, enc_section, enc_u16, enc_u32, enc_u64,
    lemma_read_section, lemma_read_u16, lemma_read_u32, lemma_read_u64, lemma_read_u8, start,
    Parsed, Reader, RestoreError, Writer,
};

verus! {

pub const DEVICE_ID_INPUT: u32 = 18;

pub const QUEUE_SIZE_MAX: u16 = 64;

/// Host → guest events.
pub const QUEUE_EVENT: usize = 0;

/// Guest → host status (LEDs); drained and ignored.
pub const QUEUE_STATUS: usize = 1;

/// `struct virtio_input_event` is 8 bytes: `le16 type, le16 code, le32 value`.
pub const EVENT_BYTES: u32 = 8;

/// Largest host event backlog. Two full seconds of frantic typing; beyond it
/// the oldest events are dropped, since a guest that is not reading is not
/// going to want them.
pub const MAX_PENDING_EVENTS: usize = 256;

// ---- configuration space ----
pub const CFG_UNSET: u8 = 0x00;

pub const CFG_ID_NAME: u8 = 0x01;

pub const CFG_ID_SERIAL: u8 = 0x02;

pub const CFG_ID_DEVIDS: u8 = 0x03;

pub const CFG_PROP_BITS: u8 = 0x10;

pub const CFG_EV_BITS: u8 = 0x11;

pub const CFG_ABS_INFO: u8 = 0x12;

/// Where device configuration space starts in the MMIO window.
pub const CONFIG_BASE: u64 = 0x100;

/// `select`, `subsel`, `size`, then five reserved bytes.
pub const CONFIG_UNION_OFFSET: usize = 8;

pub const CONFIG_UNION_BYTES: usize = 128;

pub const CONFIG_BYTES: usize = 136;

// ---- evdev constants (linux/input-event-codes.h) ----
pub const EV_SYN: u16 = 0x00;

pub const EV_KEY: u16 = 0x01;

pub const EV_REL: u16 = 0x02;

pub const EV_ABS: u16 = 0x03;

pub const SYN_REPORT: u16 = 0;

pub const ABS_X: u16 = 0x00;

pub const ABS_Y: u16 = 0x01;

pub const REL_WHEEL: u16 = 0x08;

pub const BTN_LEFT: u16 = 0x110;

pub const BTN_RIGHT: u16 = 0x111;

pub const BTN_MIDDLE: u16 = 0x112;

/// Highest key code the keyboard advertises. Covers the whole US layout plus
/// the function, navigation and modifier keys a browser can report.
pub const KEY_BITS: usize = 256;

/// Absolute axis range reported to the guest. A browser gives fractions of a
/// viewport, so the exact number only has to be big enough to address every
/// pixel of any plausible display.
pub const ABS_MAX: u32 = 32767;

/// `emulate keyboard`
pub const KEYBOARD_NAME: [u8; 16] = [
    0x65,
    0x6d,
    0x75,
    0x6c,
    0x61,
    0x74,
    0x65,
    0x20,
    0x6b,
    0x65,
    0x79,
    0x62,
    0x6f,
    0x61,
    0x72,
    0x64,
];

/// `emulate tablet`
pub const TABLET_NAME: [u8; 14] = [
    0x65,
    0x6d,
    0x75,
    0x6c,
    0x61,
    0x74,
    0x65,
    0x20,
    0x74,
    0x61,
    0x62,
    0x6c,
    0x65,
    0x74,
];

/// Which of the two devices this is; the only thing that differs is what the
/// configuration space advertises.
#[derive(Clone, Copy, PartialEq, Eq, Debug, Structural)]
pub enum InputKind {
    Keyboard,
    Tablet,
}

impl InputKind {
    /// The `name` the guest publishes as `/sys/class/input/*/device/name`.
    pub fn device_name(self) -> (r: &'static str)
        ensures
            r@ == (match self {
                InputKind::Keyboard => "emulate keyboard"@,
                InputKind::Tablet => "emulate tablet"@,
            }),
    {
        match self {
            InputKind::Keyboard => "emulate keyboard",
            InputKind::Tablet => "emulate tablet",
        }
    }

    pub open spec fn name_bytes(self) -> Seq<u8> {
        match self {
            InputKind::Keyboard => KEYBOARD_NAME@,
            InputKind::Tablet => TABLET_NAME@,
        }
    }

    pub open spec fn product(self) -> u16 {
        match self {
            InputKind::Keyboard => 1,
            InputKind::Tablet => 2,
        }
    }

    fn product_id(self) -> (r: u16)
        ensures
            r == self.product(),
    {
        match self {
            InputKind::Keyboard => 1,
            InputKind::Tablet => 2,
        }
    }
}

/// The configured name bytes spell the device name.
pub proof fn law_name_bytes_spell_the_name()
    ensures
        KEYBOARD_NAME@.len() == "emulate keyboard"@.len(),
        forall|i: int|
            0 <= i < KEYBOARD_NAME@.len() ==> KEYBOARD_NAME@[i] as char
                == #[trigger] "emulate keyboard"@[i],
        TABLET_NAME@.len() == "emulate tablet"@.len(),
        forall|i: int|
            0 <= i < TABLET_NAME@.len() ==> TABLET_NAME@[i] as char
                == #[trigger] "emulate tablet"@[i],
{
    reveal_strlit("emulate keyboard");
    reveal_strlit("emulate tablet");
}

#[derive(Clone, Copy)]
pub struct InputEvent {
    pub kind: u16,
    pub code: u16,
    pub value: u32,
}

impl InputEvent {
    pub open spec fn encoded(self) -> Seq<u8> {
        le_bytes(self.kind as nat, 2) + le_bytes(self.code as nat, 2) + le_bytes(
            self.value as nat,
            4,
        )
    }

    pub fn to_bytes(self) -> (r: Vec<u8>)
        ensures
            r@ == self.encoded(),
            r@.len() == EVENT_BYTES,
    {
        let mut out: Vec<u8> = Vec::new();
        push_le(&mut out, self.kind as u64, 2);
        push_le(&mut out, self.code as u64, 2);
        push_le(&mut out, self.value as u64, 4);
        proof {
            lemma_le_bytes_len(self.kind as nat, 2);
            lemma_le_bytes_len(self.code as nat, 2);
            lemma_le_bytes_len(self.value as nat, 4);
        }
        assert(out@ =~= self.encoded());
        out
    }
}

/// The body of the configuration union for a selection: what the device
/// advertises there, empty if nothing.
pub open spec fn config_body(kind: InputKind, select: u8, subsel: u8) -> Seq<u8> {
    match select {
        CFG_ID_NAME => kind.name_bytes(),
        // bustype BUS_VIRTUAL, the Red Hat VirtIO vendor, our product.
        CFG_ID_DEVIDS => seq![6u8, 0u8, 0xf4u8, 0x1au8, kind.product() as u8, 0u8, 1u8, 0u8],
        CFG_EV_BITS => event_bitmap(kind, subsel),
        CFG_ABS_INFO => if kind == InputKind::Tablet && (subsel == ABS_X || subsel == ABS_Y) {
            // min, max, fuzz, flat, res: the coordinates are exact.
            Seq::new(
                20,
                |i: int|
                    if i == 4 {
                        0xffu8
                    } else if i == 5 {
                        0x7fu8
                    } else {
                        0u8
                    },
            )
        } else {
            Seq::empty()
        },
        // No serial: a device with one identical instance per machine has
        // nothing to distinguish. No INPUT_PROP_* bits either: the tablet is
        // a plain absolute pointer.
        _ => Seq::empty(),
    }
}

/// The bitmap of the codes of an event type the device can report. A zero
/// length is how the driver learns a type is not supported at all.
pub open spec fn event_bitmap(kind: InputKind, subsel: u8) -> Seq<u8> {
    if subsel == EV_SYN {
        seq![1u8]
    } else if subsel == EV_KEY && kind == InputKind::Keyboard {
        // Every code from 1 below KEY_BITS: the browser's
        // `KeyboardEvent.code` table maps into exactly this range.
        Seq::new(
            32,
            |i: int|
                if i == 0 {
                    0xfeu8
                } else {
                    0xffu8
                },
        )
    } else if subsel == EV_KEY {
        // The three buttons.
        Seq::new(
            35,
            |i: int|
                if i == 34 {
                    7u8
                } else {
                    0u8
                },
        )
    } else if subsel == EV_ABS && kind == InputKind::Tablet {
        seq![3u8]
    } else if subsel == EV_REL && kind == InputKind::Tablet {
        seq![0u8, 1u8]
    } else {
        Seq::empty()
    }
}

/// A body filled up with zeros to the size of the union.
pub open spec fn padded(body: Seq<u8>) -> Seq<u8> {
    Seq::new(
        128,
        |i: int|
            if i < body.len() {
                body[i]
            } else {
                0u8
            },
    )
}

/// Whether a bitmap holds a code.
pub open spec fn advertises(bitmap: Seq<u8>, code: int) -> bool {
    0 <= code && code / 8 < bitmap.len() && bitmap[code / 8] & (1u8 << ((code % 8) as u8)) != 0
}

proof fn lemma_bits(k: u8)
    by (bit_vector)
    requires
        k < 8,
    ensures
        0xffu8 & (1u8 << k) != 0,
        (0xfeu8 & (1u8 << k) != 0) == (k != 0),
        (7u8 & (1u8 << k) != 0) == (k < 3),
        (3u8 & (1u8 << k) != 0) == (k < 2),
        (1u8 & (1u8 << k) != 0) == (k == 0),
        0u8 & (1u8 << k) == 0,
{
}

/// The keyboard reports every key code from 1 below [`KEY_BITS`]; the tablet
/// its three buttons, two absolute axes and the wheel, and nothing else.
pub proof fn law_advertised_codes(code: int)
    requires
        0 <= code,
    ensures
        advertises(event_bitmap(InputKind::Keyboard, EV_KEY as u8), code) <==> 1 <= code
            < KEY_BITS,
        advertises(event_bitmap(InputKind::Tablet, EV_KEY as u8), code) <==> BTN_LEFT <= code
            <= BTN_MIDDLE,
        advertises(event_bitmap(InputKind::Tablet, EV_ABS as u8), code) <==> code == ABS_X || code
            == ABS_Y,
        advertises(event_bitmap(InputKind::Tablet, EV_REL as u8), code) <==> code == REL_WHEEL,
        !advertises(event_bitmap(InputKind::Keyboard, EV_ABS as u8), code),
{
    lemma_bits((code % 8) as u8);
}

/// One VirtIO-MMIO input device.
pub struct VirtioInput {
    pub kind: InputKind,
    pub transport: Transport,
    pub chain: Vec<Descriptor>,
    pub pending: VecDeque<InputEvent>,
    pub dropped: u64,
    pub select: u8,
    pub subsel: u8,
}

/// What a [`VirtioInput`] holds, its reusable buffer aside.
#[verifier::ext_equal]
pub struct InputState {
    pub kind: InputKind,
    pub transport: TransportState,
    pub pending: Seq<InputEvent>,
    pub dropped: u64,
    pub select: u8,
    pub subsel: u8,
}

impl View for VirtioInput {
    type V = InputState;

    open spec fn view(&self) -> InputState {
        InputState {
            kind: self.kind,
            transport: self.transport@,
            pending: self.pending@,
            dropped: self.dropped,
            select: self.select,
            subsel: self.subsel,
        }
    }
}

impl InputState {
    pub open spec fn fresh(kind: InputKind) -> InputState {
        InputState {
            kind,
            transport: TransportState::fresh(2, QUEUE_SIZE_MAX),
            pending: Seq::empty(),
            dropped: 0,
            select: CFG_UNSET,
            subsel: 0,
        }
    }

    /// The device with one more event waiting; a full backlog drops its
    /// oldest.
    pub open spec fn queued(self, event: InputEvent) -> InputState {
        if self.pending.len() >= MAX_PENDING_EVENTS {
            InputState {
                pending: self.pending.skip(1).push(event),
                dropped: self.dropped.wrapping_add(1),
                ..self
            }
        } else {
            InputState { pending: self.pending.push(event), ..self }
        }
    }

    pub open spec fn body(self) -> Seq<u8> {
        config_body(self.kind, self.select, self.subsel)
    }

    /// The whole configuration space.
    pub open spec fn config_image(self) -> Seq<u8> {
        seq![self.select, self.subsel, self.body().len() as u8, 0u8, 0u8, 0u8, 0u8, 0u8] + padded(
            self.body(),
        )
    }

    /// The configuration bytes at an offset, zeros past the end.
    pub open spec fn config_bytes(self, offset: u64, size: u8) -> Seq<u8> {
        Seq::new(
            size as nat,
            |i: int|
                if offset - CONFIG_BASE + i < CONFIG_BYTES {
                    self.config_image()[offset - CONFIG_BASE + i]
                } else {
                    0u8
                },
        )
    }

    pub open spec fn seen(self, offset: u64, size: u8) -> Result<u64, ()> {
        if !access_size(size) {
            Err(())
        } else {
            match self.transport.seen(offset, DEVICE_ID_INPUT, seq![0u32, 1u32]) {
                Some(v) => Ok(v),
                None => if offset < CONFIG_BASE {
                    Ok(0)
                } else {
                    Ok(le_value(self.config_bytes(offset, size)) as u64)
                },
            }
        }
    }

    /// The device after a configuration write: only `select` and `subsel`,
    /// single-byte registers the driver pokes before every configuration
    /// read, can be written.
    pub open spec fn configured(self, offset: u64, val: u64, size: u8) -> InputState {
        let first = (val % 256) as u8;
        let second = (val / 256 % 256) as u8;
        if offset == CONFIG_BASE {
            InputState {
                select: first,
                subsel: if size >= 2 {
                    second
                } else {
                    self.subsel
                },
                ..self
            }
        } else if offset == CONFIG_BASE + 1 {
            InputState { subsel: first, ..self }
        } else {
            self
        }
    }

    /// The answer to the chain at `head` of a queue: one event into its first
    /// buffer, or a status report taken and ignored.
    pub open spec fn served(self, index: usize, ram: RamState, layout: QueueLayout, head: u16) -> (
        InputState,
        RamState,
        ChainOutcome,
    ) {
        if index == QUEUE_STATUS {
            match chain_at(ram, layout, head) {
                None => (self, ram, ChainOutcome::Skip),
                Some(_) => (self, ram, ChainOutcome::Used(0)),
            }
        } else if self.pending.len() == 0 {
            (self, ram, ChainOutcome::Retry)
        } else {
            match chain_at(ram, layout, head) {
                None => (self, ram, ChainOutcome::Skip),
                Some(chain) => {
                    let buffer = chain[0];
                    if buffer.device_writable() && buffer.flags & DESC_F_INDIRECT == 0 && buffer.len
                        >= EVENT_BYTES && spans_ram(ram, buffer.addr, EVENT_BYTES as int) {
                        (
                            InputState { pending: self.pending.skip(1), ..self },
                            ram.written(buffer.addr - DRAM_BASE, self.pending[0].encoded()),
                            ChainOutcome::Used(EVENT_BYTES),
                        )
                    } else {
                        (self, ram, ChainOutcome::Skip)
                    }
                },
            }
        }
    }

    pub open spec fn completed(self, index: int, queue: Queue, published: bool) -> InputState {
        InputState { transport: self.transport.completed(index, queue, published), ..self }
    }

    pub open spec fn drained_to(
        self,
        index: usize,
        ram: RamState,
        queue: Queue,
        mid: InputState,
        post: InputState,
        ram2: RamState,
    ) -> bool {
        let q = self.transport.queues[index as int];
        ||| may_drain::<VirtioInput>(index, q, ram, self, queue, ram2, mid, false) && post
            == mid.completed(index as int, queue, false)
        ||| may_drain::<VirtioInput>(index, q, ram, self, queue, ram2, mid, true) && post
            == mid.completed(index as int, queue, true)
    }

    /// What draining a queue may do.
    pub open spec fn may_process(
        self,
        index: usize,
        ram: RamState,
        post: InputState,
        ram2: RamState,
    ) -> bool {
        exists|queue: Queue, mid: InputState| #[trigger]
            self.drained_to(index, ram, queue, mid, post, ram2)
    }

    /// What handing waiting events to the guest may do.
    pub open spec fn may_deliver(self, ram: RamState, post: InputState, ram2: RamState) -> bool {
        if self.pending.len() == 0 {
            post == self && ram2 == ram
        } else {
            self.may_process(QUEUE_EVENT, ram, post, ram2)
        }
    }

    /// The writes the device accepts.
    pub open spec fn accepts(offset: u64, size: u8) -> bool {
        if offset >= CONFIG_BASE {
            size == 1 || size == 2 || size == 4
        } else {
            size == 4
        }
    }

    /// What a register write may do.
    pub open spec fn may_write(
        self,
        offset: u64,
        val: u64,
        size: u8,
        ram: RamState,
        post: InputState,
        ram2: RamState,
    ) -> bool {
        let pre = InputState { transport: self.transport.written(offset, val as u32), ..self };
        if !InputState::accepts(offset, size) {
            post == self && ram2 == ram
        } else if offset >= CONFIG_BASE {
            post == self.configured(offset, val, size) && ram2 == ram
        } else if offset == 0x050 && val as u32 == 0 {
            pre.may_deliver(ram, post, ram2)
        } else if offset == 0x050 && val as u32 == 1 {
            pre.may_process(QUEUE_STATUS, ram, post, ram2)
        } else if offset == 0x070 && val as u32 == 0 {
            post == (InputState { pending: Seq::empty(), select: CFG_UNSET, subsel: 0, ..pre })
                && ram2 == ram
        } else {
            post == pre && ram2 == ram
        }
    }
}

impl ChainHandler for VirtioInput {
    type State = InputState;

    open spec fn state(&self) -> InputState {
        self@
    }

    open spec fn serving(&self) -> bool {
        self.wf()
    }

    open spec fn may_handle(
        pre: InputState,
        index: usize,
        ram: RamState,
        layout: QueueLayout,
        head: u16,
        post: InputState,
        ram2: RamState,
        outcome: ChainOutcome,
    ) -> bool {
        pre.served(index, ram, layout, head) == (post, ram2, outcome)
    }

    fn handle(&mut self, index: usize, ram: &mut Ram, layout: QueueLayout, head: u16) -> (r:
        ChainOutcome) {
        if index != QUEUE_STATUS && self.pending.len() == 0 {
            // No more to say; leave the buffer available for next time.
            return ChainOutcome::Retry;
        }
        let mut chain: Vec<Descriptor> = Vec::new();
        core::mem::swap(&mut chain, &mut self.chain);
        let outcome = if index == QUEUE_STATUS {
            // Consume whatever the guest posts on the statusq (LED and
            // repeat-rate updates) without acting on it: there is no keyboard
            // to light up.
            if virtqueue::collect_chain(ram, layout, head, &mut chain) {
                ChainOutcome::Used(0)
            } else {
                ChainOutcome::Skip
            }
        } else {
            self.fill_event_buffer(ram, layout, head, &mut chain)
        };
        chain.clear();
        self.chain = chain;
        outcome
    }
}

impl VirtioInput {
    pub open spec fn wf(self) -> bool {
        &&& self@.transport.queues.len() == 2
        &&& self@.pending.len() <= MAX_PENDING_EVENTS
    }

    pub fn new(kind: InputKind) -> (r: Self)
        ensures
            r.wf(),
            r@ == InputState::fresh(kind),
    {
        Self {
            kind,
            transport: Transport::new(2, QUEUE_SIZE_MAX),
            chain: Vec::new(),
            pending: VecDeque::new(),
            dropped: 0,
            select: CFG_UNSET,
            subsel: 0,
        }
    }

    pub fn kind(&self) -> (r: InputKind)
        ensures
            r == self@.kind,
    {
        self.kind
    }

    pub fn irq_pending(&self) -> (r: bool)
        ensures
            r == self@.transport.irq(),
    {
        self.transport.irq_pending()
    }

    /// Events queued for a guest that has not taken them yet.
    pub fn pending_events(&self) -> (r: usize)
        ensures
            r == self@.pending.len(),
    {
        self.pending.len()
    }

    /// Events dropped because the backlog was full.
    pub fn dropped_events(&self) -> (r: u64)
        ensures
            r == self@.dropped,
    {
        self.dropped
    }

    /// Queue one event. Nothing is delivered until [`Self::flush`] runs, so a
    /// caller can build a whole report (position, buttons, `SYN_REPORT`) and
    /// hand it to the guest as one batch.
    pub fn queue_event(&mut self, kind: u16, code: u16, value: u32)
        requires
            old(self).wf(),
        ensures
            final(self).wf(),
            final(self)@ == old(self)@.queued(InputEvent { kind, code, value }),
    {
        if self.pending.len() >= MAX_PENDING_EVENTS {
            let _ = self.pending.pop_front();
            self.dropped = self.dropped.wrapping_add(1);
        }
        self.pending.push_back(InputEvent { kind, code, value });
        assert(self@.pending =~= old(self)@.queued(InputEvent { kind, code, value }).pending);
    }

    /// Close the current report and deliver everything queued into whatever
    /// buffers the guest has posted, raising the interrupt if any landed.
    pub fn flush(&mut self, ram: &mut Ram)
        requires
            old(self).wf(),
            old(ram).wf(),
        ensures
            final(self).wf(),
            final(ram).wf(),
            final(ram)@.bytes.len() == old(ram)@.bytes.len(),
            old(self)@.queued(
                InputEvent { kind: EV_SYN, code: SYN_REPORT, value: 0 },
            ).may_deliver(old(ram)@, final(self)@, final(ram)@),
    {
        self.queue_event(EV_SYN, SYN_REPORT, 0);
        self.process_event_queue(ram);
    }

    pub fn read(&self, offset: u64, size: u8) -> (r: Result<u64, ()>)
        ensures
            r == self@.seen(offset, size),
    {
        if size != 1 && size != 2 && size != 4 && size != 8 {
            return Err(());
        }
        // VIRTIO_F_VERSION_1 (bit 32) is the only offered feature.
        let features: [u32; 2] = [0, 1];
        assert(features@ =~= seq![0u32, 1u32]);
        match self.transport.read(offset, DEVICE_ID_INPUT, features) {
            Some(value) => Ok(value),
            None => Ok(self.read_config(offset, size)),
        }
    }

    pub fn write(&mut self, offset: u64, val: u64, size: u8, ram: &mut Ram) -> (r: Result<(), ()>)
        requires
            old(self).wf(),
            old(ram).wf(),
        ensures
            final(self).wf(),
            final(ram).wf(),
            final(ram)@.bytes.len() == old(ram)@.bytes.len(),
            r is Ok <==> InputState::accepts(offset, size),
            old(self)@.may_write(offset, val, size, old(ram)@, final(self)@, final(ram)@),
    {
        if offset >= CONFIG_BASE {
            // `select`/`subsel` are single-byte registers the driver pokes
            // before every configuration read; `size` and the union are
            // read-only, the rest is reserved.
            if size != 1 && size != 2 && size != 4 {
                return Err(());
            }
            let index: u64 = offset - CONFIG_BASE;
            if index == 0 {
                self.select = (val % 256) as u8;
                if size >= 2 {
                    self.subsel = (val / 256 % 256) as u8;
                }
            } else if index == 1 {
                self.subsel = (val % 256) as u8;
            }
            return Ok(());
        }
        if size != 4 {
            return Err(());
        }
        match self.transport.write(offset, val as u32) {
            TransportWrite::Notify(queue) => {
                if queue == 0 {
                    self.process_event_queue(ram);
                } else if queue == 1 {
                    self.drain_status_queue(ram);
                }
            },
            TransportWrite::Reset => {
                self.pending.clear();
                self.select = CFG_UNSET;
                self.subsel = 0;
            },
            _ => {},
        }
        Ok(())
    }

    // ---- configuration space ----
    fn read_config(&self, offset: u64, size: u8) -> (r: u64)
        requires
            access_size(size),
        ensures
            r == (if offset < CONFIG_BASE {
                0
            } else {
                le_value(self@.config_bytes(offset, size)) as u64
            }),
    {
        if offset < CONFIG_BASE {
            return 0;
        }
        let index: u64 = offset - CONFIG_BASE;
        let (body, len) = self.config_union();
        let mut bytes: [u8; 8] = [0; 8];
        let mut i: usize = 0;
        while i < size as usize
            invariant
                i <= size <= 8,
                offset >= CONFIG_BASE,
                index == offset - CONFIG_BASE,
                body@ == padded(self@.body()),
                len == self@.body().len(),
                forall|k: int|
                    0 <= k < i ==> #[trigger] bytes@[k] == self@.config_bytes(offset, size)[k],
            decreases size - i,
        {
            let at: u64 = if index < 256 {
                index + i as u64
            } else {
                256
            };
            bytes[i] = if at == 0 {
                self.select
            } else if at == 1 {
                self.subsel
            } else if at == 2 {
                len
            } else if 8 <= at && at < 136 {
                body[at as usize - CONFIG_UNION_OFFSET]
            } else {
                0
            };
            i = i + 1;
        }
        proof {
            assert(bytes@.subrange(0, size as int) =~= self@.config_bytes(offset, size));
            lemma_le_fits(self@.config_bytes(offset, size));
        }
        read_le(bytes.as_slice(), 0, size as usize)
    }

    /// The union body for the current `select`/`subsel`, and its `size`.
    fn config_union(&self) -> (r: ([u8; 128], u8))
        ensures
            r.0@ == padded(self@.body()),
            r.1 == self@.body().len(),
    {
        let mut buf: [u8; 128] = [0; 128];
        assert(buf@ =~= padded(Seq::empty()));
        let len: usize = match self.select {
            CFG_ID_NAME => match self.kind {
                InputKind::Keyboard => {
                    let name: [u8; 16] = KEYBOARD_NAME;
                    put(&mut buf, name.as_slice());
                    16
                },
                InputKind::Tablet => {
                    let name: [u8; 14] = TABLET_NAME;
                    put(&mut buf, name.as_slice());
                    14
                },
            },
            CFG_ID_DEVIDS => {
                // bustype BUS_VIRTUAL, the Red Hat VirtIO vendor, our product.
                let ids: [u8; 8] = [6, 0, 0xf4, 0x1a, self.kind.product_id() as u8, 0, 1, 0];
                put(&mut buf, ids.as_slice());
                assert(ids@ =~= self@.body());
                8
            },
            CFG_EV_BITS => self.event_bits(&mut buf),
            CFG_ABS_INFO => self.abs_info(&mut buf),
            _ => 0,
        };
        assert(buf@ =~= padded(self@.body()));
        (buf, len as u8)
    }

    /// Which codes of event type `subsel` this device can report. A zero
    /// length is how the driver learns a type is not supported at all.
    fn event_bits(&self, buf: &mut [u8; 128]) -> (r: usize)
        requires
            old(buf)@ == padded(Seq::empty()),
        ensures
            final(buf)@ == padded(event_bitmap(self.kind, self.subsel)),
            r == event_bitmap(self.kind, self.subsel).len(),
    {
        let ghost map = event_bitmap(self.kind, self.subsel);
        let len: usize = match (self.kind, self.subsel as u16) {
            (_, EV_SYN) => {
                buf[0] = 1;
                1
            },
            (InputKind::Keyboard, EV_KEY) => {
                // Every code below KEY_BITS: the browser's `KeyboardEvent.code`
                // table maps into exactly this range.
                let mut i: usize = 0;
                while i < 32
                    invariant
                        i <= 32,
                        buf@.len() == 128,
                        forall|k: int| 0 <= k < i ==> buf@[k] == 0xff,
                        forall|k: int| i <= k < 128 ==> buf@[k] == 0,
                    decreases 32 - i,
                {
                    buf[i] = 0xff;
                    i = i + 1;
                }
                buf[0] = 0xfe;
                32
            },
            (InputKind::Tablet, EV_KEY) => {
                buf[34] = 7;
                35
            },
            (InputKind::Tablet, EV_ABS) => {
                buf[0] = 3;
                1
            },
            (InputKind::Tablet, EV_REL) => {
                buf[1] = 1;
                2
            },
            _ => 0,
        };
        assert(buf@ =~= padded(map));
        len
    }

    /// `struct virtio_input_absinfo`: min, max, fuzz, flat, res.
    fn abs_info(&self, buf: &mut [u8; 128]) -> (r: usize)
        requires
            old(buf)@ == padded(Seq::empty()),
            self.select == CFG_ABS_INFO,
        ensures
            final(buf)@ == padded(self@.body()),
            r == self@.body().len(),
    {
        if self.kind != InputKind::Tablet {
            return 0;
        }
        if self.subsel as u16 != ABS_X && self.subsel as u16 != ABS_Y {
            return 0;
        }
        // No fuzz, no flat, no resolution: the coordinates are exact.
        buf[4] = 0xff;
        buf[5] = 0x7f;
        assert(buf@ =~= padded(self@.body()));
        20
    }

    // ---- queues ----
    fn process_event_queue(&mut self, ram: &mut Ram)
        requires
            old(self).wf(),
            old(ram).wf(),
        ensures
            final(self).wf(),
            final(ram).wf(),
            final(ram)@.bytes.len() == old(ram)@.bytes.len(),
            old(self)@.may_deliver(old(ram)@, final(self)@, final(ram)@),
    {
        if self.pending.len() == 0 {
            return;
        }
        let work = self.transport.queue(QUEUE_EVENT);
        let done = work.drain(ram, self);
        let ghost mid = self@;
        let ghost queue = done.queue;
        self.transport.complete_queue(done);
        assert(old(self)@.drained_to(QUEUE_EVENT, old(ram)@, queue, mid, self@, ram@));
    }

    fn fill_event_buffer(
        &mut self,
        ram: &mut Ram,
        layout: QueueLayout,
        head: u16,
        chain: &mut Vec<Descriptor>,
    ) -> (r: ChainOutcome)
        requires
            old(self).wf(),
            old(ram).wf(),
            old(self)@.pending.len() > 0,
        ensures
            final(self).wf(),
            final(ram).wf(),
            final(ram)@.bytes.len() == old(ram)@.bytes.len(),
            old(self)@.served(QUEUE_EVENT, old(ram)@, layout, head) == (
                final(self)@,
                final(ram)@,
                r,
            ),
    {
        if !virtqueue::collect_chain(ram, layout, head, chain) {
            return ChainOutcome::Skip;
        }
        proof {
            reveal_with_fuel(chain_from, 2);
        }
        let buffer = chain[0];
        if buffer.flags & DESC_F_WRITE == 0 || buffer.flags & DESC_F_INDIRECT != 0 || buffer.len
            < EVENT_BYTES {
            return ChainOutcome::Skip;
        }
        let offset: u64 = match virtqueue::ram_offset(ram, buffer.addr, EVENT_BYTES as u64) {
            Some(o) => o,
            None => return ChainOutcome::Skip,
        };
        let event = match self.pending.pop_front() {
            Some(e) => e,
            None => return ChainOutcome::Retry,
        };
        assert(self@.pending =~= old(self)@.pending.skip(1));
        let bytes = event.to_bytes();
        let _ = ram.write_slice(offset, bytes.as_slice());
        ChainOutcome::Used(EVENT_BYTES)
    }

    fn drain_status_queue(&mut self, ram: &mut Ram)
        requires
            old(self).wf(),
            old(ram).wf(),
        ensures
            final(self).wf(),
            final(ram).wf(),
            final(ram)@.bytes.len() == old(ram)@.bytes.len(),
            old(self)@.may_process(QUEUE_STATUS, old(ram)@, final(self)@, final(ram)@),
    {
        let work = self.transport.queue(QUEUE_STATUS);
        let done = work.drain(ram, self);
        let ghost mid = self@;
        let ghost queue = done.queue;
        self.transport.complete_queue(done);
        assert(old(self)@.drained_to(QUEUE_STATUS, old(ram)@, queue, mid, self@, ram@));
    }
}

/// Lay a body down at the front of an empty union.
fn put(buf: &mut [u8; 128], body: &[u8])
    requires
        old(buf)@ == padded(Seq::empty()),
        body@.len() <= 128,
    ensures
        final(buf)@ == padded(body@),
{
    let mut i: usize = 0;
    while i < body.len()
        invariant
            i <= body@.len() <= 128,
            buf@.len() == 128,
            forall|k: int| 0 <= k < i ==> buf@[k] == body@[k],
            forall|k: int| i <= k < 128 ==> buf@[k] == 0,
        decreases body@.len() - i,
    {
        buf[i] = body[i];
        i = i + 1;
    }
    assert(buf@ =~= padded(body@));
}

/// The backlog stays bounded, keeps the newest event last, and counts what it
/// drops.
pub proof fn law_backlog_bounded(st: InputState, event: InputEvent)
    requires
        st.pending.len() <= MAX_PENDING_EVENTS,
    ensures
        st.queued(event).pending.len() <= MAX_PENDING_EVENTS,
        st.queued(event).pending.last() == event,
        st.dropped < u64::MAX ==> st.queued(event).pending.len() + st.queued(event).dropped
            == st.pending.len() + st.dropped + 1,
{
}

proof fn lemma_counts_writes()
    ensures
        counts_writes::<VirtioInput>(),
{
    assert forall|
        pre: InputState,
        index: usize,
        ram: RamState,
        layout: QueueLayout,
        head: u16,
        post: InputState,
        ram2: RamState,
        outcome: ChainOutcome,
    |
        paged(ram) && #[trigger] <VirtioInput as ChainHandler>::may_handle(
            pre,
            index,
            ram,
            layout,
            head,
            post,
            ram2,
            outcome,
        ) implies ram2.follows(ram, 0x1_0001) by {
        lemma_follows(ram, ram, 0, 0x1_0001);
        lemma_chain_len(ram, layout, head, layout.num as nat);
        match chain_at(ram, layout, head) {
            Some(chain) => if ram2 != ram {
                let event = pre.pending[0];
                lemma_le_bytes_len(event.kind as nat, 2);
                lemma_le_bytes_len(event.code as nat, 2);
                lemma_le_bytes_len(event.value as nat, 4);
                law_a_write_is_counted(
                    ram,
                    chain[0].addr - DRAM_BASE,
                    event.encoded(),
                );
                lemma_follows(ram, ram2, 1, 0x1_0001);
            },
            None => {},
        }
    }
}

/// Whatever serving a queue does to RAM is counted there.
pub proof fn law_served_writes_are_counted(
    st: InputState,
    index: usize,
    ram: RamState,
    post: InputState,
    ram2: RamState,
)
    requires
        paged(ram),
        st.may_process(index, ram, post, ram2),
    ensures
        ram2.follows(ram, writes_per_drain()),
{
    lemma_counts_writes();
    let (queue, mid) = choose|queue: Queue, mid: InputState| #[trigger]
        st.drained_to(index, ram, queue, mid, post, ram2);
    let q = st.transport.queues[index as int];
    if may_drain::<VirtioInput>(index, q, ram, st, queue, ram2, mid, false) {
        law_drained_writes_are_counted::<VirtioInput>(index, q, ram, st, queue, ram2, mid, false);
    } else {
        law_drained_writes_are_counted::<VirtioInput>(index, q, ram, st, queue, ram2, mid, true);
    }
}

/// Whatever a register write makes the device do to RAM is counted there.
pub proof fn law_device_writes_are_counted(
    st: InputState,
    offset: u64,
    val: u64,
    size: u8,
    ram: RamState,
    post: InputState,
    ram2: RamState,
)
    requires
        paged(ram),
        st.may_write(offset, val, size, ram, post, ram2),
    ensures
        ram2.follows(ram, writes_per_drain()),
{
    lemma_follows(ram, ram, 0, writes_per_drain());
    if ram2 != ram {
        let index = if val as u32 == 1 {
            QUEUE_STATUS
        } else {
            QUEUE_EVENT
        };
        let pre = InputState { transport: st.transport.written(offset, val as u32), ..st };
        law_served_writes_are_counted(pre, index, ram, post, ram2);
    }
}

// ---------------------------------------------------------------------------
// State snapshot
// ---------------------------------------------------------------------------

pub const SNAPSHOT_VERSION: u16 = 1;

pub open spec fn enc_event(e: InputEvent) -> Seq<u8> {
    enc_u16(e.kind) + enc_u16(e.code) + enc_u32(e.value)
}

pub open spec fn enc_events(list: Seq<InputEvent>) -> Seq<u8>
    decreases list.len(),
{
    if list.len() == 0 {
        Seq::empty()
    } else {
        enc_events(list.drop_last()) + enc_event(list.last())
    }
}

pub open spec fn and_event<A>(prev: Parsed<A>) -> Parsed<(A, InputEvent)> {
    match and_u32(and_u16(and_u16(prev))) {
        Err(e) => Err(e),
        Ok(((((a, kind), code), value), rest)) => Ok(((a, InputEvent { kind, code, value }), rest)),
    }
}

/// The `n` events at the front of the data.
pub open spec fn take_events(b: Seq<u8>, n: nat) -> Parsed<Seq<InputEvent>>
    decreases n,
{
    if n == 0 {
        Ok((Seq::empty(), b))
    } else {
        match and_event(take_events(b, (n - 1) as nat)) {
            Err(e) => Err(e),
            Ok(((s, v), rest)) => Ok((s.push(v), rest)),
        }
    }
}

impl InputState {
    pub open spec fn encoding(self) -> Seq<u8> {
        seq![self.select] + seq![self.subsel] + enc_u32(self.pending.len() as u32) + enc_events(
            self.pending,
        ) + enc_u64(self.dropped)
    }

    pub open spec fn snapshot(self) -> Seq<u8> {
        enc_section(SNAPSHOT_VERSION, self.encoding()) + self.transport.snapshot()
    }

    /// The state a payload describes.
    pub open spec fn decoded(self, payload: Seq<u8>) -> Result<InputState, RestoreError> {
        match and_u32(and_u8(and_u8(start(payload)))) {
            Err(e) => Err(e),
            Ok(((((_, select), subsel), count), rest)) => if count > 256 {
                Err(RestoreError::InputEvents { count })
            } else {
                match and_end(and_u64(take_events(rest, count as nat))) {
                    Err(e) => Err(e),
                    Ok((pending, dropped)) => Ok(
                        InputState { select, subsel, pending, dropped, ..self },
                    ),
                }
            },
        }
    }

    /// The device after a restore from the data, and what is left of it.
    pub open spec fn restored(self, data: Seq<u8>) -> Parsed<InputState> {
        match and_section(start(data), SNAPSHOT_VERSION) {
            Err(e) => Err(e),
            Ok(((_, payload), rest)) => match self.decoded(payload) {
                Err(e) => Err(e),
                Ok(st) => match self.transport.restored(rest) {
                    Err(e) => Err(e),
                    Ok((transport, left)) => Ok((InputState { transport, ..st }, left)),
                },
            },
        }
    }
}

proof fn lemma_enc_event_len(e: InputEvent)
    ensures
        enc_event(e).len() == 8,
{
    lemma_le_bytes_len(e.kind as nat, 2);
    lemma_le_bytes_len(e.code as nat, 2);
    lemma_le_bytes_len(e.value as nat, 4);
}

proof fn lemma_enc_events_len(list: Seq<InputEvent>)
    ensures
        enc_events(list).len() == 8 * list.len(),
    decreases list.len(),
{
    if list.len() > 0 {
        lemma_enc_events_len(list.drop_last());
        lemma_enc_event_len(list.last());
    }
}

proof fn lemma_encoding_len(st: InputState)
    ensures
        st.encoding().len() == 14 + 8 * st.pending.len(),
{
    lemma_enc_events_len(st.pending);
    lemma_le_bytes_len(st.pending.len() as u32 as nat, 4);
    lemma_le_bytes_len(st.dropped as nat, 8);
}

fn read_event(r: &mut Reader<'_>) -> (res: Result<InputEvent, RestoreError>)
    requires
        old(r).wf(),
    ensures
        final(r).wf(),
        match and_event(start(old(r).rest())) {
            Err(e) => res == Err::<InputEvent, RestoreError>(e),
            Ok(((_, v), rest)) => res == Ok::<InputEvent, RestoreError>(v) && final(r).rest()
                == rest,
        },
{
    let kind: u16 = r.u16()?;
    let code: u16 = r.u16()?;
    let value: u32 = r.u32()?;
    Ok(InputEvent { kind, code, value })
}

/// Once an event of a run cannot be read, the run cannot.
proof fn lemma_events_error(b: Seq<u8>, n: nat, m: nat, e: RestoreError)
    requires
        n <= m,
        take_events(b, n) == Parsed::<Seq<InputEvent>>::Err(e),
    ensures
        take_events(b, m) == Parsed::<Seq<InputEvent>>::Err(e),
    decreases m,
{
    if n < m {
        lemma_events_error(b, n, (m - 1) as nat, e);
    }
}

fn read_events(r: &mut Reader<'_>, n: usize) -> (res: Result<VecDeque<InputEvent>, RestoreError>)
    requires
        old(r).wf(),
    ensures
        final(r).wf(),
        match take_events(old(r).rest(), n as nat) {
            Err(e) => res is Err && res->Err_0 == e,
            Ok((s, rest)) => res is Ok && res->Ok_0@ == s && s.len() == n && final(r).rest()
                == rest,
        },
{
    let mut out: VecDeque<InputEvent> = VecDeque::new();
    let mut i: usize = 0;
    while i < n
        invariant
            i <= n,
            r.wf(),
            out@.len() == i,
            take_events(old(r).rest(), i as nat) == Parsed::<Seq<InputEvent>>::Ok(
                (out@, r.rest()),
            ),
        decreases n - i,
    {
        match read_event(r) {
            Ok(v) => {
                out.push_back(v);
            },
            Err(e) => {
                proof {
                    lemma_events_error(old(r).rest(), (i + 1) as nat, n as nat, e);
                }
                return Err(e);
            },
        }
        i = i + 1;
    }
    Ok(out)
}

impl VirtioInput {
    pub fn snapshot(&self, out: &mut Writer)
        requires
            self.wf(),
        ensures
            final(out)@ == old(out)@ + self@.snapshot(),
    {
        let mut w = Writer::new();
        w.u8(self.select);
        w.u8(self.subsel);
        w.u32(self.pending.len() as u32);
        let ghost head = w@;
        let mut i: usize = 0;
        assert(self.pending@.take(0) =~= Seq::empty());
        assert(w@ =~= head + enc_events(self.pending@.take(0)));
        while i < self.pending.len()
            invariant
                i <= self.pending@.len(),
                w@ == head + enc_events(self.pending@.take(i as int)),
            decreases self.pending@.len() - i,
        {
            let event = self.pending[i];
            w.u16(event.kind);
            w.u16(event.code);
            w.u32(event.value);
            proof {
                let longer = self.pending@.take(i + 1);
                assert(longer.drop_last() =~= self.pending@.take(i as int));
                assert(w@ =~= head + enc_events(longer));
            }
            i = i + 1;
        }
        assert(self.pending@.take(i as int) =~= self.pending@);
        w.u64(self.dropped);
        assert(w@ =~= self@.encoding());
        proof {
            lemma_encoding_len(self@);
        }
        out.section(SNAPSHOT_VERSION, &w);
        self.transport.snapshot(out);
        assert(out@ =~= old(out)@ + self@.snapshot());
    }

    /// Take the state back from a snapshot. Data that does not parse leaves
    /// the device as it was.
    pub fn restore(&mut self, input: &mut Reader<'_>) -> (r: Result<(), RestoreError>)
        requires
            old(self).wf(),
            old(input).wf(),
        ensures
            final(self).wf(),
            final(input).wf(),
            match old(self)@.restored(old(input).rest()) {
                Err(e) => r == Err::<(), RestoreError>(e) && *final(self) == *old(self),
                Ok((st, rest)) => r is Ok && final(self)@ == st && final(input).rest() == rest,
            },
    {
        let mut section = input.section(SNAPSHOT_VERSION)?;
        let select: u8 = section.u8()?;
        let subsel: u8 = section.u8()?;
        let count: u32 = section.u32()?;
        if count > 256 {
            return Err(RestoreError::InputEvents { count });
        }
        let pending = read_events(&mut section, count as usize)?;
        let dropped: u64 = section.u64()?;
        section.finish()?;
        self.transport.restore(input)?;
        self.select = select;
        self.subsel = subsel;
        self.pending = pending;
        self.dropped = dropped;
        self.chain.clear();
        Ok(())
    }
}

proof fn lemma_take_events(list: Seq<InputEvent>, tail: Seq<u8>)
    ensures
        take_events(enc_events(list) + tail, list.len()) == Parsed::<Seq<InputEvent>>::Ok(
            (list, tail),
        ),
    decreases list.len(),
{
    if list.len() == 0 {
        assert(enc_events(list) + tail =~= tail);
        assert(list =~= Seq::empty());
    } else {
        let front = list.drop_last();
        let e = list.last();
        assert(enc_events(list) + tail =~= enc_events(front) + (enc_event(e) + tail));
        lemma_take_events(front, enc_event(e) + tail);
        let t1 = enc_u32(e.value) + tail;
        let t0 = enc_u16(e.code) + t1;
        assert(enc_event(e) + tail =~= enc_u16(e.kind) + t0);
        lemma_read_u16(front, e.kind, t0);
        lemma_read_u16((front, e.kind), e.code, t1);
        lemma_read_u32(((front, e.kind), e.code), e.value, tail);
        assert(front.push(e) =~= list);
    }
}

/// Reading a snapshot back gives the state it was taken from.
#[verifier::rlimit(40)]
pub proof fn law_snapshot_round_trip(st: InputState, into: InputState, tail: Seq<u8>)
    requires
        st.kind == into.kind,
        st.pending.len() <= MAX_PENDING_EVENTS,
        st.transport.queues.len() == 2,
        into.transport.queues.len() == 2,
        st.transport.queue_size_max == into.transport.queue_size_max,
        st.transport.driver_features.len() == 2,
    ensures
        into.restored(st.snapshot() + tail) == Parsed::<InputState>::Ok((st, tail)),
{
    lemma_encoding_len(st);
    let rest = st.transport.snapshot() + tail;
    assert(st.snapshot() + tail =~= enc_section(SNAPSHOT_VERSION, st.encoding()) + rest);
    lemma_read_section((), SNAPSHOT_VERSION, st.encoding(), rest);
    let count = st.pending.len() as u32;
    let t4 = Seq::<u8>::empty();
    let t3 = enc_u64(st.dropped) + t4;
    let t2 = enc_events(st.pending) + t3;
    let t1 = enc_u32(count) + t2;
    let t0 = seq![st.subsel] + t1;
    assert(st.encoding() =~= seq![st.select] + t0);
    lemma_read_u8((), st.select, t0);
    lemma_read_u8(((), st.select), st.subsel, t1);
    lemma_read_u32((((), st.select), st.subsel), count, t2);
    lemma_take_events(st.pending, t3);
    lemma_read_u64(st.pending, st.dropped, t4);
    virtio_mmio::law_snapshot_round_trip(st.transport, into.transport, tail);
}

/// The oldest event waiting goes to the guest as eight bytes: kind, code and
/// value, the lowest byte first. A buffer too short, or not for the device to
/// write, is used up and keeps the event; with no event the buffers wait.
pub proof fn law_oldest_event_reaches_the_guest(
    s: InputState,
    ram: RamState,
    layout: QueueLayout,
    head: u16,
    chain: Seq<Descriptor>,
)
    requires
        chain_at(ram, layout, head) == Some(chain),
        chain.len() > 0,
        spans_ram(ram, chain[0].addr, 8),
    ensures
        ({
            let (t, ram2, outcome) = s.served(0, ram, layout, head);
            let good = chain[0].flags & 2 != 0 && chain[0].flags & 4 == 0 && chain[0].len >= 8;
            let at = (chain[0].addr - DRAM_BASE) as u64;
            &&& s.pending.len() == 0 ==> outcome is Retry && t == s && ram2 == ram
            &&& s.pending.len() > 0 && !good ==> outcome is Skip && t == s && ram2 == ram
            &&& s.pending.len() > 0 && good ==> {
                &&& outcome == ChainOutcome::Used(8)
                &&& t.pending == s.pending.skip(1)
                &&& ram2.load(at, 2) == Ok::<u64, ()>(s.pending[0].kind as u64)
                &&& ram2.load((at + 2) as u64, 2) == Ok::<u64, ()>(s.pending[0].code as u64)
                &&& ram2.load((at + 4) as u64, 4) == Ok::<u64, ()>(s.pending[0].value as u64)
            }
        }),
{
    if s.pending.len() > 0 {
        let e = s.pending[0];
        let at = chain[0].addr - DRAM_BASE;
        crate::le::lemma_pow256();
        crate::le::lemma_le_round_trip(e.kind as nat, 2);
        crate::le::lemma_le_round_trip(e.code as nat, 2);
        crate::le::lemma_le_round_trip(e.value as nat, 4);
        let after = ram.written(at, e.encoded());
        assert(after.slice(at, 2) =~= le_bytes(e.kind as nat, 2));
        assert(after.slice(at + 2, 2) =~= le_bytes(e.code as nat, 2));
        assert(after.slice(at + 4, 4) =~= le_bytes(e.value as nat, 4));
    }
}

/// A new event waits behind the others; a full backlog of 256 loses its
/// oldest, and counts that.
pub proof fn law_events_wait_in_order(s: InputState, event: InputEvent)
    ensures
        s.queued(event).pending.last() == event,
        s.pending.len() < 256 ==> s.queued(event).pending == s.pending.push(event)
            && s.queued(event).dropped == s.dropped,
        s.pending.len() == 256 ==> s.queued(event).pending == s.pending.skip(1).push(event)
            && s.queued(event).dropped == s.dropped.wrapping_add(1),
{
}

} // verus!
