use emulate_core::bus::DRAM_BASE;
use emulate_core::devices::virtio_input::{
    ABS_MAX, ABS_X, ABS_Y, BTN_LEFT, CFG_ABS_INFO, CFG_EV_BITS, CFG_ID_NAME, CFG_ID_SERIAL,
    CONFIG_BASE, CONFIG_UNION_OFFSET, DEVICE_ID_INPUT, EVENT_BYTES, EV_ABS, EV_KEY, EV_REL,
    EV_SYN, InputKind, KEY_BITS, MAX_PENDING_EVENTS, QUEUE_EVENT, QUEUE_STATUS, REL_WHEEL,
    SYN_REPORT, VirtioInput,
};
use emulate_core::devices::virtio_mmio::MAGIC;
use emulate_core::devices::virtqueue::DESC_F_WRITE;
use emulate_core::ram::Ram;
use emulate_core::snapshot::{Reader, Writer};

const DESC: u64 = DRAM_BASE + 0x1000;
const AVAIL: u64 = DRAM_BASE + 0x2000;
const USED: u64 = DRAM_BASE + 0x3000;
const DATA: u64 = DRAM_BASE + 0x4000;

/// A guest driver in miniature: programs one queue's rings and posts
/// `count` 8-byte writable buffers on it.
struct Loopback {
    device: VirtioInput,
    ram: Ram,
}

impl Loopback {
    fn new(kind: InputKind) -> Self {
        let mut loopback = Loopback {
            device: VirtioInput::new(kind),
            ram: Ram::new(0x10000),
        };
        loopback.configure_queue(QUEUE_EVENT);
        loopback
    }

    fn configure_queue(&mut self, index: usize) {
        let device = &mut self.device;
        let ram = &mut self.ram;
        device.write(0x030, index as u64, 4, ram).unwrap();
        device.write(0x038, 8, 4, ram).unwrap();
        for (low, high, address) in [
            (0x080, 0x084, DESC),
            (0x090, 0x094, AVAIL),
            (0x0a0, 0x0a4, USED),
        ] {
            device.write(low, address as u32 as u64, 4, ram).unwrap();
            device.write(high, address >> 32, 4, ram).unwrap();
        }
        device.write(0x044, 1, 4, ram).unwrap();
    }

    /// Post `count` buffers, each 8 bytes, starting at DATA.
    fn post_buffers(&mut self, count: u16) {
        for i in 0..count {
            let at = DESC + u64::from(i) * 16 - DRAM_BASE;
            self.ram
                .write(at, DATA + u64::from(i) * 8, 8)
                .expect("descriptor address");
            self.ram
                .write(at + 8, u64::from(EVENT_BYTES), 4)
                .expect("descriptor length");
            self.ram
                .write(at + 12, u64::from(DESC_F_WRITE), 2)
                .expect("descriptor flags");
            self.ram
                .write(AVAIL + 4 + u64::from(i) * 2 - DRAM_BASE, u64::from(i), 2)
                .expect("available ring slot");
        }
        self.ram
            .write(AVAIL + 2 - DRAM_BASE, u64::from(count), 2)
            .expect("available index");
    }

    fn used_index(&self) -> u64 {
        self.ram.read(USED + 2 - DRAM_BASE, 2).unwrap()
    }

    /// The event written into the `n`th posted buffer.
    fn event(&self, n: u64) -> (u16, u16, u32) {
        let base = DATA + n * 8 - DRAM_BASE;
        (
            self.ram.read(base, 2).unwrap() as u16,
            self.ram.read(base + 2, 2).unwrap() as u16,
            self.ram.read(base + 4, 4).unwrap() as u32,
        )
    }

    fn select(&mut self, select: u8, subsel: u8) -> (u8, Vec<u8>) {
        self.device
            .write(CONFIG_BASE, u64::from(select), 1, &mut self.ram)
            .unwrap();
        self.device
            .write(CONFIG_BASE + 1, u64::from(subsel), 1, &mut self.ram)
            .unwrap();
        let size = self.device.read(CONFIG_BASE + 2, 1).unwrap() as u8;
        let body = (0..size as u64)
            .map(|i| {
                self.device
                    .read(CONFIG_BASE + CONFIG_UNION_OFFSET as u64 + i, 1)
                    .unwrap() as u8
            })
            .collect();
        (size, body)
    }
}

#[test]
fn identity_is_a_virtio_1_input_device() {
    let device = VirtioInput::new(InputKind::Keyboard);
    assert_eq!(device.read(0, 4).unwrap(), u64::from(MAGIC));
    assert_eq!(device.read(8, 4).unwrap(), u64::from(DEVICE_ID_INPUT));
    assert_eq!(device.read(0x044, 4).unwrap(), 0);
}

#[test]
fn configuration_space_names_both_devices() {
    for (kind, expected) in [
        (InputKind::Keyboard, "emulate keyboard"),
        (InputKind::Tablet, "emulate tablet"),
    ] {
        let mut loopback = Loopback::new(kind);
        let (size, body) = loopback.select(CFG_ID_NAME, 0);
        assert_eq!(size as usize, expected.len());
        assert_eq!(String::from_utf8(body).unwrap(), expected);
    }
}

#[test]
fn keyboard_advertises_key_events_and_no_absolute_axes() {
    let mut loopback = Loopback::new(InputKind::Keyboard);

    let (size, bits) = loopback.select(CFG_EV_BITS, EV_KEY as u8);
    assert_eq!(size as usize, KEY_BITS / 8);
    // KEY_A is 30; the whole low range is advertised.
    assert_ne!(bits[30 / 8] & (1 << (30 % 8)), 0);

    assert_eq!(loopback.select(CFG_EV_BITS, EV_ABS as u8).0, 0);
    assert_eq!(loopback.select(CFG_ABS_INFO, ABS_X as u8).0, 0);
}

#[test]
fn tablet_advertises_absolute_axes_buttons_and_a_wheel() {
    let mut loopback = Loopback::new(InputKind::Tablet);

    let (_, abs) = loopback.select(CFG_EV_BITS, EV_ABS as u8);
    assert_eq!(abs[0] & 0b11, 0b11);

    let (size, info) = loopback.select(CFG_ABS_INFO, ABS_Y as u8);
    assert_eq!(size, 20);
    assert_eq!(u32::from_le_bytes(info[0..4].try_into().unwrap()), 0);
    assert_eq!(u32::from_le_bytes(info[4..8].try_into().unwrap()), ABS_MAX);

    let (_, keys) = loopback.select(CFG_EV_BITS, EV_KEY as u8);
    assert_ne!(keys[BTN_LEFT as usize / 8] & 1, 0);

    let (_, rel) = loopback.select(CFG_EV_BITS, EV_REL as u8);
    assert_ne!(rel[REL_WHEEL as usize / 8] & (1 << (REL_WHEEL % 8)), 0);
}

#[test]
fn an_unknown_select_reports_an_empty_body() {
    let mut loopback = Loopback::new(InputKind::Keyboard);
    assert_eq!(loopback.select(0x7f, 0).0, 0);
    assert_eq!(loopback.select(CFG_ID_SERIAL, 0).0, 0);
}

#[test]
fn a_key_press_reaches_the_guest_as_key_then_syn() {
    let mut loopback = Loopback::new(InputKind::Keyboard);
    loopback.post_buffers(4);

    loopback.device.queue_event(EV_KEY, 30, 1);
    loopback.device.flush(&mut loopback.ram);

    assert_eq!(loopback.used_index(), 2);
    assert_eq!(loopback.event(0), (EV_KEY, 30, 1));
    assert_eq!(loopback.event(1), (EV_SYN, SYN_REPORT, 0));
    assert!(loopback.device.irq_pending());
    assert_eq!(loopback.device.pending_events(), 0);
}

#[test]
fn events_wait_for_buffers_and_arrive_on_the_next_notify() {
    let mut loopback = Loopback::new(InputKind::Keyboard);

    loopback.device.queue_event(EV_KEY, 30, 1);
    loopback.device.flush(&mut loopback.ram);
    assert_eq!(loopback.used_index(), 0);
    assert_eq!(loopback.device.pending_events(), 2);

    loopback.post_buffers(4);
    let ram = &mut loopback.ram;
    loopback.device.write(0x050, 0, 4, ram).unwrap();

    assert_eq!(loopback.used_index(), 2);
    assert_eq!(loopback.event(0), (EV_KEY, 30, 1));
}

#[test]
fn partial_delivery_leaves_the_rest_queued() {
    let mut loopback = Loopback::new(InputKind::Keyboard);
    loopback.post_buffers(1);

    loopback.device.queue_event(EV_KEY, 30, 1);
    loopback.device.flush(&mut loopback.ram);

    assert_eq!(loopback.used_index(), 1);
    assert_eq!(loopback.event(0), (EV_KEY, 30, 1));
    // The SYN_REPORT had nowhere to go and is still owed.
    assert_eq!(loopback.device.pending_events(), 1);
}

#[test]
fn the_backlog_is_bounded_and_drops_oldest() {
    let mut device = VirtioInput::new(InputKind::Keyboard);
    for i in 0..(MAX_PENDING_EVENTS as u32 + 10) {
        device.queue_event(EV_KEY, 30, i);
    }

    assert_eq!(device.pending_events(), MAX_PENDING_EVENTS);
    assert_eq!(device.dropped_events(), 10);
    assert_eq!(device.pending.front().map(|e| e.value), Some(10));
}

#[test]
fn a_read_only_buffer_is_skipped_without_losing_the_event() {
    let mut loopback = Loopback::new(InputKind::Keyboard);
    loopback.post_buffers(2);
    // Clear DESC_F_WRITE on the first descriptor: the guest posted a
    // buffer the device cannot fill.
    loopback.ram.write(DESC + 12 - DRAM_BASE, 0, 2).unwrap();

    loopback.device.queue_event(EV_KEY, 30, 1);
    loopback.device.flush(&mut loopback.ram);

    // One chain consumed without a used entry, the event delivered in the
    // second.
    assert_eq!(loopback.used_index(), 1);
    assert_eq!(loopback.event(1), (EV_KEY, 30, 1));
}

#[test]
fn an_out_of_ram_buffer_does_not_consume_the_event() {
    let mut loopback = Loopback::new(InputKind::Keyboard);
    loopback.post_buffers(1);
    let past_ram = DRAM_BASE + loopback.ram.size();
    loopback.ram.write(DESC - DRAM_BASE, past_ram, 8).unwrap();

    loopback.device.queue_event(EV_KEY, 30, 1);
    loopback.device.flush(&mut loopback.ram);

    assert_eq!(loopback.used_index(), 0);
    assert_eq!(loopback.device.pending_events(), 2);
}

#[test]
fn the_status_queue_is_drained_and_ignored() {
    let mut loopback = Loopback::new(InputKind::Tablet);
    loopback.configure_queue(QUEUE_STATUS);
    loopback.post_buffers(2);

    let ram = &mut loopback.ram;
    loopback.device.write(0x050, 1, 4, ram).unwrap();

    assert_eq!(loopback.used_index(), 2);
    assert!(loopback.device.irq_pending());
}

#[test]
fn a_transport_reset_clears_queued_events_and_the_config_selector() {
    let mut loopback = Loopback::new(InputKind::Keyboard);
    loopback.device.queue_event(EV_KEY, 30, 1);
    loopback.select(CFG_ID_NAME, 0);

    let ram = &mut loopback.ram;
    loopback.device.write(0x070, 0, 4, ram).unwrap();

    assert_eq!(loopback.device.pending_events(), 0);
    assert_eq!(loopback.device.read(CONFIG_BASE + 2, 1).unwrap(), 0);
}

#[test]
fn snapshot_round_trips_queued_events_and_the_selector() {
    let mut device = VirtioInput::new(InputKind::Tablet);
    device.queue_event(EV_ABS, ABS_X, 100);
    device.queue_event(EV_ABS, ABS_Y, 200);
    let mut ram = Ram::new(0x1000);
    device
        .write(CONFIG_BASE, u64::from(CFG_EV_BITS), 1, &mut ram)
        .unwrap();
    device
        .write(CONFIG_BASE + 1, u64::from(EV_ABS), 1, &mut ram)
        .unwrap();

    let mut out = Writer::new();
    device.snapshot(&mut out);
    let bytes = out.into_bytes();

    let mut restored = VirtioInput::new(InputKind::Tablet);
    let mut reader = Reader::new(&bytes);
    restored.restore(&mut reader).expect("restore");

    assert_eq!(restored.pending_events(), 2);
    assert_eq!(restored.select, CFG_EV_BITS);
    assert_eq!(restored.subsel as u16, EV_ABS);
}
