use std::collections::VecDeque;

use emulate_core::bus::{Bus, DRAM_BASE};
use emulate_core::devices::net::NetBackend;
use emulate_core::devices::virtio_mmio::MAGIC;
use emulate_core::devices::virtio_net::{
    DEFAULT_MAC, DEVICE_ID_NET, FRAME_QUEUE_CAPACITY, HDR_LEN, HDR_NUM_BUFFERS,
    MAX_FRAME_BYTES, NET_F_MAC, QUEUE_RX, QUEUE_SIZE_MAX, QUEUE_TX, VirtioNet,
};
use emulate_core::devices::virtqueue::{DESC_F_NEXT, DESC_F_WRITE};
use emulate_core::ram::Ram;

/// Loopback backend: returns every transmitted frame to the guest, so the
/// TX -> host -> RX path can be exercised without host I/O.
pub struct LoopbackBackend {
    queue: VecDeque<Vec<u8>>,
    pub polls: usize,
    pub last_now_ms: u64,
}

impl LoopbackBackend {
    pub fn new() -> Self {
        Self {
            queue: VecDeque::new(),
            polls: 0,
            last_now_ms: 0,
        }
    }
}

impl Default for LoopbackBackend {
    fn default() -> Self {
        Self::new()
    }
}

impl NetBackend for LoopbackBackend {
    fn transmit(&mut self, frame: &[u8]) {
        self.queue.push_back(frame.to_vec());
    }

    fn receive(&mut self) -> Option<Vec<u8>> {
        self.queue.pop_front()
    }

    fn poll(&mut self, now_ms: u64) {
        self.polls += 1;
        self.last_now_ms = now_ms;
    }
}

/// The network side of a machine: a bus and the world behind its link.
struct Machine {
    bus: Bus,
    net: Option<Box<dyn NetBackend>>,
}

impl Machine {
    fn new(ram_size: usize) -> Self {
        Machine { bus: Bus::new(ram_size), net: None }
    }

    fn set_net_backend(&mut self, backend: Box<dyn NetBackend>) {
        self.net = Some(backend);
    }

    fn has_net_backend(&self) -> bool {
        self.net.is_some()
    }

    fn net_deadline_ms(&self) -> Option<u64> {
        self.net.as_ref().and_then(|net| net.next_deadline_ms())
    }

    /// Hand transmitted frames out, and bring received ones in.
    fn tick_net(&mut self) {
        let Some(net) = self.net.as_mut() else {
            return;
        };
        while let Some(frame) = self.bus.virtio_net.pop_transmitted() {
            net.transmit(&frame);
        }
        net.poll(0);
        while let Some(frame) = net.receive() {
            self.bus.virtio_net.receive_frame(frame);
        }
        self.bus.virtio_net.deliver_rx(&mut self.bus.ram);
    }
}

const RX_DESC: u64 = DRAM_BASE + 0x1000;
const RX_AVAIL: u64 = DRAM_BASE + 0x2000;
const RX_USED: u64 = DRAM_BASE + 0x3000;
const TX_DESC: u64 = DRAM_BASE + 0x4000;
const TX_AVAIL: u64 = DRAM_BASE + 0x5000;
const TX_USED: u64 = DRAM_BASE + 0x6000;
const BUF_A: u64 = DRAM_BASE + 0x7000;
const BUF_B: u64 = DRAM_BASE + 0x9000;

fn write_desc(
    ram: &mut Ram,
    table: u64,
    index: u16,
    addr: u64,
    len: u32,
    flags: u16,
    next: u16,
) {
    let at = table + u64::from(index) * 16 - DRAM_BASE;
    ram.write(at, addr, 8).unwrap();
    ram.write(at + 8, u64::from(len), 4).unwrap();
    ram.write(at + 12, u64::from(flags), 2).unwrap();
    ram.write(at + 14, u64::from(next), 2).unwrap();
}

/// Programs both queues the way the Linux driver does: select, size,
/// addresses, ready.
fn configure(dev: &mut VirtioNet, ram: &mut Ram) {
    for (sel, desc, avail, used) in [
        (QUEUE_RX as u64, RX_DESC, RX_AVAIL, RX_USED),
        (QUEUE_TX as u64, TX_DESC, TX_AVAIL, TX_USED),
    ] {
        dev.write(0x030, sel, 4, ram).unwrap();
        dev.write(0x038, u64::from(QUEUE_SIZE_MAX), 4, ram).unwrap();
        for (low, high, address) in [
            (0x080, 0x084, desc),
            (0x090, 0x094, avail),
            (0x0a0, 0x0a4, used),
        ] {
            dev.write(low, address as u32 as u64, 4, ram).unwrap();
            dev.write(high, address >> 32, 4, ram).unwrap();
        }
        dev.write(0x044, 1, 4, ram).unwrap();
    }
}

/// Publishes `head` as available chain number `count - 1` on `avail`.
fn post(ram: &mut Ram, avail: u64, slot: u16, head: u16, count: u16) {
    ram.write(
        avail + 4 - DRAM_BASE + u64::from(slot) * 2,
        u64::from(head),
        2,
    )
    .unwrap();
    ram.write(avail + 2 - DRAM_BASE, u64::from(count), 2)
        .unwrap();
}

fn ram_bytes(ram: &Ram, addr: u64, len: usize) -> Vec<u8> {
    ram.read_slice(addr - DRAM_BASE, len).unwrap().to_vec()
}

fn frame(len: usize, seed: u8) -> Vec<u8> {
    (0..len).map(|i| (i as u8).wrapping_add(seed)).collect()
}

fn setup() -> (VirtioNet, Ram) {
    let mut dev = VirtioNet::new();
    let mut ram = Ram::new(0x20000);
    configure(&mut dev, &mut ram);
    (dev, ram)
}

#[test]
fn identity_features_and_mac_configuration_space() {
    let mut dev = VirtioNet::new();
    let mut ram = Ram::new(0x1000);
    assert_eq!(dev.read(0x000, 4).unwrap(), u64::from(MAGIC));
    assert_eq!(dev.read(0x004, 4).unwrap(), 2);
    assert_eq!(dev.read(0x008, 4).unwrap(), u64::from(DEVICE_ID_NET));
    assert_eq!(dev.read(0x034, 4).unwrap(), u64::from(QUEUE_SIZE_MAX));

    // VIRTIO_NET_F_MAC low, VIRTIO_F_VERSION_1 high.
    dev.write(0x014, 0, 4, &mut ram).unwrap();
    assert_eq!(dev.read(0x010, 4).unwrap(), 1 << NET_F_MAC);
    dev.write(0x014, 1, 4, &mut ram).unwrap();
    assert_eq!(dev.read(0x010, 4).unwrap(), 1);

    for (index, expected) in DEFAULT_MAC.iter().enumerate() {
        assert_eq!(
            dev.read(0x100 + index as u64, 1).unwrap(),
            u64::from(*expected)
        );
    }

    dev.write(0x070, 15, 4, &mut ram).unwrap();
    assert_eq!(dev.read(0x070, 4).unwrap(), 15);
    dev.write(0x070, 0, 4, &mut ram).unwrap();
    assert_eq!(dev.read(0x070, 4).unwrap(), 0);
    assert_eq!(dev.read(0x044, 4).unwrap(), 0);
}

#[test]
fn transmit_with_header_and_frame_in_one_descriptor() {
    let (mut dev, mut ram) = setup();
    let payload = frame(64, 1);
    ram.write_slice(BUF_A - DRAM_BASE + HDR_LEN as u64, &payload)
        .unwrap();
    write_desc(
        &mut ram,
        TX_DESC,
        0,
        BUF_A,
        (HDR_LEN + payload.len()) as u32,
        0,
        0,
    );
    post(&mut ram, TX_AVAIL, 0, 0, 1);

    dev.write(0x050, QUEUE_TX as u64, 4, &mut ram).unwrap();

    assert_eq!(dev.pop_transmitted().as_deref(), Some(payload.as_slice()));
    assert!(dev.pop_transmitted().is_none());
    assert_eq!(ram.read(TX_USED + 2 - DRAM_BASE, 2).unwrap(), 1);
    assert_eq!(ram.read(TX_USED + 4 - DRAM_BASE, 4).unwrap(), 0);
    // The device writes nothing on transmit, so the used length is zero.
    assert_eq!(ram.read(TX_USED + 8 - DRAM_BASE, 4).unwrap(), 0);
    assert!(dev.irq_pending());
    dev.write(0x064, 1, 4, &mut ram).unwrap();
    assert!(!dev.irq_pending());
}

#[test]
fn transmit_with_header_split_from_frame() {
    let (mut dev, mut ram) = setup();
    let payload = frame(100, 7);
    ram.write_slice(BUF_B - DRAM_BASE, &payload).unwrap();
    write_desc(&mut ram, TX_DESC, 0, BUF_A, HDR_LEN as u32, DESC_F_NEXT, 1);
    write_desc(&mut ram, TX_DESC, 1, BUF_B, payload.len() as u32, 0, 0);
    post(&mut ram, TX_AVAIL, 0, 0, 1);

    dev.write(0x050, QUEUE_TX as u64, 4, &mut ram).unwrap();

    assert_eq!(dev.pop_transmitted().as_deref(), Some(payload.as_slice()));
    assert_eq!(ram.read(TX_USED + 2 - DRAM_BASE, 2).unwrap(), 1);
}

#[test]
fn oversized_and_headerless_transmits_are_dropped_but_still_published() {
    let (mut dev, mut ram) = setup();
    // One byte past the Ethernet maximum.
    write_desc(
        &mut ram,
        TX_DESC,
        0,
        BUF_A,
        (HDR_LEN + MAX_FRAME_BYTES + 1) as u32,
        0,
        0,
    );
    // A chain too short to even hold the header.
    write_desc(&mut ram, TX_DESC, 1, BUF_A, 4, 0, 0);
    ram.write(TX_AVAIL + 4 - DRAM_BASE, 0, 2).unwrap();
    ram.write(TX_AVAIL + 6 - DRAM_BASE, 1, 2).unwrap();
    ram.write(TX_AVAIL + 2 - DRAM_BASE, 2, 2).unwrap();

    dev.write(0x050, QUEUE_TX as u64, 4, &mut ram).unwrap();

    assert_eq!(dev.pending_tx(), 0);
    assert_eq!(ram.read(TX_USED + 2 - DRAM_BASE, 2).unwrap(), 2);
    assert_eq!(ram.read(TX_USED + 8 - DRAM_BASE, 4).unwrap(), 0);
    assert_eq!(ram.read(TX_USED + 16 - DRAM_BASE, 4).unwrap(), 0);
    assert!(dev.irq_pending());
}

#[test]
fn transmit_queue_rejects_a_bogus_avail_backlog() {
    let (mut dev, mut ram) = setup();
    let payload = frame(64, 2);
    ram.write_slice(BUF_A - DRAM_BASE + HDR_LEN as u64, &payload)
        .unwrap();
    write_desc(
        &mut ram,
        TX_DESC,
        0,
        BUF_A,
        (HDR_LEN + payload.len()) as u32,
        0,
        0,
    );
    // A driver may never have more than queue_num (16) chains outstanding.
    post(&mut ram, TX_AVAIL, 0, 0, 40_000);

    dev.write(0x050, QUEUE_TX as u64, 4, &mut ram).unwrap();

    assert_eq!(dev.pending_tx(), 0);
    assert_eq!(ram.read(TX_USED + 2 - DRAM_BASE, 2).unwrap(), 0);
    assert!(!dev.irq_pending());

    // A later notify with a sane index resumes normally.
    ram.write(TX_AVAIL + 2 - DRAM_BASE, 1, 2).unwrap();
    dev.write(0x050, QUEUE_TX as u64, 4, &mut ram).unwrap();
    assert_eq!(dev.pop_transmitted().as_deref(), Some(payload.as_slice()));
    assert_eq!(ram.read(TX_USED + 2 - DRAM_BASE, 2).unwrap(), 1);
}

#[test]
fn receive_writes_zeroed_header_with_one_buffer_then_the_frame() {
    let (mut dev, mut ram) = setup();
    let payload = frame(200, 3);
    write_desc(&mut ram, RX_DESC, 0, BUF_A, 2048, DESC_F_WRITE, 0);
    post(&mut ram, RX_AVAIL, 0, 0, 1);

    dev.receive_frame(payload.clone());
    dev.deliver_rx(&mut ram);

    let header = ram_bytes(&ram, BUF_A, HDR_LEN);
    let mut expected_header = [0u8; HDR_LEN];
    expected_header[HDR_NUM_BUFFERS] = 1;
    assert_eq!(header, expected_header);
    assert_eq!(
        ram_bytes(&ram, BUF_A + HDR_LEN as u64, payload.len()),
        payload
    );
    assert_eq!(ram.read(RX_USED + 2 - DRAM_BASE, 2).unwrap(), 1);
    assert_eq!(
        ram.read(RX_USED + 8 - DRAM_BASE, 4).unwrap(),
        (HDR_LEN + payload.len()) as u64
    );
    assert!(dev.irq_pending());
    assert_eq!(dev.pending_rx(), 0);
}

#[test]
fn byte_counters_advance_for_transmit_and_receive() {
    let (mut dev, mut ram) = setup();
    assert_eq!(dev.tx_bytes(), 0);
    assert_eq!(dev.rx_bytes(), 0);

    let sent = frame(64, 1);
    ram.write_slice(BUF_A - DRAM_BASE + HDR_LEN as u64, &sent)
        .unwrap();
    write_desc(
        &mut ram,
        TX_DESC,
        0,
        BUF_A,
        (HDR_LEN + sent.len()) as u32,
        0,
        0,
    );
    post(&mut ram, TX_AVAIL, 0, 0, 1);
    dev.write(0x050, QUEUE_TX as u64, 4, &mut ram).unwrap();
    // Queued but not yet handed to the backend: nothing counted.
    assert_eq!(dev.tx_bytes(), 0);
    assert!(dev.pop_transmitted().is_some());
    assert_eq!(dev.tx_bytes(), sent.len() as u64);

    let received = frame(200, 3);
    write_desc(&mut ram, RX_DESC, 0, BUF_B, 2048, DESC_F_WRITE, 0);
    post(&mut ram, RX_AVAIL, 0, 0, 1);
    dev.receive_frame(received.clone());
    dev.deliver_rx(&mut ram);
    assert_eq!(dev.rx_bytes(), received.len() as u64);
    assert_eq!(dev.tx_bytes(), sent.len() as u64);
}

#[test]
fn receive_spans_multiple_writable_descriptors() {
    let (mut dev, mut ram) = setup();
    let payload = frame(64, 5);
    // Header lands in the first segment, the frame straddles both.
    write_desc(
        &mut ram,
        RX_DESC,
        0,
        BUF_A,
        16,
        DESC_F_WRITE | DESC_F_NEXT,
        1,
    );
    write_desc(&mut ram, RX_DESC, 1, BUF_B, 2048, DESC_F_WRITE, 0);
    post(&mut ram, RX_AVAIL, 0, 0, 1);

    dev.receive_frame(payload.clone());
    dev.deliver_rx(&mut ram);

    assert_eq!(
        ram.read(BUF_A - DRAM_BASE + HDR_NUM_BUFFERS as u64, 1)
            .unwrap(),
        1
    );
    assert_eq!(ram_bytes(&ram, BUF_A + HDR_LEN as u64, 4), payload[..4]);
    assert_eq!(ram_bytes(&ram, BUF_B, 4), payload[4..8]);
    assert_eq!(
        ram.read(RX_USED + 8 - DRAM_BASE, 4).unwrap(),
        (HDR_LEN + payload.len()) as u64
    );
}

#[test]
fn frames_wait_until_the_guest_posts_receive_buffers() {
    let (mut dev, mut ram) = setup();
    let payload = frame(60, 9);

    dev.receive_frame(payload.clone());
    dev.deliver_rx(&mut ram);

    assert_eq!(dev.pending_rx(), 1);
    assert_eq!(ram.read(RX_USED + 2 - DRAM_BASE, 2).unwrap(), 0);
    assert!(!dev.irq_pending());

    write_desc(&mut ram, RX_DESC, 0, BUF_A, 2048, DESC_F_WRITE, 0);
    post(&mut ram, RX_AVAIL, 0, 0, 1);
    dev.deliver_rx(&mut ram);

    assert_eq!(dev.pending_rx(), 0);
    assert_eq!(ram.read(RX_USED + 2 - DRAM_BASE, 2).unwrap(), 1);
    assert_eq!(
        ram_bytes(&ram, BUF_A + HDR_LEN as u64, payload.len()),
        payload
    );
}

#[test]
fn surplus_receive_buffers_are_left_posted() {
    let (mut dev, mut ram) = setup();
    write_desc(&mut ram, RX_DESC, 0, BUF_A, 2048, DESC_F_WRITE, 0);
    write_desc(&mut ram, RX_DESC, 1, BUF_B, 2048, DESC_F_WRITE, 0);
    ram.write(RX_AVAIL + 4 - DRAM_BASE, 0, 2).unwrap();
    ram.write(RX_AVAIL + 6 - DRAM_BASE, 1, 2).unwrap();
    ram.write(RX_AVAIL + 2 - DRAM_BASE, 2, 2).unwrap();

    dev.receive_frame(frame(60, 4));
    dev.deliver_rx(&mut ram);

    assert_eq!(ram.read(RX_USED + 2 - DRAM_BASE, 2).unwrap(), 1);

    // The unused chain is still available for the next frame.
    dev.receive_frame(frame(60, 6));
    dev.deliver_rx(&mut ram);
    assert_eq!(ram.read(RX_USED + 2 - DRAM_BASE, 2).unwrap(), 2);
}

#[test]
fn a_frame_too_large_for_its_chain_is_dropped_and_the_chain_recycled() {
    let (mut dev, mut ram) = setup();
    write_desc(&mut ram, RX_DESC, 0, BUF_A, 32, DESC_F_WRITE, 0);
    post(&mut ram, RX_AVAIL, 0, 0, 1);

    dev.receive_frame(frame(200, 1));
    dev.deliver_rx(&mut ram);

    assert_eq!(dev.pending_rx(), 0);
    assert_eq!(ram.read(RX_USED + 2 - DRAM_BASE, 2).unwrap(), 1);
    assert_eq!(ram.read(RX_USED + 8 - DRAM_BASE, 4).unwrap(), 0);
}

#[test]
fn receive_backlog_is_bounded_and_drops_the_oldest_frame() {
    let (mut dev, mut ram) = setup();
    for index in 0..FRAME_QUEUE_CAPACITY + 1 {
        dev.receive_frame(frame(60, index as u8));
    }
    assert_eq!(dev.pending_rx(), FRAME_QUEUE_CAPACITY);

    write_desc(&mut ram, RX_DESC, 0, BUF_A, 2048, DESC_F_WRITE, 0);
    post(&mut ram, RX_AVAIL, 0, 0, 1);
    dev.deliver_rx(&mut ram);

    // Frame 0 was evicted, so the first delivery is frame 1.
    assert_eq!(ram_bytes(&ram, BUF_A + HDR_LEN as u64, 60), frame(60, 1));
    assert_eq!(dev.pending_rx(), FRAME_QUEUE_CAPACITY - 1);
}

#[test]
fn transmit_backlog_is_bounded_and_drops_the_oldest_frame() {
    let (mut dev, mut ram) = setup();
    let payload = frame(64, 0);
    ram.write_slice(BUF_A - DRAM_BASE + HDR_LEN as u64, &payload)
        .unwrap();
    write_desc(
        &mut ram,
        TX_DESC,
        0,
        BUF_A,
        (HDR_LEN + payload.len()) as u32,
        0,
        0,
    );
    // Sixteen chains per notify is the ring's maximum; repeat until the
    // bounded outbox has been overrun with nobody draining it.
    for round in 0..8u16 {
        for slot in 0..16u16 {
            ram.write(TX_AVAIL + 4 - DRAM_BASE + u64::from(slot) * 2, 0, 2)
                .unwrap();
        }
        ram.write(TX_AVAIL + 2 - DRAM_BASE, u64::from((round + 1) * 16), 2)
            .unwrap();
        dev.write(0x050, QUEUE_TX as u64, 4, &mut ram).unwrap();
    }

    assert_eq!(dev.pending_tx(), FRAME_QUEUE_CAPACITY);
}

#[test]
fn receive_queue_rejects_a_bogus_avail_backlog() {
    let (mut dev, mut ram) = setup();
    write_desc(&mut ram, RX_DESC, 0, BUF_A, 2048, DESC_F_WRITE, 0);
    post(&mut ram, RX_AVAIL, 0, 0, 40_000);

    dev.receive_frame(frame(60, 1));
    dev.deliver_rx(&mut ram);

    assert_eq!(dev.pending_rx(), 1);
    assert_eq!(ram.read(RX_USED + 2 - DRAM_BASE, 2).unwrap(), 0);
    assert!(!dev.irq_pending());
}

#[test]
fn cyclic_receive_chain_is_bounded_and_skipped() {
    let (mut dev, mut ram) = setup();
    write_desc(
        &mut ram,
        RX_DESC,
        0,
        BUF_A,
        2048,
        DESC_F_WRITE | DESC_F_NEXT,
        0,
    );
    post(&mut ram, RX_AVAIL, 0, 0, 1);

    dev.receive_frame(frame(60, 1));
    dev.deliver_rx(&mut ram);

    assert_eq!(ram.read(RX_USED + 2 - DRAM_BASE, 2).unwrap(), 0);
    assert!(!dev.irq_pending());
    // The frame is untouched and the queue did not wedge.
    assert_eq!(dev.pending_rx(), 1);
}

#[test]
fn receive_buffer_outside_ram_drops_the_frame_without_writing() {
    let (mut dev, mut ram) = setup();
    let end_of_ram = DRAM_BASE + ram.size();
    write_desc(&mut ram, RX_DESC, 0, end_of_ram, 2048, DESC_F_WRITE, 0);
    post(&mut ram, RX_AVAIL, 0, 0, 1);

    dev.receive_frame(frame(60, 1));
    dev.deliver_rx(&mut ram);

    assert_eq!(dev.pending_rx(), 0);
    assert_eq!(ram.read(RX_USED + 8 - DRAM_BASE, 4).unwrap(), 0);
}

#[test]
fn a_loopback_backend_round_trips_a_frame_through_the_machine() {
    let mut machine = Machine::new(0x20000);
    machine.set_net_backend(Box::new(LoopbackBackend::new()));
    let payload = frame(128, 11);
    {
        let dev = &mut machine.bus.virtio_net;
        let ram = &mut machine.bus.ram;
        configure(dev, ram);
        ram.write_slice(BUF_A - DRAM_BASE + HDR_LEN as u64, &payload)
            .unwrap();
        write_desc(
            ram,
            TX_DESC,
            0,
            BUF_A,
            (HDR_LEN + payload.len()) as u32,
            0,
            0,
        );
        post(ram, TX_AVAIL, 0, 0, 1);
        write_desc(ram, RX_DESC, 0, BUF_B, 2048, DESC_F_WRITE, 0);
        post(ram, RX_AVAIL, 0, 0, 1);
        dev.write(0x050, QUEUE_TX as u64, 4, ram).unwrap();
    }
    assert_eq!(machine.bus.virtio_net.pending_tx(), 1);

    machine.tick_net();

    assert_eq!(machine.bus.virtio_net.pending_tx(), 0);
    assert_eq!(
        ram_bytes(&machine.bus.ram, BUF_B + HDR_LEN as u64, payload.len()),
        payload
    );
    assert_eq!(
        machine.bus.ram.read(RX_USED + 8 - DRAM_BASE, 4).unwrap(),
        (HDR_LEN + payload.len()) as u64
    );
    assert!(machine.bus.virtio_net.irq_pending());
}

#[test]
fn without_a_backend_the_link_is_down() {
    let mut machine = Machine::new(0x20000);
    {
        let dev = &mut machine.bus.virtio_net;
        let ram = &mut machine.bus.ram;
        configure(dev, ram);
        write_desc(ram, TX_DESC, 0, BUF_A, (HDR_LEN + 64) as u32, 0, 0);
        post(ram, TX_AVAIL, 0, 0, 1);
        write_desc(ram, RX_DESC, 0, BUF_B, 2048, DESC_F_WRITE, 0);
        post(ram, RX_AVAIL, 0, 0, 1);
        dev.write(0x050, QUEUE_TX as u64, 4, ram).unwrap();
    }

    assert!(!machine.has_net_backend());
    assert_eq!(machine.net_deadline_ms(), None);
    machine.tick_net();

    // Nothing was delivered: the frame has nowhere to go and none arrives.
    assert_eq!(machine.bus.ram.read(RX_USED + 2 - DRAM_BASE, 2).unwrap(), 0);
    assert_eq!(machine.bus.virtio_net.pending_rx(), 0);
}
