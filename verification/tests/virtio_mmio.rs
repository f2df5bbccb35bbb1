use emulate_core::bus::DRAM_BASE;
use emulate_core::devices::virtio_mmio::{Transport, TransportWrite};
use emulate_core::devices::virtqueue::{
    ChainHandler, ChainOutcome, QueueLayout, read_u16, read_u32, write_u16,
};
use emulate_core::ram::{Ram, RamState};
use emulate_core::snapshot::{Reader, Writer};

/// Skips the first chain, uses the second, and puts the third off.
struct ByHead;

impl ChainHandler for ByHead {
    type State = ();

    fn state(&self) {}

    fn serving(&self) -> bool {
        true
    }

    fn may_handle(
        _: (),
        _: usize,
        _: RamState,
        _: QueueLayout,
        _: u16,
        _: (),
        _: RamState,
        _: ChainOutcome,
    ) -> bool {
        true
    }

    fn handle(&mut self, _: usize, _: &mut Ram, _: QueueLayout, head: u16) -> ChainOutcome {
        match head {
            0 => ChainOutcome::Skip,
            1 => ChainOutcome::Used(8),
            _ => ChainOutcome::Retry,
        }
    }
}

/// Uses one chain, which must have this head.
struct Expecting(u16);

impl ChainHandler for Expecting {
    type State = ();

    fn state(&self) {}

    fn serving(&self) -> bool {
        true
    }

    fn may_handle(
        _: (),
        _: usize,
        _: RamState,
        _: QueueLayout,
        _: u16,
        _: (),
        _: RamState,
        _: ChainOutcome,
    ) -> bool {
        true
    }

    fn handle(&mut self, _: usize, _: &mut Ram, _: QueueLayout, head: u16) -> ChainOutcome {
        assert_eq!(head, self.0);
        ChainOutcome::Used(16)
    }
}

/// A handler no chain may reach.
struct Untouched;

impl ChainHandler for Untouched {
    type State = ();

    fn state(&self) {}

    fn serving(&self) -> bool {
        true
    }

    fn may_handle(
        _: (),
        _: usize,
        _: RamState,
        _: QueueLayout,
        _: u16,
        _: (),
        _: RamState,
        _: ChainOutcome,
    ) -> bool {
        true
    }

    fn handle(&mut self, _: usize, _: &mut Ram, _: QueueLayout, _: u16) -> ChainOutcome {
        panic!("empty queue")
    }
}


const DESC: u64 = DRAM_BASE + 0x1000;
const AVAIL: u64 = DRAM_BASE + 0x2000;
const USED: u64 = DRAM_BASE + 0x3000;

fn configure(transport: &mut Transport, index: u32) {
    for (offset, value) in [
        (0x030, index),
        (0x038, 4),
        (0x080, DESC as u32),
        (0x090, AVAIL as u32),
        (0x0a0, USED as u32),
        (0x044, 1),
    ] {
        transport.write(offset, value);
    }
}

#[test]
fn queue_completion_preserves_retry_progress_and_interrupts_the_correct_queue() {
    let mut transport = Transport::new(2, 8);
    configure(&mut transport, 1);
    let mut ram = Ram::new(0x4000);
    write_u16(&mut ram, AVAIL + 2, 3).unwrap();
    for head in 0..3 {
        write_u16(&mut ram, AVAIL + 4 + u64::from(head) * 2, head).unwrap();
    }
    let work = transport.queue(1).drain(&mut ram, &mut ByHead);
    transport.write(0x030, 0);
    transport.complete_queue(work);
    assert_eq!(transport.queues[0].last_avail_idx, 0);
    assert_eq!(transport.queues[1].last_avail_idx, 2);
    assert_eq!(read_u16(&ram, USED + 2), Some(1));
    assert_eq!(read_u32(&ram, USED + 4), Some(1));
    assert!(transport.irq_pending());
    transport.write(0x064, 1);
    let work = transport.queue(1).drain(&mut ram, &mut Expecting(2));
    transport.complete_queue(work);
    assert_eq!(transport.queues[1].last_avail_idx, 3);
    assert_eq!(read_u16(&ram, USED + 2), Some(2));
    assert!(transport.irq_pending());
    transport.write(0x064, 1);
    let work = transport.queue(1).drain(&mut ram, &mut Untouched);
    transport.complete_queue(work);
    assert!(!transport.irq_pending());
}

#[test]
fn version_one_snapshot_preserves_negotiated_queue_state() {
    // Block transport section from a booted Linux desktop snapshot.
    let bytes = [
        0x01, 0x00, 0x3f, 0x00, 0x00, 0x00, 0x01, 0x00, 0x00, 0x00, 0x08, 0x00, 0x08, 0x00,
        0x01, 0x00, 0x00, 0x8b, 0x82, 0x00, 0x00, 0x00, 0x00, 0x80, 0x00, 0x8b, 0x82, 0x00,
        0x00, 0x00, 0x00, 0x00, 0x10, 0x8b, 0x82, 0x00, 0x00, 0x00, 0x00, 0x39, 0x09, 0x00,
        0x00, 0x00, 0x00, 0x00, 0x00, 0x00, 0x00, 0x02, 0x02, 0x00, 0x00, 0x01, 0x00, 0x00,
        0x00, 0x00, 0x00, 0x00, 0x00, 0x0f, 0x00, 0x00, 0x00, 0x00, 0x00, 0x00, 0x00,
    ];
    let mut transport = Transport::new(1, 8);
    transport.restore(&mut Reader::new(&bytes)).unwrap();
    assert_eq!(transport.read(0x070, 2, [0, 1]), Some(15));
    assert!(transport.queues[0].ready);
    assert_eq!(transport.queues[0].last_avail_idx, 2361);
    assert_eq!(transport.queues[0].desc, 0x828b_0000);
    let mut out = Writer::new();
    transport.snapshot(&mut out);
    assert_eq!(out.into_bytes(), bytes);
    for mut incompatible in [Transport::new(2, 8), Transport::new(1, 16)] {
        assert!(incompatible.restore(&mut Reader::new(&bytes)).is_err());
    }
}

#[test]
fn invalid_queue_selection_and_reset_do_not_leak_queue_state() {
    let mut transport = Transport::new(2, 8);
    configure(&mut transport, 1);
    transport.write(0x030, u32::MAX);
    transport.write(0x038, 1);
    transport.write(0x080, 0);
    assert_eq!(transport.read(0x034, 4, [0, 1]), Some(0));
    assert_eq!(transport.queues[1].num, 4);
    assert_eq!(transport.queues[1].desc, DESC);
    assert!(matches!(transport.write(0x070, 0), TransportWrite::Reset));
    assert_eq!(transport.queue_sel, 0);
    for queue in &transport.queues {
        assert!(!queue.ready);
        assert_eq!(queue.desc, 0);
        assert_eq!(queue.last_avail_idx, 0);
    }
}
