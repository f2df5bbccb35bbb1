use emulate_core::bus::DRAM_BASE;
use emulate_core::devices::virtio_mmio::MAGIC;
use emulate_core::devices::virtio_rng::{DEVICE_ID_ENTROPY, ENTROPY_CAPACITY, VirtioEntropy};
use emulate_core::devices::virtqueue::{DESC_F_NEXT, DESC_F_WRITE};
use emulate_core::ram::Ram;

const DESC: u64 = DRAM_BASE + 0x1000;
const AVAIL: u64 = DRAM_BASE + 0x2000;
const USED: u64 = DRAM_BASE + 0x3000;
const DATA: u64 = DRAM_BASE + 0x4000;

fn write_desc(ram: &mut Ram, index: u16, addr: u64, len: u32, flags: u16, next: u16) {
    let at = DESC + u64::from(index) * 16 - DRAM_BASE;
    ram.write(at, addr, 8).unwrap();
    ram.write(at + 8, u64::from(len), 4).unwrap();
    ram.write(at + 12, u64::from(flags), 2).unwrap();
    ram.write(at + 14, u64::from(next), 2).unwrap();
}

fn configure(dev: &mut VirtioEntropy, ram: &mut Ram, len: u32) {
    dev.write(0x038, 8, 4, ram).unwrap();
    dev.write(0x080, DESC as u32 as u64, 4, ram).unwrap();
    dev.write(0x084, DESC >> 32, 4, ram).unwrap();
    dev.write(0x090, AVAIL as u32 as u64, 4, ram).unwrap();
    dev.write(0x094, AVAIL >> 32, 4, ram).unwrap();
    dev.write(0x0a0, USED as u32 as u64, 4, ram).unwrap();
    dev.write(0x0a4, USED >> 32, 4, ram).unwrap();
    dev.write(0x044, 1, 4, ram).unwrap();
    write_desc(ram, 0, DATA, len, DESC_F_WRITE, 0);
    ram.write(AVAIL + 4 - DRAM_BASE, 0, 2).unwrap();
    ram.write(AVAIL + 2 - DRAM_BASE, 1, 2).unwrap();
}

#[test]
fn identity_features_and_reset_are_virtio_1_compliant() {
    let mut dev = VirtioEntropy::new();
    let mut ram = Ram::new(0x10000);
    assert_eq!(dev.read(0, 4).unwrap(), u64::from(MAGIC));
    assert_eq!(dev.read(8, 4).unwrap(), u64::from(DEVICE_ID_ENTROPY));
    dev.write(0x014, 1, 4, &mut ram).unwrap();
    assert_eq!(dev.read(0x010, 4).unwrap(), 1);
    dev.write(0x070, 15, 4, &mut ram).unwrap();
    dev.write(0x070, 0, 4, &mut ram).unwrap();
    assert_eq!(dev.read(0x070, 4).unwrap(), 0);
    assert_eq!(dev.read(0x044, 4).unwrap(), 0);
}

#[test]
fn injected_entropy_completes_request_and_interrupts() {
    let mut dev = VirtioEntropy::new();
    let mut ram = Ram::new(0x10000);
    configure(&mut dev, &mut ram, 4);
    assert_eq!(dev.add_entropy(&[1, 2, 3, 4], &mut ram), 4);
    assert_eq!(ram.read_slice(DATA - DRAM_BASE, 4).unwrap(), &[1, 2, 3, 4]);
    assert_eq!(ram.read(USED + 2 - DRAM_BASE, 2).unwrap(), 1);
    assert_eq!(ram.read(USED + 8 - DRAM_BASE, 4).unwrap(), 4);
    assert!(dev.irq_pending());
    dev.write(0x064, 1, 4, &mut ram).unwrap();
    assert!(!dev.irq_pending());
}

#[test]
fn empty_source_leaves_request_pending_until_refill() {
    let mut dev = VirtioEntropy::new();
    let mut ram = Ram::new(0x10000);
    configure(&mut dev, &mut ram, 8);

    dev.write(0x050, 0, 4, &mut ram).unwrap();
    assert_eq!(ram.read(USED + 2 - DRAM_BASE, 2).unwrap(), 0);

    dev.add_entropy(&[0xa5; 8], &mut ram);
    assert_eq!(ram.read(USED + 2 - DRAM_BASE, 2).unwrap(), 1);
}

#[test]
fn refill_is_bounded() {
    let mut dev = VirtioEntropy::new();
    let mut ram = Ram::new(1);
    let input = vec![0x5a; ENTROPY_CAPACITY + 1];

    assert_eq!(dev.add_entropy(&input, &mut ram), ENTROPY_CAPACITY);
    assert_eq!(dev.entropy_needed(), 0);
}

#[test]
fn hostile_avail_backlog_is_rejected() {
    let mut dev = VirtioEntropy::new();
    let mut ram = Ram::new(0x10000);
    configure(&mut dev, &mut ram, 4);
    ram.write(AVAIL + 2 - DRAM_BASE, 40_000, 2).unwrap();

    dev.add_entropy(&[1, 2, 3, 4], &mut ram);

    assert_eq!(ram.read(USED + 2 - DRAM_BASE, 2).unwrap(), 0);
    assert!(!dev.irq_pending());
}

#[test]
fn out_of_ram_descriptor_is_skipped_without_consuming_entropy() {
    let mut dev = VirtioEntropy::new();
    let mut ram = Ram::new(0x10000);
    configure(&mut dev, &mut ram, 4);
    let end_of_ram = DRAM_BASE + ram.size();
    write_desc(&mut ram, 0, end_of_ram, 4, DESC_F_WRITE, 0);

    dev.add_entropy(&[1, 2, 3, 4], &mut ram);

    assert_eq!(ram.read(USED + 2 - DRAM_BASE, 2).unwrap(), 0);
    assert_eq!(dev.entropy_needed(), ENTROPY_CAPACITY - 4);
}

#[test]
fn cyclic_descriptor_chain_is_bounded_and_skipped() {
    let mut dev = VirtioEntropy::new();
    let mut ram = Ram::new(0x10000);
    configure(&mut dev, &mut ram, 4);
    write_desc(&mut ram, 0, DATA, 4, DESC_F_WRITE | DESC_F_NEXT, 0);

    dev.add_entropy(&[1, 2, 3, 4], &mut ram);

    assert_eq!(ram.read(USED + 2 - DRAM_BASE, 2).unwrap(), 0);
    assert!(!dev.irq_pending());
}

#[test]
fn out_of_ram_used_ring_does_not_consume_entropy_or_write_guest_data() {
    let mut dev = VirtioEntropy::new();
    let mut ram = Ram::new(0x10000);
    configure(&mut dev, &mut ram, 4);
    let truncated_used = DRAM_BASE + ram.size() - 4;
    dev.write(0x0a0, truncated_used as u32 as u64, 4, &mut ram)
        .unwrap();
    dev.write(0x0a4, truncated_used >> 32, 4, &mut ram).unwrap();

    dev.add_entropy(&[1, 2, 3, 4], &mut ram);

    assert_eq!(dev.entropy_needed(), ENTROPY_CAPACITY - 4);
    assert_eq!(ram.read_slice(DATA - DRAM_BASE, 4).unwrap(), &[0, 0, 0, 0]);
}

#[test]
fn partial_entropy_completes_with_actual_used_length() {
    let mut dev = VirtioEntropy::new();
    let mut ram = Ram::new(0x10000);
    configure(&mut dev, &mut ram, 16);

    dev.add_entropy(&[9, 8, 7], &mut ram);

    assert_eq!(ram.read(USED + 8 - DRAM_BASE, 4).unwrap(), 3);
    assert_eq!(ram.read_slice(DATA - DRAM_BASE, 3).unwrap(), &[9, 8, 7]);
}
