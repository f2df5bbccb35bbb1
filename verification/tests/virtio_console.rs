use emulate_core::bus::DRAM_BASE;
use emulate_core::devices::virtio_console::{CAPACITY, VirtioConsole};
use emulate_core::devices::virtqueue::DESC_F_WRITE;
use emulate_core::ram::Ram;
use emulate_core::snapshot::{Reader, Writer};

fn configure(dev: &mut VirtioConsole, ram: &mut Ram, queue: u64, flags: u16, length: u32) {
    for (reg, value) in [
        (0x030, queue),
        (0x038, 8),
        (0x080, DRAM_BASE + 0x1000),
        (0x090, DRAM_BASE + 0x2000),
        (0x0a0, DRAM_BASE + 0x3000),
        (0x044, 1),
    ] {
        dev.write(reg, value, 4, ram).unwrap();
    }
    ram.write(0x1000, DRAM_BASE + 0x4000, 8).unwrap();
    ram.write(0x1008, length.into(), 4).unwrap();
    ram.write(0x100c, flags.into(), 2).unwrap();
    ram.write(0x2002, 1, 2).unwrap();
}

#[test]
fn receive_waits_for_input_then_writes_and_interrupts() {
    let mut dev = VirtioConsole::default();
    let mut ram = Ram::new(0x10000);
    configure(&mut dev, &mut ram, 0, DESC_F_WRITE, 4);
    dev.write(0x050, 0, 4, &mut ram).unwrap();
    assert_eq!(ram.read(0x3002, 2), Ok(0));
    assert!(dev.input(b"hello", &mut ram));
    assert_eq!(ram.read_slice(0x4000, 4).unwrap(), b"hell");
    assert_eq!(ram.read(0x3008, 4), Ok(4));
    assert!(dev.irq_pending());
    assert_eq!(dev.input.len(), 1);
}

#[test]
fn transmit_retries_after_host_drains_full_buffer() {
    let mut dev = VirtioConsole::default();
    let mut ram = Ram::new(0x10000);
    configure(&mut dev, &mut ram, 1, 0, 4);
    ram.write_slice(0x4000, b"okay").unwrap();
    dev.output.resize(CAPACITY, 0);
    dev.write(0x050, 1, 4, &mut ram).unwrap();
    assert_eq!(ram.read(0x3002, 2), Ok(0));
    assert_eq!(dev.output(&mut ram).len(), CAPACITY);
    assert_eq!(dev.output(&mut ram), b"okay");
    assert_eq!(ram.read(0x3002, 2), Ok(1));
    assert_eq!(ram.read(0x3008, 4), Ok(0));
}

#[test]
fn invalid_chains_cannot_consume_input_or_read_mmio() {
    for (queue, flags, address) in [
        (0, 0, DRAM_BASE + 0x4000),
        (1, DESC_F_WRITE, DRAM_BASE + 0x4000),
        (1, 0, 0x1000_0000),
    ] {
        let mut dev = VirtioConsole::default();
        let mut ram = Ram::new(0x10000);
        configure(&mut dev, &mut ram, queue, flags, 4);
        ram.write(0x1000, address, 8).unwrap();
        dev.input.extend(b"keep");
        dev.write(0x050, queue, 4, &mut ram).unwrap();
        assert_eq!(dev.input.len(), 4);
        assert!(dev.output(&mut ram).is_empty());
        assert_eq!(ram.read(0x4000, 4), Ok(0));
    }
}

#[test]
fn snapshot_preserves_pending_bytes_and_reset_discards_them() {
    let mut dev = VirtioConsole::default();
    let mut ram = Ram::new(0x10000);
    assert!(dev.input(b"request", &mut ram));
    assert!(!dev.input(&vec![0; CAPACITY], &mut ram));
    dev.output.extend(b"reply");
    let mut writer = Writer::new();
    dev.snapshot(&mut writer);
    let bytes = writer.into_bytes();
    let mut restored = VirtioConsole::default();
    restored.restore(&mut Reader::new(&bytes)).unwrap();
    assert_eq!(restored.input, dev.input);
    assert_eq!(restored.output(&mut ram), b"reply");
    restored.write(0x070, 0, 4, &mut ram).unwrap();
    assert!(restored.input.is_empty());
    assert!(restored.output(&mut ram).is_empty());
}
