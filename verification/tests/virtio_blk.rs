use std::sync::atomic::{AtomicUsize, Ordering};
use std::sync::Arc;

use emulate_core::bus::DRAM_BASE;
use emulate_core::devices::sparse_block::SparseMemBackend;
use emulate_core::devices::virtio_blk::{
    BLK_CONFIG_SIZE_MAX, BLK_F_SIZE_MAX, BLK_T_FLUSH, BLK_T_IN, BLK_T_OUT, BlockBackend,
    BlockError, MAX_REQUEST_BYTES, Storage, VirtioBlock, Volume,
};
use emulate_core::devices::virtio_mmio::MAGIC;
use emulate_core::devices::virtqueue::{DESC_F_NEXT, DESC_F_WRITE};
use emulate_core::ram::Ram;

const DESC: u64 = DRAM_BASE + 0x1000;
const AVAIL: u64 = DRAM_BASE + 0x2000;
const USED: u64 = DRAM_BASE + 0x3000;
const HEADER: u64 = DRAM_BASE + 0x4000;
const DATA: u64 = DRAM_BASE + 0x5000;
const STATUS: u64 = DRAM_BASE + 0x6000;
const DATA_2: u64 = DRAM_BASE + 0x7000;

fn write_desc(ram: &mut Ram, index: u16, addr: u64, len: u32, flags: u16, next: u16) {
    let at = DESC + index as u64 * 16;
    ram.write(at - DRAM_BASE, addr, 8).unwrap();
    ram.write(at + 8 - DRAM_BASE, len as u64, 4).unwrap();
    ram.write(at + 12 - DRAM_BASE, flags as u64, 2).unwrap();
    ram.write(at + 14 - DRAM_BASE, next as u64, 2).unwrap();
}

fn configure(
    dev: &mut VirtioBlock,
    ram: &mut Ram,
    request_type: u32,
    sector: u64,
    data_flags: u16,
) {
    dev.write(0x038, 8, 4, ram).unwrap();
    dev.write(0x080, DESC as u32 as u64, 4, ram).unwrap();
    dev.write(0x084, (DESC >> 32) as u32 as u64, 4, ram)
        .unwrap();
    dev.write(0x090, AVAIL as u32 as u64, 4, ram).unwrap();
    dev.write(0x094, (AVAIL >> 32) as u32 as u64, 4, ram)
        .unwrap();
    dev.write(0x0a0, USED as u32 as u64, 4, ram).unwrap();
    dev.write(0x0a4, (USED >> 32) as u32 as u64, 4, ram)
        .unwrap();
    dev.write(0x044, 1, 4, ram).unwrap();
    ram.write(HEADER - DRAM_BASE, request_type as u64, 4)
        .unwrap();
    ram.write(HEADER + 8 - DRAM_BASE, sector, 8).unwrap();
    write_desc(ram, 0, HEADER, 16, DESC_F_NEXT, 1);
    write_desc(ram, 1, DATA, 512, data_flags | DESC_F_NEXT, 2);
    write_desc(ram, 2, STATUS, 1, DESC_F_WRITE, 0);
    ram.write(AVAIL + 4 - DRAM_BASE, 0, 2).unwrap();
    ram.write(AVAIL + 2 - DRAM_BASE, 1, 2).unwrap();
}

#[test]
fn identity_capacity_and_reset() {
    let mut dev = VirtioBlock::new();
    let mut ram = Ram::new(0x10000);
    dev.set_disk(&vec![0; 1024]);
    assert_eq!(dev.read(0, 4).unwrap(), MAGIC as u64);
    assert_eq!(dev.read(4, 4).unwrap(), 2);
    assert_eq!(dev.read(8, 4).unwrap(), 2);
    assert_eq!(dev.read(0x100, 8).unwrap(), 2);
    dev.write(0x070, 15, 4, &mut ram).unwrap();
    assert_eq!(dev.read(0x070, 4).unwrap(), 15);
    dev.write(0x070, 0, 4, &mut ram).unwrap();
    assert_eq!(dev.read(0x070, 4).unwrap(), 0);
    assert_eq!(dev.read(0x044, 4).unwrap(), 0);
}

#[test]
fn read_request_completes_and_interrupts() {
    let mut dev = VirtioBlock::new();
    let mut ram = Ram::new(0x10000);
    let mut disk = vec![0; 1024];
    disk[512..1024].fill(0xa5);
    dev.set_disk(&disk);
    configure(&mut dev, &mut ram, BLK_T_IN, 1, DESC_F_WRITE);
    dev.write(0x050, 0, 4, &mut ram).unwrap();
    assert_eq!(ram.read(DATA - DRAM_BASE, 1).unwrap(), 0xa5);
    assert_eq!(ram.read(STATUS - DRAM_BASE, 1).unwrap(), 0);
    assert_eq!(ram.read(USED + 2 - DRAM_BASE, 2).unwrap(), 1);
    assert_eq!(ram.read(USED + 4 - DRAM_BASE, 4).unwrap(), 0);
    assert_eq!(ram.read(USED + 8 - DRAM_BASE, 4).unwrap(), 512);
    assert!(dev.irq_pending());
    dev.write(0x064, 1, 4, &mut ram).unwrap();
    assert!(!dev.irq_pending());
}

#[test]
fn byte_counters_advance_for_reads_and_writes() {
    let mut dev = VirtioBlock::new();
    let mut ram = Ram::new(0x10000);
    dev.set_disk(&vec![0; 1024]);
    assert_eq!(dev.bytes_read(), 0);
    assert_eq!(dev.bytes_written(), 0);

    configure(&mut dev, &mut ram, BLK_T_IN, 1, DESC_F_WRITE);
    dev.write(0x050, 0, 4, &mut ram).unwrap();
    assert_eq!(dev.bytes_read(), 512);
    assert_eq!(dev.bytes_written(), 0);

    // A second request needs a fresh ring (`configure` always republishes
    // avail index 1), so exercise the write direction on its own device.
    let mut writer = VirtioBlock::new();
    writer.set_disk(&vec![0; 1024]);
    configure(&mut writer, &mut ram, BLK_T_OUT, 0, 0);
    writer.write(0x050, 0, 4, &mut ram).unwrap();
    assert_eq!(writer.bytes_written(), 512);
    assert_eq!(writer.bytes_read(), 0);
}

#[test]
fn read_request_bumps_data_page_generation_once() {
    let mut dev = VirtioBlock::new();
    let mut ram = Ram::new(0x10000);
    dev.set_disk(&vec![0xa5; 1024]);
    configure(&mut dev, &mut ram, BLK_T_IN, 1, DESC_F_WRITE);
    let data_page = (DATA - DRAM_BASE) >> 12;
    let generation = ram.generation_for_page(data_page).unwrap();

    dev.write(0x050, 0, 4, &mut ram).unwrap();

    assert_eq!(ram.generation_for_page(data_page), Some(generation + 1));
}

#[test]
fn write_request_updates_disk() {
    let mut dev = VirtioBlock::new();
    let mut ram = Ram::new(0x10000);
    dev.set_disk(&vec![0; 1024]);
    configure(&mut dev, &mut ram, BLK_T_OUT, 0, 0);
    for i in 0..512 {
        ram.write(DATA - DRAM_BASE + i, i & 0xff, 1).unwrap();
    }
    dev.write(0x050, 0, 4, &mut ram).unwrap();
    assert_eq!(read_back(&mut dev, 0, 4), [0, 1, 2, 3]);
    assert_eq!(ram.read(STATUS - DRAM_BASE, 1).unwrap(), 0);
}

#[test]
fn read_request_supports_multiple_data_descriptors() {
    let mut dev = VirtioBlock::new();
    let mut ram = Ram::new(0x10000);
    let mut disk = vec![0; 1024];
    for (i, byte) in disk[512..].iter_mut().enumerate() {
        *byte = i as u8;
    }
    dev.set_disk(&disk);
    configure(&mut dev, &mut ram, BLK_T_IN, 1, DESC_F_WRITE);
    write_desc(&mut ram, 1, DATA, 256, DESC_F_WRITE | DESC_F_NEXT, 3);
    write_desc(&mut ram, 3, DATA_2, 256, DESC_F_WRITE | DESC_F_NEXT, 2);

    dev.write(0x050, 0, 4, &mut ram).unwrap();

    assert_eq!(ram.read(DATA - DRAM_BASE + 255, 1).unwrap(), 255);
    assert_eq!(ram.read(DATA_2 - DRAM_BASE, 1).unwrap(), 0);
    assert_eq!(ram.read(DATA_2 - DRAM_BASE + 255, 1).unwrap(), 255);
    assert_eq!(ram.read(USED + 8 - DRAM_BASE, 4).unwrap(), 512);
    assert_eq!(ram.read(STATUS - DRAM_BASE, 1).unwrap(), 0);
}

#[test]
fn write_request_supports_multiple_data_descriptors() {
    let mut dev = VirtioBlock::new();
    let mut ram = Ram::new(0x10000);
    dev.set_disk(&vec![0; 1024]);
    configure(&mut dev, &mut ram, BLK_T_OUT, 1, 0);
    write_desc(&mut ram, 1, DATA, 256, DESC_F_NEXT, 3);
    write_desc(&mut ram, 3, DATA_2, 256, DESC_F_NEXT, 2);
    for i in 0..256 {
        ram.write(DATA - DRAM_BASE + i, i, 1).unwrap();
        ram.write(DATA_2 - DRAM_BASE + i, 255 - i, 1).unwrap();
    }

    dev.write(0x050, 0, 4, &mut ram).unwrap();

    assert_eq!(read_back(&mut dev, 512, 4), [0, 1, 2, 3]);
    assert_eq!(read_back(&mut dev, 768, 4), [255, 254, 253, 252]);
    assert_eq!(ram.read(STATUS - DRAM_BASE, 1).unwrap(), 0);
}

/// `len` bytes at byte `offset` of the in-memory disk, taken through its
/// ordinary sector path.
fn read_back(dev: &mut VirtioBlock, offset: usize, len: usize) -> Vec<u8> {
    let first = offset / 512;
    let start = offset % 512;
    let sectors = (start + len).div_ceil(512);
    let mut buf = vec![0; sectors * 512];
    match &mut dev.backend {
        Some(Storage::Memory(disk)) => disk.read_at(first as u64, &mut buf).unwrap(),
        _ => panic!("no in-memory disk"),
    }
    buf[start..start + len].to_vec()
}

struct FlushBackend {
    flushes: Arc<AtomicUsize>,
}

impl BlockBackend for FlushBackend {
    fn volume(&self) -> Volume {
        unreachable!()
    }

    fn intact(&self) -> bool {
        true
    }

    fn capacity_sectors(&self) -> u64 {
        2
    }

    fn read_at(&mut self, _sector: u64, _buf: &mut [u8]) -> Result<(), BlockError> {
        Ok(())
    }

    fn write_at(&mut self, _sector: u64, _buf: &[u8]) -> Result<(), BlockError> {
        Ok(())
    }

    fn flush(&mut self) -> Result<(), BlockError> {
        self.flushes.fetch_add(1, Ordering::Relaxed);
        Ok(())
    }
}

#[test]
fn flush_request_reaches_backend() {
    let flushes = Arc::new(AtomicUsize::new(0));
    let mut dev = VirtioBlock::new();
    dev.set_backend(Box::new(FlushBackend {
        flushes: Arc::clone(&flushes),
    }));
    let mut ram = Ram::new(0x10000);
    configure(&mut dev, &mut ram, BLK_T_FLUSH, 0, 0);
    write_desc(&mut ram, 0, HEADER, 16, DESC_F_NEXT, 2);

    dev.write(0x050, 0, 4, &mut ram).unwrap();

    assert_eq!(flushes.load(Ordering::Relaxed), 1);
    assert_eq!(ram.read(STATUS - DRAM_BASE, 1).unwrap(), 0);
    assert_eq!(ram.read(USED + 8 - DRAM_BASE, 4).unwrap(), 0);
}

/// Without a visible `size_max` Linux builds requests up to its 1280 KiB
/// `max_sectors` default and takes an unrecoverable EIO mid-write. The
/// enforced bound, the published bound and the feature bit must agree.
#[test]
fn published_size_max_matches_the_request_bound() {
    let dev = VirtioBlock::new();

    // DeviceFeaturesSel = 0, then DeviceFeatures.
    assert_eq!(dev.read(0x014, 4), Ok(0));
    let features = dev.read(0x010, 4).unwrap();
    assert_ne!(
        features & (1 << BLK_F_SIZE_MAX),
        0,
        "VIRTIO_BLK_F_SIZE_MAX must be offered, or size_max is ignored"
    );
    assert_eq!(
        dev.read(BLK_CONFIG_SIZE_MAX, 4),
        Ok(MAX_REQUEST_BYTES as u64)
    );
    // Comfortably above Linux's BLK_DEF_MAX_SECTORS_CAP (1280 KiB), which
    // is what a request would otherwise grow to.
    assert!(MAX_REQUEST_BYTES >= 1024 * 1024);
}

#[test]
fn unknown_request_writes_ioerr_status() {
    let mut dev = VirtioBlock::new();
    let mut ram = Ram::new(0x10000);
    dev.set_disk(&vec![0; 1024]);
    configure(&mut dev, &mut ram, 99, 0, 0);
    ram.write(STATUS - DRAM_BASE, 0xaa, 1).unwrap();

    dev.write(0x050, 0, 4, &mut ram).unwrap();

    assert_eq!(ram.read(STATUS - DRAM_BASE, 1).unwrap(), 1);
}

struct ErrorBackend;

impl BlockBackend for ErrorBackend {
    fn volume(&self) -> Volume {
        unreachable!()
    }

    fn intact(&self) -> bool {
        true
    }

    fn capacity_sectors(&self) -> u64 {
        2
    }

    fn read_at(&mut self, _sector: u64, _buf: &mut [u8]) -> Result<(), BlockError> {
        Err(BlockError::Io)
    }

    fn write_at(&mut self, _sector: u64, _buf: &[u8]) -> Result<(), BlockError> {
        Err(BlockError::Io)
    }

    fn flush(&mut self) -> Result<(), BlockError> {
        Err(BlockError::Io)
    }
}

#[test]
fn backend_error_writes_ioerr_status() {
    let mut dev = VirtioBlock::new();
    dev.set_backend(Box::new(ErrorBackend));
    let mut ram = Ram::new(0x10000);
    configure(&mut dev, &mut ram, BLK_T_IN, 0, DESC_F_WRITE);

    dev.write(0x050, 0, 4, &mut ram).unwrap();

    assert_eq!(ram.read(STATUS - DRAM_BASE, 1).unwrap(), 1);
    assert_eq!(ram.read(USED + 8 - DRAM_BASE, 4).unwrap(), 0);
}

#[test]
fn bogus_avail_idx_is_rejected_without_replaying_the_ring() {
    let mut dev = VirtioBlock::new();
    let mut ram = Ram::new(0x10000);
    let mut disk = vec![0; 1024];
    disk[512..1024].fill(0xa5);
    dev.set_disk(&disk);
    configure(&mut dev, &mut ram, BLK_T_IN, 1, DESC_F_WRITE);
    // A driver may never have more than queue_num (8) chains outstanding.
    ram.write(AVAIL + 2 - DRAM_BASE, 40_000, 2).unwrap();

    dev.write(0x050, 0, 4, &mut ram).unwrap();

    // Nothing published, no interrupt, and crucially the call returned.
    assert_eq!(ram.read(USED + 2 - DRAM_BASE, 2).unwrap(), 0);
    assert!(!dev.irq_pending());

    // A subsequent notify with a sane index still works.
    ram.write(AVAIL + 2 - DRAM_BASE, 1, 2).unwrap();
    dev.write(0x050, 0, 4, &mut ram).unwrap();
    assert_eq!(ram.read(USED + 2 - DRAM_BASE, 2).unwrap(), 1);
    assert_eq!(ram.read(STATUS - DRAM_BASE, 1).unwrap(), 0);
    assert!(dev.irq_pending());
}

#[test]
fn full_queue_backlog_is_capped_at_queue_num_chains() {
    let mut dev = VirtioBlock::new();
    let mut ram = Ram::new(0x10000);
    dev.set_disk(&vec![0; 1024]);
    configure(&mut dev, &mut ram, BLK_T_IN, 1, DESC_F_WRITE);
    // Eight identical chain heads, i.e. the largest legal backlog.
    for slot in 0..8u64 {
        ram.write(AVAIL + 4 - DRAM_BASE + slot * 2, 0, 2).unwrap();
    }
    ram.write(AVAIL + 2 - DRAM_BASE, 8, 2).unwrap();

    dev.write(0x050, 0, 4, &mut ram).unwrap();

    assert_eq!(ram.read(USED + 2 - DRAM_BASE, 2).unwrap(), 8);
}

#[test]
fn chain_without_writable_status_publishes_nothing() {
    let mut dev = VirtioBlock::new();
    let mut ram = Ram::new(0x10000);
    dev.set_disk(&vec![0; 1024]);
    configure(&mut dev, &mut ram, BLK_T_IN, 1, DESC_F_WRITE);
    // Status descriptor is device-readable: there is nowhere to report a
    // result, so no used entry may be published.
    write_desc(&mut ram, 2, STATUS, 1, 0, 0);
    ram.write(STATUS - DRAM_BASE, 0xaa, 1).unwrap();

    dev.write(0x050, 0, 4, &mut ram).unwrap();

    assert_eq!(ram.read(USED + 2 - DRAM_BASE, 2).unwrap(), 0);
    assert!(!dev.irq_pending());
    assert_eq!(ram.read(STATUS - DRAM_BASE, 1).unwrap(), 0xaa);

    // The queue did not wedge: the next chain is still processed.
    ram.write(AVAIL + 2 - DRAM_BASE, 2, 2).unwrap();
    ram.write(AVAIL + 6 - DRAM_BASE, 0, 2).unwrap();
    write_desc(&mut ram, 2, STATUS, 1, DESC_F_WRITE, 0);
    dev.write(0x050, 0, 4, &mut ram).unwrap();
    assert_eq!(ram.read(USED + 2 - DRAM_BASE, 2).unwrap(), 1);
    assert_eq!(ram.read(STATUS - DRAM_BASE, 1).unwrap(), 0);
}

#[test]
fn bad_data_address_still_writes_ioerr_status() {
    let mut dev = VirtioBlock::new();
    let mut ram = Ram::new(0x10000);
    dev.set_disk(&vec![0; 1024]);
    configure(&mut dev, &mut ram, BLK_T_IN, 1, DESC_F_WRITE);
    // Data buffer points outside RAM; the status descriptor is fine.
    write_desc(
        &mut ram,
        1,
        DRAM_BASE + 0x8000_0000,
        512,
        DESC_F_WRITE | DESC_F_NEXT,
        2,
    );
    ram.write(STATUS - DRAM_BASE, 0xaa, 1).unwrap();

    dev.write(0x050, 0, 4, &mut ram).unwrap();

    assert_eq!(ram.read(USED + 2 - DRAM_BASE, 2).unwrap(), 1);
    assert_eq!(ram.read(USED + 8 - DRAM_BASE, 4).unwrap(), 0);
    assert_eq!(ram.read(STATUS - DRAM_BASE, 1).unwrap(), 1);
    assert!(dev.irq_pending());
}

#[test]
fn malformed_header_still_writes_ioerr_status() {
    let mut dev = VirtioBlock::new();
    let mut ram = Ram::new(0x10000);
    dev.set_disk(&vec![0; 1024]);
    configure(&mut dev, &mut ram, BLK_T_IN, 1, DESC_F_WRITE);
    write_desc(&mut ram, 0, HEADER, 8, DESC_F_NEXT, 1);
    ram.write(STATUS - DRAM_BASE, 0xaa, 1).unwrap();

    dev.write(0x050, 0, 4, &mut ram).unwrap();

    assert_eq!(ram.read(STATUS - DRAM_BASE, 1).unwrap(), 1);
    assert_eq!(ram.read(USED + 2 - DRAM_BASE, 2).unwrap(), 1);
    assert_eq!(ram.read(USED + 8 - DRAM_BASE, 4).unwrap(), 0);
}

#[test]
fn sole_writable_descriptor_gets_ioerr_status() {
    let mut dev = VirtioBlock::new();
    let mut ram = Ram::new(0x10000);
    dev.set_disk(&vec![0; 1024]);
    configure(&mut dev, &mut ram, BLK_T_IN, 1, DESC_F_WRITE);
    write_desc(&mut ram, 0, STATUS, 1, DESC_F_WRITE, 0);
    ram.write(STATUS - DRAM_BASE, 0xaa, 1).unwrap();

    dev.write(0x050, 0, 4, &mut ram).unwrap();

    assert_eq!(ram.read(STATUS - DRAM_BASE, 1).unwrap(), 1);
    assert_eq!(ram.read(USED + 2 - DRAM_BASE, 2).unwrap(), 1);
    assert_eq!(ram.read(USED + 8 - DRAM_BASE, 4).unwrap(), 0);
}

#[test]
fn out_of_ram_status_publishes_nothing() {
    let mut dev = VirtioBlock::new();
    let mut ram = Ram::new(0x10000);
    dev.set_disk(&vec![0; 1024]);
    configure(&mut dev, &mut ram, BLK_T_IN, 1, DESC_F_WRITE);
    let end_of_ram = DRAM_BASE + ram.size();
    write_desc(&mut ram, 2, end_of_ram, 1, DESC_F_WRITE, 0);

    dev.write(0x050, 0, 4, &mut ram).unwrap();

    assert_eq!(ram.read(USED + 2 - DRAM_BASE, 2).unwrap(), 0);
    assert!(!dev.irq_pending());
}

#[test]
fn oversized_request_writes_ioerr_status() {
    let mut dev = VirtioBlock::new();
    let mut ram = Ram::new(0x10000);
    dev.set_disk(&vec![0; 1024]);
    configure(&mut dev, &mut ram, BLK_T_IN, 0, DESC_F_WRITE);
    let oversized = (MAX_REQUEST_BYTES + 1) as u32;
    write_desc(&mut ram, 1, DATA, oversized, DESC_F_WRITE | DESC_F_NEXT, 2);
    ram.write(STATUS - DRAM_BASE, 0xaa, 1).unwrap();

    dev.write(0x050, 0, 4, &mut ram).unwrap();

    assert_eq!(ram.read(STATUS - DRAM_BASE, 1).unwrap(), 1);
    assert_eq!(ram.read(USED + 2 - DRAM_BASE, 2).unwrap(), 1);
    assert_eq!(ram.read(USED + 8 - DRAM_BASE, 4).unwrap(), 0);
    assert_eq!(dev.scratch.capacity(), 0);
}

#[test]
fn a_write_puts_nothing_into_guest_buffers() {
    let mut dev = VirtioBlock::new();
    let mut ram = Ram::new(0x10000);
    dev.set_disk(&vec![0; 1024]);
    configure(&mut dev, &mut ram, BLK_T_OUT, 1, 0);
    ram.write(DATA - DRAM_BASE, 0x5a, 1).unwrap();
    dev.write(0x050, 0, 4, &mut ram).unwrap();
    assert_eq!(ram.read(STATUS - DRAM_BASE, 1).unwrap(), 0);
    assert_eq!(ram.read(USED + 2 - DRAM_BASE, 2).unwrap(), 1);
    assert_eq!(ram.read(USED + 8 - DRAM_BASE, 4).unwrap(), 0);
    assert_eq!(dev.bytes_written(), 512);
    assert_eq!(read_back(&mut dev, 512, 1), [0x5a]);
}

#[test]
fn storage_of_the_host_gives_back_what_was_written() {
    let mut dev = VirtioBlock::new();
    let mut ram = Ram::new(0x10000);
    dev.set_backend(Box::new(SparseMemBackend::new(8192).unwrap()));
    assert_eq!(dev.read(0x100, 8), Ok(16));
    assert_eq!(dev.host_write(9, &[7; 512]), Ok(()));
    assert_eq!(dev.host_write(16, &[7; 512]), Err(BlockError::OutOfRange));
    configure(&mut dev, &mut ram, BLK_T_IN, 9, DESC_F_WRITE);
    dev.write(0x050, 0, 4, &mut ram).unwrap();
    assert_eq!(ram.read(STATUS - DRAM_BASE, 1).unwrap(), 0);
    assert_eq!(ram.read(USED + 8 - DRAM_BASE, 4).unwrap(), 512);
    assert_eq!(ram.read_slice(DATA - DRAM_BASE, 512).unwrap(), [7; 512]);
    assert_eq!(dev.flush(), Ok(()));

    let mut bare = VirtioBlock::new();
    assert_eq!(bare.flush(), Err(BlockError::Io));
    assert_eq!(bare.host_write(0, &[1]), Err(BlockError::Io));
}
