use emulate_core::bus::{Bus, FB_BLITTER_BASE};
use emulate_core::devices::framebuffer::{
    FB_BYTES, FB_FIRST_PAGE, FB_HEIGHT, FB_MACHINE_RAM_BYTES, FB_PAGES_PER_ROW, FB_RAM_OFFSET,
    FB_STRIDE, FB_WIDTH, FramebufferView, row_to_rgba,
};
use emulate_core::devices::framebuffer_blitter::{FramebufferBlitter, ID, STRIDE};
use emulate_core::snapshot::{Reader, Writer};

/// The display side of a machine: a bus and what the host last painted.
struct Machine {
    bus: Bus,
    view: FramebufferView,
}

impl Machine {
    fn new_system(ram_size: usize) -> Self {
        Machine { bus: Bus::new(ram_size), view: FramebufferView::new() }
    }

    /// The rows to repaint: those presented, or until something was those
    /// written to, each over the pages it spans.
    fn framebuffer_dirty_rows(&mut self, rows: &mut Vec<u32>) {
        if self.bus.framebuffer_blitter.take_geometry_changed() {
            self.view.mark_all_dirty();
        }
        if self.bus.framebuffer_blitter.committed() {
            let height = self.bus.framebuffer_blitter.size().1 as usize;
            self.view.scan(&self.bus.framebuffer_blitter.generations()[..height], rows);
        } else {
            let pages = FB_HEIGHT as usize * FB_PAGES_PER_ROW;
            let generations: Vec<u64> = self
                .bus
                .ram
                .page_generations(FB_FIRST_PAGE, pages)
                .chunks(FB_PAGES_PER_ROW)
                .map(|row| row.iter().sum())
                .collect();
            self.view.scan(&generations, rows);
        }
    }

    /// Presented rows as RGBA, one after the other; how much was filled in.
    fn framebuffer_copy_rows_rgba(&self, rows: &[u32], out: &mut [u8]) -> usize {
        let width = self.bus.framebuffer_blitter.size().0 as usize * 4;
        let mut filled = 0;
        for (row, line) in rows.iter().zip(out.chunks_mut(width)) {
            row_to_rgba(self.bus.framebuffer_blitter.row(*row), line);
            filled += line.len();
        }
        filled
    }
}

fn submit(bus: &mut Bus, registers: [u32; 7]) -> u64 {
    for (index, value) in registers.iter().enumerate().skip(1) {
        bus.write(FB_BLITTER_BASE + 4 + index as u64 * 4, *value as u64, 4)
            .unwrap();
    }
    bus.write(FB_BLITTER_BASE + 4, registers[0] as u64, 4)
        .unwrap();
    bus.read(FB_BLITTER_BASE + 4, 4).unwrap()
}

#[test]
fn resolution_changes_commit_with_pixels_and_survive_restore() {
    let mut machine = Machine::new_system(FB_MACHINE_RAM_BYTES as usize);
    let bus = &mut machine.bus;
    assert!(bus.framebuffer_blitter.request_size(0, 900).is_err());
    assert!(bus.framebuffer_blitter.request_size(2049, 900).is_err());
    bus.framebuffer_blitter.request_size(1440, 900).unwrap();
    assert_eq!(bus.read(FB_BLITTER_BASE + 32, 4), Ok(1440));
    assert_eq!(bus.read(FB_BLITTER_BASE + 36, 4), Ok(900));
    assert!(bus
        .framebuffer_blitter
        .write(32, 1, 4, &mut bus.ram)
        .is_err());
    bus.framebuffer_blitter
        .write(40, (900 << 16) | 1440, 4, &mut bus.ram)
        .unwrap();
    assert_eq!(bus.framebuffer_blitter.size(), (FB_WIDTH, FB_HEIGHT));
    bus.ram
        .write(
            FB_RAM_OFFSET + 899 * FB_STRIDE as u64 + 1439 * 4,
            0x00123456,
            4,
        )
        .unwrap();
    bus.framebuffer_blitter
        .write(4, 3, 4, &mut bus.ram)
        .unwrap();
    assert_eq!(bus.framebuffer_blitter.size(), (1440, 900));
    let mut rows = Vec::new();
    machine.framebuffer_dirty_rows(&mut rows);
    assert_eq!(rows.len(), 900);
    let mut rgba = vec![0; 1440 * 4];
    assert_eq!(
        machine.framebuffer_copy_rows_rgba(&[899], &mut rgba),
        rgba.len()
    );
    assert_eq!(&rgba[1439 * 4..], &[0x12, 0x34, 0x56, 255]);
    let mut writer = Writer::new();
    machine.bus.framebuffer_blitter.snapshot(&mut writer);
    let bytes = writer.into_bytes();
    let mut restored = FramebufferBlitter::default();
    restored.restore(&mut Reader::new(&bytes)).unwrap();
    assert_eq!(restored.size(), (1440, 900));
    assert_eq!(restored.read(32, 4), Ok(1440));
}

#[test]
fn writes_in_either_page_dirty_the_same_scanline() {
    let mut machine =
        Machine::new_system(FB_MACHINE_RAM_BYTES as usize);
    let mut rows = Vec::new();
    machine.framebuffer_dirty_rows(&mut rows);
    for column in [0, 1200] {
        rows.clear();
        machine
            .bus
            .ram
            .write(FB_RAM_OFFSET + 7 * FB_STRIDE as u64 + column * 4, 1, 4)
            .unwrap();
        machine.framebuffer_dirty_rows(&mut rows);
        assert_eq!(rows, [7]);
    }
}

#[test]
fn presentation_hides_partial_draws_and_survives_snapshot() {
    let mut bus = Bus::new(FB_MACHINE_RAM_BYTES as usize);
    bus.ram.write_slice(FB_RAM_OFFSET, &[1, 2, 3, 4]).unwrap();
    submit(&mut bus, [3, 0, 0, 0, 0, 0, 0]);
    bus.ram.write_slice(FB_RAM_OFFSET, &[9, 8, 7, 6]).unwrap();
    assert_eq!(&bus.framebuffer_blitter.row(0)[..4], &[1, 2, 3, 4]);
    let mut writer = Writer::new();
    bus.framebuffer_blitter.snapshot(&mut writer);
    let bytes = writer.into_bytes();
    let mut restored = FramebufferBlitter::default();
    restored.restore(&mut Reader::new(&bytes)).unwrap();
    assert_eq!(&restored.row(0)[..4], &[1, 2, 3, 4]);
    restored.present(&bus.ram).unwrap();
    assert_eq!(&restored.row(0)[..4], &[9, 8, 7, 6]);
    submit(&mut bus, [4, 0, 0, 0, 0, 0, 0]);
    assert!(!bus.framebuffer_blitter.committed());
}

#[test]
fn overlapping_copies_match_an_unchanging_source_in_every_direction() {
    let mut bus = Bus::new(FB_MACHINE_RAM_BYTES as usize);
    let initial: Vec<u8> = (0..STRIDE * 8)
        .map(|i| (i * 17 + i / STRIDE) as u8)
        .collect();
    for (source, destination) in [(4, 16), (16, 4), (4, STRIDE + 16), (STRIDE + 16, 4)] {
        for mask in [u32::MAX, 0x00ff_ffff, 0x3333_cccc] {
            bus.ram.load_blob(FB_RAM_OFFSET, &initial).unwrap();
            let mut expected = initial.clone();
            for y in 0..6 {
                for x in 0..256 {
                    let src = source + y * STRIDE + x;
                    let dst = destination + y * STRIDE + x;
                    let byte_mask = mask.to_le_bytes()[x % 4];
                    expected[dst] = (initial[src] & byte_mask) | (initial[dst] & !byte_mask);
                }
            }
            assert_eq!(
                submit(
                    &mut bus,
                    [1, source as u32, destination as u32, 256, 6, mask, 0]
                ),
                0
            );
            assert_eq!(
                bus.ram.read_slice(FB_RAM_OFFSET, initial.len()).unwrap(),
                expected
            );
        }
    }
}

#[test]
fn fills_apply_raster_masks_and_mark_only_destination_rows_dirty() {
    let mut bus = Bus::new(FB_MACHINE_RAM_BYTES as usize);
    bus.ram
        .load_blob(FB_RAM_OFFSET, &vec![0x55; STRIDE * 4])
        .unwrap();
    for (and, xor) in [(0, 0x1234_5678), (0xff00_ff00, 0xabcd_ef01)] {
        let old = bus.ram.read(FB_RAM_OFFSET + STRIDE as u64 + 4, 4).unwrap() as u32;
        let generations = bus.ram.page_generations(FB_FIRST_PAGE, 8).to_vec();
        assert_eq!(
            submit(&mut bus, [2, 0, STRIDE as u32 + 4, 8, 2, and, xor]),
            0
        );
        for y in 1..3 {
            for x in [4, 8] {
                assert_eq!(
                    bus.ram.read(FB_RAM_OFFSET + (y * STRIDE + x) as u64, 4),
                    Ok(((old & and) ^ xor) as u64)
                );
            }
            assert_eq!(
                bus.ram.read(FB_RAM_OFFSET + (y * STRIDE) as u64, 4),
                Ok(0x5555_5555)
            );
            assert_eq!(
                bus.ram.read(FB_RAM_OFFSET + (y * STRIDE + 12) as u64, 4),
                Ok(0x5555_5555)
            );
        }
        let after = bus.ram.page_generations(FB_FIRST_PAGE, 8);
        for (page, (&before, &after)) in generations.iter().zip(after).enumerate() {
            assert_eq!(after, before + u64::from(page == 2 || page == 4));
        }
    }
}

#[test]
fn invalid_commands_leave_the_framebuffer_untouched() {
    let mut bus = Bus::new(FB_MACHINE_RAM_BYTES as usize);
    for registers in [
        [0, 0, 0, 4, 1, 0, 1],
        [1, u32::MAX, 0, 4, 1, u32::MAX, 0],
        [2, 0, u32::MAX, 4, 1, 0, 1],
        [2, 0, 1, 4, 1, 0, 1],
        [2, 0, 0, u32::MAX, 1, 0, 1],
        [2, 0, 0, 4, u32::MAX, 0, 1],
        [2, 0, STRIDE as u32 - 4, 8, 1, 0, 1],
        [2, 0, FB_BYTES as u32 - 4, 4, 2, 0, 1],
        [2, 0, 0, 0, 1, 0, 1],
        [2, 0, 0, 4, 0, 0, 1],
    ] {
        assert_eq!(submit(&mut bus, registers), 1);
    }
    assert!(bus
        .ram
        .page_generations(FB_FIRST_PAGE, 768)
        .iter()
        .all(|&g| g == 0));
    let mut small_bus = Bus::new(4096);
    assert_eq!(submit(&mut small_bus, [2, 0, 0, 4, 1, 0, 1]), 1);
}

#[test]
fn register_access_and_snapshot_preserve_a_partially_submitted_command() {
    let mut bus = Bus::new(FB_MACHINE_RAM_BYTES as usize);
    assert_eq!(bus.read(FB_BLITTER_BASE, 4), Ok(ID as u64));
    assert!(bus.read(FB_BLITTER_BASE, 8).is_err());
    assert!(bus.write(FB_BLITTER_BASE + 5, 1, 4).is_err());
    assert!(bus.write(FB_BLITTER_BASE, 1, 4).is_err());
    assert!(bus.write_accessible(FB_BLITTER_BASE + 28, 4));
    for (offset, value) in [(12, 4), (16, 4), (20, 1), (28, 0x1234_5678)] {
        bus.write(FB_BLITTER_BASE + offset, value, 4).unwrap();
    }
    let mut writer = Writer::new();
    bus.framebuffer_blitter.snapshot(&mut writer);
    let bytes = writer.into_bytes();
    let mut restored = FramebufferBlitter::default();
    restored.restore(&mut Reader::new(&bytes)).unwrap();
    restored.write(4, 2, 4, &mut bus.ram).unwrap();
    assert_eq!(bus.ram.read(FB_RAM_OFFSET + 4, 4), Ok(0x1234_5678));
}
