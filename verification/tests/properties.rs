use emulate_core::bus::{
    Bus, CLINT_BASE, CLINT_SIZE, DRAM_BASE, FB_BLITTER_BASE, FB_BLITTER_SIZE, PLIC_BASE, PLIC_SIZE,
    RTC_BASE, RTC_SIZE, SIMPLE_IRQ_BASE, SIMPLE_IRQ_SIZE, TEST_BASE, TEST_SIZE, UART_BASE,
    UART_SIZE, VIRTIO_BASE, VIRTIO_CONSOLE_BASE, VIRTIO_KBD_BASE, VIRTIO_NET_BASE, VIRTIO_RNG_BASE,
    VIRTIO_SIZE, VIRTIO_TABLET_BASE,
};
use emulate_core::cpu::alu::{alu32, alu64, amo_result};
use emulate_core::cpu::bitmanip::{aes_mixcolumn_fwd, aes_mixcolumn_inv, bit_rr, BitOp};
use emulate_core::cpu::csr;
use emulate_core::cpu::decode::{decode, AluOp, AmoOp, AmoWidth};
use emulate_core::cpu::decode_cache::{CachedInstruction, DecodeCache, Lookup};
use emulate_core::cpu::{Cpu, DecodeCacheStats, Mode, StepResult};
use emulate_core::devices::clint::Clint;
use emulate_core::devices::net::NetBackend;
use emulate_core::devices::plic::Plic;
use emulate_core::devices::simple_irq::SimpleInterruptGenerator;
use emulate_core::devices::sparse_block::{crc32, SparseMemBackend};
use emulate_core::devices::uart::Uart;
use emulate_core::devices::virtio_blk::{BlockBackend, BlockError, MemBackend};
use emulate_core::devices::virtio_input::{
    InputKind, VirtioInput, EV_KEY, MAX_PENDING_EVENTS,
};
use emulate_core::devices::virtio_net::VirtioNet;
use emulate_core::devices::virtqueue::DESC_F_WRITE;
use emulate_core::mmu::AccessType;
use emulate_core::ram::Ram;
use emulate_core::trap::{Exception, Interrupt};

const PTE_V: u64 = 1;
const PTE_R: u64 = 1 << 1;
const PTE_W: u64 = 1 << 2;
const PTE_X: u64 = 1 << 3;
const PTE_U: u64 = 1 << 4;
const PTE_A: u64 = 1 << 6;
const PTE_D: u64 = 1 << 7;

const ROOT: u64 = DRAM_BASE + 0x1000;
const LEVEL1: u64 = DRAM_BASE + 0x2000;
const LEVEL0: u64 = DRAM_BASE + 0x3000;
const FRAME: u64 = DRAM_BASE + 0x4000;

fn pte(target: u64, flags: u64) -> u64 {
    ((target >> 12) << 10) | flags
}

/// A supervisor with the page at `0x5000` mapped to `FRAME`.
fn paged(flags: u64) -> (Cpu, Bus) {
    let mut cpu = Cpu::new();
    let mut bus = Bus::new(0x8000);
    bus.write(ROOT, pte(LEVEL1, PTE_V), 8).unwrap();
    bus.write(LEVEL1, pte(LEVEL0, PTE_V), 8).unwrap();
    bus.write(LEVEL0 + 5 * 8, pte(FRAME, flags), 8).unwrap();
    cpu.csr.store_raw(csr::SATP, (8 << 60) | (ROOT >> 12));
    cpu.mode = Mode::Supervisor;
    (cpu, bus)
}

/// A hart about to run these words at the start of RAM.
fn program(words: &[u32]) -> (Cpu, Bus) {
    let mut cpu = Cpu::new();
    let mut bus = Bus::new(0x4000);
    for (i, word) in words.iter().enumerate() {
        bus.write(DRAM_BASE + 4 * i as u64, *word as u64, 4).unwrap();
    }
    cpu.pc = DRAM_BASE;
    (cpu, bus)
}

#[test]
fn memory_gives_back_what_was_stored() {
    let mut ram = Ram::new(0x3000);
    ram.write(0x1ffe, 0x1122_3344_5566_7788, 8).unwrap();
    assert_eq!(ram.read(0x1ffe, 8), Ok(0x1122_3344_5566_7788));
    assert_eq!(ram.read(0x1ffe, 2), Ok(0x7788));
    assert_eq!(ram.read(0x2005, 1), Ok(0x11));
    assert_eq!(ram.read(0x1ffd, 1), Ok(0));
    assert_eq!(ram.read(0x2006, 1), Ok(0));
    // Both pages it touched have moved on, the first has not.
    assert_eq!(ram.page_generations(0, 3), [0, 1, 1]);
    assert_eq!(ram.read(0x2ff9, 8), Err(()));
    assert_eq!(ram.write(u64::MAX, 1, 8), Err(()));
    assert_eq!(ram.write_slice(0x3000, &[1]), Err(()));
    assert_eq!(ram.read_slice(0x2fff, 1), Ok(&[0u8][..]));
    assert_eq!(ram.generation_for_page(3), None);
}

#[test]
fn the_bus_reaches_memory_and_keeps_regions_apart() {
    let mut bus = Bus::new(0x1000);
    bus.write(DRAM_BASE + 8, 0xfeed, 4).unwrap();
    assert_eq!(bus.read(DRAM_BASE + 8, 4), Ok(0xfeed));
    assert_eq!(bus.read(DRAM_BASE + 0x1000, 1), Err(()));
    assert_eq!(bus.read(DRAM_BASE + 0xffd, 4), Err(()));
    let before = bus.ram.read_slice(0, 0x1000).unwrap().to_vec();
    let regions = [
        (TEST_BASE, TEST_SIZE),
        (RTC_BASE, RTC_SIZE),
        (CLINT_BASE, CLINT_SIZE),
        (PLIC_BASE, PLIC_SIZE),
        (UART_BASE, UART_SIZE),
        (VIRTIO_BASE, VIRTIO_SIZE),
        (VIRTIO_RNG_BASE, VIRTIO_SIZE),
        (VIRTIO_NET_BASE, VIRTIO_SIZE),
        (VIRTIO_KBD_BASE, VIRTIO_SIZE),
        (VIRTIO_TABLET_BASE, VIRTIO_SIZE),
        (FB_BLITTER_BASE, FB_BLITTER_SIZE),
        (VIRTIO_CONSOLE_BASE, VIRTIO_SIZE),
        (SIMPLE_IRQ_BASE, SIMPLE_IRQ_SIZE),
        (DRAM_BASE, 0x1000),
    ];
    for pair in regions.windows(2) {
        assert!(pair[0].0 + pair[0].1 <= pair[1].0);
    }
    for (base, size) in regions {
        let _ = bus.read(base, 4);
        let _ = bus.read(base + size - 4, 4);
    }
    assert_eq!(bus.ram.read_slice(0, 0x1000).unwrap(), before);
}

#[test]
fn translation_keeps_the_page_offset() {
    let (mut cpu, mut bus) = paged(PTE_V | PTE_R | PTE_W | PTE_A | PTE_D);
    assert_eq!(
        cpu.translate(&mut bus, 0x5abc, AccessType::Load, Mode::Supervisor),
        Ok(FRAME + 0xabc)
    );
    // Machine mode does not translate.
    assert_eq!(
        cpu.translate(&mut bus, 0x5abc, AccessType::Load, Mode::Machine),
        Ok(0x5abc)
    );
    assert_eq!(
        cpu.translate(&mut bus, 0x6abc, AccessType::Load, Mode::Supervisor),
        Err(Exception::LoadPageFault(0x6abc))
    );
}

#[test]
fn pages_protect_what_they_map() {
    let (mut cpu, mut bus) = paged(PTE_V | PTE_R | PTE_A | PTE_D);
    assert_eq!(cpu.load(&mut bus, 0x5000, 8), Ok(0));
    assert_eq!(cpu.store(&mut bus, 0x5000, 1, 8), Err(Exception::StorePageFault(0x5000)));
    assert_eq!(
        cpu.translate(&mut bus, 0x5000, AccessType::Fetch, Mode::Supervisor),
        Err(Exception::InstructionPageFault(0x5000))
    );
    assert_eq!(
        cpu.translate(&mut bus, 0x5000, AccessType::Load, Mode::User),
        Err(Exception::LoadPageFault(0x5000))
    );
    // A user page is out of the supervisor's reach.
    let (mut cpu, mut bus) = paged(PTE_V | PTE_R | PTE_W | PTE_X | PTE_U | PTE_A | PTE_D);
    assert_eq!(cpu.load(&mut bus, 0x5000, 8), Err(Exception::LoadPageFault(0x5000)));
    assert_eq!(
        cpu.translate(&mut bus, 0x5000, AccessType::Load, Mode::User),
        Ok(FRAME)
    );
}

#[test]
fn translations_last_until_flushed() {
    let (mut cpu, mut bus) = paged(PTE_V | PTE_R | PTE_W | PTE_A | PTE_D);
    assert_eq!(cpu.load(&mut bus, 0x5000, 4), Ok(0));
    bus.write(LEVEL0 + 5 * 8, 0, 8).unwrap();
    cpu.mmu.flush_all();
    assert_eq!(cpu.load(&mut bus, 0x5000, 4), Err(Exception::LoadPageFault(0x5000)));
}

#[test]
fn division_recomposes() {
    for (a, b) in [(7u64, 2u64), (u64::MAX, 10), (5, u64::MAX), (1 << 63, 3)] {
        let q = alu64(AluOp::Divu, a, b);
        let r = alu64(AluOp::Remu, a, b);
        assert_eq!(q * b + r, a);
        let q = alu64(AluOp::Div, a, b);
        let r = alu64(AluOp::Rem, a, b);
        assert_eq!(q.wrapping_mul(b).wrapping_add(r), a);
    }
    assert_eq!(alu64(AluOp::Div, 7, 0), u64::MAX);
    assert_eq!(alu64(AluOp::Rem, 7, 0), 7);
    assert_eq!(alu64(AluOp::Div, 1 << 63, u64::MAX), 1 << 63);
    assert_eq!(alu64(AluOp::Rem, 1 << 63, u64::MAX), 0);
    assert_eq!(alu32(AluOp::Div, 0x8000_0000, u64::MAX), 0xffff_ffff_8000_0000);
    assert_eq!(alu32(AluOp::Divu, 0x8000_0000, 0), u64::MAX);
}

#[test]
fn product_halves_make_the_whole() {
    for (a, b) in [(u64::MAX, u64::MAX), (1 << 63, 3), (0x1234_5678_9abc_def0, 1 << 40)] {
        let low = alu64(AluOp::Mul, a, b);
        let high = alu64(AluOp::Mulhu, a, b);
        assert_eq!(((high as u128) << 64) | low as u128, a as u128 * b as u128);
        let high = alu64(AluOp::Mulh, a, b);
        assert_eq!(
            ((high as i64 as i128) << 64) | low as i128,
            a as i64 as i128 * b as i64 as i128
        );
    }
    assert_eq!(alu64(AluOp::Mulhsu, u64::MAX, u64::MAX), u64::MAX);
}

#[test]
fn atomic_operations_compute_what_they_store() {
    assert_eq!(amo_result(AmoOp::Add, AmoWidth::D, u64::MAX, 2), 1);
    assert_eq!(amo_result(AmoOp::Min, AmoWidth::D, 1, u64::MAX), u64::MAX);
    assert_eq!(amo_result(AmoOp::Minu, AmoWidth::D, 1, u64::MAX), 1);
    assert_eq!(amo_result(AmoOp::Max, AmoWidth::W, 1, 0xffff_ffff), 1);
    assert_eq!(amo_result(AmoOp::Maxu, AmoWidth::W, 1, 0xffff_ffff), 0xffff_ffff);
    assert_eq!(amo_result(AmoOp::Swap, AmoWidth::W, 1, 0x1_0000_0002), 2);
}

#[test]
fn mixing_columns_undoes_itself() {
    for x in [0u32, 0xdb13_5345, 0x0102_0304, u32::MAX] {
        assert_eq!(aes_mixcolumn_fwd(aes_mixcolumn_inv(x)), x);
    }
}

#[test]
fn compressed_instructions_ignore_the_upper_half() {
    // c.addi a0, 1
    let short = decode(0x0505).unwrap();
    assert_eq!(short.len, 2);
    assert_eq!(decode(0xffff_0505).unwrap().op, short.op);
    assert!(decode(0).is_err());
    assert!(decode(0xffff_ffff).is_err());
}

#[test]
fn rewritten_code_runs_as_rewritten() {
    // addi a0, a0, 1; jal x0, -4
    let (mut cpu, mut bus) = program(&[0x0015_0513, 0xffdf_f06f]);
    for _ in 0..6 {
        assert_eq!(cpu.step(&mut bus), StepResult::Executed);
    }
    assert_eq!(cpu.reg(10), 3);
    assert!(cpu.decode_cache_stats().hits > 0);
    // addi a0, a0, 16
    bus.write(DRAM_BASE, 0x0105_0513, 4).unwrap();
    cpu.step(&mut bus);
    assert_eq!(cpu.reg(10), 19);
    // A flushed cache runs the same.
    cpu.flush_decode_cache();
    cpu.step(&mut bus);
    cpu.step(&mut bus);
    assert_eq!(cpu.reg(10), 35);
}

#[test]
fn code_a_device_wrote_runs_as_written() {
    // addi a0, a0, 1; jal x0, -4
    let mut cpu = Cpu::new();
    let mut bus = Bus::new(0x10000);
    bus.write(DRAM_BASE, 0x0015_0513, 4).unwrap();
    bus.write(DRAM_BASE + 4, 0xffdf_f06f, 4).unwrap();
    cpu.pc = DRAM_BASE;
    for _ in 0..4 {
        cpu.step(&mut bus);
    }
    assert_eq!(cpu.reg(10), 2);
    // A request for four bytes of entropy, right over the first instruction.
    let (desc, avail, used) = (DRAM_BASE + 0x1000, DRAM_BASE + 0x2000, DRAM_BASE + 0x3000);
    for (register, value) in [(0x038, 8), (0x080, desc), (0x090, avail), (0x0a0, used), (0x044, 1)] {
        bus.write(VIRTIO_RNG_BASE + register, value, 4).unwrap();
    }
    bus.write(desc, DRAM_BASE, 8).unwrap();
    bus.write(desc + 8, 4, 4).unwrap();
    bus.write(desc + 12, DESC_F_WRITE as u64, 2).unwrap();
    bus.write(avail + 2, 1, 2).unwrap();
    let before = bus.ram.page_generations(0, 1)[0];
    // addi a0, a0, 16
    bus.virtio_rng.add_entropy(&0x0105_0513u32.to_le_bytes(), &mut bus.ram);
    assert_eq!(bus.ram.page_generations(0, 1)[0], before + 1);
    cpu.step(&mut bus);
    assert_eq!(cpu.reg(10), 18);
}

#[test]
fn the_zero_register_stays_zero() {
    // addi x0, x0, 5
    let (mut cpu, mut bus) = program(&[0x0050_0013]);
    cpu.step(&mut bus);
    assert_eq!(cpu.reg(0), 0);
    assert_eq!(cpu.pc, DRAM_BASE + 4);
    cpu.set_reg(0, 9);
    assert_eq!(cpu.reg(0), 0);
}

#[test]
fn exceptions_are_precise() {
    // lw a0, 0(a1) from nowhere
    let (mut cpu, mut bus) = program(&[0x0005_a503]);
    cpu.set_reg(10, 7);
    cpu.set_reg(11, 0x4000_0000);
    cpu.csr.store_raw(csr::MTVEC, DRAM_BASE + 0x100);
    assert_eq!(cpu.step_inner(&mut bus), Err(Exception::LoadAccessFault(0x4000_0000)));
    assert_eq!(cpu.reg(10), 7);
    cpu.pc = DRAM_BASE;
    cpu.step(&mut bus);
    assert_eq!(cpu.reg(10), 7);
    assert_eq!(cpu.pc, DRAM_BASE + 0x100);
    assert_eq!(cpu.csr.load_raw(csr::MEPC), DRAM_BASE);
    assert_eq!(cpu.csr.load_raw(csr::MCAUSE), 5);
    assert_eq!(cpu.csr.load_raw(csr::MTVAL), 0x4000_0000);
}

#[test]
fn each_exception_has_its_cause() {
    let mut cpu = Cpu::new();
    let causes = [
        (Exception::InstructionAddressMisaligned(2), 0, 2),
        (Exception::InstructionAccessFault(4), 1, 4),
        (Exception::IllegalInstruction(6), 2, 6),
        (Exception::Breakpoint(8), 3, 8),
        (Exception::LoadAccessFault(10), 5, 10),
        (Exception::StoreAccessFault(12), 7, 12),
        (Exception::EnvironmentCallFromU, 8, 0),
        (Exception::EnvironmentCallFromS, 9, 0),
        (Exception::EnvironmentCallFromM, 11, 0),
        (Exception::InstructionPageFault(14), 12, 14),
        (Exception::LoadPageFault(16), 13, 16),
        (Exception::StorePageFault(18), 15, 18),
    ];
    for (exception, cause, value) in causes {
        cpu.take_exception(exception);
        assert_eq!(cpu.csr.load_raw(csr::MCAUSE), cause);
        assert_eq!(cpu.csr.load_raw(csr::MTVAL), value);
    }
}

#[test]
fn returning_undoes_a_trap() {
    let mut cpu = Cpu::new();
    cpu.mode = Mode::User;
    cpu.pc = 0x8000_0040;
    cpu.csr.store_raw(csr::MTVEC, 0x8000_1000);
    cpu.take_exception(Exception::EnvironmentCallFromU);
    assert_eq!((cpu.mode, cpu.pc), (Mode::Machine, 0x8000_1000));
    cpu.mret().unwrap();
    assert_eq!(cpu.mode, Mode::User);
    assert_eq!(cpu.next_pc, 0x8000_0040);

    let mut cpu = Cpu::new();
    cpu.mode = Mode::User;
    cpu.pc = 0x8000_0040;
    cpu.csr.store_raw(csr::MEDELEG, 1 << 8);
    cpu.csr.store_raw(csr::STVEC, 0x8000_2000);
    cpu.take_exception(Exception::EnvironmentCallFromU);
    assert_eq!((cpu.mode, cpu.pc), (Mode::Supervisor, 0x8000_2000));
    cpu.sret().unwrap();
    assert_eq!(cpu.mode, Mode::User);
    assert_eq!(cpu.next_pc, 0x8000_0040);
    // Delegated or not, a trap out of machine mode stays there.
    cpu.mode = Mode::Machine;
    cpu.take_exception(Exception::EnvironmentCallFromU);
    assert_eq!(cpu.mode, Mode::Machine);
    // The user may not return.
    cpu.mode = Mode::User;
    assert!(cpu.mret().is_err());
    assert!(cpu.sret().is_err());
}

#[test]
fn every_trap_ends_a_reservation() {
    let mut cpu = Cpu::new();
    cpu.reservation = Some(DRAM_BASE);
    cpu.wfi = true;
    cpu.take_interrupt(Interrupt::MachineTimer);
    assert_eq!(cpu.reservation, None);
    assert!(!cpu.wfi);
    cpu.reservation = Some(DRAM_BASE);
    cpu.take_exception(Exception::Breakpoint(0));
    assert_eq!(cpu.reservation, None);
}

#[test]
fn a_cached_instruction_is_found_again() {
    let mut cache = DecodeCache::new();
    let ram = Ram::new(0x2000);
    let pa = DRAM_BASE + 0x1004;
    assert!(matches!(cache.lookup_physical(pa, &ram), Lookup::Miss));
    let decoded = decode(0x0015_0513).unwrap();
    let instruction = CachedInstruction { pa, raw: 0x0015_0513, decoded };
    let location = cache.insert(pa, 1, 0, instruction, None);
    assert_eq!(location.index, 0);
    assert_eq!(cache.stats(), DecodeCacheStats { hits: 0, misses: 1 });
    match cache.lookup_physical(pa, &ram) {
        Lookup::Hit(found) => {
            assert_eq!((found.slot, found.index), (location.slot, 0));
            assert_eq!(found.instruction.raw, 0x0015_0513);
        }
        Lookup::Miss => panic!("not found"),
    }
    assert_eq!(cache.stats(), DecodeCacheStats { hits: 1, misses: 1 });
}

#[test]
fn carry_less_products_commute() {
    let (a, b) = (0x8000_0000_0000_0003, 0xdead_beef_0123_4567);
    for op in [BitOp::Clmul, BitOp::Clmulh, BitOp::Clmulr] {
        assert_eq!(bit_rr(op, a, b), bit_rr(op, b, a));
    }
    assert_eq!(bit_rr(BitOp::Clmul, 3, 3), 5);
}

#[test]
fn a_hart_out_of_reset_is_cleared() {
    let cpu = Cpu::default();
    assert_eq!((cpu.pc, cpu.mode), (0, Mode::Machine));
    assert_eq!(cpu.csr.load_raw(csr::STIMECMP), u64::MAX);
    assert_eq!(cpu.csr.load_raw(csr::MIE), 0);
    assert_eq!(cpu.csr.fs(), csr::FS_OFF);
    assert_eq!(cpu.pending_interrupt(), None);
}

#[test]
fn the_most_urgent_raised_interrupt_is_taken() {
    let mut cpu = Cpu::new();
    cpu.mode = Mode::User;
    assert_eq!(cpu.pending_interrupt(), None);
    cpu.csr.set_device_mip(0xaaa, 0x0a0);
    assert_eq!(cpu.pending_interrupt(), None);
    cpu.csr.store_raw(csr::MIE, 0x0a0);
    assert_eq!(cpu.pending_interrupt(), Some(Interrupt::MachineTimer));
    cpu.csr.store_raw(csr::MIE, 0x020);
    assert_eq!(cpu.pending_interrupt(), Some(Interrupt::SupervisorTimer));
}

#[test]
fn registers_open_up_with_privilege() {
    let mut cpu = Cpu::new();
    assert_eq!(cpu.csr.read(csr::MSTATUS, Mode::User, 0), Err(()));
    assert_eq!(cpu.csr.read(csr::MSTATUS, Mode::Supervisor, 0), Err(()));
    assert!(cpu.csr.read(csr::MSTATUS, Mode::Machine, 0).is_ok());
    assert_eq!(cpu.csr.read(csr::SSCRATCH, Mode::User, 0), Err(()));
    assert!(cpu.csr.read(csr::SSCRATCH, Mode::Supervisor, 0).is_ok());
    // No previous mode that does not exist.
    cpu.csr.write(csr::MSTATUS, 2 << 11, Mode::Machine).unwrap();
    assert_ne!((cpu.csr.load_raw(csr::MSTATUS) >> 11) & 3, 2);
    // The supervisor's view is part of the machine's.
    cpu.csr.write(csr::SSTATUS, 1 << 1, Mode::Supervisor).unwrap();
    assert_eq!(cpu.csr.load_raw(csr::MSTATUS) & 2, 2);
    // Read-only registers stay.
    assert_eq!(cpu.csr.write(csr::MHARTID, 1, Mode::Machine), Err(()));
}

#[test]
fn a_reserved_pair_succeeds_once() {
    // lr.d a0, (a1); sc.d a2, a3, (a1); sc.d a4, a3, (a1)
    let (mut cpu, mut bus) = program(&[0x1005_b52f, 0x18d5_b62f, 0x18d5_b72f]);
    cpu.set_reg(11, DRAM_BASE + 0x200);
    cpu.set_reg(13, 42);
    cpu.step(&mut bus);
    cpu.step(&mut bus);
    assert_eq!(cpu.reg(12), 0);
    assert_eq!(bus.read(DRAM_BASE + 0x200, 8), Ok(42));
    cpu.set_reg(13, 43);
    cpu.step(&mut bus);
    assert_eq!(cpu.reg(14), 1);
    assert_eq!(bus.read(DRAM_BASE + 0x200, 8), Ok(42));
}

#[test]
fn disks_give_back_what_was_written() {
    let data: Vec<u8> = (0..1024).map(|i| i as u8).collect();
    let mut disk = MemBackend::new(&[7; 4096]);
    assert_eq!(disk.capacity_sectors(), 8);
    disk.write_at(3, &data).unwrap();
    let mut read = vec![0; 1024];
    disk.read_at(3, &mut read).unwrap();
    assert_eq!(read, data);
    disk.read_at(2, &mut read[..512]).unwrap();
    assert_eq!(read[..512], [7; 512]);
    assert_eq!(disk.read_at(7, &mut read), Err(BlockError::OutOfRange));
    assert_eq!(disk.write_at(8, &data), Err(BlockError::OutOfRange));
    assert_eq!(disk.flush(), Ok(()));

    let mut sparse = SparseMemBackend::new(1 << 20).unwrap();
    assert_eq!(sparse.capacity_sectors(), 2048);
    sparse.write_at(15, &data).unwrap();
    sparse.read_at(15, &mut read).unwrap();
    assert_eq!(read, data);
    assert_eq!(sparse.present_blocks(), 2);
    assert_eq!(sparse.read_at(2048, &mut read), Err(BlockError::OutOfRange));
    assert_eq!(crc32(b"123456789"), 0xcbf4_3926);
}

#[test]
fn claims_take_the_highest_priority_and_gate_the_source() {
    let mut plic = Plic::new();
    plic.write(4 * 3, 2, 4).unwrap();
    plic.write(4 * 9, 5, 4).unwrap();
    plic.write(0x2000, (1 << 3) | (1 << 9), 4).unwrap();
    plic.set_irq(3, true);
    plic.set_irq(9, true);
    assert!(plic.eip(0));
    assert_eq!(plic.claim(0), 9);
    assert_eq!(plic.claim(0), 3);
    assert_eq!(plic.claim(0), 0);
    assert!(!plic.eip(0));
    // Someone else's completion does nothing.
    plic.complete(1, 9);
    assert!(!plic.eip(0));
    plic.complete(0, 9);
    assert_eq!(plic.claim(0), 9);
    // Low again, it stays quiet.
    plic.set_irq(9, false);
    plic.complete(0, 9);
    assert!(!plic.eip(0));
}

#[test]
fn timer_halves_assemble() {
    let mut clint = Clint::new();
    clint.write(0x4004, 0x1122_3344, 4).unwrap();
    clint.write(0x4000, 0x5566_7788, 4).unwrap();
    assert_eq!(clint.mtimecmp, 0x1122_3344_5566_7788);
    assert_eq!(clint.read(0x4000, 8), Ok(0x1122_3344_5566_7788));
    assert_eq!(clint.read(0x4004, 4), Ok(0x1122_3344));
}

#[test]
fn serial_input_comes_out_in_order() {
    let mut uart = Uart::new();
    for b in b"order" {
        uart.push_rx(*b);
    }
    let mut read = Vec::new();
    while uart.read(5, 1).unwrap() & 1 == 1 {
        read.push(uart.read(0, 1).unwrap() as u8);
    }
    assert_eq!(read, b"order");
    // With the divisor latch open the data register is not the transmitter.
    uart.write(3, 0x80, 1).unwrap();
    uart.write(0, b'!' as u64, 1).unwrap();
    assert!(uart.take_tx().is_empty());
    uart.write(3, 0, 1).unwrap();
    uart.write(0, b'!' as u64, 1).unwrap();
    assert_eq!(uart.take_tx(), b"!");
}

#[test]
fn commands_touch_only_the_levels_they_name() {
    let mut irq = SimpleInterruptGenerator::new();
    irq.write(4, 0x8000_0202, 4).unwrap();
    assert_eq!(irq.pending(), 0x202);
    irq.write(4, 0x0000_0002, 4).unwrap();
    assert_eq!(irq.pending(), 0x200);
    irq.write(4, 0x8000_0004, 4).unwrap();
    assert_eq!(irq.pending(), 0x200);
}

#[test]
fn backlogs_are_bounded() {
    let mut keyboard = VirtioInput::new(InputKind::Keyboard);
    for i in 0..MAX_PENDING_EVENTS as u32 + 10 {
        keyboard.queue_event(EV_KEY, 30, i & 1);
    }
    assert!(keyboard.pending_events() <= MAX_PENDING_EVENTS);
    assert_eq!(keyboard.dropped_events(), 10);
    let mut net = VirtioNet::new();
    for i in 0..10_000u32 {
        net.receive_frame(i.to_le_bytes().to_vec());
    }
    let held = net.pending_rx();
    net.receive_frame(vec![1]);
    assert_eq!(net.pending_rx(), held);
}

/// A segment nothing happens on.
struct Silent;

impl NetBackend for Silent {
    fn transmit(&mut self, _frame: &[u8]) {}

    fn receive(&mut self) -> Option<Vec<u8>> {
        None
    }

    fn poll(&mut self, _now_ms: u64) {}
}

#[test]
fn a_segment_has_no_deadline_unless_it_says_so() {
    assert_eq!(Silent.next_deadline_ms(), None);
}
