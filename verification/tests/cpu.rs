use emulate_core::bus::{Bus, DRAM_BASE};
use emulate_core::cpu::csr;
use emulate_core::cpu::{Cpu, DecodeCacheStats, Mode, StepResult};
use emulate_core::trap::{Exception, Interrupt};

fn write_instruction(bus: &mut Bus, offset: u64, raw: u32) {
    bus.ram.load_blob(offset, &raw.to_le_bytes()).unwrap();
}

fn map_last_sv39_page(cpu: &mut Cpu, bus: &mut Bus) {
    let root: u64 = DRAM_BASE + 0x1000;
    let l1: u64 = DRAM_BASE + 0x2000;
    let l0: u64 = DRAM_BASE + 0x3000;
    let frame: u64 = DRAM_BASE + 0x4000;

    bus.write(root + 511 * 8, pte(l1, PTE_V), 8).unwrap();
    bus.write(l1 + 511 * 8, pte(l0, PTE_V), 8).unwrap();
    bus.write(
        l0 + 511 * 8,
        pte(frame, PTE_V | PTE_R | PTE_W | PTE_A | PTE_D),
        8,
    )
    .unwrap();
    cpu.csr.store_raw(csr::SATP, (8 << 60) | (root >> 12));
    cpu.mode = Mode::Supervisor;
}

#[test]
fn page_crossing_load_at_address_space_end_faults_instead_of_wrapping() {
    let mut cpu = Cpu::new();
    let mut bus = Bus::new(0x6000);
    map_last_sv39_page(&mut cpu, &mut bus);
    let va = u64::MAX - 3;

    let result = cpu.load(&mut bus, va, 8);

    assert_eq!(result, Err(Exception::LoadPageFault(va)));
}

#[test]
fn page_crossing_store_at_address_space_end_faults_instead_of_wrapping() {
    let mut cpu = Cpu::new();
    let mut bus = Bus::new(0x6000);
    map_last_sv39_page(&mut cpu, &mut bus);
    let va = u64::MAX - 3;
    let frame_tail = 0x4ffc;
    bus.ram.load_blob(frame_tail, &[0xaa; 4]).unwrap();

    let result = cpu.store(&mut bus, va, 0x1122_3344_5566_7788, 8);

    assert_eq!(
        (result, bus.ram.read(frame_tail, 4).unwrap()),
        (Err(Exception::StorePageFault(va)), 0xaaaa_aaaa)
    );
}

#[test]
fn from_bits_maps_reserved_encoding_two_to_user() {
    // Reserved MPP/SPP encoding 2 must fail closed to User, never Machine.
    assert_eq!(Mode::from_bits(0), Mode::User);
    assert_eq!(Mode::from_bits(1), Mode::Supervisor);
    assert_eq!(Mode::from_bits(2), Mode::User);
    assert_eq!(Mode::from_bits(3), Mode::Machine);
}

/// Map a single Sv39 4-KiB page at VA `0x1000` (vpn0 = 1) to FRAME with A/D
/// preset; the next page (VA `0x2000`) is deliberately left unmapped.
fn map_one_page_next_unmapped(cpu: &mut Cpu, bus: &mut Bus) -> u64 {
    let root: u64 = DRAM_BASE + 0x1000;
    let l1: u64 = DRAM_BASE + 0x2000;
    let l0: u64 = DRAM_BASE + 0x3000;
    let frame: u64 = DRAM_BASE + 0x4000;

    bus.write(root, pte(l1, PTE_V), 8).unwrap();
    bus.write(l1, pte(l0, PTE_V), 8).unwrap();
    bus.write(l0 + 8, pte(frame, PTE_V | PTE_R | PTE_W | PTE_A | PTE_D), 8)
        .unwrap();
    cpu.csr.store_raw(csr::SATP, (8 << 60) | (root >> 12));
    cpu.mode = Mode::Supervisor;
    frame
}

#[test]
fn page_crossing_store_faulting_on_second_page_leaves_first_page_untouched() {
    let mut cpu = Cpu::new();
    let mut bus = Bus::new(0x6000);
    let frame = map_one_page_next_unmapped(&mut cpu, &mut bus);
    // va straddles the mapped page (0x1000..0x2000) into the unmapped one.
    let va = 0x2000u64 - 2;

    let result = cpu.store(&mut bus, va, u64::MAX, 8);

    assert_eq!(result, Err(Exception::StorePageFault(0x2000)));
    // The prepass must have faulted before committing any first-page bytes.
    assert_eq!(bus.read(frame + 0xFFE, 2).unwrap(), 0);
}

#[test]
fn vectored_trap_target_wraps_at_xlen() {
    let cpu = Cpu::new();

    let target = cpu.tvec_target(u64::MAX - 2, 1, true);

    assert_eq!(target, 0);
}

#[test]
fn decode_cache_lazily_builds_and_reuses_a_fallthrough_block() {
    let mut cpu = Cpu::new();
    let mut bus = Bus::new(8192);
    cpu.pc = DRAM_BASE;
    // addi x1,x1,1; addi x2,x2,1; addi x3,x3,1
    for (index, raw) in [0x0010_8093, 0x0011_0113, 0x0011_8193]
        .into_iter()
        .enumerate()
    {
        write_instruction(&mut bus, index as u64 * 4, raw);
    }

    for _ in 0..3 {
        assert!(matches!(cpu.step(&mut bus), StepResult::Executed));
    }
    assert_eq!(
        cpu.decode_cache_stats(),
        DecodeCacheStats { hits: 0, misses: 3 }
    );

    cpu.pc = DRAM_BASE;
    for _ in 0..3 {
        assert!(matches!(cpu.step(&mut bus), StepResult::Executed));
    }
    assert_eq!(
        cpu.decode_cache_stats(),
        DecodeCacheStats { hits: 3, misses: 3 }
    );
    assert_eq!((cpu.reg(1), cpu.reg(2), cpu.reg(3)), (2, 2, 2));
}

#[test]
fn decode_cache_keeps_four_same_set_blocks_resident() {
    let mut cpu = Cpu::new();
    let mut bus = Bus::new(16 * 1024);
    for offset in [0, 4096, 8192, 12288] {
        write_instruction(&mut bus, offset, 0x0010_8093);
    }

    for offset in [0, 4096, 8192, 12288, 0, 4096, 8192, 12288] {
        cpu.pc = DRAM_BASE + offset;
        cpu.step(&mut bus);
    }

    assert_eq!(
        cpu.decode_cache_stats(),
        DecodeCacheStats { hits: 4, misses: 4 }
    );
}

#[test]
fn generation_invalidation_preserves_a_same_set_neighbor() {
    let mut cpu = Cpu::new();
    let mut bus = Bus::new(8192);
    write_instruction(&mut bus, 0, 0x0010_8093);
    write_instruction(&mut bus, 4096, 0x0010_8093);

    for offset in [0, 4096] {
        cpu.pc = DRAM_BASE + offset;
        cpu.step(&mut bus);
    }
    write_instruction(&mut bus, 0, 0x0020_8093);
    for offset in [0, 4096] {
        cpu.pc = DRAM_BASE + offset;
        cpu.step(&mut bus);
    }

    assert_eq!(
        cpu.decode_cache_stats(),
        DecodeCacheStats { hits: 1, misses: 3 }
    );
}

#[test]
fn interrupt_between_cached_instructions_abandons_active_fallthrough() {
    let mut cpu = Cpu::new();
    let mut bus = Bus::new(8192);
    cpu.pc = DRAM_BASE;
    for (index, raw) in [0x0010_8093, 0x0011_0113, 0x0011_8193]
        .into_iter()
        .enumerate()
    {
        write_instruction(&mut bus, index as u64 * 4, raw);
    }

    // Warm the three-instruction block, then enter it again.
    for _ in 0..3 {
        cpu.step(&mut bus);
    }
    cpu.regs[1..=3].fill(0);
    cpu.pc = DRAM_BASE;
    cpu.step(&mut bus);
    assert_eq!(cpu.reg(1), 1);

    // Redirect to the third instruction between Cpu::step calls, exactly
    // as Machine::run does when it accepts an interrupt.
    cpu.csr.store_raw(csr::MTVEC, DRAM_BASE + 8);
    cpu.take_interrupt(Interrupt::MachineTimer);
    cpu.step(&mut bus);

    assert_eq!(cpu.reg(2), 0, "stale active fallthrough executed");
    assert_eq!(cpu.reg(3), 1, "trap-vector instruction did not execute");
}

#[test]
fn ram_write_generation_invalidates_cached_code_without_fence_i() {
    let mut cpu = Cpu::new();
    let mut bus = Bus::new(8);
    cpu.pc = DRAM_BASE;
    write_instruction(&mut bus, 0, 0x0010_0093); // addi x1,x0,1

    cpu.step(&mut bus);
    assert_eq!(cpu.reg(1), 1);

    write_instruction(&mut bus, 0, 0x0020_0093); // addi x1,x0,2
    cpu.pc = DRAM_BASE;
    cpu.step(&mut bus);
    assert_eq!(cpu.reg(1), 2);
    assert_eq!(
        cpu.decode_cache_stats(),
        DecodeCacheStats { hits: 0, misses: 2 }
    );
}

#[test]
fn fence_i_flushes_decoded_blocks() {
    let mut cpu = Cpu::new();
    let mut bus = Bus::new(8);
    cpu.pc = DRAM_BASE;
    write_instruction(&mut bus, 0, 0x0000_100f); // fence.i

    cpu.step(&mut bus);
    cpu.pc = DRAM_BASE;
    cpu.step(&mut bus);

    assert_eq!(
        cpu.decode_cache_stats(),
        DecodeCacheStats { hits: 0, misses: 2 }
    );
}

#[test]
fn satp_write_and_sfence_vma_preserve_machine_decoded_blocks() {
    for raw in [0x1800_1073, 0x1200_0073] {
        let mut cpu = Cpu::new();
        let mut bus = Bus::new(8);
        cpu.pc = DRAM_BASE;
        write_instruction(&mut bus, 0, raw);

        cpu.step(&mut bus);
        cpu.pc = DRAM_BASE;
        cpu.step(&mut bus);

        assert_eq!(
            cpu.decode_cache_stats(),
            DecodeCacheStats { hits: 1, misses: 1 },
            "instruction {raw:#010x} discarded an untranslated M-mode block"
        );
    }
}

#[test]
fn decode_cache_shares_one_physical_block_across_privilege_modes() {
    // Decoding depends on nothing but the instruction bits, so the same
    // physical address decodes identically in every mode. With bare
    // translation, M-mode and S-mode fetch the same PA and share a block.
    let mut cpu = Cpu::new();
    let mut bus = Bus::new(8);
    cpu.pc = DRAM_BASE;
    write_instruction(&mut bus, 0, 0x0010_8093); // addi x1,x1,1

    cpu.step(&mut bus);
    cpu.pc = DRAM_BASE;
    cpu.mode = Mode::Supervisor;
    cpu.step(&mut bus);
    cpu.pc = DRAM_BASE;
    cpu.mode = Mode::Machine;
    cpu.step(&mut bus);

    assert_eq!(cpu.reg(1), 3);
    assert_eq!(
        cpu.decode_cache_stats(),
        DecodeCacheStats { hits: 2, misses: 1 }
    );
}

// --- Physically keyed block cache -----------------------------------
//
// Sv39 scratch space. Two independent root tables let one VA name two
// different physical pages, and one physical page be named by two VAs.

const PTE_V: u64 = 1 << 0;
const PTE_R: u64 = 1 << 1;
const PTE_W: u64 = 1 << 2;
const PTE_X: u64 = 1 << 3;
const PTE_U: u64 = 1 << 4;
const PTE_A: u64 = 1 << 6;
const PTE_D: u64 = 1 << 7;

/// Root/intermediate tables of address space A and B, and two code frames.
const ROOT_A: u64 = DRAM_BASE + 0x1000;
const ROOT_B: u64 = DRAM_BASE + 0x4000;
const CODE_X: u64 = DRAM_BASE + 0x7000;
const CODE_Y: u64 = DRAM_BASE + 0x8000;
/// Virtual address both spaces map, and a second VA aliasing it in A.
const VA: u64 = 0x9000;
const VA_ALIAS: u64 = 0xa000;

fn pte(pa: u64, flags: u64) -> u64 {
    ((pa >> 12) << 10) | flags
}

/// Map `va` (a 4-KiB page below 2 MiB) to `frame` in the space rooted at
/// `root`, whose L1/L0 tables are the two pages following it.
fn map_leaf(bus: &mut Bus, root: u64, va: u64, frame: u64, flags: u64) {
    let (l1, l0) = (root + 0x1000, root + 0x2000);
    bus.write(root + ((va >> 30) & 0x1ff) * 8, pte(l1, PTE_V), 8)
        .unwrap();
    bus.write(l1 + ((va >> 21) & 0x1ff) * 8, pte(l0, PTE_V), 8)
        .unwrap();
    bus.write(
        l0 + ((va >> 12) & 0x1ff) * 8,
        pte(frame, flags | PTE_V | PTE_A | PTE_D),
        8,
    )
    .unwrap();
}

fn activate(cpu: &mut Cpu, root: u64) {
    cpu.csr.store_raw(csr::SATP, (8 << 60) | (root >> 12));
    // Mirrors what the CSR write path does architecturally: the TLB is
    // flushed, the decoded blocks are not.
    cpu.mmu.flush_all();
    cpu.mode = Mode::Supervisor;
}

#[test]
fn same_va_in_two_address_spaces_runs_the_right_physical_code() {
    let mut cpu = Cpu::new();
    let mut bus = Bus::new(0x10000);
    write_instruction(&mut bus, CODE_X - DRAM_BASE, 0x0010_8093); // addi x1,x1,1
    write_instruction(&mut bus, CODE_Y - DRAM_BASE, 0x0011_0113); // addi x2,x2,1
    map_leaf(&mut bus, ROOT_A, VA, CODE_X, PTE_R | PTE_X);
    map_leaf(&mut bus, ROOT_B, VA, CODE_Y, PTE_R | PTE_X);

    activate(&mut cpu, ROOT_A);
    cpu.pc = VA;
    cpu.step(&mut bus);
    activate(&mut cpu, ROOT_B);
    cpu.pc = VA;
    cpu.step(&mut bus);

    // No aliasing: space B must not have run space A's cached block.
    assert_eq!((cpu.reg(1), cpu.reg(2)), (1, 1));
    assert_eq!(
        cpu.decode_cache_stats(),
        DecodeCacheStats { hits: 0, misses: 2 }
    );
}

#[test]
fn two_virtual_aliases_of_one_physical_page_share_a_block() {
    let mut cpu = Cpu::new();
    let mut bus = Bus::new(0x10000);
    write_instruction(&mut bus, CODE_X - DRAM_BASE, 0x0010_8093); // addi x1,x1,1
    map_leaf(&mut bus, ROOT_A, VA, CODE_X, PTE_R | PTE_X);
    map_leaf(&mut bus, ROOT_A, VA_ALIAS, CODE_X, PTE_R | PTE_X);

    activate(&mut cpu, ROOT_A);
    cpu.pc = VA;
    cpu.step(&mut bus);
    cpu.pc = VA_ALIAS;
    cpu.step(&mut bus);

    assert_eq!(cpu.reg(1), 2);
    assert_eq!(
        cpu.decode_cache_stats(),
        DecodeCacheStats { hits: 1, misses: 1 }
    );
}

#[test]
fn store_through_one_alias_invalidates_the_block_seen_through_the_other() {
    let mut cpu = Cpu::new();
    let mut bus = Bus::new(0x10000);
    write_instruction(&mut bus, CODE_X - DRAM_BASE, 0x0010_8093); // addi x1,x1,1
    map_leaf(&mut bus, ROOT_A, VA, CODE_X, PTE_R | PTE_X);
    map_leaf(&mut bus, ROOT_A, VA_ALIAS, CODE_X, PTE_R | PTE_W | PTE_X);

    activate(&mut cpu, ROOT_A);
    cpu.pc = VA;
    cpu.step(&mut bus);
    assert_eq!(cpu.reg(1), 1);

    // addi x1,x1,2 written through the writable alias, with no FENCE.I.
    cpu.store(&mut bus, VA_ALIAS, 0x0020_8093, 4).unwrap();
    cpu.pc = VA;
    cpu.step(&mut bus);

    assert_eq!(cpu.reg(1), 3);
    assert_eq!(
        cpu.decode_cache_stats(),
        DecodeCacheStats { hits: 0, misses: 2 }
    );
}

#[test]
fn cached_block_still_faults_when_its_page_becomes_non_executable() {
    let mut cpu = Cpu::new();
    let mut bus = Bus::new(0x10000);
    write_instruction(&mut bus, CODE_X - DRAM_BASE, 0x0010_8093);
    map_leaf(&mut bus, ROOT_A, VA, CODE_X, PTE_R | PTE_X);

    activate(&mut cpu, ROOT_A);
    cpu.pc = VA;
    cpu.step(&mut bus);
    assert_eq!(cpu.reg(1), 1);

    // Drop X from the leaf PTE; the block stays cached at its PA.
    map_leaf(&mut bus, ROOT_A, VA, CODE_X, PTE_R);
    cpu.mmu.flush_all();
    cpu.pc = VA;

    assert_eq!(
        cpu.step_inner(&mut bus),
        Err(Exception::InstructionPageFault(VA))
    );
    assert_eq!(cpu.reg(1), 1, "a cached block bypassed a fetch page fault");
}

#[test]
fn cached_supervisor_block_still_faults_when_fetched_from_user_mode() {
    let mut cpu = Cpu::new();
    let mut bus = Bus::new(0x10000);
    write_instruction(&mut bus, CODE_X - DRAM_BASE, 0x0010_8093);
    // Executable, but not a user page.
    map_leaf(&mut bus, ROOT_A, VA, CODE_X, PTE_R | PTE_X);

    activate(&mut cpu, ROOT_A);
    cpu.pc = VA;
    cpu.step(&mut bus);
    assert_eq!(cpu.reg(1), 1);

    cpu.mode = Mode::User;
    cpu.pc = VA;

    assert_eq!(
        cpu.step_inner(&mut bus),
        Err(Exception::InstructionPageFault(VA))
    );
    assert_eq!(cpu.reg(1), 1, "U-mode ran a cached supervisor-page block");
}

#[test]
fn cached_user_block_still_faults_when_fetched_from_supervisor_mode() {
    // The mirror of the case above: S-mode may never fetch a U page, so a
    // block warmed in U-mode must not be reachable from S-mode either.
    let mut cpu = Cpu::new();
    let mut bus = Bus::new(0x10000);
    write_instruction(&mut bus, CODE_X - DRAM_BASE, 0x0010_8093);
    map_leaf(&mut bus, ROOT_A, VA, CODE_X, PTE_R | PTE_X | PTE_U);

    activate(&mut cpu, ROOT_A);
    cpu.mode = Mode::User;
    cpu.pc = VA;
    cpu.step(&mut bus);
    assert_eq!(cpu.reg(1), 1);

    cpu.mode = Mode::Supervisor;
    cpu.pc = VA;

    assert_eq!(
        cpu.step_inner(&mut bus),
        Err(Exception::InstructionPageFault(VA))
    );
    assert_eq!(cpu.reg(1), 1, "S-mode ran a cached user-page block");
}

#[test]
fn sfence_vma_preserves_translated_decoded_blocks() {
    let mut cpu = Cpu::new();
    let mut bus = Bus::new(0x10000);
    let code = CODE_X - DRAM_BASE;
    write_instruction(&mut bus, code, 0x0010_8093); // addi x1,x1,1
    write_instruction(&mut bus, code + 4, 0x1200_0073); // sfence.vma
    map_leaf(&mut bus, ROOT_A, VA, CODE_X, PTE_R | PTE_X);

    activate(&mut cpu, ROOT_A);
    cpu.pc = VA;
    cpu.step(&mut bus); // miss: block start
    cpu.step(&mut bus); // miss: appends sfence.vma, which flushes the TLB
    cpu.pc = VA;
    cpu.step(&mut bus); // hit: same physical block start
    cpu.step(&mut bus); // hit: active fallthrough

    assert_eq!(cpu.reg(1), 2);
    assert_eq!(
        cpu.decode_cache_stats(),
        DecodeCacheStats { hits: 2, misses: 2 }
    );
}

#[test]
fn satp_write_preserves_translated_decoded_blocks() {
    let mut cpu = Cpu::new();
    let mut bus = Bus::new(0x10000);
    let code = CODE_X - DRAM_BASE;
    write_instruction(&mut bus, code, 0x0010_8093); // addi x1,x1,1
    write_instruction(&mut bus, code + 4, 0x1805_1073); // csrw satp,a0
    // Both spaces map VA to the same physical code page.
    map_leaf(&mut bus, ROOT_A, VA, CODE_X, PTE_R | PTE_X);
    map_leaf(&mut bus, ROOT_B, VA, CODE_X, PTE_R | PTE_X);

    activate(&mut cpu, ROOT_A);
    cpu.set_reg(10, (8 << 60) | (ROOT_B >> 12));
    cpu.pc = VA;
    cpu.step(&mut bus); // miss: block start
    cpu.step(&mut bus); // miss: appends csrw satp, switching address space
    assert_eq!(cpu.csr.load_raw(csr::SATP), (8 << 60) | (ROOT_B >> 12));
    cpu.pc = VA;
    cpu.step(&mut bus); // hit: the switch invalidated no block
    cpu.step(&mut bus); // hit

    assert_eq!(cpu.reg(1), 2);
    assert_eq!(
        cpu.decode_cache_stats(),
        DecodeCacheStats { hits: 2, misses: 2 }
    );
}

#[test]
fn satp_write_ends_the_active_block_it_sits_in() {
    // The instructions after `csrw satp` must be fetched through the new
    // address space, not continued out of the old space's physical block.
    let mut cpu = Cpu::new();
    let mut bus = Bus::new(0x10000);
    write_instruction(&mut bus, CODE_X - DRAM_BASE, 0x1805_1073); // csrw satp,a0
    write_instruction(&mut bus, CODE_X - DRAM_BASE + 4, 0x0010_8093); // addi x1,x1,1
    write_instruction(&mut bus, CODE_Y - DRAM_BASE + 4, 0x0011_0113); // addi x2,x2,1
    map_leaf(&mut bus, ROOT_A, VA, CODE_X, PTE_R | PTE_X);
    map_leaf(&mut bus, ROOT_B, VA, CODE_Y, PTE_R | PTE_X);

    activate(&mut cpu, ROOT_A);
    cpu.set_reg(10, (8 << 60) | (ROOT_B >> 12));
    cpu.pc = VA;
    cpu.step(&mut bus);
    cpu.step(&mut bus);

    assert_eq!(
        (cpu.reg(1), cpu.reg(2)),
        (0, 1),
        "ran the old address space's instruction after switching satp"
    );
}

#[test]
fn page_straddling_instruction_uses_uncached_fetch_path() {
    let mut cpu = Cpu::new();
    let mut bus = Bus::new(8192);
    let offset = 0xffe;
    cpu.pc = DRAM_BASE + offset;
    write_instruction(&mut bus, offset, 0x0010_8093); // addi x1,x1,1

    cpu.step(&mut bus);
    cpu.pc = DRAM_BASE + offset;
    cpu.step(&mut bus);

    assert_eq!(cpu.reg(1), 2);
    assert_eq!(
        cpu.decode_cache_stats(),
        DecodeCacheStats { hits: 0, misses: 2 }
    );
}

#[test]
fn step_suppresses_instret_increment_when_instruction_writes_minstret() {
    let mut cpu = Cpu::new();
    let mut bus = Bus::new(8);
    cpu.pc = DRAM_BASE;
    // csrwi minstret, 0; csrr a0, minstret
    bus.ram.load_blob(0, &0xB020_5073u32.to_le_bytes()).unwrap();
    bus.ram.load_blob(4, &0xB020_2573u32.to_le_bytes()).unwrap();

    cpu.step(&mut bus);
    cpu.step(&mut bus);

    assert_eq!((cpu.reg(10), cpu.csr.instret), (0, 1));
}

#[test]
fn step_does_not_increment_instret_when_mcountinhibit_ir_is_set() {
    let mut cpu = Cpu::new();
    let mut bus = Bus::new(4);
    cpu.pc = DRAM_BASE;
    cpu.csr.store_raw(csr::MCOUNTINHIBIT, 1 << 2);
    cpu.csr.instret = 7;
    // addi x0, x0, 0
    bus.ram.load_blob(0, &0x0000_0013u32.to_le_bytes()).unwrap();

    cpu.step(&mut bus);

    assert_eq!(cpu.csr.instret, 7);
}

#[test]
fn step_does_not_increment_cycle_when_mcountinhibit_cy_is_set() {
    let mut cpu = Cpu::new();
    let mut bus = Bus::new(4);
    cpu.pc = DRAM_BASE;
    bus.ram.load_blob(0, &0x0000_0013u32.to_le_bytes()).unwrap();
    cpu.csr.store_raw(csr::MCOUNTINHIBIT, 1);
    cpu.csr.cycle = 7;

    cpu.step(&mut bus);

    assert_eq!(cpu.csr.cycle, 7);
}
