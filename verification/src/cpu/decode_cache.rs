//! Lazy basic-block cache for already-decoded guest instructions.
//!
//! Blocks grow only after an instruction executed and fell through to the next
//! PC, so building one never performs a speculative fetch that could raise an
//! early fault, set a PTE accessed bit, or read an MMIO register.
//!
//! # Why blocks are keyed on the physical address
//!
//! Physical keys let address spaces share decoded code. `satp` writes and
//! `SFENCE.VMA` change translation, not physical instruction bytes, so they
//! retain cached blocks. The fetch path still checks translation and execute
//! permissions before looking up a block.
//!
//! # What decoding depends on
//!
//! [`super::decode::decode`] is a pure function of the 32-bit fetch window. It
//! takes no CPU state: not `misa` (which is WARL and ignores writes here, so
//! the C extension is always enabled), not `mstatus`, and not the current
//! privilege mode. Everything privilege-dependent — `ECALL`'s cause,
//! `WFI`/`SFENCE.VMA` trapping via `mstatus.TW`/`TVM`, CSR access permission —
//! is decided in `execute`, from live CPU state, on every execution of the
//! instruction. So the tag is *only* the physical address: no mode, no CSR
//! state.
use vstd::array::spec_array_update;
use vstd::prelude::*;

use super::csr;
use super::decode::{decodes_to, DecodedInst, Op};
use crate::ram::{Ram, RamState};

verus! {

// Linux boot measurements plateau at 1024 sets; larger caches cost memory
// without improving boot time.
pub const BLOCK_SETS: usize = 1024;

pub const BLOCK_WAYS: usize = 4;

pub const BLOCK_SLOTS: usize = 4096;

pub const MAX_BLOCK_INSTRUCTIONS: usize = 16;

pub const INVALID_PA: u64 = u64::MAX;

#[derive(Clone, Copy)]
pub struct CachedInstruction {
    /// Guest-physical address of this instruction.  Virtual addresses are
    /// deliberately not stored: a block is shared by every mapping of the page.
    pub pa: u64,
    pub raw: u32,
    pub decoded: DecodedInst,
}

#[derive(Clone, Copy)]
pub struct CacheLocation {
    pub slot: usize,
    pub index: usize,
    pub instruction: CachedInstruction,
}

#[derive(Clone, Copy)]
pub struct DecodedBlock {
    pub start_pa: u64,
    pub ram_page: u64,
    pub page_generation: u64,
    pub len: u8,
    pub instructions: [Option<CachedInstruction>; 16],
}

impl DecodedBlock {
    /// The page the block was decoded from has not been written since.
    pub open spec fn current(self, ram: RamState) -> bool {
        self.ram_page < ram.generations.len() && ram.generations[self.ram_page as int]
            == self.page_generation
    }

    pub open spec fn valid(self) -> bool {
        self.start_pa != INVALID_PA
    }

    /// What is held as decoded is what the instruction bits decode to.
    pub open spec fn sound(self) -> bool {
        forall|i: int|
            0 <= i < 16 ==> match #[trigger] self.instructions@[i] {
                Some(cached) => decodes_to(cached.raw, cached.decoded),
                None => true,
            }
    }

    pub open spec fn invalidated(self) -> DecodedBlock {
        DecodedBlock { start_pa: INVALID_PA, len: 0, ..self }
    }

    /// A block that was never filled.
    pub open spec fn blank(self) -> bool {
        &&& self.start_pa == INVALID_PA
        &&& self.ram_page == 0
        &&& self.page_generation == 0
        &&& self.len == 0
        &&& self.instructions@ == Seq::new(16, |i: int| None::<CachedInstruction>)
    }

    fn invalid() -> (r: Self)
        ensures
            r.blank(),
    {
        let r = Self {
            start_pa: INVALID_PA,
            ram_page: 0,
            page_generation: 0,
            len: 0,
            instructions: [None; 16],
        };
        assert(r.instructions@ =~= Seq::new(16, |i: int| None::<CachedInstruction>));
        r
    }

    fn generation_is_current(&self, ram: &Ram) -> (r: bool)
        requires
            ram.wf(),
        ensures
            r == self.current(ram@),
    {
        match ram.generation_for_page(self.ram_page) {
            Some(generation) => generation == self.page_generation,
            None => false,
        }
    }
}

#[derive(Clone, Copy)]
pub struct ActiveInstruction {
    pub slot: usize,
    pub index: usize,
    pub expected_pc: u64,
    pub expected_pa: u64,
}

#[derive(Debug, Clone, Copy, PartialEq, Eq, Structural)]
pub struct DecodeCacheStats {
    pub hits: u64,
    pub misses: u64,
}

impl Default for DecodeCacheStats {
    fn default() -> (r: Self)
        ensures
            r == (DecodeCacheStats { hits: 0, misses: 0 }),
    {
        DecodeCacheStats { hits: 0, misses: 0 }
    }
}

/// Continuation of the block the previous instruction belonged to.  This is
/// the only lookup that needs no translation: the block is page-local and
/// every instruction that could change the fetch mapping or the privilege
/// mode ends a block, so the block start's translation still stands.
pub enum ActiveLookup {
    Hit(CacheLocation),
    /// Grow the active block: decode the instruction and append it here.
    Append { slot: usize, index: usize },
    /// No active block; the caller must translate the PC and look up by
    /// physical address.
    Inactive,
}

pub enum Lookup {
    Hit(CacheLocation),
    Miss,
}

pub struct DecodeCache {
    pub blocks: Vec<DecodedBlock>,
    pub next_victim: Vec<u8>,
    pub active: Option<ActiveInstruction>,
    pub stats: DecodeCacheStats,
}

/// What a [`DecodeCache`] holds.
#[verifier::ext_equal]
pub struct CacheState {
    pub blocks: Seq<DecodedBlock>,
    pub next_victim: Seq<u8>,
    pub active: Option<ActiveInstruction>,
    pub stats: DecodeCacheStats,
}

impl View for DecodeCache {
    type V = CacheState;

    open spec fn view(&self) -> CacheState {
        CacheState {
            blocks: self.blocks@,
            next_victim: self.next_victim@,
            active: self.active,
            stats: self.stats,
        }
    }
}

/// The set of a block start. Mixes higher address bits so aligned block
/// starts can use every set.
pub open spec fn set_of(pa: u64) -> int {
    ((pa / 2) ^ (pa / 2048)) as int % 1024
}

/// Instructions that can redirect execution, change fetch translation/cache
/// state, or deliberately yield to the host terminate a decoded block.
///
/// A `satp` access is in the list because it is the one non-branching
/// instruction that can change how the *rest of the block* translates. Blocks
/// are physically keyed and retained on a `satp` write, so without this the
/// instructions after `csrw satp` would keep running out of the old address
/// space's physical page. (Reads of `satp` end a block too; they are rare
/// enough that distinguishing them is not worth it.)
pub open spec fn is_block_end(op: Op) -> bool {
    match op {
        Op::Csr { csr, .. } => csr == csr::SATP,
        Op::Jal { .. }
        | Op::Jalr { .. }
        | Op::Branch { .. }
        | Op::FenceI
        | Op::Ecall
        | Op::Ebreak
        | Op::Mret
        | Op::Sret
        | Op::Wfi
        | Op::SfenceVma { .. } => true,
        _ => false,
    }
}

impl CacheState {
    pub open spec fn wf(self) -> bool {
        &&& self.blocks.len() == 4096
        &&& self.next_victim.len() == 1024
        &&& forall|i: int| 0 <= i < 1024 ==> #[trigger] self.next_victim[i] < 4
        &&& forall|i: int|
            0 <= i < 4096 ==> (#[trigger] self.blocks[i]).len <= 16 && self.blocks[i].sound()
        &&& match self.active {
            Some(a) => a.slot < 4096 && a.index < 16,
            None => true,
        }
    }

    /// Nothing cached, nothing counted.
    pub open spec fn at_reset(self) -> bool {
        &&& self.blocks.len() == 4096
        &&& forall|i: int| 0 <= i < 4096 ==> (#[trigger] self.blocks[i]).blank()
        &&& self.next_victim == Seq::new(1024, |i: int| 0u8)
        &&& self.active is None
        &&& self.stats == (DecodeCacheStats { hits: 0, misses: 0 })
    }

    pub open spec fn with_block(self, slot: int, block: DecodedBlock) -> CacheState {
        CacheState { blocks: self.blocks.update(slot, block), ..self }
    }

    pub open spec fn invalidated(self, slot: int) -> CacheState {
        self.with_block(slot, self.blocks[slot].invalidated())
    }

    pub open spec fn counted_hit(self) -> CacheState {
        CacheState {
            stats: DecodeCacheStats { hits: self.stats.hits.wrapping_add(1), ..self.stats },
            ..self
        }
    }

    pub open spec fn counted_miss(self) -> CacheState {
        CacheState {
            stats: DecodeCacheStats { misses: self.stats.misses.wrapping_add(1), ..self.stats },
            ..self
        }
    }

    /// No valid block, nothing active; the counters stay.
    pub open spec fn flushed(self) -> CacheState {
        CacheState {
            blocks: Seq::new(self.blocks.len(), |i: int| self.blocks[i].invalidated()),
            next_victim: Seq::new(self.next_victim.len(), |i: int| 0u8),
            active: None,
            ..self
        }
    }

    /// What continuing the active block at `pc` finds, and the cache
    /// afterwards.
    pub open spec fn active_found(self, pc: u64, ram: RamState) -> (ActiveLookup, CacheState) {
        let idle = CacheState { active: None, ..self };
        match self.active {
            None => (ActiveLookup::Inactive, self),
            Some(active) => {
                let block = self.blocks[active.slot as int];
                if active.expected_pc == pc && block.valid() && block.current(ram) {
                    if active.index < block.len {
                        match block.instructions@[active.index as int] {
                            Some(instruction) if instruction.pa == active.expected_pa => (
                                ActiveLookup::Hit(
                                    CacheLocation {
                                        slot: active.slot,
                                        index: active.index,
                                        instruction,
                                    },
                                ),
                                idle.counted_hit(),
                            ),
                            _ => (ActiveLookup::Inactive, idle),
                        }
                    } else if active.index == block.len && block.len < 16 {
                        (
                            ActiveLookup::Append { slot: active.slot, index: active.index },
                            idle.counted_miss(),
                        )
                    } else {
                        (ActiveLookup::Inactive, idle)
                    }
                } else if block.valid() && !block.current(ram) {
                    (ActiveLookup::Inactive, idle.invalidated(active.slot as int))
                } else {
                    (ActiveLookup::Inactive, idle)
                }
            },
        }
    }

    /// What looking a block start up finds from way `way` of its set on, and
    /// the cache afterwards: stale blocks on the way are dropped.
    pub open spec fn found_from(self, pa: u64, ram: RamState, way: int) -> (Lookup, CacheState)
        decreases 4 - way,
    {
        if way >= 4 {
            (Lookup::Miss, self.counted_miss())
        } else {
            let slot = set_of(pa) * 4 + way;
            let block = self.blocks[slot];
            if block.start_pa != pa {
                self.found_from(pa, ram, way + 1)
            } else if block.current(ram) {
                match block.instructions@[0] {
                    Some(instruction) => (
                        Lookup::Hit(CacheLocation { slot: slot as usize, index: 0, instruction }),
                        self.counted_hit(),
                    ),
                    None => self.found_from(pa, ram, way + 1),
                }
            } else {
                self.invalidated(slot).found_from(pa, ram, way + 1)
            }
        }
    }

    pub open spec fn found(self, pa: u64, ram: RamState) -> (Lookup, CacheState) {
        self.found_from(pa, ram, 0)
    }

    /// The way a new block of the set goes to: the first free one from the
    /// rotating victim on, else the victim.
    pub open spec fn chosen_way(self, set: int, offset: int) -> int
        decreases 4 - offset,
    {
        let first = self.next_victim[set] as int;
        if offset >= 4 {
            first
        } else if !self.blocks[set * 4 + (first + offset) % 4].valid() {
            (first + offset) % 4
        } else {
            self.chosen_way(set, offset + 1)
        }
    }

    /// Whether an instruction may be appended to the block being grown.
    pub open spec fn extends(self, slot: int, index: int, page: u64, generation: u64) -> bool {
        let block = self.blocks[slot];
        block.valid() && block.ram_page == page && block.page_generation == generation && index
            == block.len && index < 16
    }

    /// The cache with a decoded instruction added, and where it went.
    pub open spec fn inserted(
        self,
        pa: u64,
        page: u64,
        generation: u64,
        instruction: CachedInstruction,
        append: Option<(usize, usize)>,
    ) -> (CacheLocation, CacheState) {
        match append {
            Some((slot, index)) if self.extends(slot as int, index as int, page, generation) => {
                let block = self.blocks[slot as int];
                (
                    CacheLocation { slot, index, instruction },
                    self.with_block(
                        slot as int,
                        DecodedBlock {
                            len: (block.len + 1) as u8,
                            instructions: spec_array_update(
                                block.instructions,
                                index as int,
                                Some(instruction),
                            ),
                            ..block
                        },
                    ),
                )
            },
            _ => {
                let set = set_of(pa);
                let way = self.chosen_way(set, 0);
                let slot = set * 4 + way;
                let block = self.blocks[slot];
                (
                    CacheLocation { slot: slot as usize, index: 0, instruction },
                    CacheState {
                        blocks: self.blocks.update(
                            slot,
                            DecodedBlock {
                                start_pa: pa,
                                ram_page: page,
                                page_generation: generation,
                                len: 1,
                                instructions: spec_array_update(
                                    block.instructions,
                                    0,
                                    Some(instruction),
                                ),
                            },
                        ),
                        next_victim: self.next_victim.update(set, ((way + 1) % 4) as u8),
                        ..self
                    },
                )
            },
        }
    }

    /// Whether the block goes on after the instruction: it fell through, and
    /// its successor may be on the same page of a block with room.
    pub open spec fn continues(
        self,
        location: CacheLocation,
        instruction_pc: u64,
        next_pc: u64,
        actual_pc: u64,
        ram: RamState,
    ) -> bool {
        let block = self.blocks[location.slot as int];
        &&& !is_block_end(location.instruction.decoded.op)
        &&& actual_pc == next_pc
        &&& block.valid()
        &&& block.current(ram)
        &&& match block.instructions@[location.index as int] {
            Some(cached) => cached.pa == location.instruction.pa,
            None => false,
        }
        &&& location.index + 1 < 16
        &&& next_pc / 0x1000 == instruction_pc / 0x1000
    }

    /// The cache after an instruction has executed. Page-local, so the next
    /// instruction's physical address is its predecessor's plus the same delta
    /// as the virtual one.
    pub open spec fn finished(
        self,
        location: CacheLocation,
        instruction_pc: u64,
        next_pc: u64,
        actual_pc: u64,
        ram: RamState,
    ) -> CacheState {
        CacheState {
            active: if self.continues(location, instruction_pc, next_pc, actual_pc, ram) {
                Some(
                    ActiveInstruction {
                        slot: location.slot,
                        index: (location.index + 1) as usize,
                        expected_pc: next_pc,
                        expected_pa: location.instruction.pa.wrapping_add(
                            next_pc.wrapping_sub(instruction_pc),
                        ),
                    },
                )
            } else {
                None
            },
            ..self
        }
    }
}

impl DecodeCache {
    pub fn new() -> (r: Self)
        ensures
            r@.wf(),
            r@.at_reset(),
    {
        let mut blocks: Vec<DecodedBlock> = Vec::new();
        let mut i: usize = 0;
        while i < BLOCK_SLOTS
            invariant
                i <= 4096,
                blocks@.len() == i,
                forall|k: int| 0 <= k < i ==> (#[trigger] blocks@[k]).blank(),
            decreases 4096 - i,
        {
            blocks.push(DecodedBlock::invalid());
            i = i + 1;
        }
        let next_victim: Vec<u8> = vec![0; 1024];
        assert(next_victim@ =~= Seq::new(1024, |i: int| 0u8));
        Self { blocks, next_victim, active: None, stats: DecodeCacheStats::default() }
    }

    pub fn stats(&self) -> (r: DecodeCacheStats)
        ensures
            r == self@.stats,
    {
        self.stats
    }

    /// Discard every block.  `FENCE.I` is the only caller: it is the
    /// architectural ordering point for self-modifying code, and it is rare
    /// enough that a full flush costs nothing measurable.  Ordinary stores to
    /// code are caught without it by the per-page write generations.
    pub fn flush(&mut self)
        requires
            old(self)@.wf(),
        ensures
            final(self)@.wf(),
            final(self)@ == old(self)@.flushed(),
    {
        let mut i: usize = 0;
        while i < BLOCK_SLOTS
            invariant
                i <= 4096,
                self.blocks@.len() == 4096,
                old(self)@.blocks.len() == 4096,
                self.next_victim == old(self).next_victim,
                self.stats == old(self).stats,
                forall|k: int|
                    0 <= k < i ==> #[trigger] self.blocks@[k] == old(
                        self,
                    )@.blocks[k].invalidated(),
                forall|k: int| i <= k < 4096 ==> #[trigger] self.blocks@[k] == old(self)@.blocks[k],
            decreases 4096 - i,
        {
            self.invalidate_generation(i);
            i = i + 1;
        }
        let mut set: usize = 0;
        while set < BLOCK_SETS
            invariant
                set <= 1024,
                self.next_victim@.len() == 1024,
                self.stats == old(self).stats,
                self.blocks@ == old(self)@.flushed().blocks,
                forall|k: int| 0 <= k < set ==> #[trigger] self.next_victim@[k] == 0,
            decreases 1024 - set,
        {
            self.next_victim.set(set, 0);
            set = set + 1;
        }
        self.active = None;
        assert(self@ =~= old(self)@.flushed());
    }

    fn invalidate_generation(&mut self, slot: usize)
        requires
            slot < old(self)@.blocks.len(),
        ensures
            final(self)@ == old(self)@.invalidated(slot as int),
            final(self).next_victim == old(self).next_victim,
    {
        let mut block = self.blocks[slot];
        block.start_pa = INVALID_PA;
        block.len = 0;
        self.blocks.set(slot, block);
        assert(self@ =~= old(self)@.invalidated(slot as int));
    }

    fn count_hit(&mut self)
        ensures
            final(self)@ == old(self)@.counted_hit(),
            final(self).blocks == old(self).blocks,
    {
        self.stats.hits = self.stats.hits.wrapping_add(1);
    }

    fn count_miss(&mut self)
        ensures
            final(self)@ == old(self)@.counted_miss(),
            final(self).blocks == old(self).blocks,
    {
        self.stats.misses = self.stats.misses.wrapping_add(1);
    }

    /// Continue the block the previous instruction fell through from.
    pub fn lookup_active(&mut self, pc: u64, ram: &Ram) -> (r: ActiveLookup)
        requires
            old(self)@.wf(),
            ram.wf(),
        ensures
            final(self)@.wf(),
            (r, final(self)@) == old(self)@.active_found(pc, ram@),
            match r {
                ActiveLookup::Hit(l) => l.slot < 4096 && l.index < 16 && decodes_to(
                    l.instruction.raw,
                    l.instruction.decoded,
                ),
                ActiveLookup::Append { slot, .. } => slot < 4096,
                ActiveLookup::Inactive => true,
            },
    {
        let active = match self.active {
            Some(a) => a,
            None => return ActiveLookup::Inactive,
        };
        self.active = None;
        let block = self.blocks[active.slot];
        if active.expected_pc == pc && block.start_pa != INVALID_PA
            && block.generation_is_current(ram) {
            let len: usize = block.len as usize;
            if active.index < len {
                match block.instructions[active.index] {
                    Some(instruction) => {
                        if instruction.pa == active.expected_pa {
                            self.count_hit();
                            return ActiveLookup::Hit(
                                CacheLocation {
                                    slot: active.slot,
                                    index: active.index,
                                    instruction,
                                },
                            );
                        }
                    },
                    None => {},
                }
            } else if active.index == len && len < MAX_BLOCK_INSTRUCTIONS {
                self.count_miss();
                return ActiveLookup::Append { slot: active.slot, index: active.index };
            }
        } else if block.start_pa != INVALID_PA && !block.generation_is_current(ram) {
            self.invalidate_generation(active.slot);
        }
        ActiveLookup::Inactive
    }

    /// Look up a block start by guest-physical address.  The caller has
    /// already translated the PC, so fetch permission for this address has
    /// been checked against the *current* page tables.
    pub fn lookup_physical(&mut self, pa: u64, ram: &Ram) -> (r: Lookup)
        requires
            old(self)@.wf(),
            ram.wf(),
        ensures
            final(self)@.wf(),
            (r, final(self)@) == old(self)@.found(pa, ram@),
            match r {
                Lookup::Hit(l) => l.slot < 4096 && l.index < 16 && decodes_to(
                    l.instruction.raw,
                    l.instruction.decoded,
                ),
                Lookup::Miss => true,
            },
    {
        let first_slot: usize = set_for(pa) * BLOCK_WAYS;
        let mut way: usize = 0;
        while way < BLOCK_WAYS
            invariant
                way <= 4,
                ram.wf(),
                self@.wf(),
                first_slot == set_of(pa) * 4,
                first_slot + 4 <= 4096,
                old(self)@.found(pa, ram@) == self@.found_from(pa, ram@, way as int),
            decreases 4 - way,
        {
            let slot: usize = first_slot + way;
            let block = self.blocks[slot];
            if block.start_pa == pa {
                if block.generation_is_current(ram) {
                    match block.instructions[0] {
                        Some(instruction) => {
                            self.count_hit();
                            return Lookup::Hit(CacheLocation { slot, index: 0, instruction });
                        },
                        None => {},
                    }
                } else {
                    self.invalidate_generation(slot);
                }
            }
            way = way + 1;
        }
        self.count_miss();
        Lookup::Miss
    }

    /// Insert a decoded instruction, appending it to the block currently being
    /// grown when its physical page still matches.  Returns its cache location.
    pub fn insert(
        &mut self,
        pa: u64,
        ram_page: u64,
        page_generation: u64,
        instruction: CachedInstruction,
        append: Option<(usize, usize)>,
    ) -> (r: CacheLocation)
        requires
            old(self)@.wf(),
            decodes_to(instruction.raw, instruction.decoded),
            match append {
                Some((slot, index)) => slot < 4096,
                None => true,
            },
        ensures
            final(self)@.wf(),
            r.slot < 4096,
            r.index < 16,
            (r, final(self)@) == old(self)@.inserted(
                pa,
                ram_page,
                page_generation,
                instruction,
                append,
            ),
    {
        match append {
            Some((slot, index)) => {
                let mut block = self.blocks[slot];
                if block.start_pa != INVALID_PA && block.ram_page == ram_page
                    && block.page_generation == page_generation && index == block.len as usize
                    && index < MAX_BLOCK_INSTRUCTIONS {
                    block.instructions[index] = Some(instruction);
                    block.len = block.len + 1;
                    self.blocks.set(slot, block);
                    return CacheLocation { slot, index, instruction };
                }
            },
            None => {},
        }
        let set: usize = set_for(pa);
        let way: usize = self.choose_way(set);
        let slot: usize = set * BLOCK_WAYS + way;
        self.next_victim.set(set, ((way + 1) % BLOCK_WAYS) as u8);
        let mut block = self.blocks[slot];
        block.start_pa = pa;
        block.ram_page = ram_page;
        block.page_generation = page_generation;
        block.len = 1;
        block.instructions[0] = Some(instruction);
        self.blocks.set(slot, block);
        CacheLocation { slot, index: 0, instruction }
    }

    fn choose_way(&self, set: usize) -> (r: usize)
        requires
            self@.wf(),
            set < 1024,
        ensures
            r == self@.chosen_way(set as int, 0),
            r < 4,
    {
        let first_way: usize = self.next_victim[set] as usize;
        let mut offset: usize = 0;
        while offset < BLOCK_WAYS
            invariant
                offset <= 4,
                self@.wf(),
                set < 1024,
                first_way < 4,
                first_way == self@.next_victim[set as int],
                self@.chosen_way(set as int, 0) == self@.chosen_way(set as int, offset as int),
            decreases 4 - offset,
        {
            let way: usize = (first_way + offset) % BLOCK_WAYS;
            if self.blocks[set * BLOCK_WAYS + way].start_pa == INVALID_PA {
                return way;
            }
            offset = offset + 1;
        }
        first_way
    }

    /// Continue a block only after a successful architectural fallthrough.
    pub fn finish_instruction(
        &mut self,
        location: CacheLocation,
        instruction_pc: u64,
        next_pc: u64,
        actual_pc: u64,
        ram: &Ram,
    )
        requires
            old(self)@.wf(),
            ram.wf(),
            location.slot < 4096,
            location.index < 16,
        ensures
            final(self)@.wf(),
            final(self)@ == old(self)@.finished(
                location,
                instruction_pc,
                next_pc,
                actual_pc,
                ram@,
            ),
    {
        let instruction = location.instruction;
        if ends_block(&instruction.decoded.op) || actual_pc != next_pc {
            self.active = None;
            return;
        }
        let block = self.blocks[location.slot];
        let same = match block.instructions[location.index] {
            Some(cached) => cached.pa == instruction.pa,
            None => false,
        };
        if block.start_pa == INVALID_PA || !block.generation_is_current(ram) || !same
            || location.index + 1 >= MAX_BLOCK_INSTRUCTIONS || next_pc / 0x1000 != instruction_pc
            / 0x1000 {
            self.active = None;
            return;
        }
        // Page-local by the check above, so the next instruction's physical
        // address is its predecessor's plus the same delta as the virtual one.
        self.active = Some(
            ActiveInstruction {
                slot: location.slot,
                index: location.index + 1,
                expected_pc: next_pc,
                expected_pa: instruction.pa.wrapping_add(next_pc.wrapping_sub(instruction_pc)),
            },
        );
    }
}

fn set_for(pa: u64) -> (r: usize)
    ensures
        r == set_of(pa),
        r < 1024,
{
    (((pa / 2) ^ (pa / 2048)) % 1024) as usize
}

pub fn ends_block(op: &Op) -> (r: bool)
    ensures
        r == is_block_end(*op),
{
    match *op {
        Op::Csr { csr, .. } => csr == csr::SATP,
        Op::Jal { .. }
        | Op::Jalr { .. }
        | Op::Branch { .. }
        | Op::FenceI
        | Op::Ecall
        | Op::Ebreak
        | Op::Mret
        | Op::Sret
        | Op::Wfi
        | Op::SfenceVma { .. } => true,
        _ => false,
    }
}

// ---------------------------------------------------------------------------
// Laws
// ---------------------------------------------------------------------------

/// Looking `pa` up goes past the block.
pub open spec fn passes(block: DecodedBlock, pa: u64, ram: RamState) -> bool {
    block.start_pa != pa || (block.current(ram) && block.instructions@[0] is None)
}

/// A lookup that misses leaves only blocks it goes past in the ways it looked
/// at, and the other slots alone.
proof fn lemma_miss(c: CacheState, pa: u64, ram: RamState, way: int)
    requires
        c.wf(),
        pa != INVALID_PA,
        0 <= way <= 4,
        c.found_from(pa, ram, way).0 is Miss,
    ensures
        ({
            let after = c.found_from(pa, ram, way).1;
            &&& after.blocks.len() == 4096
            &&& after.next_victim == c.next_victim
            &&& forall|k: int|
                way <= k < 4 ==> passes(#[trigger] after.blocks[set_of(pa) * 4 + k], pa, ram)
            &&& forall|slot: int|
                0 <= slot < 4096 && !(set_of(pa) * 4 + way <= slot < set_of(pa) * 4 + 4)
                    ==> #[trigger] after.blocks[slot] == c.blocks[slot]
        }),
    decreases 4 - way,
{
    if way < 4 {
        let slot = set_of(pa) * 4 + way;
        let block = c.blocks[slot];
        if block.start_pa == pa && !block.current(ram) {
            let next = c.invalidated(slot);
            assert forall|i: int| 0 <= i < 4096 implies (#[trigger] next.blocks[i]).len <= 16
                && next.blocks[i].sound() by {
                assert(c.blocks[i].sound());
            }
            lemma_miss(next, pa, ram, way + 1);
        } else {
            lemma_miss(c, pa, ram, way + 1);
        }
    }
}

/// A lookup goes past what it goes past, to the block that answers.
proof fn lemma_hit(c: CacheState, pa: u64, ram: RamState, way: int, at: int)
    requires
        0 <= way <= at < 4,
        forall|k: int| way <= k < at ==> passes(#[trigger] c.blocks[set_of(pa) * 4 + k], pa, ram),
        c.blocks[set_of(pa) * 4 + at].start_pa == pa,
        c.blocks[set_of(pa) * 4 + at].current(ram),
        c.blocks[set_of(pa) * 4 + at].instructions@[0] is Some,
    ensures
        c.found_from(pa, ram, way) == (
            Lookup::Hit(
                CacheLocation {
                    slot: (set_of(pa) * 4 + at) as usize,
                    index: 0,
                    instruction: c.blocks[set_of(pa) * 4 + at].instructions@[0]->Some_0,
                },
            ),
            c.counted_hit(),
        ),
    decreases at - way,
{
    if way < at {
        assert(passes(c.blocks[set_of(pa) * 4 + way], pa, ram));
        lemma_hit(c, pa, ram, way + 1, at);
    }
}

/// An instruction inserted after a lookup missed it starts a block, and the
/// next lookup finds it there. Inserting counts neither as hit nor as miss.
pub proof fn law_inserted_is_found(
    c: CacheState,
    pa: u64,
    page: u64,
    instruction: CachedInstruction,
    ram: RamState,
)
    requires
        c.wf(),
        pa != INVALID_PA,
        c.found(pa, ram).0 is Miss,
        page < ram.generations.len(),
    ensures
        ({
            let generation = ram.generations[page as int];
            let missed = c.found(pa, ram).1;
            let (location, after) = missed.inserted(pa, page, generation, instruction, None);
            &&& location.index == 0
            &&& location.instruction == instruction
            &&& after.found(pa, ram) == (Lookup::Hit(location), after.counted_hit())
            &&& after.stats == missed.stats
        }),
{
    let missed = c.found(pa, ram).1;
    let set = set_of(pa);
    lemma_miss(c, pa, ram, 0);
    let (location, after) = missed.inserted(
        pa,
        page,
        ram.generations[page as int],
        instruction,
        None,
    );
    lemma_chosen_way_bounds(missed, set, 0, c);
    let way = missed.chosen_way(set, 0);
    let slot = set * 4 + way;
    assert forall|k: int| 0 <= k < way implies passes(
        #[trigger] after.blocks[set_of(pa) * 4 + k],
        pa,
        ram,
    ) by {
        assert(passes(missed.blocks[set_of(pa) * 4 + k], pa, ram));
    }
    lemma_hit(after, pa, ram, 0, way);
}

proof fn lemma_chosen_way_bounds(c: CacheState, set: int, offset: int, before: CacheState)
    requires
        before.wf(),
        c.next_victim == before.next_victim,
        0 <= set < 1024,
        0 <= offset <= 4,
    ensures
        0 <= c.chosen_way(set, offset) < 4,
    decreases 4 - offset,
{
    assert(before.next_victim[set] < 4);
    if offset < 4 {
        lemma_chosen_way_bounds(c, set, offset + 1, before);
    }
}

} // verus!
