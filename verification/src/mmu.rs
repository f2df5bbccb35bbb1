//! Sv39 address translation with a direct-mapped TLB.
//!
//! Page-table entries are read and updated through the bus, but only where it
//! is ordinary RAM: a table pointer cannot turn a translation into a device
//! access. Accessed and dirty bits are set by hardware when `adue` allows it
//! and fault otherwise.
use vstd::prelude::*;

use crate::bus::{Bus, BusState, DRAM_BASE};
use crate::cpu::Mode;
use crate::ram::law_write_then_read;
use crate::trap::Exception;

verus! {

/// A virtual page number no address has.
pub const NO_PAGE: u64 = u64::MAX;

#[derive(Debug, Clone, Copy, PartialEq, Eq, Structural)]
pub enum AccessType {
    Fetch,
    Load,
    Store,
}

/// A translation of one 4 KiB page.
#[derive(Clone, Copy)]
pub struct TlbEntry {
    pub vpn: u64,
    /// Physical address of the page.
    pub base: u64,
    /// The low eight bits of the leaf entry: V, R, W, X, U, G, A, D.
    pub flags: u64,
}

pub struct Mmu {
    pub tlb: [TlbEntry; 256],
    /// Counts flushes, so that memos of a translation can tell they are stale.
    pub generation: u64,
}

pub open spec fn readable(pte: u64) -> bool {
    pte / 2 % 2 == 1
}

pub open spec fn writable(pte: u64) -> bool {
    pte / 4 % 2 == 1
}

pub open spec fn executable(pte: u64) -> bool {
    pte / 8 % 2 == 1
}

pub open spec fn user_page(pte: u64) -> bool {
    pte / 16 % 2 == 1
}

pub open spec fn accessed(pte: u64) -> bool {
    pte / 64 % 2 == 1
}

pub open spec fn dirty(pte: u64) -> bool {
    pte / 128 % 2 == 1
}

/// Valid, not write-only, no reserved bits.
pub open spec fn pte_valid(pte: u64) -> bool {
    pte % 2 == 1 && (readable(pte) || !writable(pte)) && pte < 0x40_0000_0000_0000
}

pub open spec fn is_leaf(pte: u64) -> bool {
    readable(pte) || executable(pte)
}

/// The physical page an entry points to.
pub open spec fn ppn(pte: u64) -> u64 {
    pte / 1024
}

/// The bytes an entry of a level maps.
pub open spec fn span(level: nat) -> u64 {
    if level == 0 {
        0x1000
    } else if level == 1 {
        0x20_0000
    } else {
        0x4000_0000
    }
}

/// The index of an address into a table of a level.
pub open spec fn table_index(va: u64, level: nat) -> u64 {
    va / span(level) % 512
}

/// Bits 63..39 of an address repeat bit 38.
pub open spec fn canonical(va: u64) -> bool {
    va < 0x40_0000_0000 || va >= 0xffff_ffc0_0000_0000
}

/// Where a table walk ends.
pub enum Walk {
    /// No usable leaf.
    NoPage,
    /// A table that is not in RAM.
    NoTable,
    Leaf { at: u64, pte: u64, level: nat },
}

/// The walk from the table at physical address `table`.
pub open spec fn walk_from(b: BusState, table: u64, va: u64, level: nat) -> Walk
    decreases level,
{
    let at = (table + table_index(va, level) * 8) as u64;
    if !b.main_memory(at, 8) {
        Walk::NoTable
    } else {
        let pte = b.ram.load((at - DRAM_BASE) as u64, 8)->Ok_0;
        if !pte_valid(pte) {
            Walk::NoPage
        } else if is_leaf(pte) {
            // A superpage must be aligned to its size.
            if ppn(pte) % (span(level) / 0x1000) != 0 {
                Walk::NoPage
            } else {
                Walk::Leaf { at, pte, level }
            }
        } else if level == 0 {
            Walk::NoPage
        } else {
            walk_from(b, (ppn(pte) * 0x1000) as u64, va, (level - 1) as nat)
        }
    }
}

/// A leaf is found in RAM.
pub proof fn lemma_walk_in_ram(b: BusState, table: u64, va: u64, level: nat)
    ensures
        match walk_from(b, table, va, level) {
            Walk::Leaf { at, .. } => b.main_memory(at, 8),
            _ => true,
        },
    decreases level,
{
    let at = (table + table_index(va, level) * 8) as u64;
    if b.main_memory(at, 8) && level > 0 {
        let pte = b.ram.load((at - DRAM_BASE) as u64, 8)->Ok_0;
        lemma_walk_in_ram(b, (ppn(pte) * 0x1000) as u64, va, (level - 1) as nat);
    }
}

/// Whether a leaf grants an access in a privilege mode.
pub open spec fn permits(pte: u64, acc: AccessType, mode: Mode, mxr: bool, sum: bool) -> bool {
    &&& match mode {
        Mode::User => user_page(pte),
        // Supervisor code never fetches from a user page, and reaches its
        // data only where SUM allows it.
        _ => !user_page(pte) || (sum && acc != AccessType::Fetch),
    }
    &&& match acc {
        AccessType::Fetch => executable(pte),
        AccessType::Load => readable(pte) || (mxr && executable(pte)),
        AccessType::Store => writable(pte),
    }
}

/// The accessed bit, and for a store the dirty bit, are set.
pub open spec fn marked(pte: u64, acc: AccessType) -> bool {
    accessed(pte) && (acc == AccessType::Store ==> dirty(pte))
}

/// The entry with the bits an access sets.
pub open spec fn mark(pte: u64, acc: AccessType) -> u64 {
    if acc == AccessType::Store {
        pte | 0xc0
    } else {
        pte | 0x40
    }
}

pub open spec fn page_fault(acc: AccessType, va: u64) -> Exception {
    match acc {
        AccessType::Fetch => Exception::InstructionPageFault(va),
        AccessType::Load => Exception::LoadPageFault(va),
        AccessType::Store => Exception::StorePageFault(va),
    }
}

pub open spec fn access_fault(acc: AccessType, va: u64) -> Exception {
    match acc {
        AccessType::Fetch => Exception::InstructionAccessFault(va),
        AccessType::Load => Exception::LoadAccessFault(va),
        AccessType::Store => Exception::StoreAccessFault(va),
    }
}

/// What an access asks of a translation.
pub struct Access {
    pub mode: Mode,
    pub mxr: bool,
    pub sum: bool,
    pub adue: bool,
    pub acc: AccessType,
}

/// What an [`Mmu`] holds.
#[verifier::ext_equal]
pub struct MmuState {
    pub tlb: Seq<TlbEntry>,
    pub generation: u64,
}

impl View for Mmu {
    type V = MmuState;

    open spec fn view(&self) -> MmuState {
        MmuState { tlb: self.tlb@, generation: self.generation }
    }
}

pub open spec fn no_entry() -> TlbEntry {
    TlbEntry { vpn: NO_PAGE, base: 0, flags: 0 }
}

impl MmuState {
    /// The TLB slot of a virtual page.
    pub open spec fn slot(va: u64) -> int {
        va as int / 0x1000 % 256
    }

    pub open spec fn entry(self, va: u64) -> TlbEntry {
        self.tlb[MmuState::slot(va)]
    }

    /// The TLB answers for the page.
    pub open spec fn hits(self, va: u64) -> bool {
        self.entry(va).vpn == va / 0x1000
    }

    pub open spec fn with_entry(self, va: u64, base: u64, flags: u64) -> MmuState {
        MmuState {
            tlb: self.tlb.update(
                MmuState::slot(va),
                TlbEntry { vpn: va / 0x1000, base, flags },
            ),
            ..self
        }
    }

    /// A full table walk for an access.
    pub open spec fn walked(self, b: BusState, satp: u64, a: Access, va: u64) -> (
        Result<u64, Exception>,
        MmuState,
        BusState,
    ) {
        match walk_from(b, (satp % 0x1000_0000_0000 * 0x1000) as u64, va, 2) {
            Walk::NoTable => (Err(access_fault(a.acc, va)), self, b),
            Walk::NoPage => (Err(page_fault(a.acc, va)), self, b),
            Walk::Leaf { at, pte, level } => if !permits(pte, a.acc, a.mode, a.mxr, a.sum) || (
            !marked(pte, a.acc) && !a.adue) {
                (Err(page_fault(a.acc, va)), self, b)
            } else {
                let pa = (ppn(pte) * 0x1000 + va % span(level)) as u64;
                let done = mark(pte, a.acc);
                (
                    Ok(pa),
                    self.with_entry(va, (pa - va % 0x1000) as u64, (done % 256) as u64),
                    if marked(pte, a.acc) {
                        b
                    } else {
                        BusState { ram: b.ram.stored((at - DRAM_BASE) as u64, done, 8), ..b }
                    },
                )
            },
        }
    }

    /// A translation: the physical address or the exception, and the TLB and
    /// bus afterwards.
    pub open spec fn translated(self, b: BusState, satp: u64, a: Access, va: u64) -> (
        Result<u64, Exception>,
        MmuState,
        BusState,
    ) {
        if satp / 0x1000_0000_0000_0000 != 8 || a.mode == Mode::Machine {
            (Ok(va), self, b)
        } else if !canonical(va) {
            (Err(page_fault(a.acc, va)), self, b)
        } else if self.hits(va) && !permits(self.entry(va).flags, a.acc, a.mode, a.mxr, a.sum) {
            (Err(page_fault(a.acc, va)), self, b)
        } else if self.hits(va) && marked(self.entry(va).flags, a.acc) {
            (Ok((self.entry(va).base + va % 0x1000) as u64), self, b)
        } else {
            self.walked(b, satp, a, va)
        }
    }

    /// Every TLB entry is a page of physical memory.
    pub open spec fn wf(self) -> bool {
        &&& self.tlb.len() == 256
        &&& forall|i: int|
            0 <= i < 256 ==> (#[trigger] self.tlb[i]).base <= 0x200_0000_0000_0000
                && self.tlb[i].base % 0x1000 == 0
    }

    pub open spec fn fresh() -> MmuState {
        MmuState { tlb: Seq::new(256, |i: int| no_entry()), generation: 0 }
    }

    /// The MMU after a flush.
    pub open spec fn flushed(self) -> MmuState {
        MmuState {
            tlb: Seq::new(256, |i: int| no_entry()),
            generation: self.generation.wrapping_add(1),
        }
    }
}

fn repeated<T: Copy>(t: T) -> (r: [T; 256])
    ensures
        r@ == Seq::new(256, |i: int| t),
{
    let r: [T; 256] = [t; 256];
    assert(r@ =~= Seq::new(256, |i: int| t));
    r
}

fn empty_tlb() -> (r: [TlbEntry; 256])
    ensures
        r@ == Seq::new(256, |i: int| no_entry()),
{
    repeated(TlbEntry { vpn: NO_PAGE, base: 0, flags: 0 })
}

/// A leaf found by a table walk.
struct Leaf {
    at: u64,
    pte: u64,
    level: u8,
}

enum WalkEnd {
    NoPage,
    NoTable,
    Found(Leaf),
}

impl Mmu {
    pub fn new() -> (r: Self)
        ensures
            r@.wf(),
            r@ == MmuState::fresh(),
    {
        Self { tlb: empty_tlb(), generation: 0 }
    }

    /// How often the TLB has been flushed.
    pub fn generation(&self) -> (r: u64)
        ensures
            r == self@.generation,
    {
        self.generation
    }

    /// Drop every translation.
    pub fn flush_all(&mut self)
        ensures
            final(self)@.wf(),
            final(self)@ == old(self)@.flushed(),
    {
        self.tlb = empty_tlb();
        self.generation = self.generation.wrapping_add(1);
    }

    fn walk(bus: &mut Bus, satp: u64, va: u64) -> (r: WalkEnd)
        requires
            old(bus).wf(),
        ensures
            *final(bus) == *old(bus),
            match (r, walk_from(old(bus)@, (satp % 0x1000_0000_0000 * 0x1000) as u64, va, 2)) {
                (WalkEnd::NoPage, Walk::NoPage) => true,
                (WalkEnd::NoTable, Walk::NoTable) => true,
                (WalkEnd::Found(leaf), Walk::Leaf { at, pte, level }) => leaf.at == at && leaf.pte
                    == pte && leaf.level == level && level <= 2 && old(bus)@.main_memory(at, 8)
                    && pte_valid(pte) && ppn(pte) % (span(level) / 0x1000) == 0,
                _ => false,
            },
    {
        let mut table: u64 = satp % 0x1000_0000_0000 * 0x1000;
        let mut level: u8 = 2;
        let ghost whole = walk_from(bus@, table, va, 2);
        loop
            invariant
                bus.wf(),
                *bus == *old(bus),
                level <= 2,
                table <= 0x100_0000_0000_0000,
                whole == walk_from(bus@, table, va, level as nat),
                whole == walk_from(
                    old(bus)@,
                    (satp % 0x1000_0000_0000 * 0x1000) as u64,
                    va,
                    2,
                ),
            decreases level,
        {
            let size: u64 = if level == 0 {
                0x1000
            } else if level == 1 {
                0x20_0000
            } else {
                0x4000_0000
            };
            let at: u64 = table + va / size % 512 * 8;
            if !bus.is_main_memory(at, 8) {
                return WalkEnd::NoTable;
            }
            let pte: u64 = match bus.ram.read(at - DRAM_BASE, 8) {
                Ok(v) => v,
                Err(_) => return WalkEnd::NoTable,
            };
            if pte % 2 == 0 || (pte / 2 % 2 == 0 && pte / 4 % 2 == 1) || pte
                >= 0x40_0000_0000_0000 {
                return WalkEnd::NoPage;
            }
            if pte / 2 % 2 == 1 || pte / 8 % 2 == 1 {
                // A superpage must be aligned to its size.
                if pte / 1024 % (size / 0x1000) != 0 {
                    return WalkEnd::NoPage;
                }
                return WalkEnd::Found(Leaf { at, pte, level });
            }
            if level == 0 {
                return WalkEnd::NoPage;
            }
            table = pte / 1024 * 0x1000;
            level = level - 1;
        }
    }

    /// Translate a virtual address, checking the access against the page's
    /// permissions.
    pub fn translate(
        &mut self,
        bus: &mut Bus,
        satp: u64,
        mode: Mode,
        mxr: bool,
        sum: bool,
        adue: bool,
        acc: AccessType,
        va: u64,
    ) -> (r: Result<u64, Exception>)
        requires
            old(self)@.wf(),
            old(bus).wf(),
        ensures
            final(self)@.wf(),
            final(bus).wf(),
            final(bus)@.ram.bytes.len() == old(bus)@.ram.bytes.len(),
            (r, final(self)@, final(bus)@) == old(self)@.translated(
                old(bus)@,
                satp,
                Access { mode, mxr, sum, adue, acc },
                va,
            ),
    {
        if satp / 0x1000_0000_0000_0000 != 8 || mode == Mode::Machine {
            return Ok(va);
        }
        if va >= 0x40_0000_0000 && va < 0xffff_ffc0_0000_0000 {
            return Err(page_fault_at(acc, va));
        }
        let entry = self.tlb[(va / 0x1000 % 256) as usize];
        if entry.vpn == va / 0x1000 {
            if !allowed(entry.flags, acc, mode, mxr, sum) {
                return Err(page_fault_at(acc, va));
            }
            if is_marked(entry.flags, acc) {
                return Ok(entry.base + va % 0x1000);
            }
        }
        self.refill(bus, satp, mode, mxr, sum, adue, acc, va)
    }

    /// Walk the tables and remember what they say.
    fn refill(
        &mut self,
        bus: &mut Bus,
        satp: u64,
        mode: Mode,
        mxr: bool,
        sum: bool,
        adue: bool,
        acc: AccessType,
        va: u64,
    ) -> (r: Result<u64, Exception>)
        requires
            old(self)@.wf(),
            old(bus).wf(),
        ensures
            final(self)@.wf(),
            final(bus).wf(),
            final(bus)@.ram.bytes.len() == old(bus)@.ram.bytes.len(),
            (r, final(self)@, final(bus)@) == old(self)@.walked(
                old(bus)@,
                satp,
                Access { mode, mxr, sum, adue, acc },
                va,
            ),
    {
        let leaf = match Self::walk(bus, satp, va) {
            WalkEnd::NoTable => return Err(access_fault_at(acc, va)),
            WalkEnd::NoPage => return Err(page_fault_at(acc, va)),
            WalkEnd::Found(leaf) => leaf,
        };
        let pte: u64 = leaf.pte;
        if !allowed(pte, acc, mode, mxr, sum) || (!is_marked(pte, acc) && !adue) {
            return Err(page_fault_at(acc, va));
        }
        let pa: u64 = leaf_address(pte, leaf.level, va);
        let done: u64 = if acc == AccessType::Store {
            pte | 0xc0
        } else {
            pte | 0x40
        };
        if !is_marked(pte, acc) {
            proof {
                crate::le::lemma_le_bytes_len(done as nat, 8);
            }
            let _ = bus.ram.write(leaf.at - DRAM_BASE, done, 8);
        }
        self.insert(va, pa - va % 0x1000, done % 256);
        Ok(pa)
    }

    fn insert(&mut self, va: u64, base: u64, flags: u64)
        requires
            old(self)@.wf(),
            base <= 0x200_0000_0000_0000,
            base % 0x1000 == 0,
        ensures
            final(self)@.wf(),
            final(self)@ == old(self)@.with_entry(va, base, flags),
    {
        self.tlb[(va / 0x1000 % 256) as usize] = TlbEntry { vpn: va / 0x1000, base, flags };
        assert(self@ =~= old(self)@.with_entry(va, base, flags));
    }
}

/// The physical address a leaf gives an address.
fn leaf_address(pte: u64, level: u8, va: u64) -> (r: u64)
    requires
        level <= 2,
        pte_valid(pte),
        ppn(pte) % (span(level as nat) / 0x1000) == 0,
    ensures
        r == ppn(pte) * 0x1000 + va % span(level as nat),
        r % 0x1000 == va % 0x1000,
        r <= 0x200_0000_0000_0000,
{
    let offset: u64 = if level == 0 {
        va % 0x1000
    } else if level == 1 {
        va % 0x20_0000
    } else {
        va % 0x4000_0000
    };
    proof {
        lemma_leaf_offset(ppn(pte) as int, va as int, span(level as nat) as int);
    }
    assert(pte / 1024 == ppn(pte));
    pte / 1024 * 0x1000 + offset
}

fn page_fault_at(acc: AccessType, va: u64) -> (r: Exception)
    ensures
        r == page_fault(acc, va),
{
    match acc {
        AccessType::Fetch => Exception::InstructionPageFault(va),
        AccessType::Load => Exception::LoadPageFault(va),
        AccessType::Store => Exception::StorePageFault(va),
    }
}

fn access_fault_at(acc: AccessType, va: u64) -> (r: Exception)
    ensures
        r == access_fault(acc, va),
{
    match acc {
        AccessType::Fetch => Exception::InstructionAccessFault(va),
        AccessType::Load => Exception::LoadAccessFault(va),
        AccessType::Store => Exception::StoreAccessFault(va),
    }
}

fn allowed(pte: u64, acc: AccessType, mode: Mode, mxr: bool, sum: bool) -> (r: bool)
    ensures
        r == permits(pte, acc, mode, mxr, sum),
{
    let user = pte / 16 % 2 == 1;
    let reachable = match mode {
        Mode::User => user,
        _ => !user || (sum && acc != AccessType::Fetch),
    };
    let granted = match acc {
        AccessType::Fetch => pte / 8 % 2 == 1,
        AccessType::Load => pte / 2 % 2 == 1 || (mxr && pte / 8 % 2 == 1),
        AccessType::Store => pte / 4 % 2 == 1,
    };
    reachable && granted
}

fn is_marked(pte: u64, acc: AccessType) -> (r: bool)
    ensures
        r == marked(pte, acc),
{
    pte / 64 % 2 == 1 && (acc != AccessType::Store || pte / 128 % 2 == 1)
}

/// Without paging, or in machine mode, addresses are physical.
pub proof fn law_untranslated_is_identity(
    m: MmuState,
    b: BusState,
    satp: u64,
    a: Access,
    va: u64,
)
    requires
        satp / 0x1000_0000_0000_0000 != 8 || a.mode == Mode::Machine,
    ensures
        m.translated(b, satp, a, va) == (Ok::<u64, Exception>(va), m, b),
{
}

/// A translation keeps the offset within the page.
#[verifier::rlimit(40)]
pub proof fn law_translation_keeps_page_offset(
    m: MmuState,
    b: BusState,
    satp: u64,
    a: Access,
    va: u64,
)
    requires
        m.wf(),
        m.translated(b, satp, a, va).0 is Ok,
    ensures
        m.translated(b, satp, a, va).0->Ok_0 % 0x1000 == va % 0x1000,
{
    assert(m.tlb[MmuState::slot(va)].base % 0x1000 == 0);
    lemma_walk_level(b, (satp % 0x1000_0000_0000 * 0x1000) as u64, va, 2);
    match walk_from(b, (satp % 0x1000_0000_0000 * 0x1000) as u64, va, 2) {
        Walk::Leaf { at, pte, level } => {
            lemma_leaf_offset(ppn(pte) as int, va as int, span(level) as int);
        },
        _ => {},
    }
}

proof fn lemma_leaf_offset(page: int, va: int, size: int)
    requires
        size == 0x1000 || size == 0x20_0000 || size == 0x4000_0000,
    ensures
        (page * 0x1000 + va % size) % 0x1000 == va % 0x1000,
{
    let pages = if size == 0x1000 {
        1
    } else if size == 0x20_0000 {
        0x200int
    } else {
        0x4_0000
    };
    vstd::arithmetic::div_mod::lemma_mod_mod(va, 0x1000, pages);
    vstd::arithmetic::div_mod::lemma_mod_multiples_vanish(page, va % size, 0x1000);
}

proof fn lemma_walk_level(b: BusState, table: u64, va: u64, level: nat)
    requires
        level <= 2,
    ensures
        walk_from(b, table, va, level) matches Walk::Leaf { at, pte, level: l } ==> l <= 2
            && pte_valid(pte),
    decreases level,
{
    let at = (table + table_index(va, level) * 8) as u64;
    let pte = b.ram.load((at - DRAM_BASE) as u64, 8)->Ok_0;
    if level > 0 {
        lemma_walk_level(b, (ppn(pte) * 0x1000) as u64, va, (level - 1) as nat);
    }
}

/// After a flush the TLB answers for no page: the next access to any page
/// walks the tables as they are.
pub proof fn law_flush_forgets(m: MmuState, b: BusState, satp: u64, a: Access, va: u64)
    requires
        satp / 0x1000_0000_0000_0000 == 8,
        a.mode != Mode::Machine,
        canonical(va),
    ensures
        !m.flushed().hits(va),
        m.flushed().translated(b, satp, a, va) == m.flushed().walked(b, satp, a, va),
{
}

/// A store through a page that is not writable, a fetch from one that is not
/// executable, and any user access to a supervisor page fault.
pub proof fn law_protection(m: MmuState, b: BusState, satp: u64, a: Access, va: u64)
    requires
        satp / 0x1000_0000_0000_0000 == 8,
        a.mode != Mode::Machine,
        m.translated(b, satp, a, va).0 is Ok,
    ensures
        ({
            let flags = m.translated(b, satp, a, va).1.entry(va).flags;
            &&& m.tlb.len() == 256 ==> permits(flags, a.acc, a.mode, a.mxr, a.sum)
        }),
{
    lemma_walk_level(b, (satp % 0x1000_0000_0000 * 0x1000) as u64, va, 2);
    match walk_from(b, (satp % 0x1000_0000_0000 * 0x1000) as u64, va, 2) {
        Walk::Leaf { at, pte, level } => {
            lemma_mark_bits(pte);
        },
        _ => {},
    }
}

pub proof fn lemma_mark_bits(p: u64)
    by (bit_vector)
    ensures
        ((p | 0xc0) % 256) / 2 % 2 == p / 2 % 2,
        ((p | 0xc0) % 256) / 4 % 2 == p / 4 % 2,
        ((p | 0xc0) % 256) / 8 % 2 == p / 8 % 2,
        ((p | 0xc0) % 256) / 16 % 2 == p / 16 % 2,
        ((p | 0xc0) % 256) / 64 % 2 == 1,
        ((p | 0xc0) % 256) / 128 % 2 == 1,
        ((p | 0x40) % 256) / 2 % 2 == p / 2 % 2,
        ((p | 0x40) % 256) / 4 % 2 == p / 4 % 2,
        ((p | 0x40) % 256) / 8 % 2 == p / 8 % 2,
        ((p | 0x40) % 256) / 16 % 2 == p / 16 % 2,
        ((p | 0x40) % 256) / 64 % 2 == 1,
        p / 64 % 2 == 1 ==> p | 0x40 == p,
        p / 64 % 2 == 1 && p / 128 % 2 == 1 ==> p | 0xc0 == p,
        p % 256 / 2 % 2 == p / 2 % 2,
        p % 256 / 4 % 2 == p / 4 % 2,
        p % 256 / 8 % 2 == p / 8 % 2,
        p % 256 / 16 % 2 == p / 16 % 2,
        p % 256 / 64 % 2 == p / 64 % 2,
        p % 256 / 128 % 2 == p / 128 % 2,
        (p | 0x40) & 0x40 != 0,
        (p | 0xc0) & 0xc0 == 0xc0,
        (p | 0x40) & !0x40u64 == p & !0x40u64,
        (p | 0xc0) & !0xc0u64 == p & !0xc0u64,
        p % 16 == 1 ==> p % 2 == 1 && p / 2 % 2 == 0 && p / 4 % 2 == 0 && p / 8 % 2 == 0,
{
}

/// The doubleword of RAM at a physical address.
pub open spec fn entry_at(b: BusState, at: u64) -> u64 {
    b.ram.load((at - DRAM_BASE) as u64, 8)->Ok_0
}

/// RAM holds an entry there that is valid, grants nothing and has no reserved
/// bit: it points to a further table.
pub open spec fn points_on(b: BusState, at: u64) -> bool {
    b.main_memory(at, 8) && entry_at(b, at) % 16 == 1 && entry_at(b, at) < 0x40_0000_0000_0000
}

/// The entry that answers for `va` in a table at physical page `page`, whose
/// entries map `size` bytes each.
pub open spec fn entry_address(page: int, va: u64, size: int) -> u64 {
    (page * 0x1000 + va as int / size % 512 * 8) as u64
}

/// Following pointers from the table in satp, the entry of level `level` for
/// `va` stands at `at`.
pub open spec fn reaches(b: BusState, satp: u64, va: u64, at: u64, level: nat) -> bool {
    let first = entry_address((satp % 0x1000_0000_0000) as int, va, 0x4000_0000);
    let second = entry_address((entry_at(b, first) / 1024) as int, va, 0x20_0000);
    let third = entry_address((entry_at(b, second) / 1024) as int, va, 0x1000);
    if level == 2 {
        at == first
    } else if level == 1 {
        points_on(b, first) && at == second
    } else {
        level == 0 && points_on(b, first) && points_on(b, second) && at == third
    }
}

/// The bytes a leaf of a level maps: 4 KiB, 2 MiB or 1 GiB.
pub open spec fn page_bytes(level: nat) -> int {
    if level == 0 {
        0x1000
    } else if level == 1 {
        0x20_0000
    } else {
        0x4000_0000
    }
}

/// The tables map `va` by the leaf `pte`, which stands at `at`: valid, without
/// reserved bits, readable or executable but not writable alone, and aligned to
/// what it maps.
pub open spec fn maps(b: BusState, satp: u64, va: u64, at: u64, pte: u64, level: nat) -> bool {
    &&& reaches(b, satp, va, at, level)
    &&& b.main_memory(at, 8)
    &&& entry_at(b, at) == pte
    &&& pte % 2 == 1
    &&& pte / 2 % 2 == 1 || (pte / 8 % 2 == 1 && pte / 4 % 2 == 0)
    &&& pte < 0x40_0000_0000_0000
    &&& pte / 1024 * 0x1000 % page_bytes(level) == 0
}

/// The address has bits 63..38 all alike.
pub open spec fn in_sv39(va: u64) -> bool {
    va / 0x40_0000_0000 == 0 || va / 0x40_0000_0000 == 0x3ff_ffff
}

/// Sv39 is on for an access below machine mode, and the TLB does not hold the
/// page.
pub open spec fn consults_tables(m: MmuState, satp: u64, a: Access, va: u64) -> bool {
    &&& satp / 0x1000_0000_0000_0000 == 8
    &&& a.mode != Mode::Machine
    &&& in_sv39(va)
    &&& m.tlb[va as int / 0x1000 % 256].vpn != va / 0x1000
}

#[verifier::spinoff_prover]
#[verifier::rlimit(40)]
proof fn lemma_reaches(b: BusState, satp: u64, va: u64, at: u64, level: nat)
    requires
        reaches(b, satp, va, at, level),
        level <= 2,
    ensures
        exists|table: u64| #[trigger]
            walk_from(b, table, va, level) == walk_from(
                b,
                (satp % 0x1000_0000_0000 * 0x1000) as u64,
                va,
                2,
            ) && at == table + table_index(va, level) * 8,
{
    let root = (satp % 0x1000_0000_0000 * 0x1000) as u64;
    let first = entry_address((satp % 0x1000_0000_0000) as int, va, 0x4000_0000);
    let second = entry_address((entry_at(b, first) / 1024) as int, va, 0x20_0000);
    assert(first == root + table_index(va, 2) * 8);
    if level == 2 {
        assert(walk_from(b, root, va, 2) == walk_from(b, root, va, 2));
    } else {
        lemma_mark_bits(entry_at(b, first));
        let t1 = (ppn(entry_at(b, first)) * 0x1000) as u64;
        assert(walk_from(b, root, va, 2) == walk_from(b, t1, va, 1));
        assert(second == t1 + table_index(va, 1) * 8);
        if level == 0 {
            lemma_mark_bits(entry_at(b, second));
            let t0 = (ppn(entry_at(b, second)) * 0x1000) as u64;
            assert(walk_from(b, t1, va, 1) == walk_from(b, t0, va, 0));
            assert(at == t0 + table_index(va, 0) * 8);
        }
    }
}

proof fn lemma_aligned(page: int, level: nat)
    requires
        level <= 2,
        page >= 0,
    ensures
        (page * 0x1000 % page_bytes(level) == 0) == (page % (span(level) / 0x1000) as int == 0),
{
    if level == 0 {
        assert((span(level) / 0x1000) as int == 1);
        assert(page * 0x1000 % 0x1000 == 0 && page % 1 == 0);
    } else if level == 1 {
        assert((span(level) / 0x1000) as int == 0x200);
        assert((page * 0x1000 % 0x20_0000 == 0) == (page % 0x200 == 0));
    } else {
        assert((span(level) / 0x1000) as int == 0x4_0000);
        assert((page * 0x1000 % 0x4000_0000 == 0) == (page % 0x4_0000 == 0));
    }
}

pub proof fn lemma_maps(b: BusState, satp: u64, va: u64, at: u64, pte: u64, level: nat)
    requires
        maps(b, satp, va, at, pte, level),
        level <= 2,
    ensures
        walk_from(b, (satp % 0x1000_0000_0000 * 0x1000) as u64, va, 2) == (Walk::Leaf {
            at,
            pte,
            level,
        }),
        span(level) == page_bytes(level),
        pte / 1024 * 0x1000 + va as int % page_bytes(level) <= u64::MAX,
{
    lemma_reaches(b, satp, va, at, level);
    lemma_aligned(ppn(pte) as int, level);
    let table = choose|table: u64| #[trigger]
        walk_from(b, table, va, level) == walk_from(
            b,
            (satp % 0x1000_0000_0000 * 0x1000) as u64,
            va,
            2,
        ) && at == table + table_index(va, level) * 8;
    assert(walk_from(b, table, va, level) == (Walk::Leaf { at, pte, level }));
}

/// With SUM set, a supervisor load or store reaches a user page that grants
/// it; with SUM clear, it faults.
#[verifier::spinoff_prover]
#[verifier::rlimit(40)]
pub proof fn law_sum_opens_user_pages(
    m: MmuState,
    b: BusState,
    satp: u64,
    a: Access,
    va: u64,
    at: u64,
    pte: u64,
    level: nat,
)
    requires
        consults_tables(m, satp, a, va),
        maps(b, satp, va, at, pte, level),
        level <= 2,
        a.mode == Mode::Supervisor,
        // The user and accessed bits.
        pte / 16 % 2 == 1,
        pte / 64 % 2 == 1,
        // A load of a readable page, or a store to a writable dirty one.
        (a.acc == AccessType::Load && pte / 2 % 2 == 1) || (a.acc == AccessType::Store && pte / 4
            % 2 == 1 && pte / 128 % 2 == 1),
    ensures
        m.translated(b, satp, a, va).0 == if a.sum {
            Ok::<u64, Exception>((pte / 1024 * 0x1000 + va as int % page_bytes(level)) as u64)
        } else if a.acc == AccessType::Load {
            Err(Exception::LoadPageFault(va))
        } else {
            Err(Exception::StorePageFault(va))
        },
{
    lemma_maps(b, satp, va, at, pte, level);
}

/// Supervisor code never runs from a user page, whatever SUM and MXR hold.
pub proof fn law_supervisor_never_fetches_user_pages(
    m: MmuState,
    b: BusState,
    satp: u64,
    a: Access,
    va: u64,
    at: u64,
    pte: u64,
    level: nat,
)
    requires
        consults_tables(m, satp, a, va),
        maps(b, satp, va, at, pte, level),
        level <= 2,
        a.mode == Mode::Supervisor,
        a.acc == AccessType::Fetch,
        pte / 16 % 2 == 1,
    ensures
        m.translated(b, satp, a, va) == (
            Err::<u64, Exception>(Exception::InstructionPageFault(va)),
            m,
            b,
        ),
{
    lemma_maps(b, satp, va, at, pte, level);
}

/// User code reaches a user page that grants the access, and nothing of a
/// page that is not one; supervisor code reaches the others, whatever SUM
/// holds.
#[verifier::spinoff_prover]
#[verifier::rlimit(40)]
pub proof fn law_pages_belong_to_a_mode(
    m: MmuState,
    b: BusState,
    satp: u64,
    a: Access,
    va: u64,
    at: u64,
    pte: u64,
    level: nat,
)
    requires
        consults_tables(m, satp, a, va),
        maps(b, satp, va, at, pte, level),
        level <= 2,
        pte / 64 % 2 == 1,
        match a.acc {
            AccessType::Fetch => pte / 8 % 2 == 1,
            AccessType::Load => pte / 2 % 2 == 1,
            AccessType::Store => pte / 4 % 2 == 1 && pte / 128 % 2 == 1,
        },
    ensures
        ({
            let r = m.translated(b, satp, a, va).0;
            let pa = (pte / 1024 * 0x1000 + va as int % page_bytes(level)) as u64;
            &&& a.mode == Mode::User && pte / 16 % 2 == 1 ==> r == Ok::<u64, Exception>(pa)
            &&& a.mode == Mode::User && pte / 16 % 2 == 0 ==> r == Err::<u64, Exception>(
                match a.acc {
                    AccessType::Fetch => Exception::InstructionPageFault(va),
                    AccessType::Load => Exception::LoadPageFault(va),
                    AccessType::Store => Exception::StorePageFault(va),
                },
            )
            &&& a.mode == Mode::Supervisor && pte / 16 % 2 == 0 ==> r == Ok::<u64, Exception>(pa)
        }),
{
    lemma_maps(b, satp, va, at, pte, level);
}

/// A page that is executable and not readable can be loaded from exactly with
/// MXR set; it can be fetched from either way, and never stored to.
#[verifier::spinoff_prover]
#[verifier::rlimit(40)]
pub proof fn law_mxr_makes_executable_readable(
    m: MmuState,
    b: BusState,
    satp: u64,
    a: Access,
    va: u64,
    at: u64,
    pte: u64,
    level: nat,
)
    requires
        consults_tables(m, satp, a, va),
        maps(b, satp, va, at, pte, level),
        level <= 2,
        pte / 64 % 2 == 1,
        pte / 2 % 2 == 0,
        (a.mode == Mode::User) == (pte / 16 % 2 == 1),
    ensures
        ({
            let r = m.translated(b, satp, a, va).0;
            let pa = (pte / 1024 * 0x1000 + va as int % page_bytes(level)) as u64;
            r == match a.acc {
                AccessType::Load if a.mxr => Ok::<u64, Exception>(pa),
                AccessType::Load => Err(Exception::LoadPageFault(va)),
                AccessType::Fetch => Ok(pa),
                AccessType::Store => Err(Exception::StorePageFault(va)),
            }
        }),
{
    lemma_maps(b, satp, va, at, pte, level);
}

/// A store needs the writable bit and a fetch the executable bit, in every
/// mode and whatever else is set.
pub proof fn law_leaf_must_grant_the_access(
    m: MmuState,
    b: BusState,
    satp: u64,
    a: Access,
    va: u64,
    at: u64,
    pte: u64,
    level: nat,
)
    requires
        consults_tables(m, satp, a, va),
        maps(b, satp, va, at, pte, level),
        level <= 2,
    ensures
        a.acc == AccessType::Store && pte / 4 % 2 == 0 ==> m.translated(b, satp, a, va) == (
            Err::<u64, Exception>(Exception::StorePageFault(va)),
            m,
            b,
        ),
        a.acc == AccessType::Fetch && pte / 8 % 2 == 0 ==> m.translated(b, satp, a, va) == (
            Err::<u64, Exception>(Exception::InstructionPageFault(va)),
            m,
            b,
        ),
{
    lemma_maps(b, satp, va, at, pte, level);
}

/// Where a page grants the access but its accessed bit is clear, or for a
/// store its dirty bit, the access faults and changes nothing while ADUE is
/// clear. While ADUE is set it goes through, and the entry in RAM gains those
/// bits and no others.
#[verifier::spinoff_prover]
#[verifier::rlimit(40)]
pub proof fn law_accessed_and_dirty(
    m: MmuState,
    b: BusState,
    satp: u64,
    a: Access,
    va: u64,
    at: u64,
    pte: u64,
    level: nat,
)
    requires
        consults_tables(m, satp, a, va),
        maps(b, satp, va, at, pte, level),
        level <= 2,
        (a.mode == Mode::User) == (pte / 16 % 2 == 1),
        match a.acc {
            AccessType::Fetch => pte / 8 % 2 == 1,
            AccessType::Load => pte / 2 % 2 == 1,
            AccessType::Store => pte / 4 % 2 == 1,
        },
        pte / 64 % 2 == 0 || (a.acc == AccessType::Store && pte / 128 % 2 == 0),
    ensures
        ({
            let (r, m2, b2) = m.translated(b, satp, a, va);
            let new = entry_at(b2, at);
            &&& !a.adue ==> r is Err && m2 == m && b2 == b
            &&& a.adue ==> r == Ok::<u64, Exception>(
                (pte / 1024 * 0x1000 + va as int % page_bytes(level)) as u64,
            )
            &&& a.adue && a.acc == AccessType::Store ==> new & 0xc0 == 0xc0 && new & !0xc0u64
                == pte & !0xc0u64
            &&& a.adue && a.acc != AccessType::Store ==> new & 0x40 != 0 && new & !0x40u64 == pte
                & !0x40u64
        }),
{
    lemma_maps(b, satp, va, at, pte, level);
    lemma_mark_bits(pte);
    let done = mark(pte, a.acc);
    crate::le::lemma_pow256();
    crate::le::lemma_le_round_trip(done as nat, 8);
    law_write_then_read(b.ram, at - DRAM_BASE, crate::le::le_bytes(done as nat, 8));
}

/// MXR and SUM apply to loads and stores, never to fetches.
pub proof fn law_fetches_ignore_mxr_and_sum(
    m: MmuState,
    b: BusState,
    satp: u64,
    a: Access,
    other: Access,
    va: u64,
)
    requires
        a.acc == AccessType::Fetch,
        other == (Access { mxr: other.mxr, sum: other.sum, ..a }),
    ensures
        m.translated(b, satp, a, va) == m.translated(b, satp, other, va),
{
}

/// An address whose upper bits do not repeat bit 38 is never translated.
pub proof fn law_addresses_outside_sv39_fault(
    m: MmuState,
    b: BusState,
    satp: u64,
    a: Access,
    va: u64,
)
    requires
        satp / 0x1000_0000_0000_0000 == 8,
        a.mode != Mode::Machine,
        !in_sv39(va),
    ensures
        m.translated(b, satp, a, va) == (
            Err::<u64, Exception>(
                match a.acc {
                    AccessType::Fetch => Exception::InstructionPageFault(va),
                    AccessType::Load => Exception::LoadPageFault(va),
                    AccessType::Store => Exception::StorePageFault(va),
                },
            ),
            m,
            b,
        ),
{
}

/// A page fault meets an entry that is not valid, writable without being
/// readable, has a reserved bit set, points on from the last level, or maps a
/// large page that is not aligned to its size. An entry outside RAM is an
/// access fault.
#[verifier::spinoff_prover]
#[verifier::rlimit(40)]
pub proof fn law_bad_entries_fault(
    m: MmuState,
    b: BusState,
    satp: u64,
    a: Access,
    va: u64,
    at: u64,
    level: nat,
)
    requires
        consults_tables(m, satp, a, va),
        reaches(b, satp, va, at, level),
        level <= 2,
    ensures
        ({
            let pte = entry_at(b, at);
            let leaf = pte / 2 % 2 == 1 || pte / 8 % 2 == 1;
            let bad = pte % 2 == 0 || (pte / 4 % 2 == 1 && pte / 2 % 2 == 0) || pte
                >= 0x40_0000_0000_0000 || (!leaf && level == 0) || (leaf && pte / 1024 * 0x1000
                % page_bytes(level) != 0);
            &&& !b.main_memory(at, 8) ==> m.translated(b, satp, a, va) == (
                Err::<u64, Exception>(
                    match a.acc {
                        AccessType::Fetch => Exception::InstructionAccessFault(va),
                        AccessType::Load => Exception::LoadAccessFault(va),
                        AccessType::Store => Exception::StoreAccessFault(va),
                    },
                ),
                m,
                b,
            )
            &&& b.main_memory(at, 8) && bad ==> m.translated(b, satp, a, va) == (
                Err::<u64, Exception>(
                    match a.acc {
                        AccessType::Fetch => Exception::InstructionPageFault(va),
                        AccessType::Load => Exception::LoadPageFault(va),
                        AccessType::Store => Exception::StorePageFault(va),
                    },
                ),
                m,
                b,
            )
        }),
{
    lemma_reaches(b, satp, va, at, level);
    let pte = entry_at(b, at);
    lemma_aligned(ppn(pte) as int, level);
    let table = choose|table: u64| #[trigger]
        walk_from(b, table, va, level) == walk_from(
            b,
            (satp % 0x1000_0000_0000 * 0x1000) as u64,
            va,
            2,
        ) && at == table + table_index(va, level) * 8;
    assert(at == (table + table_index(va, level) * 8) as u64);
}

/// What the TLB remembers of a page whose accessed and dirty bits are set is
/// what the tables say: every later access to the page, of any kind and in
/// any mode, has the result it would have without a TLB.
#[verifier::spinoff_prover]
#[verifier::rlimit(40)]
pub proof fn law_tlb_agrees_with_tables(
    m: MmuState,
    b: BusState,
    satp: u64,
    a: Access,
    va: u64,
    later: Access,
    at: u64,
    pte: u64,
    level: nat,
)
    requires
        m.tlb.len() == 256,
        consults_tables(m, satp, a, va),
        maps(b, satp, va, at, pte, level),
        level <= 2,
        pte / 64 % 2 == 1,
        pte / 128 % 2 == 1,
        m.translated(b, satp, a, va).0 is Ok,
    ensures
        m.translated(b, satp, a, va).2 == b,
        m.translated(b, satp, a, va).1.tlb[va as int / 0x1000 % 256].vpn == va / 0x1000,
        m.translated(b, satp, a, va).1.translated(b, satp, later, va).0 == m.translated(
            b,
            satp,
            later,
            va,
        ).0,
{
    lemma_maps(b, satp, va, at, pte, level);
    lemma_mark_bits(pte);
    lemma_leaf_offset(ppn(pte) as int, va as int, span(level) as int);
}

} // verus!
