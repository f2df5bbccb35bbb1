//! Why the block cache never runs a stale instruction.
//!
//! A block remembers the write generation of the RAM page it was decoded from.
//! [`coherent`] is what that buys: whatever block is still current holds what
//! memory holds. Every fetch keeps it, and so does every way RAM changes: what
//! the hart stores and what devices do to RAM on its account are writes that
//! the pages count. The counters are assumed not to run over, which takes
//! centuries.
use vstd::prelude::*;

use super::alu::{amo_bytes, amo_value, low, w64};
use super::csr;
use super::decode::{
    decodes_to, decoding, law_decoding_is_unique, lemma_decoding, AmoWidth, FpSize, Op,
};
use super::decode_cache::{
    set_of, ActiveLookup, CacheLocation, CacheState, CachedInstruction, DecodedBlock, Lookup,
};
use super::execute::{law_execution_keeps_pc, load_bytes, store_bytes};
use super::memory::{
    law_load_writes_are_counted, law_store_writes_are_counted, law_translation_writes_are_counted,
    writes_per_store,
};
use super::step::{as_word, page_at, ready_from, Ready, StepResult};
use super::{CpuState, Mode};
use crate::bus::{law_reads_keep_ram, law_writes_are_counted, BusState, DRAM_BASE};
use crate::devices::virtqueue::writes_per_drain;
use crate::mmu::AccessType;
use crate::ram::{law_counts_add_up, lemma_follows, moved, paged, RamState};
use crate::trap::Exception;

verus! {

/// The instruction bits at a RAM address, unless they run over the end of the
/// page.
pub open spec fn memory_window(ram: RamState, pa: u64) -> Option<u32> {
    let at = (pa - DRAM_BASE) as u64;
    if pa < DRAM_BASE {
        None
    } else {
        match ram.load(at, 2) {
            Err(_) => None,
            Ok(first) => {
                let low = as_word(first);
                if low % 4 != 3 {
                    Some(low)
                } else if at % 4096 > 4092 {
                    None
                } else {
                    match ram.load((at + 2) as u64, 2) {
                        Err(_) => None,
                        Ok(second) => Some(low | (as_word(second) << 16u32)),
                    }
                }
            },
        }
    }
}

/// A cached instruction stands on the page and is what memory holds there.
pub open spec fn reflects(cached: CachedInstruction, page: u64, ram: RamState) -> bool {
    &&& cached.pa >= DRAM_BASE
    &&& cached.pa % 2 == 0
    &&& (cached.pa - DRAM_BASE) / 4096 == page
    &&& memory_window(ram, cached.pa) == Some(cached.raw)
}

/// Every instruction of the block is what memory holds.
pub open spec fn block_reflects(block: DecodedBlock, ram: RamState) -> bool {
    forall|i: int|
        0 <= i < block.len ==> match #[trigger] block.instructions@[i] {
            Some(cached) => reflects(cached, block.ram_page, ram),
            None => true,
        }
}

/// A valid block starts with the instruction it is found by, was decoded in
/// the past, and while it is current holds what memory holds.
pub open spec fn block_coherent(block: DecodedBlock, ram: RamState) -> bool {
    block.valid() ==> {
        &&& 1 <= block.len <= 16
        &&& match block.instructions@[0] {
            Some(first) => first.pa == block.start_pa,
            None => false,
        }
        &&& block.ram_page < ram.generations.len() ==> block.page_generation
            <= ram.generations[block.ram_page as int]
        &&& block.current(ram) ==> block_reflects(block, ram)
    }
}

pub open spec fn coherent(cache: CacheState, ram: RamState) -> bool {
    &&& cache.wf()
    &&& forall|i: int| 0 <= i < 4096 ==> block_coherent(#[trigger] cache.blocks[i], ram)
}

/// A slot of the cache and a place in its block.
pub open spec fn in_cache(location: CacheLocation) -> bool {
    location.slot < 4096 && location.index < 16
}

/// `later` follows `ram`: no generation goes back, and a page whose generation
/// is the same holds the same bytes.
pub open spec fn evolves(ram: RamState, later: RamState) -> bool {
    &&& later.bytes.len() == ram.bytes.len()
    &&& later.generations.len() == ram.generations.len()
    &&& forall|p: int|
        0 <= p < ram.generations.len() ==> #[trigger] ram.generations[p] <= later.generations[p]
    &&& forall|at: int|
        0 <= at < ram.bytes.len() && ram.generations[at / 4096] == later.generations[at / 4096]
            ==> #[trigger] later.bytes[at] == ram.bytes[at]
}

/// Every page counter can take `n` more writes before it runs over.
pub open spec fn counters_left(ram: RamState, n: nat) -> bool {
    forall|p: int|
        0 <= p < ram.generations.len() ==> #[trigger] ram.generations[p] + n <= u64::MAX
}

proof fn lemma_same_window(ram: RamState, later: RamState, pa: u64)
    requires
        paged(ram),
        evolves(ram, later),
        pa >= DRAM_BASE,
        pa % 2 == 0,
        (pa - DRAM_BASE) / 4096 < ram.generations.len(),
        ram.generations[(pa - DRAM_BASE) / 4096] == later.generations[(pa - DRAM_BASE) / 4096],
    ensures
        memory_window(later, pa) == memory_window(ram, pa),
{
    let at = pa - DRAM_BASE;
    if ram.in_range(at, 2) {
        assert(later.slice(at, 2) =~= ram.slice(at, 2));
    }
    if at % 4096 <= 4092 && ram.in_range(at + 2, 2) {
        assert(later.slice(at + 2, 2) =~= ram.slice(at + 2, 2));
    }
}

/// However RAM changes, the cache stays coherent: a block whose page was
/// written is no longer current.
pub proof fn law_coherence_survives_writes(cache: CacheState, ram: RamState, later: RamState)
    requires
        paged(ram),
        coherent(cache, ram),
        evolves(ram, later),
    ensures
        coherent(cache, later),
{
    assert forall|i: int| 0 <= i < 4096 implies block_coherent(#[trigger] cache.blocks[i], later) by {
        let block = cache.blocks[i];
        assert(block_coherent(block, ram));
        if block.valid() && block.current(later) {
            let page = block.ram_page as int;
            assert(ram.generations[page] <= later.generations[page]);
            assert(block.current(ram));
            assert forall|k: int| 0 <= k < block.len implies match #[trigger] block.instructions@[k] {
                Some(cached) => reflects(cached, block.ram_page, later),
                None => true,
            } by {
                match block.instructions@[k] {
                    Some(cached) => {
                        assert(reflects(cached, block.ram_page, ram));
                        lemma_same_window(ram, later, cached.pa);
                    },
                    None => {},
                }
            }
        }
    }
}

/// Counted writes evolve RAM, as long as no counter runs over.
pub proof fn law_counted_writes_evolve(ram: RamState, later: RamState, n: nat)
    requires
        later.follows(ram, n),
        counters_left(ram, n),
    ensures
        evolves(ram, later),
{
    assert forall|p: int| 0 <= p < ram.generations.len() implies #[trigger] ram.generations[p]
        <= later.generations[p] by {
        assert(moved(ram.generations[p], later.generations[p]) <= n);
    }
}

/// Counters lose what was counted.
proof fn lemma_counters_left(ram: RamState, later: RamState, n: nat, m: nat)
    requires
        later.follows(ram, n),
        counters_left(ram, n + m),
    ensures
        counters_left(ram, n),
        counters_left(later, m),
{
    assert forall|p: int| 0 <= p < ram.generations.len() implies #[trigger] ram.generations[p] + n
        <= u64::MAX by {
        assert(ram.generations[p] + (n + m) <= u64::MAX);
    }
    assert forall|p: int| 0 <= p < later.generations.len() implies #[trigger] later.generations[p]
        + m <= u64::MAX by {
        assert(ram.generations[p] + (n + m) <= u64::MAX);
        assert(moved(ram.generations[p], later.generations[p]) <= n);
    }
}

/// RAM that did not change has evolved, and evolving twice is evolving.
pub proof fn law_evolution_composes(a: RamState, b: RamState, c: RamState)
    requires
        paged(a),
        evolves(a, b),
        evolves(b, c),
    ensures
        evolves(a, a),
        evolves(a, c),
{
    assert forall|p: int| 0 <= p < a.generations.len() implies #[trigger] a.generations[p]
        <= c.generations[p] by {
        assert(a.generations[p] <= b.generations[p]);
        assert(b.generations[p] <= c.generations[p]);
    }
    assert forall|at: int|
        0 <= at < a.bytes.len() && a.generations[at / 4096] == c.generations[at
            / 4096] implies #[trigger] c.bytes[at] == a.bytes[at] by {
        assert(a.generations[at / 4096] <= b.generations[at / 4096]);
        assert(b.generations[at / 4096] <= c.generations[at / 4096]);
        assert(b.bytes[at] == a.bytes[at]);
    }
}

// ---------------------------------------------------------------------------
// Lookups
// ---------------------------------------------------------------------------

/// Continuing a block keeps the cache coherent, and what it finds is what
/// memory holds at the address expected.
pub proof fn law_active_hits_reflect_memory(cache: CacheState, pc: u64, ram: RamState)
    requires
        coherent(cache, ram),
    ensures
        coherent(cache.active_found(pc, ram).1, ram),
        match cache.active_found(pc, ram).0 {
            ActiveLookup::Hit(l) => in_cache(l) && memory_window(ram, l.instruction.pa) == Some(
                l.instruction.raw,
            ) && decodes_to(l.instruction.raw, l.instruction.decoded),
            _ => true,
        },
{
    let (found, after) = cache.active_found(pc, ram);
    match cache.active {
        Some(active) => {
            let block = cache.blocks[active.slot as int];
            assert(block_coherent(block, ram));
            assert(block.sound());
            assert forall|i: int| 0 <= i < 4096 implies block_coherent(
                #[trigger] after.blocks[i],
                ram,
            ) by {
                assert(block_coherent(cache.blocks[i], ram));
            }
            assert(after.wf()) by {
                assert forall|i: int| 0 <= i < 4096 implies (#[trigger] after.blocks[i]).len <= 16
                    && after.blocks[i].sound() by {
                    assert(cache.blocks[i].sound());
                }
            }
            match found {
                ActiveLookup::Hit(l) => {
                    assert(block.instructions@[active.index as int] == Some(l.instruction));
                },
                _ => {},
            }
        },
        None => {},
    }
}

proof fn lemma_invalidating(cache: CacheState, ram: RamState, slot: int)
    requires
        coherent(cache, ram),
        0 <= slot < 4096,
    ensures
        coherent(cache.invalidated(slot), ram),
{
    let after = cache.invalidated(slot);
    assert forall|i: int| 0 <= i < 4096 implies block_coherent(#[trigger] after.blocks[i], ram)
        && after.blocks[i].len <= 16 && after.blocks[i].sound() by {
        assert(block_coherent(cache.blocks[i], ram));
        assert(cache.blocks[i].sound());
    }
}

proof fn lemma_found_from(cache: CacheState, pa: u64, ram: RamState, way: int)
    requires
        coherent(cache, ram),
        0 <= way <= 4,
        pa % 2 == 0,
    ensures
        coherent(cache.found_from(pa, ram, way).1, ram),
        match cache.found_from(pa, ram, way).0 {
            Lookup::Hit(l) => in_cache(l) && l.instruction.pa == pa && memory_window(ram, pa) == Some(
                l.instruction.raw,
            ) && decodes_to(l.instruction.raw, l.instruction.decoded),
            Lookup::Miss => true,
        },
    decreases 4 - way,
{
    if way < 4 {
        let slot = set_of(pa) * 4 + way;
        let block = cache.blocks[slot];
        assert(block_coherent(block, ram));
        assert(block.sound());
        if block.start_pa != pa {
            lemma_found_from(cache, pa, ram, way + 1);
        } else if block.current(ram) {
            assert(block.instructions@[0] is Some);
        } else {
            lemma_invalidating(cache, ram, slot);
            lemma_found_from(cache.invalidated(slot), pa, ram, way + 1);
        }
    }
}

/// Looking a block up keeps the cache coherent, and what it finds is what
/// memory holds at the address looked up.
pub proof fn law_physical_hits_reflect_memory(cache: CacheState, pa: u64, ram: RamState)
    requires
        coherent(cache, ram),
        pa % 2 == 0,
    ensures
        coherent(cache.found(pa, ram).1, ram),
        match cache.found(pa, ram).0 {
            Lookup::Hit(l) => in_cache(l) && l.instruction.pa == pa && memory_window(ram, pa) == Some(
                l.instruction.raw,
            ) && decodes_to(l.instruction.raw, l.instruction.decoded),
            Lookup::Miss => true,
        },
{
    lemma_found_from(cache, pa, ram, 0);
}

// ---------------------------------------------------------------------------
// Fresh fetches
// ---------------------------------------------------------------------------

/// A window that may be cached is what memory holds, and reading it changed
/// nothing.
proof fn lemma_window(c: CpuState, b: BusState, pc: u64, pa: u64)
    requires
        pc % 2 == 0,
        pa % 0x1000 == pc % 0x1000,
        c.window(b, pc, pa).0 is Ok,
        c.window(b, pc, pa).0->Ok_0.cache_page is Some,
    ensures
        ({
            let (r, c2, b2) = c.window(b, pc, pa);
            let f = r->Ok_0;
            &&& b2 == b
            &&& c2 == c
            &&& f.cache_page == page_at(b, pa)
            &&& pa >= DRAM_BASE
            &&& pa % 2 == 0
            &&& memory_window(b.ram, pa) == Some(f.raw)
        }),
{
    let pc2 = pc.wrapping_add(2);
    if pc2 % 0x1000 == 0 {
        assert(pc / 0x1000 != pc2 / 0x1000);
    }
}

proof fn lemma_chosen_way(cache: CacheState, set: int, offset: int)
    requires
        cache.wf(),
        0 <= set < 1024,
        0 <= offset,
    ensures
        0 <= cache.chosen_way(set, offset) < 4,
    decreases 4 - offset,
{
    if offset < 4 {
        lemma_chosen_way(cache, set, offset + 1);
    }
}

/// An instruction that reflects memory may be put in the cache.
#[verifier::rlimit(30)]
proof fn lemma_inserted(
    cache: CacheState,
    ram: RamState,
    pa: u64,
    page: u64,
    cached: CachedInstruction,
    append: Option<(usize, usize)>,
)
    requires
        coherent(cache, ram),
        page < ram.generations.len(),
        cached.pa == pa,
        decodes_to(cached.raw, cached.decoded),
        reflects(cached, page, ram),
        match append {
            Some((slot, index)) => slot < 4096,
            None => true,
        },
    ensures
        coherent(
            cache.inserted(pa, page, ram.generations[page as int], cached, append).1,
            ram,
        ),
        cache.inserted(pa, page, ram.generations[page as int], cached, append).0.instruction
            == cached,
        in_cache(cache.inserted(pa, page, ram.generations[page as int], cached, append).0),
{
    let generation = ram.generations[page as int];
    let after = cache.inserted(pa, page, generation, cached, append).1;
    let appended = match append {
        Some((slot, index)) => cache.extends(slot as int, index as int, page, generation),
        None => false,
    };
    lemma_chosen_way(cache, set_of(pa), 0);
    let slot = if appended {
        append->Some_0.0 as int
    } else {
        set_of(pa) * 4 + cache.chosen_way(set_of(pa), 0)
    };
    let before = cache.blocks[slot];
    assert(block_coherent(before, ram));
    assert(before.sound());
    let block = after.blocks[slot];
    assert(block.sound()) by {
        assert forall|k: int| 0 <= k < 16 implies match #[trigger] block.instructions@[k] {
            Some(held) => decodes_to(held.raw, held.decoded),
            None => true,
        } by {
            assert(match before.instructions@[k] {
                Some(held) => decodes_to(held.raw, held.decoded),
                None => true,
            });
        }
    }
    assert(block_reflects(block, ram)) by {
        assert forall|k: int| 0 <= k < block.len implies match #[trigger] block.instructions@[k] {
            Some(held) => reflects(held, block.ram_page, ram),
            None => true,
        } by {
            if appended && k < before.len {
                assert(before.current(ram));
                assert(match before.instructions@[k] {
                    Some(held) => reflects(held, before.ram_page, ram),
                    None => true,
                });
            }
        }
    }
    assert forall|i: int| 0 <= i < 4096 implies block_coherent(#[trigger] after.blocks[i], ram)
        && after.blocks[i].len <= 16 && after.blocks[i].sound() by {
        if i != slot {
            assert(after.blocks[i] == cache.blocks[i]);
            assert(block_coherent(cache.blocks[i], ram));
            assert(cache.blocks[i].sound());
        }
    }
}

/// A fresh fetch keeps the cache coherent, and what it caches is what memory
/// holds.
proof fn lemma_decoded_at(
    c: CpuState,
    b: BusState,
    pc: u64,
    pa: u64,
    append: Option<(usize, usize)>,
)
    requires
        paged(b.ram),
        counters_left(b.ram, 1),
        coherent(c.cache, b.ram),
        pc % 2 == 0,
        pa % 0x1000 == pc % 0x1000,
        match append {
            Some((slot, index)) => slot < 4096,
            None => true,
        },
    ensures
        runs_memory(b, c.decoded_at(b, pc, pa, append), 1),
{
    let (w, c1, b1) = c.window(b, pc, pa);
    lemma_window_follows(c, b, pc, pa);
    law_counted_writes_evolve(b.ram, b1.ram, 1);
    law_coherence_survives_writes(c.cache, b.ram, b1.ram);
    if w is Ok && w->Ok_0.cache_page is Some && decoding(w->Ok_0.raw) is Some {
        let f = w->Ok_0;
        lemma_window(c, b, pc, pa);
        let inst = decoding(f.raw)->Some_0;
        let (page, generation) = f.cache_page->Some_0;
        lemma_inserted(
            c.cache,
            b.ram,
            pa,
            page,
            CachedInstruction { pa, raw: f.raw, decoded: inst },
            append,
        );
    }
}

proof fn lemma_window_follows(c: CpuState, b: BusState, pc: u64, pa: u64)
    requires
        paged(b.ram),
    ensures
        c.window(b, pc, pa).2.ram.follows(b.ram, 1),
        c.window(b, pc, pa).1.cache == c.cache,
{
    let b1 = b.after_read(pa);
    law_reads_keep_ram(b, pa);
    lemma_follows(b.ram, b.ram, 0, 1);
    let pc2 = pc.wrapping_add(2);
    law_translation_writes_are_counted(c, b1, pc2, AccessType::Fetch, c.mode);
    let (r, c2, b2) = c.translated(b1, pc2, AccessType::Fetch, c.mode);
    if r is Ok {
        law_reads_keep_ram(b2, r->Ok_0);
    }
    law_reads_keep_ram(b1, (pa + 2) as u64);
}

/// What a fetch from `b` owes: it writes to a page `n` times at most, the
/// cache stays coherent, and an instruction handed out of the cache is what
/// memory holds at its address.
pub open spec fn runs_memory(
    b: BusState,
    out: (Result<Ready, Exception>, CpuState, BusState),
    n: nat,
) -> bool {
    &&& out.2.ram.follows(b.ram, n)
    &&& coherent(out.1.cache, out.2.ram)
    &&& out.0 is Ok && out.0->Ok_0.location is Some ==> {
        let location = out.0->Ok_0.location->Some_0;
        in_cache(location) && memory_window(out.2.ram, location.instruction.pa) == Some(
            out.0->Ok_0.raw,
        )
    }
}

/// What a fetch does once the pc is translated.
spec fn looked_up(c: CpuState, b: BusState, pc: u64, pa: u64) -> (
    Result<Ready, Exception>,
    CpuState,
    BusState,
) {
    let (hit, cache) = c.cache.found(pa, b.ram);
    let c2 = CpuState { cache, ..c };
    match hit {
        Lookup::Hit(location) => (Ok(ready_from(location)), c2, b),
        Lookup::Miss => c2.decoded_at(b, pc, pa, None),
    }
}

proof fn lemma_looked_up(c: CpuState, b: BusState, pc: u64, pa: u64)
    requires
        paged(b.ram),
        counters_left(b.ram, 1),
        coherent(c.cache, b.ram),
        pc % 2 == 0,
        pa % 0x1000 == pc % 0x1000,
    ensures
        runs_memory(b, looked_up(c, b, pc, pa), 1),
{
    assert(pa % 2 == 0);
    lemma_follows(b.ram, b.ram, 0, 1);
    law_physical_hits_reflect_memory(c.cache, pa, b.ram);
    lemma_decoded_at(CpuState { cache: c.cache.found(pa, b.ram).1, ..c }, b, pc, pa, None);
}

proof fn lemma_after(b: BusState, b1: BusState, out: (Result<Ready, Exception>, CpuState, BusState))
    requires
        paged(b.ram),
        b1.ram.follows(b.ram, 1),
        runs_memory(b1, out, 1),
    ensures
        runs_memory(b, out, 2),
{
    law_counts_add_up(b.ram, b1.ram, out.2.ram, 1, 1);
}

/// The block cache is transparent: every fetch keeps it coherent, and an
/// instruction that it hands out is what memory holds at its address now.
#[verifier::rlimit(60)]
pub proof fn law_fetch_runs_what_memory_holds(c: CpuState, b: BusState)
    requires
        c.wf(),
        paged(b.ram),
        counters_left(b.ram, 2),
        coherent(c.cache, b.ram),
    ensures
        runs_memory(b, c.fetched(b), 2),
{
    let pc = c.pc;
    law_active_hits_reflect_memory(c.cache, pc, b.ram);
    let (active, cache) = c.cache.active_found(pc, b.ram);
    let c0 = CpuState { cache, ..c };
    lemma_follows(b.ram, b.ram, 0, 2);
    match active {
        ActiveLookup::Hit(l) => {},
        _ => if pc % 2 == 0 {
            law_translation_writes_are_counted(c0, b, pc, AccessType::Fetch, c0.mode);
            let (r, c1, b1) = c0.fetch_translated(b, pc);
            lemma_follows(b.ram, b.ram, 0, 1);
            lemma_counters_left(b.ram, b1.ram, 1, 1);
            lemma_follows(b.ram, b1.ram, 1, 2);
            law_counted_writes_evolve(b.ram, b1.ram, 1);
            law_coherence_survives_writes(cache, b.ram, b1.ram);
            if r is Ok {
                let pa = r->Ok_0;
                super::step::lemma_fetch_offset(c0, b, pc);
                match active {
                    ActiveLookup::Append { slot, index } => {
                        let out = c1.decoded_at(b1, pc, pa, Some((slot, index)));
                        lemma_decoded_at(c1, b1, pc, pa, Some((slot, index)));
                        lemma_after(b, b1, out);
                        assert(c.fetched(b) == out);
                    },
                    _ => {
                        lemma_looked_up(c1, b1, pc, pa);
                        lemma_after(b, b1, looked_up(c1, b1, pc, pa));
                        assert(c.fetched(b) == looked_up(c1, b1, pc, pa));
                    },
                }
            }
        },
    }
}

/// The most writes to a page that one step takes.
pub open spec fn writes_per_step() -> nat {
    2 + writes_per_store()
}

/// Running one instruction keeps the cache coherent with the memory it
/// leaves, whatever it and the devices it reached wrote there.
pub proof fn law_instruction_keeps_coherence(
    c: CpuState,
    b: BusState,
    ran: CpuState,
    b2: BusState,
    r: Result<(), Exception>,
)
    requires
        c.wf(),
        paged(b.ram),
        counters_left(b.ram, writes_per_step()),
        coherent(c.cache, b.ram),
        c.may_step_inner(b, ran, b2, r),
    ensures
        coherent(ran.cache, b2.ram),
        b2.ram.follows(b.ram, writes_per_step()),
{
    lemma_follows(b.ram, b.ram, 0, 2);
    lemma_counters_left(b.ram, b.ram, 2, writes_per_store());
    law_fetch_runs_what_memory_holds(c, b);
    let (f, c1, b1) = c.fetched(b);
    lemma_counters_left(b.ram, b1.ram, 2, writes_per_store());
    lemma_follows(b.ram, b1.ram, 2, writes_per_step());
    if f is Ok {
        let ready = f->Ok_0;
        let mid = c1.issued(ready.inst);
        let end = choose|end: CpuState|
            #![trigger mid.may_execute(b1, ready.raw, ready.inst.op, end, b2, r)]
            mid.may_execute(b1, ready.raw, ready.inst.op, end, b2, r) && ran == (if r is Ok {
                end.retired(ready, c.pc, b2)
            } else {
                end
            });
        law_execution_keeps_pc(mid, b1, ready.raw, ready.inst.op, end, b2, r);
        law_flushed_cache_is_coherent(c1.cache, b1.ram);
        law_execution_writes_are_counted(mid, b1, ready.raw, ready.inst.op, end, b2, r);
        law_counts_add_up(b.ram, b1.ram, b2.ram, 2, writes_per_store());
        law_counted_writes_evolve(b1.ram, b2.ram, writes_per_store());
        law_coherence_survives_writes(end.cache, b1.ram, b2.ram);
        if r is Ok && ready.location is Some {
            let l = ready.location->Some_0;
            let next = c.pc.wrapping_add(ready.inst.len);
            lemma_finished(end.cache, l, c.pc, next, end.next_pc, b2.ram);
        }
    }
}

/// A step keeps the cache coherent, and counts what it writes.
pub proof fn law_step_keeps_coherence(
    c: CpuState,
    b: BusState,
    post: CpuState,
    b2: BusState,
    result: StepResult,
)
    requires
        c.wf(),
        paged(b.ram),
        counters_left(b.ram, writes_per_step()),
        coherent(c.cache, b.ram),
        c.may_step(b, post, b2, result),
    ensures
        coherent(post.cache, b2.ram),
        b2.ram.follows(b.ram, writes_per_step()),
{
    lemma_follows(b.ram, b.ram, 0, writes_per_step());
    if !c.sleeps() {
        let awake = CpuState { wfi: false, ..c };
        let (ran, r) = choose|ran: CpuState, r: Result<(), Exception>| #[trigger]
            awake.may_step_inner(b, ran, b2, r) && post == ran.stepped(r);
        law_instruction_keeps_coherence(awake, b, ran, b2, r);
    }
}

/// Whatever an instruction does to RAM, a device's part included, is counted
/// by the pages it touches.
pub proof fn law_execution_writes_are_counted(
    c: CpuState,
    b: BusState,
    raw: u32,
    op: Op,
    post: CpuState,
    b2: BusState,
    r: Result<(), Exception>,
)
    requires
        paged(b.ram),
        c.may_execute(b, raw, op, post, b2, r),
    ensures
        b2.ram.follows(b.ram, writes_per_store()),
{
    let n = writes_per_store();
    lemma_follows(b.ram, b.ram, 0, n);
    lemma_follows(b.ram, b2.ram, 8, n);
    match op {
        Op::Load { kind, rd, rs1, imm } => law_load_writes_are_counted(
            c,
            b,
            w64(c.x(rs1) + imm),
            load_bytes(kind),
        ),
        Op::Store { kind, rs1, rs2, imm } => law_store_writes_are_counted(
            c,
            b,
            w64(c.x(rs1) + imm),
            c.x(rs2),
            store_bytes(kind),
            post,
            b2,
            r,
        ),
        Op::Lr { width, rd, rs1 } => {
            lemma_atomic_translation(c, b, width, c.x(rs1), false);
            let (t, c1, b1) = c.amo_translated(b, c.x(rs1), amo_bytes(width), false);
            if t is Ok {
                law_reads_keep_ram(b1, t->Ok_0);
            }
        },
        Op::Sc { width, rd, rs1, rs2 } => {
            let size = amo_bytes(width);
            lemma_atomic_translation(c, b, width, c.x(rs1), true);
            let (t, c1, b1) = c.amo_translated(b, c.x(rs1), size, true);
            if t is Ok && b1.writable(t->Ok_0, size as int) && c.reservation == Some(t->Ok_0) {
                law_writes_are_counted(b1, t->Ok_0, c.x(rs2), size, b2);
                law_counts_add_up(b.ram, b1.ram, b2.ram, 8, writes_per_drain());
                lemma_follows(b.ram, b2.ram, 8 + writes_per_drain(), n);
            }
        },
        Op::Amo { op, width, rd, rs1, rs2 } => {
            let size = amo_bytes(width);
            let c0 = CpuState { reservation: None, ..c };
            lemma_atomic_translation(c0, b, width, c.x(rs1), true);
            let (t, c1, b1) = c0.amo_translated(b, c.x(rs1), size, true);
            if t is Ok {
                let pa = t->Ok_0;
                law_reads_keep_ram(b1, pa);
                if b1.seen(pa, size) is Ok {
                    let new = amo_value(op, width, b1.seen(pa, size)->Ok_0, c.x(rs2));
                    law_writes_are_counted(b1.after_read(pa), pa, new, size, b2);
                    law_counts_add_up(b.ram, b1.ram, b2.ram, 8, writes_per_drain());
                    lemma_follows(b.ram, b2.ram, 8 + writes_per_drain(), n);
                }
            }
        },
        Op::FpLoad { sz, frd, rs1, imm } => {
            let va = w64(c.regs[rs1 as int] + imm);
            law_load_writes_are_counted(c, b, va, 4);
            law_load_writes_are_counted(c, b, va, 8);
        },
        Op::FpStore { sz, rs1, frs2, imm } => if c.csr.fs_field() != csr::FS_OFF {
            let va = w64(c.regs[rs1 as int] + imm);
            let v = c.fregs[frs2 as int];
            match sz {
                FpSize::S => law_store_writes_are_counted(c, b, va, low(v) as u64, 4, post, b2, r),
                FpSize::D => law_store_writes_are_counted(c, b, va, v, 8, post, b2, r),
            }
        },
        _ => {},
    }
}

proof fn lemma_atomic_translation(
    c: CpuState,
    b: BusState,
    width: AmoWidth,
    va: u64,
    is_store: bool,
)
    requires
        paged(b.ram),
    ensures
        c.amo_translated(b, va, amo_bytes(width), is_store).2.ram.follows(b.ram, 8),
{
    let acc = if is_store {
        AccessType::Store
    } else {
        AccessType::Load
    };
    lemma_follows(b.ram, b.ram, 0, 8);
    law_translation_writes_are_counted(c, b, va, acc, c.data_mode());
    lemma_follows(b.ram, c.translated(b, va, acc, c.data_mode()).2.ram, 1, 8);
}

proof fn lemma_finished(
    cache: CacheState,
    location: CacheLocation,
    pc: u64,
    next_pc: u64,
    actual_pc: u64,
    ram: RamState,
)
    requires
        coherent(cache, ram),
        location.slot < 4096,
        location.index < 16,
    ensures
        coherent(cache.finished(location, pc, next_pc, actual_pc, ram), ram),
{
    let after = cache.finished(location, pc, next_pc, actual_pc, ram);
    assert(after.blocks == cache.blocks);
}

/// An instruction handed out of a coherent cache is the one a fresh decode of
/// memory gives.
pub proof fn law_cached_equals_fresh(
    ram: RamState,
    cached: CachedInstruction,
    page: u64,
    inst: super::decode::DecodedInst,
)
    requires
        reflects(cached, page, ram),
        decodes_to(cached.raw, cached.decoded),
        decodes_to(memory_window(ram, cached.pa)->Some_0, inst),
    ensures
        cached.decoded == inst,
{
    law_decoding_is_unique(cached.raw, cached.decoded, inst);
}

/// Instructions are fetched at the address the pc gives: there is no
/// translation, and what is remembered of earlier fetches agrees.
pub open spec fn fetches_in_place(c: CpuState) -> bool {
    &&& c.mode == Mode::Machine || c.csr.loaded(csr::SATP) / 0x1000_0000_0000_0000 != 8
    &&& match c.fetch_translation {
        Some(memo) => c.memo_answers(c.pc) ==> memo.pa_base == c.pc - c.pc % 0x1000,
        None => true,
    }
    &&& match c.cache.active {
        Some(active) => active.expected_pc == c.pc ==> active.expected_pa == c.pc,
        None => true,
    }
}

#[verifier::spinoff_prover]
#[verifier::rlimit(60)]
proof fn lemma_window_in_place(c: CpuState, b: BusState, pc: u64, raw: u32)
    requires
        pc % 2 == 0,
        memory_window(b.ram, pc) == Some(raw),
    ensures
        c.window(b, pc, pc).0 is Ok,
        c.window(b, pc, pc).0->Ok_0.raw == raw,
        c.window(b, pc, pc).2 == b,
{
    law_reads_keep_ram(b, pc);
    let at = (pc - DRAM_BASE) as u64;
    assert(b.seen(pc, 2) is Ok && b.seen(pc, 2)->Ok_0 == b.ram.load(at, 2)->Ok_0);
    if as_word(b.ram.load(at, 2)->Ok_0) % 4 == 3 {
        let next = (pc + 2) as u64;
        law_reads_keep_ram(b, next);
        assert(pc.wrapping_add(2) == next && next % 0x1000 != 0);
        assert(b.seen(next, 2) is Ok && b.seen(next, 2)->Ok_0 == b.ram.load(
            (at + 2) as u64,
            2,
        )->Ok_0);
    }
}

proof fn lemma_decoded_in_place(
    c: CpuState,
    b: BusState,
    pc: u64,
    append: Option<(usize, usize)>,
    raw: u32,
    inst: super::decode::DecodedInst,
)
    requires
        pc % 2 == 0,
        memory_window(b.ram, pc) == Some(raw),
        decoding(raw) == Some(inst),
    ensures
        c.decoded_at(b, pc, pc, append).0 is Ok,
        c.decoded_at(b, pc, pc, append).0->Ok_0.raw == raw,
        c.decoded_at(b, pc, pc, append).0->Ok_0.inst == inst,
        c.decoded_at(b, pc, pc, append).2 == b,
{
    lemma_window_in_place(c, b, pc, raw);
}

/// Whatever was cached before, the instruction fetched is the one that memory
/// holds now at the pc, where nothing translates it.
pub proof fn law_fetch_gives_what_memory_holds(
    c: CpuState,
    b: BusState,
    raw: u32,
    inst: super::decode::DecodedInst,
)
    requires
        c.wf(),
        coherent(c.cache, b.ram),
        fetches_in_place(c),
        c.pc % 2 == 0,
        memory_window(b.ram, c.pc) == Some(raw),
        decodes_to(raw, inst),
    ensures
        c.fetched(b).0 is Ok,
        c.fetched(b).0->Ok_0.raw == raw,
        c.fetched(b).0->Ok_0.inst == inst,
        c.fetched(b).2 == b,
{
    let pc = c.pc;
    lemma_decoding(raw, inst);
    law_active_hits_reflect_memory(c.cache, pc, b.ram);
    let (active, cache) = c.cache.active_found(pc, b.ram);
    let c0 = CpuState { cache, ..c };
    match active {
        ActiveLookup::Hit(l) => {
            law_decoding_is_unique(raw, l.instruction.decoded, inst);
        },
        _ => {
            let (r, c1, b1) = c0.fetch_translated(b, pc);
            assert(r == Ok::<u64, Exception>(pc) && b1 == b && c1.cache == cache);
            match active {
                ActiveLookup::Append { slot, index } => {
                    lemma_decoded_in_place(c1, b, pc, Some((slot, index)), raw, inst);
                },
                _ => {
                    law_physical_hits_reflect_memory(cache, pc, b.ram);
                    let (hit, cache2) = cache.found(pc, b.ram);
                    match hit {
                        Lookup::Hit(l) => {
                            law_decoding_is_unique(raw, l.instruction.decoded, inst);
                        },
                        Lookup::Miss => {
                            let c2 = CpuState { cache: cache2, ..c1 };
                            lemma_decoded_in_place(c2, b, pc, None, raw, inst);
                        },
                    }
                },
            }
        },
    }
}

/// A hart out of reset, wherever its pc is put, fetches in place through a
/// coherent cache.
pub proof fn law_reset_is_coherent(c: CpuState, pc: u64, ram: RamState)
    requires
        c.at_reset(),
    ensures
        coherent(c.cache, ram),
        fetches_in_place(CpuState { pc, ..c }),
{
    assert forall|i: int| 0 <= i < 4096 implies block_coherent(#[trigger] c.cache.blocks[i], ram)
        && c.cache.blocks[i].len <= 16 && c.cache.blocks[i].sound() by {
        assert(c.cache.blocks[i].blank());
    }
}

/// A flushed cache is coherent with any memory.
pub proof fn law_flushed_cache_is_coherent(cache: CacheState, ram: RamState)
    requires
        cache.wf(),
    ensures
        coherent(cache.flushed(), ram),
{
    let after = cache.flushed();
    assert forall|i: int| 0 <= i < 4096 implies (#[trigger] after.blocks[i]).len <= 16
        && after.blocks[i].sound() && !after.blocks[i].valid() by {
        assert(cache.blocks[i].sound());
    }
}

} // verus!
