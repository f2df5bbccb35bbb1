//! Instruction fetch and the step of the hart.
use vstd::prelude::*;

use super::csr;
use super::decode::{
    decode, decodes_to, decoding, law_decoded_operands_in_range, lemma_decoding, CsrOp,
    DecodedInst, Op,
};
use super::decode_cache::{ActiveLookup, CacheLocation, CachedInstruction, Lookup};
use super::execute::execute;
use super::traps::{law_machine_trap_entry, law_supervisor_trap_entry};
use super::{Cpu, CpuState, FetchTranslation};
use crate::bus::{Bus, BusState, DRAM_BASE};
use crate::mmu::{law_translation_keeps_page_offset, AccessType};
use crate::trap::Exception;

verus! {

/// What one step did.
#[derive(Debug, Clone, Copy, PartialEq, Eq, Structural)]
pub enum StepResult {
    /// An instruction ran or trapped.
    Executed,
    WaitingForInterrupt,
}

pub struct FetchedInstruction {
    pub raw: u32,
    /// Physical RAM page and its generation.  `None` means the instruction is
    /// valid to execute but must not be put in the decoded block cache.
    pub cache_page: Option<(u64, u64)>,
}

/// An instruction ready to run: its bits, what they decode to, and where the
/// block cache holds it.
pub struct Ready {
    pub raw: u32,
    pub inst: DecodedInst,
    pub location: Option<CacheLocation>,
}

/// The RAM page at a physical address and its generation.
pub open spec fn page_at(b: BusState, pa: u64) -> Option<(u64, u64)> {
    if pa >= DRAM_BASE && pa - DRAM_BASE < b.ram.bytes.len() {
        Some(
            (
                ((pa - DRAM_BASE) / 4096) as u64,
                b.ram.generations[(pa - DRAM_BASE) / 4096],
            ),
        )
    } else {
        None
    }
}

/// An instruction that writes `minstret`: it is not counted in it.
pub open spec fn writes_minstret(op: Op) -> bool {
    match op {
        Op::Csr { kind, rs1, csr, .. } => csr == csr::MINSTRET && (kind == CsrOp::Rw || kind
            == CsrOp::Rwi || rs1 != 0),
        _ => false,
    }
}

/// The low 32 bits of a value read from the bus.
pub open spec fn as_word(v: u64) -> u32 {
    (v % 0x1_0000_0000) as u32
}

impl CpuState {
    /// Whether the fetch memo answers for `pc`.
    pub open spec fn memo_answers(self, pc: u64) -> bool {
        match self.fetch_translation {
            Some(memo) => memo.vpn == pc / 0x1000 && memo.mode == self.mode && memo.mmu_generation
                == self.mmu.generation,
            None => false,
        }
    }

    /// The translation of `pc` for an instruction fetch, memoising the page.
    /// Only a translation that succeeded is memoised, so a faulting fetch
    /// takes the fault every time it is retried.
    pub open spec fn fetch_translated(self, b: BusState, pc: u64) -> (
        Result<u64, Exception>,
        CpuState,
        BusState,
    ) {
        if self.memo_answers(pc) {
            (Ok((self.fetch_translation->Some_0.pa_base + pc % 0x1000) as u64), self, b)
        } else {
            let (r, c, b2) = self.translated(b, pc, AccessType::Fetch, self.mode);
            match r {
                Err(e) => (Err(e), c, b2),
                Ok(pa) => (
                    Ok(pa),
                    CpuState {
                        fetch_translation: Some(
                            FetchTranslation {
                                vpn: pc / 0x1000,
                                pa_base: (pa - pa % 0x1000) as u64,
                                mode: self.mode,
                                mmu_generation: c.mmu.generation,
                            },
                        ),
                        ..c
                    },
                    b2,
                ),
            }
        }
    }

    /// The 32-bit instruction window at already-translated `pa`: a compressed
    /// instruction takes its own two bytes only, and a 4-byte instruction may
    /// straddle pages. A straddling instruction is never cached.
    pub open spec fn window(self, b: BusState, pc: u64, pa: u64) -> (
        Result<FetchedInstruction, Exception>,
        CpuState,
        BusState,
    ) {
        let b1 = b.after_read(pa);
        match b.seen(pa, 2) {
            Err(_) => (Err(Exception::InstructionAccessFault(pc)), self, b1),
            Ok(first) => {
                let low = as_word(first);
                if low % 4 != 3 {
                    (Ok(FetchedInstruction { raw: low, cache_page: page_at(b1, pa) }), self, b1)
                } else {
                    let pc2 = pc.wrapping_add(2);
                    let (r, c, b2) = if pc2 % 0x1000 == 0 {
                        self.translated(b1, pc2, AccessType::Fetch, self.mode)
                    } else {
                        (Ok((pa + 2) as u64), self, b1)
                    };
                    match r {
                        Err(e) => (Err(e), c, b2),
                        Ok(pa2) => {
                            let b3 = b2.after_read(pa2);
                            match b2.seen(pa2, 2) {
                                Err(_) => (Err(Exception::InstructionAccessFault(pc2)), c, b3),
                                Ok(second) => (
                                    Ok(
                                        FetchedInstruction {
                                            raw: low | (as_word(second) << 16u32),
                                            cache_page: if pc / 0x1000 == pc2 / 0x1000 && page_at(
                                                b3,
                                                pa,
                                            ) == page_at(b3, pa2) {
                                                page_at(b3, pa)
                                            } else {
                                                None
                                            },
                                        },
                                    ),
                                    c,
                                    b3,
                                ),
                            }
                        },
                    }
                }
            },
        }
    }

    /// A fresh fetch at `pc`, translated to `pa`, decoded and put in the block
    /// cache where its page allows.
    pub open spec fn decoded_at(
        self,
        b: BusState,
        pc: u64,
        pa: u64,
        append: Option<(usize, usize)>,
    ) -> (Result<Ready, Exception>, CpuState, BusState) {
        let (w, c, b2) = self.window(b, pc, pa);
        match w {
            Err(e) => (Err(e), c, b2),
            Ok(f) => match decoding(f.raw) {
                None => (Err(Exception::IllegalInstruction(f.raw as u64)), c, b2),
                Some(inst) => match f.cache_page {
                    None => (Ok(Ready { raw: f.raw, inst, location: None }), c, b2),
                    Some((page, generation)) => {
                        let (location, cache) = c.cache.inserted(
                            pa,
                            page,
                            generation,
                            CachedInstruction { pa, raw: f.raw, decoded: inst },
                            append,
                        );
                        (
                            Ok(Ready { raw: f.raw, inst, location: Some(location) }),
                            CpuState { cache, ..c },
                            b2,
                        )
                    },
                },
            },
        }
    }

    /// The next instruction: from the block being continued, from a block that
    /// starts at the translated pc, or by a fresh fetch. Translating first is
    /// what makes a physically keyed block safe to reuse across address
    /// spaces: a fault that a fresh fetch would raise is raised before any
    /// cached block can be reached.
    pub open spec fn fetched(self, b: BusState) -> (Result<Ready, Exception>, CpuState, BusState) {
        let pc = self.pc;
        let (active, cache) = self.cache.active_found(pc, b.ram);
        let c0 = CpuState { cache, ..self };
        match active {
            ActiveLookup::Hit(location) => (Ok(ready_from(location)), c0, b),
            _ => if pc % 2 != 0 {
                (Err(Exception::InstructionAddressMisaligned(pc)), c0, b)
            } else {
                let (r, c1, b1) = c0.fetch_translated(b, pc);
                match r {
                    Err(e) => (Err(e), c1, b1),
                    Ok(pa) => match active {
                        ActiveLookup::Append { slot, index } => c1.decoded_at(
                            b1,
                            pc,
                            pa,
                            Some((slot, index)),
                        ),
                        _ => {
                            let (hit, cache2) = c1.cache.found(pa, b1.ram);
                            let c2 = CpuState { cache: cache2, ..c1 };
                            match hit {
                                Lookup::Hit(location) => (Ok(ready_from(location)), c2, b1),
                                Lookup::Miss => c2.decoded_at(b1, pc, pa, None),
                            }
                        },
                    },
                }
            },
        }
    }

    /// The hart set up to run an instruction.
    pub open spec fn issued(self, inst: DecodedInst) -> CpuState {
        CpuState { next_pc: self.pc.wrapping_add(inst.len), ..self }
    }

    /// The hart after an instruction that was fetched at `pc` has run.
    pub open spec fn retired(self, ready: Ready, pc: u64, b: BusState) -> CpuState {
        let counts = !writes_minstret(ready.inst.op) && self.csr.loaded(csr::MCOUNTINHIBIT) & 4
            == 0;
        CpuState {
            pc: self.next_pc,
            csr: if counts {
                csr::CsrFile { instret: self.csr.instret.wrapping_add(1), ..self.csr }
            } else {
                self.csr
            },
            cache: match ready.location {
                Some(location) => self.cache.finished(
                    location,
                    pc,
                    pc.wrapping_add(ready.inst.len),
                    self.next_pc,
                    b.ram,
                ),
                None => self.cache,
            },
            ..self
        }
    }

    /// What fetching and running one instruction may do.
    pub open spec fn may_step_inner(
        self,
        b: BusState,
        post: CpuState,
        b2: BusState,
        r: Result<(), Exception>,
    ) -> bool {
        let (f, c, b1) = self.fetched(b);
        match f {
            Err(e) => r == Err::<(), Exception>(e) && post == c && b2 == b1,
            Ok(ready) => exists|ran: CpuState| #[trigger]
                c.issued(ready.inst).may_execute(b1, ready.raw, ready.inst.op, ran, b2, r) && post
                    == (if r is Ok {
                    ran.retired(ready, self.pc, b2)
                } else {
                    ran
                }),
        }
    }

    /// The hart at the end of a step: a fault has trapped, x0 is zero, and the
    /// cycle is counted.
    pub open spec fn stepped(self, r: Result<(), Exception>) -> CpuState {
        let c = match r {
            Ok(_) => self,
            Err(e) => self.excepted(e),
        };
        CpuState {
            regs: c.regs.update(0, 0),
            csr: if c.csr.loaded(csr::MCOUNTINHIBIT) & 1 == 0 {
                csr::CsrFile { cycle: c.csr.cycle.wrapping_add(1), ..c.csr }
            } else {
                c.csr
            },
            ..c
        }
    }

    /// Halted, with no enabled interrupt pending (global masks ignored).
    pub open spec fn sleeps(self) -> bool {
        self.wfi && self.raised() == 0
    }

    /// What one step may do.
    pub open spec fn may_step(
        self,
        b: BusState,
        post: CpuState,
        b2: BusState,
        result: StepResult,
    ) -> bool {
        if self.sleeps() {
            result == StepResult::WaitingForInterrupt && post == self && b2 == b
        } else {
            result == StepResult::Executed && exists|ran: CpuState, r: Result<(), Exception>|
                #[trigger]
                CpuState { wfi: false, ..self }.may_step_inner(b, ran, b2, r) && post
                    == ran.stepped(r)
        }
    }
}

pub open spec fn ready_from(location: CacheLocation) -> Ready {
    Ready {
        raw: location.instruction.raw,
        inst: location.instruction.decoded,
        location: Some(location),
    }
}

fn ready(location: CacheLocation) -> (r: Ready)
    ensures
        r == ready_from(location),
{
    Ready {
        raw: location.instruction.raw,
        inst: location.instruction.decoded,
        location: Some(location),
    }
}

fn ram_page_generation(bus: &Bus, pa: u64) -> (r: Option<(u64, u64)>)
    requires
        bus.wf(),
    ensures
        r == page_at(bus@, pa),
{
    if pa < DRAM_BASE {
        None
    } else {
        bus.ram.page_generation(pa - DRAM_BASE)
    }
}

/// A translated fetch address keeps its offset in the page.
pub proof fn lemma_fetch_offset(c: CpuState, b: BusState, pc: u64)
    requires
        c.wf(),
        c.fetch_translated(b, pc).0 is Ok,
    ensures
        c.fetch_translated(b, pc).0->Ok_0 % 0x1000 == pc % 0x1000,
{
    if !c.memo_answers(pc) {
        law_translation_keeps_page_offset(
            c.mmu,
            b,
            c.csr.loaded(csr::SATP),
            c.access(AccessType::Fetch, c.mode),
            pc,
        );
    }
}

impl Cpu {
    /// Translate `pc` for an instruction fetch, memoising the page.
    fn translate_fetch(&mut self, bus: &mut Bus, pc: u64) -> (r: Result<u64, Exception>)
        requires
            old(self)@.wf(),
            old(bus).wf(),
        ensures
            final(self)@.wf(),
            final(bus).wf(),
            final(bus)@.ram.bytes.len() == old(bus)@.ram.bytes.len(),
            (r, final(self)@, final(bus)@) == old(self)@.fetch_translated(old(bus)@, pc),
            r is Ok ==> r->Ok_0 % 0x1000 == pc % 0x1000,
    {
        proof {
            if self@.fetch_translated(bus@, pc).0 is Ok {
                lemma_fetch_offset(self@, bus@, pc);
            }
        }
        let vpn: u64 = pc / 0x1000;
        match self.fetch_translation {
            Some(cached) => {
                if cached.vpn == vpn && cached.mode == self.mode && cached.mmu_generation
                    == self.mmu.generation() {
                    return Ok(cached.pa_base + pc % 0x1000);
                }
            },
            None => {},
        }
        // Only a translation that succeeded is memoised, so a faulting fetch
        // takes the fault every time it is retried.
        let mode = self.mode;
        let pa: u64 = self.translate(bus, pc, AccessType::Fetch, mode)?;
        self.fetch_translation = Some(
            FetchTranslation {
                vpn,
                pa_base: pa - pa % 0x1000,
                mode,
                mmu_generation: self.mmu.generation(),
            },
        );
        Ok(pa)
    }

    /// Read the 32-bit instruction window at already-translated `pa`, handling
    /// a compressed instruction ending the page and a 4-byte instruction
    /// straddling pages.
    fn fetch_window(&mut self, bus: &mut Bus, pc: u64, pa: u64) -> (r: Result<
        FetchedInstruction,
        Exception,
    >)
        requires
            old(self)@.wf(),
            old(bus).wf(),
            pc % 2 == 0,
            pa % 0x1000 == pc % 0x1000,
        ensures
            final(self)@.wf(),
            final(bus).wf(),
            final(bus)@.ram.bytes.len() == old(bus)@.ram.bytes.len(),
            (r, final(self)@, final(bus)@) == old(self)@.window(old(bus)@, pc, pa),
            final(self)@.cache == old(self)@.cache,
            final(self)@.pc == old(self)@.pc,
    {
        let low: u32 = match bus.read(pa, 2) {
            Ok(v) => (v % 0x1_0000_0000) as u32,
            Err(_) => return Err(Exception::InstructionAccessFault(pc)),
        };
        if low % 4 != 3 {
            return Ok(FetchedInstruction { raw: low, cache_page: ram_page_generation(bus, pa) });
        }
        // 32-bit instruction: fetch upper half (may live on the next page).
        let pc2: u64 = pc.wrapping_add(2);
        let pa2: u64 = if pc2 % 0x1000 == 0 {
            let mode = self.mode;
            self.translate(bus, pc2, AccessType::Fetch, mode)?
        } else {
            pa + 2
        };
        let high: u32 = match bus.read(pa2, 2) {
            Ok(v) => (v % 0x1_0000_0000) as u32,
            Err(_) => return Err(Exception::InstructionAccessFault(pc2)),
        };
        // The block cache stays page-local: a straddling instruction is
        // uncommon and already needs a second, correctness-sensitive
        // translation, so it runs through the ordinary miss path.
        let cache_page = if pc / 0x1000 == pc2 / 0x1000 {
            match (ram_page_generation(bus, pa), ram_page_generation(bus, pa2)) {
                (Some(first), Some(second)) => if first.0 == second.0 && first.1 == second.1 {
                    Some(first)
                } else {
                    None
                },
                _ => None,
            }
        } else {
            None
        };
        Ok(FetchedInstruction { raw: low | (high << 16u32), cache_page })
    }

    /// Fetch and decode afresh, and put the instruction in the block cache.
    fn decode_fresh(
        &mut self,
        bus: &mut Bus,
        pc: u64,
        pa: u64,
        append: Option<(usize, usize)>,
    ) -> (r: Result<Ready, Exception>)
        requires
            old(self)@.wf(),
            old(bus).wf(),
            pc % 2 == 0,
            pa % 0x1000 == pc % 0x1000,
            match append {
                Some((slot, index)) => slot < 4096,
                None => true,
            },
        ensures
            final(self)@.wf(),
            final(bus).wf(),
            final(bus)@.ram.bytes.len() == old(bus)@.ram.bytes.len(),
            (r, final(self)@, final(bus)@) == old(self)@.decoded_at(old(bus)@, pc, pa, append),
            r is Ok ==> runnable(r->Ok_0),
    {
        let fetched = self.fetch_window(bus, pc, pa)?;
        let decoded = match decode(fetched.raw) {
            Ok(inst) => {
                proof {
                    lemma_decoding(fetched.raw, inst);
                }
                inst
            },
            Err(_) => return Err(Exception::IllegalInstruction(fetched.raw as u64)),
        };
        match fetched.cache_page {
            None => Ok(Ready { raw: fetched.raw, inst: decoded, location: None }),
            Some((page, generation)) => {
                let cached = CachedInstruction { pa, raw: fetched.raw, decoded };
                let location = self.decode_cache.insert(pa, page, generation, cached, append);
                Ok(Ready { raw: fetched.raw, inst: decoded, location: Some(location) })
            },
        }
    }

    /// Find the next instruction.
    fn fetch(&mut self, bus: &mut Bus) -> (r: Result<Ready, Exception>)
        requires
            old(self)@.wf(),
            old(bus).wf(),
        ensures
            final(self)@.wf(),
            final(bus).wf(),
            final(bus)@.ram.bytes.len() == old(bus)@.ram.bytes.len(),
            (r, final(self)@, final(bus)@) == old(self)@.fetched(old(bus)@),
            r is Ok ==> runnable(r->Ok_0),
    {
        let pc: u64 = self.pc;
        // Continuing the block the last instruction fell through from needs no
        // translation; see `decode_cache::ActiveLookup`.
        let active = self.decode_cache.lookup_active(pc, &bus.ram);
        let append = match active {
            ActiveLookup::Hit(location) => return Ok(ready(location)),
            ActiveLookup::Append { slot, index } => Some((slot, index)),
            ActiveLookup::Inactive => None,
        };
        if pc % 2 != 0 {
            return Err(Exception::InstructionAddressMisaligned(pc));
        }
        // Translating first is what makes a physically keyed block safe
        // to reuse across address spaces: an instruction page fault or
        // access fault that a fresh fetch would raise is raised here,
        // before any cached block can be reached.
        let pa: u64 = self.translate_fetch(bus, pc)?;
        if append.is_none() {
            match self.decode_cache.lookup_physical(pa, &bus.ram) {
                Lookup::Hit(location) => return Ok(ready(location)),
                Lookup::Miss => {},
            }
        }
        self.decode_fresh(bus, pc, pa, append)
    }

    /// One instruction. Interrupt check happens in the machine loop.
    pub fn step(&mut self, bus: &mut Bus) -> (r: StepResult)
        requires
            old(self)@.wf(),
            old(bus).wf(),
        ensures
            final(self)@.wf(),
            final(bus).wf(),
            final(bus)@.ram.bytes.len() == old(bus)@.ram.bytes.len(),
            old(self)@.may_step(old(bus)@, final(self)@, final(bus)@, r),
    {
        if self.wfi {
            // Wake when any enabled interrupt is pending (global masks ignored).
            if self.csr.load_raw(csr::MIP) & self.csr.load_raw(csr::MIE) != 0 {
                self.wfi = false;
            } else {
                return StepResult::WaitingForInterrupt;
            }
        }
        let ghost awake = self@;
        let outcome = self.step_inner(bus);
        let ghost ran = self@;
        assert(awake.may_step_inner(old(bus)@, ran, bus@, outcome));
        assert(awake == CpuState { wfi: false, ..old(self)@ });
        match outcome {
            Ok(_) => {},
            Err(error) => self.take_exception(error),
        }
        self.regs[0] = 0;
        if self.csr.load_raw(csr::MCOUNTINHIBIT) & 1 == 0 {
            self.csr.cycle = self.csr.cycle.wrapping_add(1);
        }
        assert(self@ =~= ran.stepped(outcome));
        StepResult::Executed
    }

    pub fn step_inner(&mut self, bus: &mut Bus) -> (r: Result<(), Exception>)
        requires
            old(self)@.wf(),
            old(bus).wf(),
        ensures
            final(self)@.wf(),
            final(bus).wf(),
            final(bus)@.ram.bytes.len() == old(bus)@.ram.bytes.len(),
            old(self)@.may_step_inner(old(bus)@, final(self)@, final(bus)@, r),
    {
        let instruction_pc: u64 = self.pc;
        let ready = self.fetch(bus)?;
        let ghost found = self@;
        let inst = ready.inst;
        proof {
            law_decoded_operands_in_range(ready.raw, inst);
        }
        self.next_pc = self.pc.wrapping_add(inst.len);
        execute(self, bus, ready.raw, &inst.op)?;
        let ghost ran = self@;
        self.pc = self.next_pc;
        let writes = match inst.op {
            Op::Csr { kind, rs1, csr, .. } => csr == csr::MINSTRET && (match kind {
                CsrOp::Rw | CsrOp::Rwi => true,
                _ => rs1 != 0,
            }),
            _ => false,
        };
        let instret_inhibited = self.csr.load_raw(csr::MCOUNTINHIBIT) & 4 != 0;
        if !writes && !instret_inhibited {
            self.csr.instret = self.csr.instret.wrapping_add(1);
        }
        match ready.location {
            Some(location) => self.decode_cache.finish_instruction(
                location,
                instruction_pc,
                instruction_pc.wrapping_add(inst.len),
                self.pc,
                &bus.ram,
            ),
            None => {},
        }
        assert(self@ == ran.retired(ready, instruction_pc, bus@));
        Ok(())
    }
}

/// What a fetch hands over decodes as it says, and its cache location exists.
pub open spec fn runnable(ready: Ready) -> bool {
    &&& decodes_to(ready.raw, ready.inst)
    &&& match ready.location {
        Some(location) => location.slot < 4096 && location.index < 16,
        None => true,
    }
}

// ---------------------------------------------------------------------------
// Laws
// ---------------------------------------------------------------------------

/// Two states that differ at most in what translation and decoding remember.
pub open spec fn same_but_memos(c: CpuState, d: CpuState) -> bool {
    d == CpuState {
        mmu: d.mmu,
        cache: d.cache,
        fetch_translation: d.fetch_translation,
        ..c
    }
}

proof fn lemma_window_transparent(c: CpuState, b: BusState, pc: u64, pa: u64)
    ensures
        same_but_memos(c, c.window(b, pc, pa).1),
{
}

proof fn lemma_decoded_transparent(
    c: CpuState,
    b: BusState,
    pc: u64,
    pa: u64,
    append: Option<(usize, usize)>,
)
    ensures
        same_but_memos(c, c.decoded_at(b, pc, pa, append).1),
{
    lemma_window_transparent(c, b, pc, pa);
}

proof fn lemma_translated_transparent(c: CpuState, b: BusState, pc: u64)
    ensures
        same_but_memos(c, c.fetch_translated(b, pc).1),
{
}

/// Fetching leaves the pc, the mode, the registers and the CSRs.
pub proof fn law_fetch_is_transparent(c: CpuState, b: BusState)
    ensures
        same_but_memos(c, c.fetched(b).1),
{
    let pc = c.pc;
    let (active, cache) = c.cache.active_found(pc, b.ram);
    let c0 = CpuState { cache, ..c };
    lemma_translated_transparent(c0, b, pc);
    let (r, c1, b1) = c0.fetch_translated(b, pc);
    if r is Ok {
        let pa = r->Ok_0;
        match active {
            ActiveLookup::Append { slot, index } => {
                lemma_decoded_transparent(c1, b1, pc, pa, Some((slot, index)));
            },
            _ => {
                let c2 = CpuState { cache: c1.cache.found(pa, b1.ram).1, ..c1 };
                lemma_decoded_transparent(c2, b1, pc, pa, None);
            },
        }
    }
}

/// However an instruction ends, x0 is zero after the step.
pub proof fn law_x0_stays_zero(ran: CpuState, r: Result<(), Exception>)
    requires
        ran.regs.len() == 32,
    ensures
        ran.stepped(r).regs.len() == 32,
        ran.stepped(r).regs[0] == 0,
        forall|i: int| 0 < i < 32 ==> ran.stepped(r).regs[i] == ran.regs[i],
{
}

/// Traps are precise: a step whose instruction faults leaves the address of
/// that instruction in the exception pc of the mode it traps to, and its cause
/// and value beside it.
pub proof fn law_exceptions_are_precise(
    c: CpuState,
    b: BusState,
    ran: CpuState,
    b2: BusState,
    e: Exception,
)
    requires
        c.may_step_inner(b, ran, b2, Err::<(), Exception>(e)),
    ensures
        ran.pc == c.pc,
        ({
            let t = ran.excepted(e);
            if ran.delegates(e) {
                t.csr.loaded(csr::SEPC) == c.pc && t.csr.loaded(csr::SCAUSE) == e.code()
                    && t.csr.loaded(csr::STVAL) == e.value()
            } else {
                t.csr.loaded(csr::MEPC) == c.pc && t.csr.loaded(csr::MCAUSE) == e.code()
                    && t.csr.loaded(csr::MTVAL) == e.value()
            }
        }),
{
    law_fetch_is_transparent(c, b);
    let (f, c1, b1) = c.fetched(b);
    if f is Ok {
        let ready = f->Ok_0;
        let mid = c1.issued(ready.inst);
        let r = Err::<(), Exception>(e);
        let end = choose|end: CpuState|
            #![trigger mid.may_execute(b1, ready.raw, ready.inst.op, end, b2, r)]
            mid.may_execute(b1, ready.raw, ready.inst.op, end, b2, r) && ran == end;
        super::execute::law_execution_keeps_pc(
            mid,
            b1,
            ready.raw,
            ready.inst.op,
            end,
            b2,
            r,
        );
    }
    let from = CpuState { reservation: None, ..ran };
    if ran.delegates(e) {
        law_supervisor_trap_entry(from, e.code(), e.value(), ran.pc, false);
    } else {
        law_machine_trap_entry(from, e.code(), e.value(), ran.pc, false);
    }
}

/// A fetch that misses every cache runs exactly what the memory at the
/// translated pc decodes to.
pub proof fn law_fresh_fetch_decodes_memory(
    c: CpuState,
    b: BusState,
    pc: u64,
    pa: u64,
    append: Option<(usize, usize)>,
)
    requires
        c.decoded_at(b, pc, pa, append).0 is Ok,
    ensures
        ({
            let ready = c.decoded_at(b, pc, pa, append).0->Ok_0;
            c.window(b, pc, pa).0 is Ok && ready.raw == c.window(b, pc, pa).0->Ok_0.raw
                && decodes_to(ready.raw, ready.inst)
        }),
{
}

/// A hart halted by wfi sleeps exactly while no interrupt is both pending and
/// enabled, whatever the global enables and the delegation say; any other step
/// wakes it.
pub proof fn law_waiting(c: CpuState, b: BusState, post: CpuState, b2: BusState, result: StepResult)
    requires
        c.may_step(b, post, b2, result),
    ensures
        (result == StepResult::WaitingForInterrupt) == (c.wfi && c.csr.loaded(csr::MIP)
            & c.csr.loaded(csr::MIE) == 0),
        result == StepResult::WaitingForInterrupt ==> post == c && b2 == b,
{
}

/// Every step counts a cycle unless mcountinhibit bit 0 says not to, faulting
/// or not; a step that faults retires nothing.
pub proof fn law_cycles(ran: CpuState, r: Result<(), Exception>)
    ensures
        ({
            let before = ran.csr.cycle;
            let after = ran.stepped(r).csr.cycle;
            ran.csr.loaded(csr::MCOUNTINHIBIT) & 1 == 0 ==> after == before.wrapping_add(1)
        }),
        ran.csr.loaded(csr::MCOUNTINHIBIT) & 1 != 0 ==> ran.stepped(r).csr.cycle == ran.csr.cycle,
        ran.stepped(r).csr.instret == ran.csr.instret,
        r is Ok ==> ran.stepped(r).pc == ran.pc && ran.stepped(r).mode == ran.mode,
        r is Err ==> ran.stepped(r).mode != super::Mode::User,
{
}

/// An instruction that ends counts as retired, unless mcountinhibit bit 2 says
/// not to or it wrote minstret itself; the pc moves to where it pointed.
pub proof fn law_retirement(ran: CpuState, ready: Ready, pc: u64, b: BusState)
    ensures
        ran.retired(ready, pc, b).pc == ran.next_pc,
        ran.csr.loaded(csr::MCOUNTINHIBIT) & 4 == 0 && !(ready.inst.op is Csr) ==> ran.retired(
            ready,
            pc,
            b,
        ).csr.instret == ran.csr.instret.wrapping_add(1),
        ran.csr.loaded(csr::MCOUNTINHIBIT) & 4 != 0 ==> ran.retired(ready, pc, b).csr == ran.csr,
        ready.inst.op matches Op::Csr { kind, rs1, csr: number, .. } ==> {
            &&& number != 0xb02 && ran.csr.loaded(csr::MCOUNTINHIBIT) & 4 == 0 ==> ran.retired(
                ready,
                pc,
                b,
            ).csr.instret == ran.csr.instret.wrapping_add(1)
            &&& number == 0xb02 && (kind == CsrOp::Rw || kind == CsrOp::Rwi) ==> ran.retired(
                ready,
                pc,
                b,
            ).csr.instret == ran.csr.instret
            &&& number == 0xb02 && rs1 != 0 ==> ran.retired(ready, pc, b).csr.instret
                == ran.csr.instret
        },
        ran.retired(ready, pc, b).regs == ran.regs,
        ran.retired(ready, pc, b).mode == ran.mode,
{
}

/// An instruction runs with the pc it was fetched at, and with the address
/// after it as the next: two bytes on for a compressed one, four for another.
pub proof fn law_issue(c: CpuState, inst: DecodedInst)
    requires
        inst.len == 2 || inst.len == 4,
        c.pc + 4 <= u64::MAX,
    ensures
        c.issued(inst).pc == c.pc,
        c.issued(inst).next_pc == c.pc + inst.len,
        c.issued(inst).regs == c.regs,
{
}

/// An odd pc is a misaligned fetch, whatever memory holds, unless the
/// instruction is already at hand.
pub proof fn law_odd_pc_faults(c: CpuState, b: BusState)
    requires
        c.pc % 2 == 1,
        c.cache.active is None,
    ensures
        c.fetched(b).0 == Err::<Ready, Exception>(Exception::InstructionAddressMisaligned(c.pc)),
        c.fetched(b).2 == b,
{
}

} // verus!
