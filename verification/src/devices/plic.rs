//! PLIC (platform-level interrupt controller), QEMU-virt-compatible subset.
//!
//! Sources 1..=31 supported (we only use UART_IRQ = 10). Two contexts:
//! context 0 = hart 0 M-mode, context 1 = hart 0 S-mode.
//!
//! Layout (offsets from PLIC_BASE):
//! - 0x000000 + irq*4:      priority for source irq (0 = never interrupt)
//! - 0x001000 + word*4:     pending bits (read-only)
//! - 0x002000 + ctx*0x80:   enable bits for context (word 0 = sources 0..31)
//! - 0x200000 + ctx*0x1000: threshold
//! - 0x200004 + ctx*0x1000: claim (read) / complete (write)
//!
//! Semantics: level-triggered sources via `set_irq(id, level)`; a source is
//! claimable when pending && enabled && priority > threshold. Claim returns
//! the highest-priority such source and clears its pending bit; complete
//! re-arms it (re-raises pending if the level is still high). `eip(ctx)`
//! reports whether an interrupt should be signaled to that context.
use vstd::array::spec_array_update;
use vstd::prelude::*;
use vstd::std_specs::bits::axiom_u32_trailing_zeros;

use crate::snapshot::{
    and_end, and_section, and_u32, and_u32s, enc_section, enc_u32, enc_u32s, lemma_enc_u32s_len,
    lemma_read_section, lemma_read_u32, lemma_read_u32s, start, Parsed, Reader, RestoreError,
    Writer,
};

verus! {

pub const NUM_SOURCES: usize = 32;

pub const NUM_CONTEXTS: usize = 2;

pub const PENDING_BASE: u64 = 0x1000;

pub const ENABLE_BASE: u64 = 0x2000;

pub const ENABLE_STRIDE: u64 = 0x80;

pub const CONTEXT_BASE: u64 = 0x20_0000;

pub const CONTEXT_STRIDE: u64 = 0x1000;

pub struct Plic {
    pub priority: [u32; 32],
    pub pending: u32,
    /// Current level of each (level-triggered) source line.
    pub level: u32,
    pub enable: [u32; 2],
    pub threshold: [u32; 2],
    /// Per-context sources claimed and not yet completed (gated from
    /// re-pending). Tracking this per context means an M-mode claim of one
    /// source does not block an S-mode claim of another, as on real hardware.
    pub claimed: [u32; 2],
    /// Bit `ctx` is set when that context has at least one claimable source.
    /// Recomputed on input changes so `eip`, sampled twice per instruction, is
    /// a constant-time lookup.
    pub ready_mask: u8,
}

/// Whether source `id` is in the mask.
pub open spec fn bit_set(mask: u32, id: u32) -> bool {
    mask & (1u32 << id) != 0
}

pub open spec fn orderly_masks(pending: u32, level: u32, claimed0: u32, claimed1: u32) -> bool {
    &&& (pending | level | claimed0 | claimed1) & 1 == 0
    &&& pending & !level == 0
    &&& pending & claimed0 == 0
    &&& pending & claimed1 == 0
    &&& claimed0 & claimed1 == 0
}

/// The register a guest access addresses.
pub enum Register {
    Priority { irq: int },
    Pending,
    Enable { ctx: int },
    Threshold { ctx: int },
    Claim { ctx: int },
    Unmapped,
}

pub open spec fn register_at(offset: u64) -> Register {
    if offset < 0x1000 {
        if offset % 4 == 0 && offset / 4 < 32 {
            Register::Priority { irq: offset as int / 4 }
        } else {
            Register::Unmapped
        }
    } else if offset == PENDING_BASE {
        Register::Pending
    } else if offset < ENABLE_BASE {
        Register::Unmapped
    } else if offset < CONTEXT_BASE {
        let rel = offset - ENABLE_BASE;
        if rel / 0x80 < 2 && rel % 0x80 == 0 {
            Register::Enable { ctx: rel / 0x80 }
        } else {
            Register::Unmapped
        }
    } else {
        let rel = offset - CONTEXT_BASE;
        if rel / 0x1000 < 2 && rel % 0x1000 == 0 {
            Register::Threshold { ctx: rel / 0x1000 }
        } else if rel / 0x1000 < 2 && rel % 0x1000 == 4 {
            Register::Claim { ctx: rel / 0x1000 }
        } else {
            Register::Unmapped
        }
    }
}

impl Plic {
    /// Pending, enabled for the context, and above its threshold.
    pub open spec fn claimable(self, ctx: int, id: u32) -> bool {
        bit_set(self.pending & self.enable@[ctx], id) && self.priority@[id as int]
            > self.threshold@[ctx]
    }

    pub open spec fn any_claimable(self, ctx: int) -> bool {
        exists|id: u32| id < 32 && #[trigger] self.claimable(ctx, id)
    }

    /// The ready bitmap its inputs call for.
    pub open spec fn ready(self) -> u8 {
        ((if self.any_claimable(0) {
            1int
        } else {
            0
        }) + (if self.any_claimable(1) {
            2int
        } else {
            0
        })) as u8
    }

    /// The bitmap is a memo over the other fields.
    pub open spec fn wf(self) -> bool {
        self.ready_mask == self.ready()
    }

    pub open spec fn refreshed(self) -> Plic {
        Plic { ready_mask: self.ready(), ..self }
    }

    pub open spec fn claimed_anywhere(self) -> u32 {
        self.claimed@[0] | self.claimed@[1]
    }

    /// The controller after a source line is driven.
    pub open spec fn driven(self, id: u32, level: bool) -> Plic {
        if id == 0 || id >= 32 || bit_set(self.level, id) == level {
            self
        } else if level {
            // Level high latches pending unless the source is mid-claim.
            (Plic {
                level: self.level | (1u32 << id),
                pending: if bit_set(self.claimed_anywhere(), id) {
                    self.pending
                } else {
                    self.pending | (1u32 << id)
                },
                ..self
            }).refreshed()
        } else {
            // Level-triggered: dropping the line clears pending.
            (Plic {
                level: self.level & !(1u32 << id),
                pending: self.pending & !(1u32 << id),
                ..self
            }).refreshed()
        }
    }

    /// The highest-priority claimable source among 1..`n` (ties: lowest id),
    /// 0 if there is none.
    pub open spec fn best_below(self, ctx: int, n: nat) -> u32
        decreases n,
    {
        if n <= 1 {
            0
        } else {
            let best = self.best_below(ctx, (n - 1) as nat);
            let id = (n - 1) as u32;
            if self.claimable(ctx, id) && (best == 0 || self.priority@[id as int]
                > self.priority@[best as int]) {
                id
            } else {
                best
            }
        }
    }

    pub open spec fn best(self, ctx: int) -> u32 {
        self.best_below(ctx, 32)
    }

    /// The controller after the context claims.
    pub open spec fn after_claim(self, ctx: int) -> Plic {
        let best = self.best(ctx);
        if best == 0 {
            self
        } else {
            (Plic {
                pending: self.pending & !(1u32 << best),
                claimed: spec_array_update(
                    self.claimed,
                    ctx,
                    self.claimed@[ctx] | (1u32 << best),
                ),
                ..self
            }).refreshed()
        }
    }

    /// The controller after the context completes source `id`. A source the
    /// context never claimed is left alone.
    pub open spec fn after_complete(self, ctx: int, id: u32) -> Plic {
        if id == 0 || id >= 32 || !bit_set(self.claimed@[ctx], id) {
            self
        } else {
            (Plic {
                claimed: spec_array_update(
                    self.claimed,
                    ctx,
                    self.claimed@[ctx] & !(1u32 << id),
                ),
                pending: if bit_set(self.level, id) {
                    self.pending | (1u32 << id)
                } else {
                    self.pending
                },
                ..self
            }).refreshed()
        }
    }

    pub open spec fn seen(self, offset: u64) -> u32 {
        match register_at(offset) {
            Register::Priority { irq } => self.priority@[irq],
            Register::Pending => self.pending,
            Register::Enable { ctx } => self.enable@[ctx],
            Register::Threshold { ctx } => self.threshold@[ctx],
            Register::Claim { ctx } => self.best(ctx),
            Register::Unmapped => 0,
        }
    }

    pub open spec fn after_read(self, offset: u64) -> Plic {
        match register_at(offset) {
            Register::Claim { ctx } => self.after_claim(ctx),
            _ => self,
        }
    }

    pub open spec fn written(self, offset: u64, val: u32) -> Plic {
        match register_at(offset) {
            Register::Priority { irq } => (Plic {
                priority: spec_array_update(self.priority, irq, val),
                ..self
            }).refreshed(),
            Register::Enable { ctx } => (Plic {
                enable: spec_array_update(self.enable, ctx, val),
                ..self
            }).refreshed(),
            Register::Threshold { ctx } => (Plic {
                threshold: spec_array_update(self.threshold, ctx, val),
                ..self
            }).refreshed(),
            Register::Claim { ctx } => self.after_complete(ctx, val),
            Register::Pending | Register::Unmapped => self,
        }
    }

    /// Nothing raised, nothing enabled.
    pub open spec fn at_reset(self) -> bool {
        &&& self.wf()
        &&& self.priority@ == Seq::new(32, |i: int| 0u32)
        &&& self.pending == 0
        &&& self.level == 0
        &&& self.enable@ == seq![0u32, 0u32]
        &&& self.threshold@ == seq![0u32, 0u32]
        &&& self.claimed@ == seq![0u32, 0u32]
    }

    /// What every operation keeps: source 0 is nowhere, a pending source has
    /// its line high and is claimed by no context, and no source is claimed by
    /// both.
    pub open spec fn orderly(self) -> bool {
        orderly_masks(self.pending, self.level, self.claimed@[0], self.claimed@[1])
    }

    pub fn new() -> (r: Self)
        ensures
            r.at_reset(),
            r.orderly(),
    {
        let r = Plic {
            priority: [0; 32],
            pending: 0,
            level: 0,
            enable: [0; 2],
            threshold: [0; 2],
            claimed: [0; 2],
            ready_mask: 0,
        };
        assert(r.priority@ =~= Seq::new(32, |i: int| 0u32));
        assert(r.enable@ =~= seq![0u32, 0u32]);
        assert(r.threshold@ =~= seq![0u32, 0u32]);
        assert(r.claimed@ =~= seq![0u32, 0u32]);
        assert(!r.any_claimable(0) && !r.any_claimable(1));
        proof {
            lemma_orderly(0, 0, 0, 0, 0, 1);
        }
        r
    }

    /// Whether the context has a claimable source.
    fn context_ready(&self, ctx: usize) -> (r: bool)
        requires
            ctx < 2,
        ensures
            r == self.any_claimable(ctx as int),
    {
        let ghost all = self.pending & self.enable@[ctx as int];
        let mut candidates: u32 = self.pending & self.enable[ctx];
        let threshold: u32 = self.threshold[ctx];
        while candidates != 0
            invariant
                ctx < 2,
                all == self.pending & self.enable@[ctx as int],
                threshold == self.threshold@[ctx as int],
                forall|id: u32|
                    id < 32 && #[trigger] bit_set(all, id) ==> bit_set(candidates, id)
                        || self.priority@[id as int] <= threshold,
                forall|id: u32| id < 32 && #[trigger] bit_set(candidates, id) ==> bit_set(all, id),
            decreases candidates,
        {
            let id: u32 = candidates.trailing_zeros();
            proof {
                axiom_u32_trailing_zeros(candidates);
                assert forall|k: u32| k < 32 implies #[trigger] bit_set(
                    candidates & ((candidates - 1) as u32),
                    k,
                ) == (bit_set(candidates, k) && k != id) by {
                    lemma_clear_lowest(candidates, id, k);
                }
                lemma_clear_lowest(candidates, id, 0);
                assert(bit_set(candidates, id));
            }
            if self.priority[id as usize] > threshold {
                assert(self.claimable(ctx as int, id));
                return true;
            }
            candidates = candidates & (candidates - 1);
        }
        proof {
            assert forall|id: u32| id < 32 implies !#[trigger] self.claimable(ctx as int, id) by {
                lemma_mask(0, id);
            }
        }
        false
    }

    fn recompute_ready(&mut self)
        ensures
            *final(self) == old(self).refreshed(),
            final(self).wf(),
    {
        let m: u8 = if self.context_ready(0) {
            1
        } else {
            0
        };
        let s: u8 = if self.context_ready(1) {
            2
        } else {
            0
        };
        self.ready_mask = m + s;
        proof {
            lemma_refresh(*old(self));
        }
    }

    /// A source is mid-claim if any context has claimed and not completed it.
    fn any_claimed(&self) -> (r: u32)
        ensures
            r == self.claimed_anywhere(),
    {
        self.claimed[0] | self.claimed[1]
    }

    /// Drive a source line level (edge -> pending latch handled inside).
    pub fn set_irq(&mut self, id: u32, level: bool)
        requires
            old(self).wf(),
        ensures
            final(self).wf(),
            *final(self) == old(self).driven(id, level),
    {
        if id == 0 || id >= NUM_SOURCES as u32 {
            return;
        }
        let bit: u32 = 1u32 << id;
        if (self.level & bit != 0) == level {
            return;
        }
        if level {
            self.level = self.level | bit;
            // Level high latches pending unless the source is mid-claim.
            if self.any_claimed() & bit == 0 {
                self.pending = self.pending | bit;
            }
        } else {
            self.level = self.level & !bit;
            // Level-triggered: dropping the line clears pending.
            self.pending = self.pending & !bit;
        }
        self.recompute_ready();
    }

    /// Should an external interrupt be signaled to context `ctx`? Reads the
    /// cached claimability bitmap, so this hot path never scans sources.
    pub fn eip(&self, ctx: usize) -> (r: bool)
        requires
            self.wf(),
        ensures
            r == (ctx < 2 && self.any_claimable(ctx as int)),
    {
        proof {
            lemma_ready_bits(self.ready_mask);
        }
        if ctx == 0 {
            self.ready_mask & 1 != 0
        } else if ctx == 1 {
            self.ready_mask & 2 != 0
        } else {
            false
        }
    }

    /// Claim the highest-priority pending+enabled source for `ctx`
    /// (ties: lowest id). Returns 0 if none.
    pub fn claim(&mut self, ctx: usize) -> (r: u32)
        requires
            old(self).wf(),
            ctx < 2,
        ensures
            final(self).wf(),
            r == old(self).best(ctx as int),
            *final(self) == old(self).after_claim(ctx as int),
    {
        let candidates: u32 = self.pending & self.enable[ctx];
        let mut best: u32 = 0;
        let mut best_prio: u32 = 0;
        let mut id: u32 = 1;
        while id < NUM_SOURCES as u32
            invariant
                ctx < 2,
                1 <= id <= 32,
                candidates == self.pending & self.enable@[ctx as int],
                best == self.best_below(ctx as int, id as nat),
                best < id,
                best_prio == (if best == 0 {
                    0
                } else {
                    self.priority@[best as int]
                }),
            decreases 32 - id,
        {
            // Only claim a source above this context's threshold, so claim and
            // eip agree on what the context can see (ties: lowest id).
            if candidates & (1u32 << id) != 0 && self.priority[id as usize] > self.threshold[ctx]
                && self.priority[id as usize] > best_prio {
                best_prio = self.priority[id as usize];
                best = id;
            }
            id = id + 1;
        }
        if best != 0 {
            let bit: u32 = 1u32 << best;
            self.pending = self.pending & !bit;
            self.claimed[ctx] = self.claimed[ctx] | bit;
            self.recompute_ready();
        }
        best
    }

    /// Signal completion of a previously claimed source for `ctx`.
    pub fn complete(&mut self, ctx: usize, id: u32)
        requires
            old(self).wf(),
        ensures
            final(self).wf(),
            *final(self) == (if ctx < 2 {
                old(self).after_complete(ctx as int, id)
            } else {
                *old(self)
            }),
    {
        if ctx >= NUM_CONTEXTS || id == 0 || id >= NUM_SOURCES as u32 {
            return;
        }
        let bit: u32 = 1u32 << id;
        // Ignore a completion for a source this context never claimed: a guest
        // must not re-pend an unowned line by writing an arbitrary id.
        if self.claimed[ctx] & bit == 0 {
            return;
        }
        self.claimed[ctx] = self.claimed[ctx] & !bit;
        if self.level & bit != 0 {
            self.pending = self.pending | bit;
        }
        self.recompute_ready();
    }

    /// Registers are 32-bit; be permissive about size (an aligned wider read
    /// just returns the 32-bit value zero-extended).
    pub fn read(&mut self, offset: u64, _size: u8) -> (r: Result<u64, ()>)
        requires
            old(self).wf(),
        ensures
            final(self).wf(),
            r == Ok::<u64, ()>(old(self).seen(offset) as u64),
            *final(self) == old(self).after_read(offset),
    {
        let val: u32 = if offset < PENDING_BASE {
            let irq: usize = (offset / 4) as usize;
            if offset % 4 == 0 && irq < NUM_SOURCES {
                self.priority[irq]
            } else {
                0
            }
        } else if offset == PENDING_BASE {
            self.pending
        } else if offset < ENABLE_BASE {
            0  // higher pending words: no such sources

        } else if offset < CONTEXT_BASE {
            let rel: u64 = offset - ENABLE_BASE;
            let ctx: u64 = rel / ENABLE_STRIDE;
            let word: u64 = rel % ENABLE_STRIDE;
            if ctx < NUM_CONTEXTS as u64 && word == 0 {
                self.enable[ctx as usize]
            } else {
                0
            }
        } else {
            let rel: u64 = offset - CONTEXT_BASE;
            let ctx: u64 = rel / CONTEXT_STRIDE;
            let reg: u64 = rel % CONTEXT_STRIDE;
            if ctx < NUM_CONTEXTS as u64 {
                match reg {
                    0 => self.threshold[ctx as usize],
                    4 => self.claim(ctx as usize),
                    _ => 0,
                }
            } else {
                0
            }
        };
        Ok(val as u64)
    }

    pub fn write(&mut self, offset: u64, val: u64, _size: u8) -> (r: Result<(), ()>)
        requires
            old(self).wf(),
        ensures
            final(self).wf(),
            r is Ok,
            *final(self) == old(self).written(offset, val as u32),
    {
        let val: u32 = val as u32;
        if offset < PENDING_BASE {
            let irq: usize = (offset / 4) as usize;
            if offset % 4 == 0 && irq < NUM_SOURCES {
                self.priority[irq] = val;
                self.recompute_ready();
            }
        } else if offset < ENABLE_BASE {
            // pending is read-only
        } else if offset < CONTEXT_BASE {
            let rel: u64 = offset - ENABLE_BASE;
            let ctx: u64 = rel / ENABLE_STRIDE;
            let word: u64 = rel % ENABLE_STRIDE;
            if ctx < NUM_CONTEXTS as u64 && word == 0 {
                self.enable[ctx as usize] = val;
                self.recompute_ready();
            }
        } else {
            let rel: u64 = offset - CONTEXT_BASE;
            let ctx: u64 = rel / CONTEXT_STRIDE;
            let reg: u64 = rel % CONTEXT_STRIDE;
            if ctx < NUM_CONTEXTS as u64 {
                match reg {
                    0 => {
                        self.threshold[ctx as usize] = val;
                        self.recompute_ready();
                    },
                    4 => self.complete(ctx as usize, val),
                    _ => {},
                }
            }
        }
        Ok(())
    }
}

proof fn lemma_clear_lowest(b: u32, t: u32, i: u32)
    by (bit_vector)
    requires
        b != 0,
        t < 32,
        i < 32,
        (b >> t) & 1 == 1,
        b << ((32 - t) as u32) == 0 || t == 0,
    ensures
        (b & ((b - 1) as u32)) & (1u32 << i) != 0 <==> (b & (1u32 << i) != 0 && i != t),
        (b & ((b - 1) as u32)) < b,
        b & (1u32 << t) != 0,
{
}

proof fn lemma_mask(m: u32, i: u32)
    by (bit_vector)
    requires
        i < 32,
    ensures
        0u32 & (1u32 << i) == 0,
        m & !(1u32 << i) & (1u32 << i) == 0,
        (m | (1u32 << i)) & (1u32 << i) != 0,
{
}

proof fn lemma_ready_bits(m: u8)
    by (bit_vector)
    requires
        m < 4,
    ensures
        (m & 1 != 0) == (m % 2 == 1),
        (m & 2 != 0) == (m >= 2),
{
}

/// The memo does not feed back into what it records.
proof fn lemma_refresh(p: Plic)
    ensures
        p.refreshed().wf(),
        p.refreshed().ready() == p.ready(),
{
    let q = p.refreshed();
    assert forall|ctx: int, id: u32| q.claimable(ctx, id) == p.claimable(ctx, id) by {}
    assert forall|ctx: int| q.any_claimable(ctx) == p.any_claimable(ctx) by {
        if p.any_claimable(ctx) {
            let id = choose|id: u32| id < 32 && #[trigger] p.claimable(ctx, id);
            assert(q.claimable(ctx, id));
        }
        if q.any_claimable(ctx) {
            let id = choose|id: u32| id < 32 && #[trigger] q.claimable(ctx, id);
            assert(p.claimable(ctx, id));
        }
    }
}

impl Default for Plic {
    fn default() -> (r: Self)
        ensures
            r.at_reset(),
            r.orderly(),
    {
        Self::new()
    }
}

proof fn lemma_best(p: Plic, ctx: int, n: nat)
    requires
        0 <= ctx < 2,
        n <= 32,
    ensures
        p.best_below(ctx, n) == 0 || (p.best_below(ctx, n) < n && p.claimable(
            ctx,
            p.best_below(ctx, n),
        )),
        forall|id: u32|
            1 <= id < n && #[trigger] p.claimable(ctx, id) ==> ({
                let best = p.best_below(ctx, n);
                best != 0 && (p.priority@[best as int] > p.priority@[id as int] || (
                p.priority@[best as int] == p.priority@[id as int] && best <= id))
            }),
    decreases n,
{
    if n > 1 {
        lemma_best(p, ctx, (n - 1) as nat);
    }
}

/// A claim hands out a claimable source that no other claimable one outranks
/// (the lowest id among equals), and 0 only if there is none.
pub proof fn law_claim_takes_highest_priority(p: Plic, ctx: int, id: u32)
    requires
        0 <= ctx < 2,
        1 <= id < 32,
        p.claimable(ctx, id),
    ensures
        p.best(ctx) != 0,
        p.claimable(ctx, p.best(ctx)),
        p.priority@[p.best(ctx) as int] > p.priority@[id as int] || (p.priority@[p.best(
            ctx,
        ) as int] == p.priority@[id as int] && p.best(ctx) <= id),
{
    lemma_best(p, ctx, 32);
}

proof fn lemma_orderly(p: u32, l: u32, c: u32, d: u32, e: u32, id: u32)
    by (bit_vector)
    requires
        1 <= id < 32,
        orderly_masks(p, l, c, d) || (p == 0 && l == 0 && c == 0 && d == 0),
    ensures
        orderly_masks(p, l, c, d),
        p & (1u32 << 0u32) == 0,
        (p & e) & (1u32 << 0u32) == 0,
        (p & e) & (1u32 << id) != 0 <==> p & (1u32 << id) != 0 && e & (1u32 << id) != 0,
        (c | d) & (1u32 << id) == 0 ==> orderly_masks(p | (1u32 << id), l | (1u32 << id), c, d),
        orderly_masks(p, l | (1u32 << id), c, d),
        orderly_masks(p & !(1u32 << id), l & !(1u32 << id), c, d),
        p & (1u32 << id) != 0 ==> orderly_masks(p & !(1u32 << id), l, c | (1u32 << id), d)
            && orderly_masks(p & !(1u32 << id), l, c, d | (1u32 << id)) && c & (1u32 << id) == 0
            && d & (1u32 << id) == 0,
        c & (1u32 << id) != 0 ==> orderly_masks(p, l, c & !(1u32 << id), d) && p & (1u32 << id)
            == 0 && (l & (1u32 << id) != 0 ==> orderly_masks(
            p | (1u32 << id),
            l,
            c & !(1u32 << id),
            d,
        )),
        d & (1u32 << id) != 0 ==> orderly_masks(p, l, c, d & !(1u32 << id)) && p & (1u32 << id)
            == 0 && (l & (1u32 << id) != 0 ==> orderly_masks(
            p | (1u32 << id),
            l,
            c,
            d & !(1u32 << id),
        )),
{
}

/// Every controller reached from a new one by driving lines, reading and
/// writing registers is orderly.
pub proof fn law_operations_keep_order(p: Plic, id: u32, level: bool, offset: u64, val: u32)
    requires
        p.orderly(),
    ensures
        p.driven(id, level).orderly(),
        p.after_read(offset).orderly(),
        p.written(offset, val).orderly(),
{
    let (c, d) = (p.claimed@[0], p.claimed@[1]);
    if 1 <= id < 32 {
        lemma_orderly(p.pending, p.level, c, d, 0, id);
    }
    if register_at(offset) is Claim {
        let ctx = register_at(offset)->Claim_ctx;
        let best = p.best(ctx);
        lemma_best(p, ctx, 32);
        if best != 0 {
            lemma_orderly(p.pending, p.level, c, d, p.enable@[ctx], best);
        }
        if 1 <= val < 32 {
            lemma_orderly(p.pending, p.level, c, d, 0, val);
        }
    }
}

/// An external interrupt is signalled to a context if and only if some source
/// that a line drives is pending, enabled there and above the threshold.
pub proof fn law_eip_means_a_claimable_source(p: Plic, ctx: int)
    requires
        0 <= ctx < 2,
        p.orderly(),
    ensures
        p.any_claimable(ctx) <==> exists|id: u32|
            1 <= id < 32 && #[trigger] bit_set(p.pending, id) && bit_set(p.enable@[ctx], id)
                && p.priority@[id as int] > p.threshold@[ctx],
{
    let (c, d, e) = (p.claimed@[0], p.claimed@[1], p.enable@[ctx]);
    if p.any_claimable(ctx) {
        let id = choose|id: u32| id < 32 && #[trigger] p.claimable(ctx, id);
        lemma_orderly(p.pending, p.level, c, d, e, if id == 0 {
            1
        } else {
            id
        });
        assert(id != 0);
        assert(bit_set(p.pending, id));
    }
    if exists|id: u32|
        1 <= id < 32 && #[trigger] bit_set(p.pending, id) && bit_set(e, id)
            && p.priority@[id as int] > p.threshold@[ctx] {
        let id = choose|id: u32|
            1 <= id < 32 && #[trigger] bit_set(p.pending, id) && bit_set(e, id)
                && p.priority@[id as int] > p.threshold@[ctx];
        lemma_orderly(p.pending, p.level, c, d, e, id);
        assert(p.claimable(ctx, id));
    }
}

/// A claim gives 0 and changes nothing where `eip` is not signalled. Otherwise
/// it gives a source that is pending, enabled, above the threshold and not
/// outranked (the lowest id among equals), clears its pending bit alone, and
/// makes it claimed by this context alone.
pub proof fn law_claim_hands_out_the_best_source(p: Plic, ctx: int, other: u32)
    requires
        0 <= ctx < 2,
        p.orderly(),
        1 <= other < 32,
    ensures
        ({
            let (id, after) = (p.best(ctx), p.after_claim(ctx));
            &&& id == 0 <==> !p.any_claimable(ctx)
            &&& id == 0 ==> after == p
            &&& id != 0 ==> {
                &&& 1 <= id < 32
                &&& bit_set(p.pending, id)
                &&& bit_set(p.enable@[ctx], id)
                &&& p.priority@[id as int] > p.threshold@[ctx]
                &&& p.claimable(ctx, other) ==> p.priority@[id as int] > p.priority@[other as int]
                    || (p.priority@[id as int] == p.priority@[other as int] && id <= other)
                &&& after == (Plic {
                    pending: p.pending & !(1u32 << id),
                    claimed: after.claimed,
                    ready_mask: after.ready_mask,
                    ..p
                })
                &&& after.claimed@[ctx] == p.claimed@[ctx] | (1u32 << id)
                &&& after.claimed@[1 - ctx] == p.claimed@[1 - ctx]
                &&& !bit_set(p.claimed@[0], id)
                &&& !bit_set(p.claimed@[1], id)
            }
        }),
{
    law_claim_agrees_with_eip(p, ctx);
    lemma_best(p, ctx, 32);
    let id = p.best(ctx);
    if id != 0 {
        lemma_orderly(p.pending, p.level, p.claimed@[0], p.claimed@[1], p.enable@[ctx], id);
    }
}

/// What `eip` signals and what a claim can hand out agree.
pub proof fn law_claim_agrees_with_eip(p: Plic, ctx: int)
    requires
        0 <= ctx < 2,
        p.orderly(),
    ensures
        p.any_claimable(ctx) <==> p.best(ctx) != 0,
{
    lemma_best(p, ctx, 32);
    if p.any_claimable(ctx) {
        let id = choose|id: u32| id < 32 && #[trigger] p.claimable(ctx, id);
        lemma_orderly(p.pending, p.level, p.claimed@[0], p.claimed@[1], p.enable@[ctx], 1);
    }
}

/// A claimed source cannot be claimed again by either context before it is
/// completed, whatever its line does meanwhile.
pub proof fn law_claimed_source_is_gated(p: Plic, ctx: int, level: bool)
    requires
        0 <= ctx < 2,
        p.best(ctx) != 0,
    ensures
        !bit_set(p.after_claim(ctx).pending, p.best(ctx)),
        !bit_set(p.after_claim(ctx).driven(p.best(ctx), level).pending, p.best(ctx)),
{
    let id = p.best(ctx);
    lemma_best(p, ctx, 32);
    lemma_mask(p.pending, id);
    let q = p.after_claim(ctx);
    lemma_mask(p.claimed@[ctx], id);
    lemma_gate(q.claimed@[0], q.claimed@[1], id);
    lemma_mask(q.pending, id);
}

proof fn lemma_gate(a: u32, b: u32, i: u32)
    by (bit_vector)
    requires
        i < 32,
    ensures
        (a & (1u32 << i) != 0 || b & (1u32 << i) != 0) == ((a | b) & (1u32 << i) != 0),
{
}

/// Completing a claimed source whose line is still high makes it pending
/// again; with the line low it stays quiet.
pub proof fn law_complete_repends_while_high(p: Plic, ctx: int, id: u32)
    requires
        0 <= ctx < 2,
        1 <= id < 32,
        p.orderly(),
        bit_set(p.claimed@[ctx], id),
    ensures
        bit_set(p.after_complete(ctx, id).pending, id) <==> bit_set(p.level, id),
        !bit_set(p.after_complete(ctx, id).claimed@[ctx], id),
{
    lemma_mask(p.pending, id);
    lemma_mask(p.claimed@[ctx], id);
    lemma_orderly(p.pending, p.level, p.claimed@[0], p.claimed@[1], 0, id);
}

/// Completing a source the context never claimed changes nothing.
pub proof fn law_foreign_completion_is_inert(p: Plic, ctx: int, id: u32)
    requires
        0 <= ctx < 2,
        !bit_set(p.claimed@[ctx], id),
    ensures
        p.after_complete(ctx, id) == p,
{
}

// ---------------------------------------------------------------------------
// State snapshot
// ---------------------------------------------------------------------------

pub const SNAPSHOT_VERSION: u16 = 1;

impl Plic {
    /// The two contexts' registers, interleaved.
    pub open spec fn context_words(self) -> Seq<u32> {
        seq![
            self.enable@[0],
            self.threshold@[0],
            self.claimed@[0],
            self.enable@[1],
            self.threshold@[1],
            self.claimed@[1],
        ]
    }

    pub open spec fn encoding(self) -> Seq<u8> {
        enc_u32(32) + enc_u32(2) + enc_u32s(self.priority@) + enc_u32(self.pending) + enc_u32(
            self.level,
        ) + enc_u32s(self.context_words())
    }

    /// Priorities, pending, levels and context words held by a payload.
    pub open spec fn decoded(payload: Seq<u8>) -> Result<
        (Seq<u32>, u32, u32, Seq<u32>),
        RestoreError,
    > {
        match and_u32(and_u32(start(payload))) {
            Err(e) => Err(e),
            Ok((((_, sources), contexts), rest)) => if sources != 32 || contexts != 2 {
                Err(RestoreError::PlicGeometry { sources, contexts })
            } else {
                match and_end(and_u32s(and_u32(and_u32(and_u32s(start(rest), 32))), 6)) {
                    Err(e) => Err(e),
                    Ok(((((_, priority), pending), level), words)) => Ok(
                        (priority, pending, level, words),
                    ),
                }
            },
        }
    }

    pub fn snapshot(&self, out: &mut Writer)
        ensures
            final(out)@ == old(out)@ + enc_section(SNAPSHOT_VERSION, self.encoding()),
    {
        let mut w = Writer::new();
        w.u32(NUM_SOURCES as u32);
        w.u32(NUM_CONTEXTS as u32);
        w.u32s(self.priority.as_slice());
        w.u32(self.pending);
        w.u32(self.level);
        let words: [u32; 6] = [
            self.enable[0],
            self.threshold[0],
            self.claimed[0],
            self.enable[1],
            self.threshold[1],
            self.claimed[1],
        ];
        assert(words@ =~= self.context_words());
        w.u32s(words.as_slice());
        assert(w@ =~= self.encoding());
        proof {
            lemma_encoding_len(*self);
        }
        out.section(SNAPSHOT_VERSION, &w);
    }

    /// Take the state back from a snapshot section. Data that does not parse
    /// leaves the controller as it was.
    pub fn restore(&mut self, input: &mut Reader<'_>) -> (r: Result<(), RestoreError>)
        requires
            old(input).wf(),
            old(self).wf(),
        ensures
            final(input).wf(),
            final(self).wf(),
            match and_section(start(old(input).rest()), SNAPSHOT_VERSION) {
                Err(e) => r == Err::<(), RestoreError>(e) && *final(self) == *old(self),
                Ok(((_, payload), rest)) => final(input).rest() == rest && match Self::decoded(
                    payload,
                ) {
                    Err(e) => r == Err::<(), RestoreError>(e) && *final(self) == *old(self),
                    Ok((priority, pending, level, words)) => r is Ok && final(self).priority@
                        == priority && final(self).pending == pending && final(self).level == level
                        && final(self).context_words() == words,
                },
            },
    {
        let mut section = input.section(SNAPSHOT_VERSION)?;
        let sources: u32 = section.u32()?;
        let contexts: u32 = section.u32()?;
        if sources != NUM_SOURCES as u32 || contexts != NUM_CONTEXTS as u32 {
            return Err(RestoreError::PlicGeometry { sources, contexts });
        }
        let priority = section.u32s(32)?;
        let pending: u32 = section.u32()?;
        let level: u32 = section.u32()?;
        let words = section.u32s(6)?;
        section.finish()?;
        let mut i: usize = 0;
        while i < 32
            invariant
                i <= 32,
                priority@.len() == 32,
                self.pending == old(self).pending,
                forall|k: int| 0 <= k < i ==> self.priority@[k] == priority@[k],
            decreases 32 - i,
        {
            self.priority[i] = priority[i];
            i = i + 1;
        }
        assert(self.priority@ =~= priority@);
        self.pending = pending;
        self.level = level;
        self.enable = [words[0], words[3]];
        self.threshold = [words[1], words[4]];
        self.claimed = [words[2], words[5]];
        assert(self.context_words() =~= words@);
        // `ready_mask` is a memo over the fields above, never independent state.
        self.recompute_ready();
        Ok(())
    }
}

proof fn lemma_encoding_len(p: Plic)
    ensures
        p.encoding().len() == 168,
{
    lemma_enc_u32s_len(p.priority@);
    lemma_enc_u32s_len(p.context_words());
    lemma_read_u32((), 32, Seq::empty());
    lemma_read_u32((), 2, Seq::empty());
    lemma_read_u32((), p.pending, Seq::empty());
    lemma_read_u32((), p.level, Seq::empty());
}

/// Reading a snapshot back gives the state it was taken from.
pub proof fn law_snapshot_round_trip(p: Plic, tail: Seq<u8>)
    ensures
        and_section(start(enc_section(SNAPSHOT_VERSION, p.encoding()) + tail), SNAPSHOT_VERSION)
            == Parsed::<((), Seq<u8>)>::Ok((((), p.encoding()), tail)),
        Plic::decoded(p.encoding()) == Ok::<_, RestoreError>(
            (p.priority@, p.pending, p.level, p.context_words()),
        ),
{
    lemma_encoding_len(p);
    lemma_read_section((), SNAPSHOT_VERSION, p.encoding(), tail);
    let t5 = Seq::<u8>::empty();
    let t4 = enc_u32s(p.context_words()) + t5;
    let t3 = enc_u32(p.level) + t4;
    let t2 = enc_u32(p.pending) + t3;
    let t1 = enc_u32s(p.priority@) + t2;
    let t0 = enc_u32(2) + t1;
    assert(p.encoding() =~= enc_u32(32) + t0);
    lemma_read_u32((), 32, t0);
    lemma_read_u32(((), 32u32), 2, t1);
    lemma_read_u32s((), p.priority@, t2);
    let a1 = ((), p.priority@);
    let a2 = (a1, p.pending);
    let a3 = (a2, p.level);
    lemma_read_u32(a1, p.pending, t3);
    lemma_read_u32(a2, p.level, t4);
    lemma_read_u32s(a3, p.context_words(), t5);
}

/// Raising a source's line makes it pending unless it is being served; lowering
/// the line takes that back. Source 0 and those past 31 do not exist, and a
/// line driven to where it stands changes nothing.
pub proof fn law_lines_make_sources_pending(p: Plic, id: u32)
    requires
        1 <= id < 32,
    ensures
        !bit_set(p.level, id) && !bit_set(p.claimed@[0], id) && !bit_set(p.claimed@[1], id)
            ==> bit_set(p.driven(id, true).pending, id),
        !bit_set(p.level, id) && (bit_set(p.claimed@[0], id) || bit_set(p.claimed@[1], id))
            ==> p.driven(id, true).pending == p.pending,
        bit_set(p.driven(id, true).level, id),
        bit_set(p.level, id) ==> !bit_set(p.driven(id, false).pending, id),
        !bit_set(p.driven(id, false).level, id),
        bit_set(p.level, id) ==> p.driven(id, true) == p,
        !bit_set(p.level, id) ==> p.driven(id, false) == p,
        p.driven(0, true) == p,
        p.driven(32, true) == p,
        p.driven(id, true).enable == p.enable && p.driven(id, true).priority == p.priority
            && p.driven(id, true).claimed == p.claimed,
{
    lemma_mask(p.pending, id);
    lemma_mask(p.level, id);
    lemma_gate(p.claimed@[0], p.claimed@[1], id);
}

/// The register map: a priority word for each source, the pending bits, an
/// enable word, a threshold and a claim register for each of two contexts.
/// What is written there reads back; the pending bits cannot be written.
pub proof fn law_registers(p: Plic, irq: u64, ctx: u64, val: u32)
    requires
        1 <= irq < 32,
        ctx < 2,
    ensures
        p.seen((irq * 4) as u64) == p.priority@[irq as int],
        p.written((irq * 4) as u64, val).seen((irq * 4) as u64) == val,
        p.seen(0x1000) == p.pending,
        p.written(0x1000, val) == p,
        p.seen((0x2000 + ctx * 0x80) as u64) == p.enable@[ctx as int],
        p.written((0x2000 + ctx * 0x80) as u64, val).seen((0x2000 + ctx * 0x80) as u64) == val,
        p.seen((0x20_0000 + ctx * 0x1000) as u64) == p.threshold@[ctx as int],
        p.written((0x20_0000 + ctx * 0x1000) as u64, val).seen(
            (0x20_0000 + ctx * 0x1000) as u64,
        ) == val,
        p.seen((0x20_0004 + ctx * 0x1000) as u64) == p.best(ctx as int),
        p.after_read((0x20_0004 + ctx * 0x1000) as u64) == p.after_claim(ctx as int),
        p.written((0x20_0004 + ctx * 0x1000) as u64, val) == p.after_complete(ctx as int, val),
        p.written((irq * 4) as u64, val).enable == p.enable,
        p.written((irq * 4) as u64, val).pending == p.pending,
{
}

} // verus!
