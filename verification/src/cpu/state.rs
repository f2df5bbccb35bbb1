//! State snapshot of the hart.
use vstd::prelude::*;

use super::csr::{self, CsrFile};
use super::{Cpu, CpuState, Mode};
use crate::snapshot::{
    and_bool, and_end, and_section, and_u64, and_u64s, and_u8, enc_bool, enc_section, enc_u64,
    enc_u64s, lemma_enc_u64s_len, lemma_read_bool, lemma_read_section, lemma_read_u64,
    lemma_read_u64s, lemma_read_u8, start, Parsed, Reader, RestoreError, Writer,
};

verus! {

pub const SNAPSHOT_VERSION: u16 = 1;

/// What the hart's own section of a snapshot holds.
#[verifier::ext_equal]
pub struct HartFields {
    pub regs: Seq<u64>,
    pub fregs: Seq<u64>,
    pub pc: u64,
    pub next_pc: u64,
    pub mode: Mode,
    pub reservation: Option<u64>,
    pub wfi: bool,
}

pub open spec fn reserved_address(reservation: Option<u64>) -> u64 {
    match reservation {
        Some(address) => address,
        None => 0,
    }
}

impl HartFields {
    /// The payload of the section.
    pub open spec fn encoding(self) -> Seq<u8> {
        enc_u64s(self.regs) + enc_u64s(self.fregs) + enc_u64(self.pc) + enc_u64(self.next_pc)
            + seq![self.mode.level() as u8] + enc_bool(self.reservation is Some) + enc_u64(
            reserved_address(self.reservation),
        ) + enc_bool(self.wfi)
    }

    /// What a payload holds.
    pub open spec fn decoded(payload: Seq<u8>) -> Result<HartFields, RestoreError> {
        match and_u8(and_u64(and_u64(and_u64s(and_u64s(start(payload), 32), 32)))) {
            Err(e) => Err(e),
            Ok(((((((_, regs), fregs), pc), next_pc), level), rest)) => if level != 0 && level != 1
                && level != 3 {
                Err(RestoreError::PrivilegeMode { found: level })
            } else {
                match and_end(and_bool(and_u64(and_bool(start(rest))))) {
                    Err(e) => Err(e),
                    Ok((((_, held), address), wfi)) => Ok(
                        HartFields {
                            regs,
                            fregs,
                            pc,
                            next_pc,
                            mode: super::mode_of(level as u64),
                            reservation: if held {
                                Some(address)
                            } else {
                                None
                            },
                            wfi,
                        },
                    ),
                }
            },
        }
    }
}

impl CpuState {
    pub open spec fn hart(self) -> HartFields {
        HartFields {
            regs: self.regs,
            fregs: self.fregs,
            pc: self.pc,
            next_pc: self.next_pc,
            mode: self.mode,
            reservation: self.reservation,
            wfi: self.wfi,
        }
    }

    /// The snapshot of the hart: its own section, then that of its CSRs. The
    /// caches are left out.
    pub open spec fn snapshot(self) -> Seq<u8> {
        enc_section(SNAPSHOT_VERSION, self.hart().encoding()) + enc_section(
            csr::SNAPSHOT_VERSION,
            self.csr.encoding(),
        )
    }

    /// The hart with its translation and decode caches dropped.
    pub open spec fn without_caches(self) -> CpuState {
        CpuState {
            mmu: self.mmu.flushed(),
            cache: self.cache.flushed(),
            fetch_translation: None,
            ..self
        }
    }
}

/// What restoring from `input` does to the hart: the result, and if it is
/// `Ok` the fields, the CSR payload and what is left of the input.
pub open spec fn restored(input: Seq<u8>) -> Parsed<(HartFields, Seq<u8>)> {
    match and_section(start(input), SNAPSHOT_VERSION) {
        Err(e) => Err(e),
        Ok(((_, payload), rest)) => match HartFields::decoded(payload) {
            Err(e) => Err(e),
            Ok(fields) => match and_section(start(rest), csr::SNAPSHOT_VERSION) {
                Err(e) => Err(e),
                Ok(((_, csrs), tail)) => match CsrFile::decoded(csrs) {
                    Err(e) => Err(e),
                    Ok(_) => Ok(((fields, csrs), tail)),
                },
            },
        },
    }
}

/// The CSR file is what a payload holds.
pub open spec fn file_from(file: CsrFile, payload: Seq<u8>) -> bool {
    CsrFile::decoded(payload) == Ok::<_, RestoreError>(
        (
            ((((), file.regs@), file.device_mip), file.legacy_pmp_stubs),
            file.cycle,
            file.instret,
        ),
    )
}

fn words(v: &Vec<u64>) -> (r: [u64; 32])
    requires
        v@.len() == 32,
    ensures
        r@ == v@,
{
    let mut r = [0u64; 32];
    let mut i: usize = 0;
    while i < 32
        invariant
            i <= 32,
            v@.len() == 32,
            forall|k: int| 0 <= k < i ==> r@[k] == v@[k],
        decreases 32 - i,
    {
        r[i] = v[i];
        i = i + 1;
    }
    assert(r@ =~= v@);
    r
}

impl Cpu {
    /// Drop every translation and decode cache.
    ///
    /// These are memos over guest RAM and the page tables, which a correct
    /// hart may discard at any instruction boundary; a restore rebuilds them
    /// from the restored memory rather than carrying stale entries across.
    pub fn invalidate_caches(&mut self)
        requires
            old(self)@.wf(),
        ensures
            final(self)@.wf(),
            final(self)@ == old(self)@.without_caches(),
    {
        self.mmu.flush_all();
        self.decode_cache.flush();
        self.fetch_translation = None;
    }

    pub fn snapshot(&self, out: &mut Writer)
        ensures
            final(out)@ == old(out)@ + self@.snapshot(),
    {
        let mut w = Writer::new();
        w.u64s(self.regs.as_slice());
        w.u64s(self.fregs.as_slice());
        w.u64(self.pc);
        w.u64(self.next_pc);
        w.u8(self.mode.rank() as u8);
        match self.reservation {
            Some(address) => {
                w.bool(true);
                w.u64(address);
            },
            None => {
                w.bool(false);
                w.u64(0);
            },
        }
        w.bool(self.wfi);
        proof {
            assert(w@ =~= self@.hart().encoding());
            lemma_hart_len(self@.hart());
        }
        out.section(SNAPSHOT_VERSION, &w);
        self.csr.snapshot(out);
        assert(out@ =~= old(out)@ + self@.snapshot());
    }

    /// Take the state back from a snapshot. Data that does not parse leaves
    /// the hart as it was. The caches keep their entries; see
    /// [`Self::invalidate_caches`].
    pub fn restore(&mut self, input: &mut Reader<'_>) -> (r: Result<(), RestoreError>)
        requires
            old(input).wf(),
        ensures
            final(input).wf(),
            old(self)@.wf() ==> final(self)@.wf(),
            match restored(old(input).rest()) {
                Err(e) => r == Err::<(), RestoreError>(e) && final(self)@ == old(self)@,
                Ok(((fields, csrs), tail)) => r is Ok && final(input).rest() == tail
                    && final(self)@.hart() == fields && file_from(final(self)@.csr, csrs)
                    && final(self)@ == (CpuState {
                    mmu: old(self)@.mmu,
                    cache: old(self)@.cache,
                    fetch_translation: old(self)@.fetch_translation,
                    ..final(self)@
                }),
            },
    {
        let mut section = input.section(SNAPSHOT_VERSION)?;
        let regs = section.u64s(32)?;
        let fregs = section.u64s(32)?;
        let pc: u64 = section.u64()?;
        let next_pc: u64 = section.u64()?;
        let level: u8 = section.u8()?;
        let mode = match level {
            0 => Mode::User,
            1 => Mode::Supervisor,
            3 => Mode::Machine,
            other => return Err(RestoreError::PrivilegeMode { found: other }),
        };
        let held: bool = section.bool()?;
        let address: u64 = section.u64()?;
        let wfi: bool = section.bool()?;
        section.finish()?;
        self.csr.restore(input)?;
        self.regs = words(&regs);
        self.fregs = words(&fregs);
        self.pc = pc;
        self.next_pc = next_pc;
        self.mode = mode;
        self.reservation = if held {
            Some(address)
        } else {
            None
        };
        self.wfi = wfi;
        Ok(())
    }
}

proof fn lemma_hart_len(h: HartFields)
    ensures
        h.encoding().len() == 8 * h.regs.len() + 8 * h.fregs.len() + 27,
{
    lemma_enc_u64s_len(h.regs);
    lemma_enc_u64s_len(h.fregs);
    crate::le::lemma_le_bytes_len(h.pc as nat, 8);
    crate::le::lemma_le_bytes_len(h.next_pc as nat, 8);
    crate::le::lemma_le_bytes_len(reserved_address(h.reservation) as nat, 8);
}

proof fn lemma_hart_round_trip(h: HartFields)
    requires
        h.regs.len() == 32,
        h.fregs.len() == 32,
    ensures
        HartFields::decoded(h.encoding()) == Ok::<HartFields, RestoreError>(h),
{
    let address = reserved_address(h.reservation);
    let held = h.reservation is Some;
    let t7 = Seq::<u8>::empty();
    let t6 = enc_bool(h.wfi) + t7;
    let t5 = enc_u64(address) + t6;
    let t4 = enc_bool(held) + t5;
    let t3 = seq![h.mode.level() as u8] + t4;
    let t2 = enc_u64(h.next_pc) + t3;
    let t1 = enc_u64(h.pc) + t2;
    let t0 = enc_u64s(h.fregs) + t1;
    assert(h.encoding() =~= enc_u64s(h.regs) + t0);
    lemma_read_u64s((), h.regs, t0);
    let a0 = ((), h.regs);
    lemma_read_u64s(a0, h.fregs, t1);
    let a1 = (a0, h.fregs);
    lemma_read_u64(a1, h.pc, t2);
    let a2 = (a1, h.pc);
    lemma_read_u64(a2, h.next_pc, t3);
    let a3 = (a2, h.next_pc);
    lemma_read_u8(a3, h.mode.level() as u8, t4);
    lemma_read_bool((), held, t5);
    let a4 = ((), held);
    lemma_read_u64(a4, address, t6);
    let a5 = (a4, address);
    lemma_read_bool(a5, h.wfi, t7);
}

/// Reading a hart's snapshot back gives the fields and the CSRs it was taken
/// from, and leaves what follows it.
pub proof fn law_snapshot_round_trip(c: CpuState, file: CsrFile, tail: Seq<u8>)
    requires
        c.wf(),
    ensures
        restored(c.snapshot() + tail) == Parsed::<(HartFields, Seq<u8>)>::Ok(
            ((c.hart(), c.csr.encoding()), tail),
        ),
        file_from(file, c.csr.encoding()) ==> file.regs@ == c.csr.regs@ && file.device_mip
            == c.csr.device_mip && file.legacy_pmp_stubs == c.csr.legacy_pmp_stubs && file.cycle
            == c.csr.cycle && file.instret == c.csr.instret,
{
    let csrs = enc_section(csr::SNAPSHOT_VERSION, c.csr.encoding()) + tail;
    assert(c.snapshot() + tail =~= enc_section(SNAPSHOT_VERSION, c.hart().encoding()) + csrs);
    lemma_hart_len(c.hart());
    lemma_read_section((), SNAPSHOT_VERSION, c.hart().encoding(), csrs);
    lemma_hart_round_trip(c.hart());
    csr::law_snapshot_round_trip(c.csr, tail);
}

} // verus!
