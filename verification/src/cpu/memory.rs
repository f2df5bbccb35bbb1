//! The hart's view of memory: translation, loads, stores and atomics'
//! addresses.
use vstd::prelude::*;

use super::csr::{self, menvcfg, mstatus};
use super::{Cpu, CpuState, Mode};
use crate::bus::{law_reads_keep_ram, law_writes_are_counted, Bus, BusState, DRAM_BASE};
use crate::devices::virtqueue::writes_per_drain;
use crate::le::{le_bytes, lemma_le_bytes_len};
use crate::mmu::{lemma_walk_in_ram, mark, walk_from, Access, AccessType, Walk};
use crate::ram::{law_a_write_is_counted, law_counts_add_up, lemma_follows, paged};
use crate::trap::Exception;

verus! {

/// A misaligned access that runs over the end of its page.
pub open spec fn crosses_page(va: u64, size: u8) -> bool {
    size > 1 && va & ((size - 1) as u64) != 0 && va % 0x1000 + size > 0x1000
}

/// Byte `i` of a stored value.
pub open spec fn store_byte(val: u64, i: nat) -> u64 {
    (val >> ((i * 8) as u64)) & 0xff
}

/// The values read byte by byte, put together, lowest first.
pub open spec fn joined(bytes: Seq<u64>) -> u64
    decreases bytes.len(),
{
    if bytes.len() == 0 {
        0
    } else {
        joined(bytes.drop_last()) | (bytes.last() << (((bytes.len() - 1) * 8) as u64))
    }
}

/// One-byte reads of each address in turn: the values up to the first fault,
/// and the bus afterwards.
pub open spec fn bytes_read(b: BusState, pas: Seq<u64>) -> (Option<Seq<u64>>, BusState)
    decreases pas.len(),
{
    if pas.len() == 0 {
        (Some(Seq::empty()), b)
    } else {
        let (before, b1) = bytes_read(b, pas.drop_last());
        match before {
            None => (None, b1),
            Some(values) => match b1.seen(pas.last(), 1) {
                Ok(v) => (Some(values.push(v)), b1.after_read(pas.last())),
                Err(_) => (None, b1.after_read(pas.last())),
            },
        }
    }
}

/// What one-byte writes of `val` to each address from the `i`th on may do;
/// `ok` tells whether all were accepted, the rest being left undone.
pub open spec fn may_write_bytes(
    b: BusState,
    pas: Seq<u64>,
    val: u64,
    i: nat,
    post: BusState,
    ok: bool,
) -> bool
    decreases pas.len() - i,
{
    if i >= pas.len() {
        post == b && ok
    } else {
        let pa = pas[i as int];
        let byte = store_byte(val, i);
        exists|mid: BusState| #[trigger]
            b.may_write(pa, byte, 1, mid) && if b.accepts(pa, byte, 1) {
                may_write_bytes(mid, pas, val, i + 1, post, ok)
            } else {
                post == mid && !ok
            }
    }
}

pub open spec fn all_writable_bytes(b: BusState, pas: Seq<u64>) -> bool {
    forall|i: int| 0 <= i < pas.len() ==> b.writable(#[trigger] pas[i], 1)
}

impl CpuState {
    /// What a translation depends on besides the tables.
    pub open spec fn access(self, acc: AccessType, mode: Mode) -> Access {
        Access {
            mode,
            mxr: self.status(mstatus::MXR),
            sum: self.status(mstatus::SUM),
            adue: self.csr.word(csr::MENVCFG) & menvcfg::ADUE != 0,
            acc,
        }
    }

    /// A translation in a privilege mode, and the hart and bus afterwards.
    pub open spec fn translated(self, b: BusState, va: u64, acc: AccessType, mode: Mode) -> (
        Result<u64, Exception>,
        CpuState,
        BusState,
    ) {
        let (r, mmu, b2) = self.mmu.translated(
            b,
            self.csr.loaded(csr::SATP),
            self.access(acc, mode),
            va,
        );
        (r, CpuState { mmu, ..self }, b2)
    }

    /// The translations of `n` consecutive bytes, up to the first fault. The
    /// address space does not wrap.
    pub open spec fn bytes_translated(
        self,
        b: BusState,
        va: u64,
        n: nat,
        acc: AccessType,
        mode: Mode,
    ) -> (Result<Seq<u64>, Exception>, CpuState, BusState)
        decreases n,
    {
        if n == 0 {
            (Ok(Seq::empty()), self, b)
        } else {
            let (before, c1, b1) = self.bytes_translated(b, va, (n - 1) as nat, acc, mode);
            match before {
                Err(e) => (Err(e), c1, b1),
                Ok(pas) => if va + (n - 1) > u64::MAX {
                    (Err(crate::mmu::page_fault(acc, va)), c1, b1)
                } else {
                    let (r, c2, b2) = c1.translated(b1, (va + (n - 1)) as u64, acc, mode);
                    match r {
                        Err(e) => (Err(e), c2, b2),
                        Ok(pa) => (Ok(pas.push(pa)), c2, b2),
                    }
                },
            }
        }
    }

    /// A virtual-address load: the value or the exception, and the hart and
    /// bus afterwards. Where the access crosses pages every byte is translated
    /// before any is read, so a fault never reaches a device.
    pub open spec fn loaded(self, b: BusState, va: u64, size: u8) -> (
        Result<u64, Exception>,
        CpuState,
        BusState,
    ) {
        let mode = self.data_mode();
        if crosses_page(va, size) {
            if size > 8 {
                (Err(Exception::LoadAccessFault(va)), self, b)
            } else {
                let (r, c, b1) = self.bytes_translated(b, va, size as nat, AccessType::Load, mode);
                match r {
                    Err(e) => (Err(e), c, b1),
                    Ok(pas) => {
                        let (values, b2) = bytes_read(b1, pas);
                        match values {
                            None => (Err(Exception::LoadAccessFault(va)), c, b2),
                            Some(v) => (Ok(joined(v)), c, b2),
                        }
                    },
                }
            }
        } else {
            let (r, c, b1) = self.translated(b, va, AccessType::Load, mode);
            match r {
                Err(e) => (Err(e), c, b1),
                Ok(pa) => match b1.seen(pa, size) {
                    Ok(v) => (Ok(v), c, b1.after_read(pa)),
                    Err(_) => (Err(Exception::LoadAccessFault(va)), c, b1.after_read(pa)),
                },
            }
        }
    }

    /// What a virtual-address store may do. It clears the reservation. Where
    /// the access crosses pages every byte is translated and found writable
    /// before any is written, so a trapping store leaves nothing behind.
    pub open spec fn may_store(
        self,
        b: BusState,
        va: u64,
        val: u64,
        size: u8,
        post: CpuState,
        b2: BusState,
        result: Result<(), Exception>,
    ) -> bool {
        let mode = self.data_mode();
        let c0 = CpuState { reservation: None, ..self };
        let fault = Err::<(), Exception>(Exception::StoreAccessFault(va));
        if crosses_page(va, size) {
            if size > 8 {
                result == fault && post == c0 && b2 == b
            } else {
                let (r, c, b1) = c0.bytes_translated(b, va, size as nat, AccessType::Store, mode);
                post == c && match r {
                    Err(e) => result == Err::<(), Exception>(e) && b2 == b1,
                    Ok(pas) => if !all_writable_bytes(b1, pas) {
                        result == fault && b2 == b1
                    } else {
                        may_write_bytes(b1, pas, val, 0, b2, result is Ok) && (result is Err
                            ==> result == fault)
                    },
                }
            }
        } else {
            let (r, c, b1) = c0.translated(b, va, AccessType::Store, mode);
            post == c && match r {
                Err(e) => result == Err::<(), Exception>(e) && b2 == b1,
                Ok(pa) => b1.may_write(pa, val, size, b2) && if b1.accepts(pa, val, size) {
                    result is Ok
                } else {
                    result == fault
                },
            }
        }
    }

    /// The translation for an AMO/LR/SC, which reports an access fault when
    /// misaligned.
    pub open spec fn amo_translated(self, b: BusState, va: u64, size: u8, is_store: bool) -> (
        Result<u64, Exception>,
        CpuState,
        BusState,
    ) {
        if va & ((size - 1) as u64) != 0 {
            if is_store {
                (Err(Exception::StoreAccessFault(va)), self, b)
            } else {
                (Err(Exception::LoadAccessFault(va)), self, b)
            }
        } else {
            self.translated(
                b,
                va,
                if is_store {
                    AccessType::Store
                } else {
                    AccessType::Load
                },
                self.data_mode(),
            )
        }
    }
}

impl Cpu {
    pub fn translate(&mut self, bus: &mut Bus, va: u64, acc: AccessType, mode: Mode) -> (r: Result<
        u64,
        Exception,
    >)
        requires
            old(self)@.wf(),
            old(bus).wf(),
        ensures
            final(self)@.wf(),
            final(bus).wf(),
            final(bus)@.ram.bytes.len() == old(bus)@.ram.bytes.len(),
            (r, final(self)@, final(bus)@) == old(self)@.translated(old(bus)@, va, acc, mode),
    {
        let satp: u64 = self.csr.load_raw(csr::SATP);
        // Identity early-out so the common untranslated access skips the
        // mxr/sum/adue CSR reads. `mmu.translate` re-checks the same
        // condition; this only hoists it.
        if satp / 0x1000_0000_0000_0000 != 8 || mode == Mode::Machine {
            return Ok(va);
        }
        let mxr = self.csr.mstatus_field(mstatus::MXR);
        let sum = self.csr.mstatus_field(mstatus::SUM);
        let adue = self.csr.adue_enabled();
        self.mmu.translate(bus, satp, mode, mxr, sum, adue, acc, va)
    }

    /// Virtual-address load. Misaligned accesses that stay in one page are done
    /// physically; page-crossing misaligned accesses fall back to bytes.
    pub fn load(&mut self, bus: &mut Bus, va: u64, size: u8) -> (r: Result<u64, Exception>)
        requires
            old(self)@.wf(),
            old(bus).wf(),
        ensures
            final(self)@.wf(),
            final(bus).wf(),
            final(bus)@.ram.bytes.len() == old(bus)@.ram.bytes.len(),
            (r, final(self)@, final(bus)@) == old(self)@.loaded(old(bus)@, va, size),
    {
        let mode = self.data_mode();
        if size > 1 && (va & (size as u64 - 1)) != 0 && va % 0x1000 + size as u64 > 0x1000 {
            return self.load_cross_page(bus, va, size, mode);
        }
        let pa: u64 = self.translate(bus, va, AccessType::Load, mode)?;
        match bus.read(pa, size) {
            Ok(v) => Ok(v),
            Err(_) => Err(Exception::LoadAccessFault(va)),
        }
    }

    pub fn store(&mut self, bus: &mut Bus, va: u64, val: u64, size: u8) -> (r: Result<
        (),
        Exception,
    >)
        requires
            old(self)@.wf(),
            old(bus).wf(),
        ensures
            final(self)@.wf(),
            final(bus).wf(),
            final(bus)@.ram.bytes.len() == old(bus)@.ram.bytes.len(),
            old(self)@.may_store(old(bus)@, va, val, size, final(self)@, final(bus)@, r),
    {
        let mode = self.data_mode();
        // Any store invalidates the LR reservation (conservative but correct).
        self.reservation = None;
        if size > 1 && (va & (size as u64 - 1)) != 0 && va % 0x1000 + size as u64 > 0x1000 {
            return self.store_cross_page(bus, va, val, size, mode);
        }
        let pa: u64 = self.translate(bus, va, AccessType::Store, mode)?;
        match bus.write(pa, val, size) {
            Ok(_) => Ok(()),
            Err(_) => Err(Exception::StoreAccessFault(va)),
        }
    }

    /// Resolve every byte's physical address, taking any fault, before
    /// touching the bus.
    fn translate_bytes(
        &mut self,
        bus: &mut Bus,
        va: u64,
        count: usize,
        acc: AccessType,
        mode: Mode,
    ) -> (r: Result<Vec<u64>, Exception>)
        requires
            old(self)@.wf(),
            old(bus).wf(),
        ensures
            final(self)@.wf(),
            final(bus).wf(),
            final(bus)@.ram.bytes.len() == old(bus)@.ram.bytes.len(),
            match old(self)@.bytes_translated(old(bus)@, va, count as nat, acc, mode) {
                (Ok(pas), c, b) => r is Ok && r->Ok_0@ == pas && pas.len() == count && final(self)@
                    == c && final(bus)@ == b,
                (Err(e), c, b) => r is Err && r->Err_0 == e && final(self)@ == c && final(bus)@
                    == b,
            },
    {
        let mut pas: Vec<u64> = Vec::new();
        let mut i: usize = 0;
        while i < count
            invariant
                i <= count,
                self@.wf(),
                bus.wf(),
                bus@.ram.bytes.len() == old(bus)@.ram.bytes.len(),
                pas@.len() == i,
                old(self)@.bytes_translated(old(bus)@, va, i as nat, acc, mode) == (
                    Ok::<Seq<u64>, Exception>(pas@),
                    self@,
                    bus@,
                ),
            decreases count - i,
        {
            let byte_va: u64 = match va.checked_add(i as u64) {
                Some(a) => a,
                None => {
                    proof {
                        lemma_translation_stops(
                            old(self)@,
                            old(bus)@,
                            va,
                            (i + 1) as nat,
                            count as nat,
                            acc,
                            mode,
                        );
                    }
                    return Err(
                        match acc {
                            AccessType::Fetch => Exception::InstructionPageFault(va),
                            AccessType::Load => Exception::LoadPageFault(va),
                            AccessType::Store => Exception::StorePageFault(va),
                        },
                    );
                },
            };
            match self.translate(bus, byte_va, acc, mode) {
                Ok(pa) => {
                    pas.push(pa);
                },
                Err(e) => {
                    proof {
                        lemma_translation_stops(
                            old(self)@,
                            old(bus)@,
                            va,
                            (i + 1) as nat,
                            count as nat,
                            acc,
                            mode,
                        );
                    }
                    return Err(e);
                },
            }
            i = i + 1;
        }
        Ok(pas)
    }

    fn load_cross_page(&mut self, bus: &mut Bus, va: u64, size: u8, mode: Mode) -> (r: Result<
        u64,
        Exception,
    >)
        requires
            old(self)@.wf(),
            old(bus).wf(),
            crosses_page(va, size),
            mode == old(self)@.data_mode(),
        ensures
            final(self)@.wf(),
            final(bus).wf(),
            final(bus)@.ram.bytes.len() == old(bus)@.ram.bytes.len(),
            (r, final(self)@, final(bus)@) == old(self)@.loaded(old(bus)@, va, size),
    {
        // Resolve every byte's physical address, taking any fault, before
        // touching the bus: a fault on a later page must not pop device
        // state (a UART RBR read, say) from an earlier one.
        let count: usize = size as usize;
        if count > 8 {
            return Err(Exception::LoadAccessFault(va));
        }
        let pas = match self.translate_bytes(bus, va, count, AccessType::Load, mode) {
            Ok(p) => p,
            Err(e) => return Err(e),
        };
        match read_bytes(bus, &pas) {
            Some(v) => Ok(v),
            None => Err(Exception::LoadAccessFault(va)),
        }
    }

    fn store_cross_page(
        &mut self,
        bus: &mut Bus,
        va: u64,
        val: u64,
        size: u8,
        mode: Mode,
    ) -> (r: Result<(), Exception>)
        requires
            old(self)@.wf(),
            old(bus).wf(),
            crosses_page(va, size),
            mode == old(self)@.data_mode(),
            old(self)@.reservation is None,
        ensures
            final(self)@.wf(),
            final(bus).wf(),
            final(bus)@.ram.bytes.len() == old(bus)@.ram.bytes.len(),
            old(self)@.may_store(old(bus)@, va, val, size, final(self)@, final(bus)@, r),
    {
        assert(old(self)@ =~= CpuState { reservation: None, ..old(self)@ });
        // A store must not partially execute when it traps: translate
        // every spanned page first, then commit. Otherwise a fault on the
        // second page leaves bytes written to the first, and re-execution
        // duplicates their MMIO side effects.
        let count: usize = size as usize;
        if count > 8 {
            return Err(Exception::StoreAccessFault(va));
        }
        let pas = match self.translate_bytes(bus, va, count, AccessType::Store, mode) {
            Ok(p) => p,
            Err(e) => return Err(e),
        };
        if !bytes_accessible(bus, &pas) {
            return Err(Exception::StoreAccessFault(va));
        }
        if write_bytes(bus, &pas, val) {
            Ok(())
        } else {
            Err(Exception::StoreAccessFault(va))
        }
    }

    /// Translate for an AMO/LR/SC. This hart reports access faults for
    /// misaligned atomics, as declared by its architectural profile.
    pub fn translate_amo(&mut self, bus: &mut Bus, va: u64, size: u8, is_store: bool) -> (r: Result<
        u64,
        Exception,
    >)
        requires
            old(self)@.wf(),
            old(bus).wf(),
            size > 0,
        ensures
            final(self)@.wf(),
            final(bus).wf(),
            final(bus)@.ram.bytes.len() == old(bus)@.ram.bytes.len(),
            (r, final(self)@, final(bus)@) == old(self)@.amo_translated(
                old(bus)@,
                va,
                size,
                is_store,
            ),
    {
        if va & (size as u64 - 1) != 0 {
            return Err(
                if is_store {
                    Exception::StoreAccessFault(va)
                } else {
                    Exception::LoadAccessFault(va)
                },
            );
        }
        let mode = self.data_mode();
        let acc = if is_store {
            AccessType::Store
        } else {
            AccessType::Load
        };
        self.translate(bus, va, acc, mode)
    }
}

/// Read one byte at each address and put them together.
fn read_bytes(bus: &mut Bus, pas: &Vec<u64>) -> (r: Option<u64>)
    requires
        old(bus).wf(),
        pas@.len() <= 8,
    ensures
        final(bus).wf(),
        final(bus)@.ram.bytes.len() == old(bus)@.ram.bytes.len(),
        final(bus)@ == bytes_read(old(bus)@, pas@).1,
        r == (match bytes_read(old(bus)@, pas@).0 {
            Some(values) => Some(joined(values)),
            None => None,
        }),
{
    let mut v: u64 = 0;
    let mut i: usize = 0;
    let ghost mut values: Seq<u64> = Seq::empty();
    assert(pas@.take(0) =~= Seq::empty());
    while i < pas.len()
        invariant
            i <= pas@.len() <= 8,
            bus.wf(),
            bus@.ram.bytes.len() == old(bus)@.ram.bytes.len(),
            values.len() == i,
            bytes_read(old(bus)@, pas@.take(i as int)) == (Some(values), bus@),
            v == joined(values),
        decreases pas@.len() - i,
    {
        let pa: u64 = pas[i];
        proof {
            let longer = pas@.take(i + 1);
            assert(longer.drop_last() =~= pas@.take(i as int));
            assert(longer.last() == pa);
            crate::bus::law_reads_keep_ram(bus@, pa);
        }
        match bus.read(pa, 1) {
            Ok(b) => {
                let ghost shorter = values;
                proof {
                    values = values.push(b);
                    assert(values.drop_last() =~= shorter);
                    assert(values.last() == b);
                }
                v = v | (b << ((i * 8) as u64));
                assert(v == joined(values));
            },
            Err(_) => {
                proof {
                    lemma_reading_stops(old(bus)@, pas@, (i + 1) as int);
                }
                return None;
            },
        }
        i = i + 1;
    }
    assert(pas@.take(i as int) =~= pas@);
    Some(v)
}

fn bytes_accessible(bus: &Bus, pas: &Vec<u64>) -> (r: bool)
    requires
        bus.wf(),
    ensures
        r == all_writable_bytes(bus@, pas@),
{
    let mut k: usize = 0;
    while k < pas.len()
        invariant
            k <= pas@.len(),
            bus.wf(),
            forall|j: int| 0 <= j < k ==> bus@.writable(#[trigger] pas@[j], 1),
        decreases pas@.len() - k,
    {
        if !bus.write_accessible(pas[k], 1) {
            assert(!bus@.writable(pas@[k as int], 1));
            return false;
        }
        k = k + 1;
    }
    true
}

/// Write one byte of `val` at each address; false once one is refused.
fn write_bytes(bus: &mut Bus, pas: &Vec<u64>, val: u64) -> (r: bool)
    requires
        old(bus).wf(),
        pas@.len() <= 8,
    ensures
        final(bus).wf(),
        final(bus)@.ram.bytes.len() == old(bus)@.ram.bytes.len(),
        may_write_bytes(old(bus)@, pas@, val, 0, final(bus)@, r),
{
    let ghost before = bus@;
    let mut i: usize = 0;
    while i < pas.len()
        invariant
            i <= pas@.len() <= 8,
            bus.wf(),
            bus@.ram.bytes.len() == before.ram.bytes.len(),
            before == old(bus)@,
            forall|post: BusState, ok: bool| #[trigger]
                may_write_bytes(bus@, pas@, val, i as nat, post, ok) ==> may_write_bytes(
                    before,
                    pas@,
                    val,
                    0,
                    post,
                    ok,
                ),
        decreases pas@.len() - i,
    {
        let ghost cur = bus@;
        let byte: u64 = (val >> ((i * 8) as u64)) & 0xFF;
        let done = bus.write(pas[i], byte, 1);
        assert(cur.may_write(pas@[i as int], store_byte(val, i as nat), 1, bus@));
        if done.is_err() {
            assert(may_write_bytes(cur, pas@, val, i as nat, bus@, false));
            return false;
        }
        i = i + 1;
        assert forall|post: BusState, ok: bool| #[trigger]
            may_write_bytes(bus@, pas@, val, i as nat, post, ok) implies may_write_bytes(
            before,
            pas@,
            val,
            0,
            post,
            ok,
        ) by {
            assert(may_write_bytes(cur, pas@, val, (i - 1) as nat, post, ok));
        }
    }
    assert(may_write_bytes(bus@, pas@, val, i as nat, bus@, true));
    true
}

/// Once a byte of a run cannot be translated, the run cannot.
proof fn lemma_translation_stops(
    c: CpuState,
    b: BusState,
    va: u64,
    n: nat,
    m: nat,
    acc: AccessType,
    mode: Mode,
)
    requires
        n <= m,
        c.bytes_translated(b, va, n, acc, mode).0 is Err,
    ensures
        c.bytes_translated(b, va, m, acc, mode) == c.bytes_translated(b, va, n, acc, mode),
    decreases m,
{
    if n < m {
        lemma_translation_stops(c, b, va, n, (m - 1) as nat, acc, mode);
    }
}

/// Once a byte of a run cannot be read, the run cannot.
proof fn lemma_reading_stops(b: BusState, pas: Seq<u64>, n: int)
    requires
        0 <= n <= pas.len(),
        bytes_read(b, pas.take(n)).0 is None,
    ensures
        bytes_read(b, pas) == bytes_read(b, pas.take(n)),
    decreases pas.len() - n,
{
    if n < pas.len() {
        assert(pas.take(n + 1).drop_last() =~= pas.take(n));
        lemma_reading_stops(b, pas, n + 1);
    } else {
        assert(pas.take(n) =~= pas);
    }
}

// ---------------------------------------------------------------------------
// Counting what goes to RAM
// ---------------------------------------------------------------------------

/// A translation writes to RAM once at most, to mark a page used.
pub proof fn law_translation_writes_are_counted(
    c: CpuState,
    b: BusState,
    va: u64,
    acc: AccessType,
    mode: Mode,
)
    requires
        paged(b.ram),
    ensures
        c.translated(b, va, acc, mode).2.ram.follows(b.ram, 1),
        c.translated(b, va, acc, mode).1.cache == c.cache,
{
    let b2 = c.translated(b, va, acc, mode).2;
    lemma_follows(b.ram, b.ram, 0, 1);
    if b2 != b {
        let root = (c.csr.loaded(csr::SATP) % 0x1000_0000_0000 * 0x1000) as u64;
        lemma_walk_in_ram(b, root, va, 2);
        match walk_from(b, root, va, 2) {
            Walk::Leaf { at, pte, level } => {
                let done = mark(pte, acc) as nat;
                lemma_le_bytes_len(done, 8);
                law_a_write_is_counted(b.ram, at - DRAM_BASE, le_bytes(done, 8));
            },
            _ => {},
        }
    }
}

proof fn lemma_bytes_translated_follow(
    c: CpuState,
    b: BusState,
    va: u64,
    n: nat,
    acc: AccessType,
    mode: Mode,
)
    requires
        paged(b.ram),
        n <= 8,
    ensures
        c.bytes_translated(b, va, n, acc, mode).2.ram.follows(b.ram, n),
        match c.bytes_translated(b, va, n, acc, mode).0 {
            Ok(pas) => pas.len() == n,
            Err(_) => true,
        },
    decreases n,
{
    lemma_follows(b.ram, b.ram, 0, n);
    if n > 0 {
        let m = (n - 1) as nat;
        lemma_bytes_translated_follow(c, b, va, m, acc, mode);
        let (before, c1, b1) = c.bytes_translated(b, va, m, acc, mode);
        lemma_follows(b.ram, b1.ram, m, n);
        if before is Ok && va + m <= u64::MAX {
            law_translation_writes_are_counted(c1, b1, (va + m) as u64, acc, mode);
            let b2 = c1.translated(b1, (va + m) as u64, acc, mode).2;
            law_counts_add_up(b.ram, b1.ram, b2.ram, m, 1);
        }
    }
}

proof fn lemma_bytes_read_keep_ram(b: BusState, pas: Seq<u64>)
    ensures
        bytes_read(b, pas).1.ram == b.ram,
    decreases pas.len(),
{
    if pas.len() > 0 {
        lemma_bytes_read_keep_ram(b, pas.drop_last());
        law_reads_keep_ram(bytes_read(b, pas.drop_last()).1, pas.last());
    }
}

proof fn lemma_bytes_written_follow(
    b: BusState,
    pas: Seq<u64>,
    val: u64,
    i: nat,
    post: BusState,
    ok: bool,
)
    requires
        paged(b.ram),
        i <= pas.len() <= 8,
        may_write_bytes(b, pas, val, i, post, ok),
    ensures
        post.ram.follows(b.ram, ((pas.len() - i) as nat) * writes_per_drain()),
    decreases pas.len() - i,
{
    let n = (pas.len() - i) as nat;
    lemma_follows(b.ram, b.ram, 0, n * writes_per_drain());
    if i < pas.len() {
        let pa = pas[i as int];
        let byte = store_byte(val, i);
        let mid = choose|mid: BusState| #[trigger]
            b.may_write(pa, byte, 1, mid) && if b.accepts(pa, byte, 1) {
                may_write_bytes(mid, pas, val, i + 1, post, ok)
            } else {
                post == mid && !ok
            };
        law_writes_are_counted(b, pa, byte, 1, mid);
        lemma_follows(b.ram, mid.ram, writes_per_drain(), n * writes_per_drain());
        if b.accepts(pa, byte, 1) {
            lemma_bytes_written_follow(mid, pas, val, i + 1, post, ok);
            law_counts_add_up(
                b.ram,
                mid.ram,
                post.ram,
                writes_per_drain(),
                ((n - 1) as nat) * writes_per_drain(),
            );
        }
    }
}

/// The most writes to a page that one instruction takes: each of the eight
/// bytes of a store may be translated apart, and each may notify a device.
pub open spec fn writes_per_store() -> nat {
    8 + 8 * writes_per_drain()
}

/// A load writes to RAM only to mark pages used.
pub proof fn law_load_writes_are_counted(c: CpuState, b: BusState, va: u64, size: u8)
    requires
        paged(b.ram),
    ensures
        c.loaded(b, va, size).2.ram.follows(b.ram, 8),
{
    let mode = c.data_mode();
    let after = c.loaded(b, va, size).2;
    lemma_follows(b.ram, b.ram, 0, 8);
    if crosses_page(va, size) {
        if size <= 8 {
            lemma_bytes_translated_follow(c, b, va, size as nat, AccessType::Load, mode);
            let (r, c1, b1) = c.bytes_translated(b, va, size as nat, AccessType::Load, mode);
            lemma_follows(b.ram, b1.ram, size as nat, 8);
            if r is Ok {
                lemma_bytes_read_keep_ram(b1, r->Ok_0);
            }
        }
    } else {
        law_translation_writes_are_counted(c, b, va, AccessType::Load, mode);
        let (r, c1, b1) = c.translated(b, va, AccessType::Load, mode);
        lemma_follows(b.ram, b1.ram, 1, 8);
        if r is Ok {
            law_reads_keep_ram(b1, r->Ok_0);
        }
    }
}

/// Whatever a store does to RAM, a device's part included, is counted there.
pub proof fn law_store_writes_are_counted(
    c: CpuState,
    b: BusState,
    va: u64,
    val: u64,
    size: u8,
    post: CpuState,
    b2: BusState,
    result: Result<(), Exception>,
)
    requires
        paged(b.ram),
        c.may_store(b, va, val, size, post, b2, result),
    ensures
        b2.ram.follows(b.ram, writes_per_store()),
{
    let n = writes_per_store();
    let mode = c.data_mode();
    let c0 = CpuState { reservation: None, ..c };
    lemma_follows(b.ram, b.ram, 0, n);
    if crosses_page(va, size) {
        if size <= 8 {
            lemma_bytes_translated_follow(c0, b, va, size as nat, AccessType::Store, mode);
            let (r, c1, b1) = c0.bytes_translated(b, va, size as nat, AccessType::Store, mode);
            lemma_follows(b.ram, b1.ram, size as nat, n);
            if r is Ok && all_writable_bytes(b1, r->Ok_0) {
                let pas = r->Ok_0;
                lemma_bytes_written_follow(b1, pas, val, 0, b2, result is Ok);
                let m = size as nat * writes_per_drain();
                law_counts_add_up(b.ram, b1.ram, b2.ram, size as nat, m);
                lemma_follows(b.ram, b2.ram, size as nat + m, n);
            }
        }
    } else {
        law_translation_writes_are_counted(c0, b, va, AccessType::Store, mode);
        let (r, c1, b1) = c0.translated(b, va, AccessType::Store, mode);
        lemma_follows(b.ram, b1.ram, 1, n);
        if r is Ok {
            law_writes_are_counted(b1, r->Ok_0, val, size, b2);
            law_counts_add_up(b.ram, b1.ram, b2.ram, 1, writes_per_drain());
            lemma_follows(b.ram, b2.ram, 1 + writes_per_drain(), n);
        }
    }
}

/// The status and environment bits a translation goes by are those of the
/// hart: MXR (bit 19) and SUM (bit 18) of mstatus, and ADUE (bit 61) of
/// menvcfg. A supervisor load of a readable user page the tables map, and the
/// TLB does not hold, goes by SUM alone.
pub proof fn law_hart_load_of_user_page(
    c: CpuState,
    b: BusState,
    va: u64,
    at: u64,
    pte: u64,
    level: nat,
)
    requires
        c.csr.loaded(csr::SATP) / 0x1000_0000_0000_0000 == 8,
        c.mode == Mode::Supervisor,
        c.csr.word(csr::MSTATUS) & 0x2_0000 == 0,
        crate::mmu::in_sv39(va),
        c.mmu.tlb[va as int / 0x1000 % 256].vpn != va / 0x1000,
        crate::mmu::maps(b, c.csr.loaded(csr::SATP), va, at, pte, level),
        level <= 2,
        pte / 2 % 2 == 1,
        pte / 16 % 2 == 1,
        pte / 64 % 2 == 1,
    ensures
        ({
            let pa = (pte / 1024 * 0x1000 + va as int % crate::mmu::page_bytes(level)) as u64;
            if c.csr.word(csr::MSTATUS) & 0x4_0000 != 0 {
                c.loaded(b, va, 1).0 == match b.seen(pa, 1) {
                    Ok(v) => Ok::<u64, Exception>(v),
                    Err(_) => Err(Exception::LoadAccessFault(va)),
                }
            } else {
                c.loaded(b, va, 1) == (
                    Err::<u64, Exception>(Exception::LoadPageFault(va)),
                    c,
                    b,
                )
            }
        }),
{
    crate::mmu::law_sum_opens_user_pages(
        c.mmu,
        b,
        c.csr.loaded(csr::SATP),
        c.access(AccessType::Load, Mode::Supervisor),
        va,
        at,
        pte,
        level,
    );
    crate::mmu::lemma_maps(b, c.csr.loaded(csr::SATP), va, at, pte, level);
    crate::mmu::lemma_mark_bits(pte);
}

/// With MPRV set, a load goes by the mode that MPP names, as it would for a
/// hart in that mode with MPRV clear and all else the same.
pub proof fn law_mprv_loads_as_the_previous_mode(
    c: CpuState,
    other: CpuState,
    b: BusState,
    va: u64,
    size: u8,
)
    requires
        c.csr.word(csr::MSTATUS) & 0x2_0000 != 0,
        other.csr.word(csr::MSTATUS) & 0x2_0000 == 0,
        other.mode == if c.csr.loaded(csr::MSTATUS) / 0x800 % 4 == 3 {
            Mode::Machine
        } else if c.csr.loaded(csr::MSTATUS) / 0x800 % 4 == 1 {
            Mode::Supervisor
        } else {
            Mode::User
        },
        other.mmu == c.mmu,
        other.csr.loaded(csr::SATP) == c.csr.loaded(csr::SATP),
        other.csr.word(csr::MENVCFG) == c.csr.word(csr::MENVCFG),
        other.csr.word(csr::MSTATUS) & 0x4_0000 == c.csr.word(csr::MSTATUS) & 0x4_0000,
        other.csr.word(csr::MSTATUS) & 0x8_0000 == c.csr.word(csr::MSTATUS) & 0x8_0000,
        va % 0x1000 + size <= 0x1000,
    ensures
        c.loaded(b, va, size).0 == other.loaded(b, va, size).0,
        c.loaded(b, va, size).2 == other.loaded(b, va, size).2,
        c.amo_translated(b, va, size, false).0 == other.amo_translated(b, va, size, false).0,
        c.amo_translated(b, va, size, true).0 == other.amo_translated(b, va, size, true).0,
{
}

/// A load that runs over the end of its page reads, where addresses are not
/// translated, what its bytes read one by one, the lowest address lowest.
pub proof fn law_page_crossing_load_joins_bytes(c: CpuState, b: BusState, va: u64)
    requires
        c.data_mode() == Mode::Machine || c.csr.loaded(csr::SATP) / 0x1000_0000_0000_0000 != 8,
        va % 0x1000 == 0xfff,
        va + 1 <= u64::MAX,
        b.main_memory(va, 2),
    ensures
        c.loaded(b, va, 2).0 is Ok,
        c.loaded(b, va, 2).0->Ok_0 == b.seen(va, 1)->Ok_0 | (b.seen((va + 1) as u64, 1)->Ok_0
            << 8u64),
        c.loaded(b, va, 2).2 == b,
{
    let v = b.seen(va, 1)->Ok_0;
    assert(va & 1 == va % 2 && 0u64 | (v << 0u64) == v) by (bit_vector);
    let next = (va + 1) as u64;
    reveal_with_fuel(CpuState::bytes_translated, 3);
    reveal_with_fuel(bytes_read, 3);
    reveal_with_fuel(joined, 3);
    law_reads_keep_ram(b, va);
    law_reads_keep_ram(b, next);
    let pas = seq![va, next];
    assert(c.bytes_translated(b, va, 2, AccessType::Load, c.data_mode()).0 == Ok::<
        Seq<u64>,
        Exception,
    >(pas)) by {
        assert(Seq::<u64>::empty().push(va).push(next) =~= pas);
    }
    assert(pas.drop_last() =~= seq![va]);
    assert(pas.drop_last().drop_last() =~= Seq::<u64>::empty());
    let v0 = b.seen(va, 1)->Ok_0;
    let v1 = b.seen(next, 1)->Ok_0;
    let vs = Seq::<u64>::empty().push(v0).push(v1);
    assert(vs.drop_last() =~= seq![v0]);
    assert(vs.drop_last().drop_last() =~= Seq::<u64>::empty());
}

proof fn lemma_translations_keep_the_hart(
    c: CpuState,
    b: BusState,
    va: u64,
    n: nat,
    acc: AccessType,
    mode: Mode,
)
    ensures
        ({
            let t = c.bytes_translated(b, va, n, acc, mode).1;
            t == (CpuState { mmu: t.mmu, ..c })
        }),
    decreases n,
{
    if n > 0 {
        lemma_translations_keep_the_hart(c, b, va, (n - 1) as nat, acc, mode);
    }
}

/// A load changes of the hart the TLB alone.
pub proof fn law_loads_change_only_the_tlb(c: CpuState, b: BusState, va: u64, size: u8)
    ensures
        c.loaded(b, va, size).1 == (CpuState { mmu: c.loaded(b, va, size).1.mmu, ..c }),
{
    lemma_translations_keep_the_hart(c, b, va, size as nat, AccessType::Load, c.data_mode());
}

} // verus!
