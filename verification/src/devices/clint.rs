//! CLINT (core-local interruptor), single hart.
//!
//! Layout (offsets from CLINT_BASE, QEMU virt / SiFive convention):
//! - 0x0000: msip (hart 0), 32-bit, bit 0 significant
//! - 0x4000: mtimecmp (hart 0), 64-bit (also accessible as two 32-bit halves)
//! - 0xBFF8: mtime, 64-bit (also as two 32-bit halves)
//!
//! `mtime` is advanced by the machine (host-driven); reads/writes of any of
//! the three registers by the guest work at 4- and 8-byte granularity.
use vstd::prelude::*;

use crate::snapshot::{
    and_bool, and_end, and_section, and_u64, enc_bool, enc_section, enc_u64, lemma_read_bool,
    lemma_read_section, lemma_read_u64, start, Parsed, Reader, RestoreError, Writer,
};

verus! {

#[derive(Debug, Clone, Copy, PartialEq, Eq, Structural)]
pub struct Clint {
    pub mtime: u64,
    pub mtimecmp: u64,
    pub msip: bool,
}

pub const MSIP: u64 = 0x0;

pub const MTIMECMP: u64 = 0x4000;

pub const MTIMECMP_HIGH: u64 = 0x4004;

pub const MTIME: u64 = 0xBFF8;

pub const MTIME_HIGH: u64 = 0xBFFC;

/// What a 64-bit register reads as at its base offset (`half` 0, whole at
/// size 8, else the low word) or at base + 4 (the high word).
pub open spec fn half_read(reg: u64, half: u64, size: u8) -> u64 {
    if half != 0 {
        reg / 0x1_0000_0000
    } else if size == 8 {
        reg
    } else {
        reg % 0x1_0000_0000
    }
}

/// A 64-bit register after a write at its base offset or at base + 4.
pub open spec fn half_written(reg: u64, half: u64, val: u64, size: u8) -> u64 {
    if half != 0 {
        ((val % 0x1_0000_0000) * 0x1_0000_0000 + reg % 0x1_0000_0000) as u64
    } else if size == 8 {
        val
    } else {
        ((reg / 0x1_0000_0000) * 0x1_0000_0000 + val % 0x1_0000_0000) as u64
    }
}

proof fn lemma_halves(reg: u64, val: u64)
    by (bit_vector)
    ensures
        reg & 0xFFFF_FFFF == reg % 0x1_0000_0000,
        reg >> 32 == reg / 0x1_0000_0000,
        (reg & !0xFFFF_FFFF) | (val & 0xFFFF_FFFF) == (reg / 0x1_0000_0000) * 0x1_0000_0000 + val
            % 0x1_0000_0000,
        (reg & 0xFFFF_FFFF) | ((val & 0xFFFF_FFFF) << 32) == (val % 0x1_0000_0000) * 0x1_0000_0000
            + reg % 0x1_0000_0000,
        val & 1 == val % 2,
{
}

/// Read a 64-bit register at 4- or 8-byte granularity. `half` is 0 for the
/// base offset (low half), 1 for base+4 (high half).
fn read64(reg: u64, half: u64, size: u8) -> (r: u64)
    ensures
        r == half_read(reg, half, size),
{
    proof {
        lemma_halves(reg, 0);
    }
    match (half, size) {
        (0, 8) => reg,
        (0, _) => reg & 0xFFFF_FFFF,
        (_, _) => reg >> 32,
    }
}

/// Write a 64-bit register at 4- or 8-byte granularity (see `read64`).
fn write64(reg: &mut u64, half: u64, val: u64, size: u8)
    ensures
        *final(reg) == half_written(*old(reg), half, val, size),
{
    proof {
        lemma_halves(*reg, val);
    }
    match (half, size) {
        (0, 8) => *reg = val,
        (0, _) => *reg = (*reg & !0xFFFF_FFFF) | (val & 0xFFFF_FFFF),
        (_, _) => *reg = (*reg & 0xFFFF_FFFF) | ((val & 0xFFFF_FFFF) << 32),
    }
}

impl Clint {
    pub open spec fn reset() -> Clint {
        Clint { mtime: 0, mtimecmp: u64::MAX, msip: false }
    }

    /// What the guest reads at an offset; other harts' registers read 0.
    pub open spec fn seen(self, offset: u64, size: u8) -> u64 {
        if offset == MSIP {
            if self.msip {
                1
            } else {
                0
            }
        } else if offset == MTIMECMP {
            half_read(self.mtimecmp, 0, size)
        } else if offset == MTIMECMP_HIGH {
            half_read(self.mtimecmp, 1, size)
        } else if offset == MTIME {
            half_read(self.mtime, 0, size)
        } else if offset == MTIME_HIGH {
            half_read(self.mtime, 1, size)
        } else {
            0
        }
    }

    /// The device after a guest write; other harts' registers ignore it.
    pub open spec fn written(self, offset: u64, val: u64, size: u8) -> Clint {
        if offset == MSIP {
            Clint { msip: val % 2 == 1, ..self }
        } else if offset == MTIMECMP {
            Clint { mtimecmp: half_written(self.mtimecmp, 0, val, size), ..self }
        } else if offset == MTIMECMP_HIGH {
            Clint { mtimecmp: half_written(self.mtimecmp, 1, val, size), ..self }
        } else if offset == MTIME {
            Clint { mtime: half_written(self.mtime, 0, val, size), ..self }
        } else if offset == MTIME_HIGH {
            Clint { mtime: half_written(self.mtime, 1, val, size), ..self }
        } else {
            self
        }
    }

    pub fn new() -> (r: Self)
        ensures
            r == Self::reset(),
    {
        Clint { mtime: 0, mtimecmp: u64::MAX, msip: false }
    }

    /// Machine timer interrupt pending?
    pub fn mtip(&self) -> (r: bool)
        ensures
            r == (self.mtime >= self.mtimecmp),
    {
        self.mtime >= self.mtimecmp
    }

    pub fn read(&mut self, offset: u64, size: u8) -> (r: Result<u64, ()>)
        ensures
            r == Ok::<u64, ()>(old(self).seen(offset, size)),
            *final(self) == *old(self),
    {
        match offset {
            MSIP => Ok(
                if self.msip {
                    1
                } else {
                    0
                },
            ),
            MTIMECMP => Ok(read64(self.mtimecmp, 0, size)),
            MTIMECMP_HIGH => Ok(read64(self.mtimecmp, 1, size)),
            MTIME => Ok(read64(self.mtime, 0, size)),
            MTIME_HIGH => Ok(read64(self.mtime, 1, size)),
            // Region is only mapped for hart 0; everything else reads 0.
            _ => Ok(0),
        }
    }

    pub fn write(&mut self, offset: u64, val: u64, size: u8) -> (r: Result<(), ()>)
        ensures
            r is Ok,
            *final(self) == old(self).written(offset, val, size),
    {
        proof {
            lemma_halves(0, val);
        }
        match offset {
            MSIP => self.msip = val & 1 != 0,
            MTIMECMP => write64(&mut self.mtimecmp, 0, val, size),
            MTIMECMP_HIGH => write64(&mut self.mtimecmp, 1, val, size),
            MTIME => write64(&mut self.mtime, 0, val, size),
            MTIME_HIGH => write64(&mut self.mtime, 1, val, size),
            // Region is only mapped for hart 0; other writes are ignored.
            _ => {},
        }
        Ok(())
    }
}

impl Default for Clint {
    fn default() -> (r: Self)
        ensures
            r == Self::reset(),
    {
        Self::new()
    }
}

/// Writing the two halves of `mtimecmp` one after the other, in either order,
/// leaves the 64-bit value they make up.
pub proof fn law_halves_assemble(c: Clint, low: u64, high: u64)
    requires
        low < 0x1_0000_0000,
        high < 0x1_0000_0000,
    ensures
        c.written(MTIMECMP, low, 4).written(MTIMECMP_HIGH, high, 4).mtimecmp == high
            * 0x1_0000_0000 + low,
        c.written(MTIMECMP_HIGH, high, 4).written(MTIMECMP, low, 4).mtimecmp == high
            * 0x1_0000_0000 + low,
{
}

pub const SNAPSHOT_VERSION: u16 = 1;

impl Clint {
    pub open spec fn encoding(self) -> Seq<u8> {
        enc_u64(self.mtime) + enc_u64(self.mtimecmp) + enc_bool(self.msip)
    }

    pub open spec fn decoded(payload: Seq<u8>) -> Result<Clint, RestoreError> {
        match and_end(and_bool(and_u64(and_u64(start(payload))))) {
            Err(e) => Err(e),
            Ok((((_, mtime), mtimecmp), msip)) => Ok(Clint { mtime, mtimecmp, msip }),
        }
    }

    pub fn snapshot(&self, out: &mut Writer)
        ensures
            final(out)@ == old(out)@ + enc_section(SNAPSHOT_VERSION, self.encoding()),
    {
        let mut w = Writer::new();
        w.u64(self.mtime);
        w.u64(self.mtimecmp);
        w.bool(self.msip);
        proof {
            law_snapshot_round_trip(*self, Seq::empty());
        }
        assert(w@ =~= self.encoding());
        out.section(SNAPSHOT_VERSION, &w);
    }

    /// Take the state back from a snapshot section. Data that does not parse
    /// leaves the device as it was.
    pub fn restore(&mut self, input: &mut Reader<'_>) -> (r: Result<(), RestoreError>)
        requires
            old(input).wf(),
        ensures
            final(input).wf(),
            match and_section(start(old(input).rest()), SNAPSHOT_VERSION) {
                Err(e) => r == Err::<(), RestoreError>(e) && *final(self) == *old(self),
                Ok(((_, payload), rest)) => final(input).rest() == rest && match Self::decoded(
                    payload,
                ) {
                    Err(e) => r == Err::<(), RestoreError>(e) && *final(self) == *old(self),
                    Ok(state) => r is Ok && *final(self) == state,
                },
            },
    {
        let mut section = input.section(SNAPSHOT_VERSION)?;
        let mtime: u64 = section.u64()?;
        let mtimecmp: u64 = section.u64()?;
        let msip: bool = section.bool()?;
        section.finish()?;
        self.mtime = mtime;
        self.mtimecmp = mtimecmp;
        self.msip = msip;
        Ok(())
    }
}

/// Reading a snapshot back gives the state it was taken from.
pub proof fn law_snapshot_round_trip(c: Clint, tail: Seq<u8>)
    ensures
        c.encoding().len() == 17,
        and_section(start(enc_section(SNAPSHOT_VERSION, c.encoding()) + tail), SNAPSHOT_VERSION)
            == Parsed::<((), Seq<u8>)>::Ok((((), c.encoding()), tail)),
        Clint::decoded(c.encoding()) == Ok::<Clint, RestoreError>(c),
{
    let t2 = enc_bool(c.msip) + Seq::<u8>::empty();
    let t1 = enc_u64(c.mtimecmp) + t2;
    lemma_read_u64((), c.mtime, t1);
    lemma_read_u64(((), c.mtime), c.mtimecmp, t2);
    lemma_read_bool((((), c.mtime), c.mtimecmp), c.msip, Seq::empty());
    assert(c.encoding() =~= enc_u64(c.mtime) + t1);
    lemma_read_section((), SNAPSHOT_VERSION, c.encoding(), tail);
}

/// A register written whole reads back whole, and by halves; the two timer
/// registers and the software interrupt do not disturb one another.
pub proof fn law_timer_registers(c: Clint, val: u64)
    ensures
        c.written(0x4000, val, 8).seen(0x4000, 8) == val,
        c.written(0x4000, val, 8).seen(0x4000, 4) == val % 0x1_0000_0000,
        c.written(0x4000, val, 8).seen(0x4004, 4) == val / 0x1_0000_0000,
        c.written(0xbff8, val, 8).seen(0xbff8, 8) == val,
        c.written(0xbff8, val, 8).seen(0xbff8, 4) == val % 0x1_0000_0000,
        c.written(0xbff8, val, 8).seen(0xbffc, 4) == val / 0x1_0000_0000,
        c.written(0x4000, val, 8).mtime == c.mtime,
        c.written(0x4000, val, 8).msip == c.msip,
        c.written(0xbff8, val, 8).mtimecmp == c.mtimecmp,
        c.written(0xbff8, val, 8).msip == c.msip,
        c.written(0, val, 4).mtime == c.mtime,
        c.written(0, val, 4).mtimecmp == c.mtimecmp,
{
}

/// The software interrupt is bit 0 of its register, and the register shows
/// nothing else. Other harts' registers read zero and take nothing.
pub proof fn law_software_interrupt(c: Clint, val: u64, size: u8, offset: u64)
    ensures
        c.written(0, val, size).msip == (val % 2 == 1),
        c.written(0, val, size).seen(0, size) == val % 2,
        offset != 0 && offset != 0x4000 && offset != 0x4004 && offset != 0xbff8 && offset != 0xbffc
            ==> c.seen(offset, size) == 0 && c.written(offset, val, size) == c,
{
}

/// A half written to the timer leaves the other half.
pub proof fn law_timer_halves(c: Clint, val: u64)
    requires
        val < 0x1_0000_0000,
    ensures
        c.written(0xbff8, val, 4).mtime == c.mtime / 0x1_0000_0000 * 0x1_0000_0000 + val,
        c.written(0xbffc, val, 4).mtime == val * 0x1_0000_0000 + c.mtime % 0x1_0000_0000,
        c.written(0x4000, val, 4).mtimecmp == c.mtimecmp / 0x1_0000_0000 * 0x1_0000_0000 + val,
        c.written(0x4004, val, 4).mtimecmp == val * 0x1_0000_0000 + c.mtimecmp % 0x1_0000_0000,
{
}

} // verus!
