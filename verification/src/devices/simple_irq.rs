//! ACT4/Sail simple interrupt generator.
//!
//! A 32-bit command write at offset 4 names interrupt-pending bits in the
//! low 31 bits. Bit 31 selects set (one) or clear (zero).
use vstd::prelude::*;

use crate::snapshot::{
    and_end, and_section, and_u32, enc_section, enc_u32, lemma_read_section, lemma_read_u32, start,
    Parsed, Reader, RestoreError, Writer,
};

verus! {

pub const COMMAND: u64 = 4;

pub const SET: u32 = 0x8000_0000;

/// SSIP, SEIP and MEIP.
pub const SUPPORTED: u32 = 0xa02;

#[derive(Debug, Clone, Copy, PartialEq, Eq, Structural)]
pub struct SimpleInterruptGenerator {
    pub pending: u32,
}

impl SimpleInterruptGenerator {
    /// Only interrupts of the platform profile are ever pending.
    pub open spec fn wf(self) -> bool {
        self.pending & !SUPPORTED == 0
    }

    pub open spec fn seen(self, offset: u64) -> Result<u64, ()> {
        if offset == COMMAND {
            Ok(self.pending as u64)
        } else if offset <= 0x1F {
            Ok(0)
        } else {
            Err(())
        }
    }

    /// The device after a 32-bit command.
    pub open spec fn commanded(self, command: u32) -> SimpleInterruptGenerator {
        let mask = command & SUPPORTED;
        SimpleInterruptGenerator {
            pending: if command & SET != 0 {
                self.pending | mask
            } else {
                self.pending & !mask
            },
        }
    }

    pub open spec fn written(self, offset: u64, val: u64, size: u8) -> SimpleInterruptGenerator {
        if offset == COMMAND && size == 4 {
            self.commanded(val as u32)
        } else {
            self
        }
    }

    pub fn new() -> (r: Self)
        ensures
            r.pending == 0,
            r.wf(),
    {
        proof {
            lemma_profile(0, 0);
        }
        SimpleInterruptGenerator { pending: 0 }
    }

    pub fn pending(&self) -> (r: u64)
        ensures
            r == self.pending,
    {
        self.pending as u64
    }

    pub fn read(&self, offset: u64, _size: u8) -> (r: Result<u64, ()>)
        ensures
            r == self.seen(offset),
    {
        match offset {
            COMMAND => Ok(self.pending as u64),
            0..=0x1F => Ok(0),
            _ => Err(()),
        }
    }

    pub fn write(&mut self, offset: u64, val: u64, size: u8) -> (r: Result<(), ()>)
        requires
            old(self).wf(),
        ensures
            final(self).wf(),
            r is Ok <==> offset <= 0x1F,
            *final(self) == old(self).written(offset, val, size),
    {
        if offset != COMMAND || size != 4 {
            return if offset <= 0x1F {
                Ok(())
            } else {
                Err(())
            };
        }
        let command: u32 = val as u32;
        let mask: u32 = command & SUPPORTED;
        proof {
            lemma_profile(self.pending, command);
        }
        if command & SET != 0 {
            self.pending = self.pending | mask;
        } else {
            self.pending = self.pending & !mask;
        }
        Ok(())
    }
}

proof fn lemma_profile(pending: u32, command: u32)
    by (bit_vector)
    ensures
        pending & !SUPPORTED == 0 ==> (pending | (command & SUPPORTED)) & !SUPPORTED == 0,
        pending & !SUPPORTED == 0 ==> (pending & !(command & SUPPORTED)) & !SUPPORTED == 0,
        0u32 & !SUPPORTED == 0,
        ((pending | (command & SUPPORTED)) ^ pending) & !(command & SUPPORTED) == 0,
        ((pending & !(command & SUPPORTED)) ^ pending) & !(command & SUPPORTED) == 0,
        (pending | (command & SUPPORTED)) & (command & SUPPORTED) == command & SUPPORTED,
        (pending & !(command & SUPPORTED)) & (command & SUPPORTED) == 0,
{
}

/// A set command leaves the named, supported levels pending and no others
/// changed; a clear command takes exactly them away.
pub proof fn law_command_touches_only_named_levels(g: SimpleInterruptGenerator, command: u32)
    ensures
        (g.commanded(command).pending ^ g.pending) & !(command & SUPPORTED) == 0,
        g.commanded(command).pending & (command & SUPPORTED) == (if command & SET != 0 {
            command & SUPPORTED
        } else {
            0
        }),
{
    lemma_profile(g.pending, command);
}

impl Default for SimpleInterruptGenerator {
    fn default() -> (r: Self)
        ensures
            r.pending == 0,
            r.wf(),
    {
        Self::new()
    }
}

pub const SNAPSHOT_VERSION: u16 = 1;

impl SimpleInterruptGenerator {
    pub open spec fn encoding(self) -> Seq<u8> {
        enc_u32(self.pending)
    }

    /// Levels outside the platform profile are unreachable through the MMIO
    /// write path, so a container carrying them is refused.
    pub open spec fn decoded(payload: Seq<u8>) -> Result<SimpleInterruptGenerator, RestoreError> {
        match and_u32(start(payload)) {
            Err(e) => Err(e),
            Ok(((_, pending), rest)) => if pending & !SUPPORTED != 0 {
                Err(RestoreError::PendingMask { found: pending })
            } else {
                match and_end(start(rest)) {
                    Err(e) => Err(e),
                    Ok(_) => Ok(SimpleInterruptGenerator { pending }),
                }
            },
        }
    }

    pub fn snapshot(&self, out: &mut Writer)
        ensures
            final(out)@ == old(out)@ + enc_section(SNAPSHOT_VERSION, self.encoding()),
    {
        let mut w = Writer::new();
        w.u32(self.pending);
        proof {
            lemma_read_u32((), self.pending, Seq::empty());
        }
        assert(w@ =~= self.encoding());
        out.section(SNAPSHOT_VERSION, &w);
    }

    /// Take the state back from a snapshot section. Data that does not parse
    /// leaves the device as it was.
    pub fn restore(&mut self, input: &mut Reader<'_>) -> (r: Result<(), RestoreError>)
        requires
            old(input).wf(),
        ensures
            final(input).wf(),
            old(self).wf() || r is Ok ==> final(self).wf(),
            match and_section(start(old(input).rest()), SNAPSHOT_VERSION) {
                Err(e) => r == Err::<(), RestoreError>(e) && *final(self) == *old(self),
                Ok(((_, payload), rest)) => final(input).rest() == rest && match Self::decoded(
                    payload,
                ) {
                    Err(e) => r == Err::<(), RestoreError>(e) && *final(self) == *old(self),
                    Ok(state) => r is Ok && *final(self) == state,
                },
            },
    {
        let mut section = input.section(SNAPSHOT_VERSION)?;
        let pending: u32 = section.u32()?;
        if pending & !SUPPORTED != 0 {
            return Err(RestoreError::PendingMask { found: pending });
        }
        section.finish()?;
        self.pending = pending;
        Ok(())
    }
}

/// Reading a snapshot back gives the state it was taken from.
pub proof fn law_snapshot_round_trip(g: SimpleInterruptGenerator, tail: Seq<u8>)
    requires
        g.wf(),
    ensures
        and_section(start(enc_section(SNAPSHOT_VERSION, g.encoding()) + tail), SNAPSHOT_VERSION)
            == Parsed::<((), Seq<u8>)>::Ok((((), g.encoding()), tail)),
        SimpleInterruptGenerator::decoded(g.encoding()) == Ok::<
            SimpleInterruptGenerator,
            RestoreError,
        >(g),
{
    lemma_read_u32((), g.pending, Seq::empty());
    assert(g.encoding() =~= enc_u32(g.pending) + Seq::<u8>::empty());
    lemma_read_section((), SNAPSHOT_VERSION, g.encoding(), tail);
}

} // verus!
