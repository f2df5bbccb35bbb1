//! Goldfish real-time clock used by the QEMU `virt` machine.
use vstd::prelude::*;

use crate::snapshot::{
    and_bool, and_end, and_section, and_u64, enc_bool, enc_section, enc_u64, lemma_read_bool,
    lemma_read_section, lemma_read_u64, start, Parsed, Reader, RestoreError, Writer,
};

verus! {

pub const TIME_LOW: u64 = 0x00;

pub const TIME_HIGH: u64 = 0x04;

pub const ALARM_LOW: u64 = 0x08;

pub const ALARM_HIGH: u64 = 0x0c;

pub const IRQ_ENABLED: u64 = 0x10;

pub const CLEAR_ALARM: u64 = 0x14;

pub const ALARM_STATUS: u64 = 0x18;

pub const CLEAR_INTERRUPT: u64 = 0x1c;

/// Nanoseconds in one 10 MHz platform timer tick.
pub const NS_PER_MTIME_TICK: u64 = 100;

/// Minimal Goldfish RTC register model sufficient for Linux wall-clock setup.
#[derive(Debug, Clone, Copy, PartialEq, Eq, Structural)]
pub struct GoldfishRtc {
    pub time_ns: u64,
    pub alarm_ns: u64,
    pub irq_enabled: bool,
    pub alarm_armed: bool,
    pub interrupt_pending: bool,
}

/// `reg` with its low 32 bits replaced.
pub open spec fn with_low(reg: u64, val: u64) -> u64 {
    ((reg / 0x1_0000_0000) * 0x1_0000_0000 + val % 0x1_0000_0000) as u64
}

/// `reg` with its high 32 bits replaced.
pub open spec fn with_high(reg: u64, val: u64) -> u64 {
    ((val % 0x1_0000_0000) * 0x1_0000_0000 + reg % 0x1_0000_0000) as u64
}

pub open spec fn flag(b: bool) -> u64 {
    if b {
        1
    } else {
        0
    }
}

proof fn lemma_words(reg: u64, val: u64)
    by (bit_vector)
    ensures
        reg as u32 as u64 == reg % 0x1_0000_0000,
        (reg >> 32) as u32 as u64 == reg / 0x1_0000_0000,
        (reg & 0xffff_ffff_0000_0000) | (val as u32 as u64) == (reg / 0x1_0000_0000)
            * 0x1_0000_0000 + val % 0x1_0000_0000,
        (reg & 0xffff_ffff) | ((val as u32 as u64) << 32) == (val % 0x1_0000_0000) * 0x1_0000_0000
            + reg % 0x1_0000_0000,
{
}

impl GoldfishRtc {
    pub open spec fn reset() -> GoldfishRtc {
        GoldfishRtc {
            time_ns: 0,
            alarm_ns: 0,
            irq_enabled: false,
            alarm_armed: false,
            interrupt_pending: false,
        }
    }

    /// The device once a due alarm has raised its interrupt.
    pub open spec fn checked(self) -> GoldfishRtc {
        GoldfishRtc {
            interrupt_pending: self.interrupt_pending || (self.alarm_armed && self.time_ns
                >= self.alarm_ns),
            ..self
        }
    }

    pub open spec fn seen(self, offset: u64) -> Option<u64> {
        if offset == TIME_LOW {
            Some(self.time_ns % 0x1_0000_0000)
        } else if offset == TIME_HIGH {
            Some(self.time_ns / 0x1_0000_0000)
        } else if offset == ALARM_LOW {
            Some(self.alarm_ns % 0x1_0000_0000)
        } else if offset == ALARM_HIGH {
            Some(self.alarm_ns / 0x1_0000_0000)
        } else if offset == IRQ_ENABLED {
            Some(flag(self.irq_enabled))
        } else if offset == ALARM_STATUS {
            Some(flag(self.alarm_armed))
        } else if offset == CLEAR_ALARM || offset == CLEAR_INTERRUPT {
            Some(0)
        } else {
            None
        }
    }

    /// The device after a 32-bit write, if there is such a register. Writing
    /// the low word of the time or the alarm makes the new value count.
    pub open spec fn written(self, offset: u64, value: u64) -> Option<GoldfishRtc> {
        if offset == TIME_LOW {
            Some((GoldfishRtc { time_ns: with_low(self.time_ns, value), ..self }).checked())
        } else if offset == TIME_HIGH {
            Some(GoldfishRtc { time_ns: with_high(self.time_ns, value), ..self })
        } else if offset == ALARM_LOW {
            Some(
                (GoldfishRtc {
                    alarm_ns: with_low(self.alarm_ns, value),
                    alarm_armed: true,
                    interrupt_pending: false,
                    ..self
                }).checked(),
            )
        } else if offset == ALARM_HIGH {
            Some(GoldfishRtc { alarm_ns: with_high(self.alarm_ns, value), ..self })
        } else if offset == IRQ_ENABLED {
            Some(GoldfishRtc { irq_enabled: value % 0x1_0000_0000 != 0, ..self })
        } else if offset == CLEAR_ALARM {
            Some(GoldfishRtc { alarm_armed: false, interrupt_pending: false, ..self })
        } else if offset == CLEAR_INTERRUPT {
            Some(GoldfishRtc { interrupt_pending: false, ..self })
        } else if offset == ALARM_STATUS {
            Some(self)
        } else {
            None
        }
    }

    pub fn new() -> (r: Self)
        ensures
            r == Self::reset(),
    {
        Self {
            time_ns: 0,
            alarm_ns: 0,
            irq_enabled: false,
            alarm_armed: false,
            interrupt_pending: false,
        }
    }

    pub fn set_time_ns(&mut self, time_ns: u64)
        ensures
            *final(self) == (GoldfishRtc { time_ns, ..*old(self) }).checked(),
    {
        self.time_ns = time_ns;
        self.update_alarm();
    }

    pub fn advance_mtime_ticks(&mut self, ticks: u64)
        ensures
            *final(self) == (GoldfishRtc {
                time_ns: old(self).time_ns.wrapping_add(ticks.wrapping_mul(NS_PER_MTIME_TICK)),
                ..*old(self)
            }).checked(),
    {
        self.time_ns = self.time_ns.wrapping_add(ticks.wrapping_mul(NS_PER_MTIME_TICK));
        self.update_alarm();
    }

    pub fn irq_pending(&self) -> (r: bool)
        ensures
            r == (self.irq_enabled && self.interrupt_pending),
    {
        self.irq_enabled && self.interrupt_pending
    }

    pub fn read(&self, offset: u64, size: u8) -> (r: Result<u64, ()>)
        ensures
            match (if size == 4 {
                self.seen(offset)
            } else {
                None
            }) {
                Some(v) => r == Ok::<u64, ()>(v),
                None => r == Err::<u64, ()>(()),
            },
    {
        if size != 4 {
            return Err(());
        }
        proof {
            lemma_words(self.time_ns, 0);
            lemma_words(self.alarm_ns, 0);
        }
        match offset {
            TIME_LOW => Ok(self.time_ns as u32 as u64),
            TIME_HIGH => Ok((self.time_ns >> 32) as u32 as u64),
            ALARM_LOW => Ok(self.alarm_ns as u32 as u64),
            ALARM_HIGH => Ok((self.alarm_ns >> 32) as u32 as u64),
            IRQ_ENABLED => Ok(
                if self.irq_enabled {
                    1
                } else {
                    0
                },
            ),
            ALARM_STATUS => Ok(
                if self.alarm_armed {
                    1
                } else {
                    0
                },
            ),
            CLEAR_ALARM | CLEAR_INTERRUPT => Ok(0),
            _ => Err(()),
        }
    }

    pub fn write(&mut self, offset: u64, value: u64, size: u8) -> (r: Result<(), ()>)
        ensures
            match (if size == 4 {
                old(self).written(offset, value)
            } else {
                None
            }) {
                Some(next) => r is Ok && *final(self) == next,
                None => r is Err && *final(self) == *old(self),
            },
    {
        if size != 4 {
            return Err(());
        }
        proof {
            lemma_words(self.time_ns, value);
            lemma_words(self.alarm_ns, value);
            lemma_words(value, 0);
        }
        let word: u64 = value as u32 as u64;
        match offset {
            TIME_LOW => {
                self.time_ns = (self.time_ns & 0xffff_ffff_0000_0000) | word;
                self.update_alarm();
            },
            TIME_HIGH => self.time_ns = (self.time_ns & 0xffff_ffff) | (word << 32),
            ALARM_LOW => {
                self.alarm_ns = (self.alarm_ns & 0xffff_ffff_0000_0000) | word;
                self.alarm_armed = true;
                self.interrupt_pending = false;
                self.update_alarm();
            },
            ALARM_HIGH => self.alarm_ns = (self.alarm_ns & 0xffff_ffff) | (word << 32),
            IRQ_ENABLED => self.irq_enabled = word != 0,
            CLEAR_ALARM => {
                self.alarm_armed = false;
                self.interrupt_pending = false;
            },
            CLEAR_INTERRUPT => self.interrupt_pending = false,
            ALARM_STATUS => {},
            _ => return Err(()),
        }
        Ok(())
    }

    fn update_alarm(&mut self)
        ensures
            *final(self) == old(self).checked(),
    {
        if self.alarm_armed && self.time_ns >= self.alarm_ns {
            self.interrupt_pending = true;
        }
    }

    /// Guest wall clock, in Unix epoch nanoseconds. Recorded in a snapshot's
    /// header for diagnostics; a restore re-seeds it from the host instead.
    pub fn time_ns(&self) -> (r: u64)
        ensures
            r == self.time_ns,
    {
        self.time_ns
    }
}

impl Default for GoldfishRtc {
    fn default() -> (r: Self)
        ensures
            r == Self::reset(),
    {
        Self::new()
    }
}

pub const SNAPSHOT_VERSION: u16 = 1;

impl GoldfishRtc {
    pub open spec fn encoding(self) -> Seq<u8> {
        enc_u64(self.time_ns) + enc_u64(self.alarm_ns) + enc_bool(self.irq_enabled) + enc_bool(
            self.alarm_armed,
        ) + enc_bool(self.interrupt_pending)
    }

    pub open spec fn decoded(payload: Seq<u8>) -> Result<GoldfishRtc, RestoreError> {
        match and_end(and_bool(and_bool(and_bool(and_u64(and_u64(start(payload))))))) {
            Err(e) => Err(e),
            Ok((((((_, time_ns), alarm_ns), irq_enabled), alarm_armed), interrupt_pending)) => Ok(
                GoldfishRtc { time_ns, alarm_ns, irq_enabled, alarm_armed, interrupt_pending },
            ),
        }
    }

    pub fn snapshot(&self, out: &mut Writer)
        ensures
            final(out)@ == old(out)@ + enc_section(SNAPSHOT_VERSION, self.encoding()),
    {
        let mut w = Writer::new();
        w.u64(self.time_ns);
        w.u64(self.alarm_ns);
        w.bool(self.irq_enabled);
        w.bool(self.alarm_armed);
        w.bool(self.interrupt_pending);
        proof {
            law_snapshot_round_trip(*self, Seq::empty());
        }
        assert(w@ =~= self.encoding());
        out.section(SNAPSHOT_VERSION, &w);
    }

    /// Take the state back from a snapshot section. Data that does not parse
    /// leaves the device as it was.
    pub fn restore(&mut self, input: &mut Reader<'_>) -> (r: Result<(), RestoreError>)
        requires
            old(input).wf(),
        ensures
            final(input).wf(),
            match and_section(start(old(input).rest()), SNAPSHOT_VERSION) {
                Err(e) => r == Err::<(), RestoreError>(e) && *final(self) == *old(self),
                Ok(((_, payload), rest)) => final(input).rest() == rest && match Self::decoded(
                    payload,
                ) {
                    Err(e) => r == Err::<(), RestoreError>(e) && *final(self) == *old(self),
                    Ok(state) => r is Ok && *final(self) == state,
                },
            },
    {
        let mut section = input.section(SNAPSHOT_VERSION)?;
        let time_ns: u64 = section.u64()?;
        let alarm_ns: u64 = section.u64()?;
        let irq_enabled: bool = section.bool()?;
        let alarm_armed: bool = section.bool()?;
        let interrupt_pending: bool = section.bool()?;
        section.finish()?;
        self.time_ns = time_ns;
        self.alarm_ns = alarm_ns;
        self.irq_enabled = irq_enabled;
        self.alarm_armed = alarm_armed;
        self.interrupt_pending = interrupt_pending;
        Ok(())
    }
}

/// Reading a snapshot back gives the state it was taken from.
pub proof fn law_snapshot_round_trip(c: GoldfishRtc, tail: Seq<u8>)
    ensures
        c.encoding().len() == 19,
        and_section(start(enc_section(SNAPSHOT_VERSION, c.encoding()) + tail), SNAPSHOT_VERSION)
            == Parsed::<((), Seq<u8>)>::Ok((((), c.encoding()), tail)),
        GoldfishRtc::decoded(c.encoding()) == Ok::<GoldfishRtc, RestoreError>(c),
{
    let t4 = enc_bool(c.interrupt_pending) + Seq::<u8>::empty();
    let t3 = enc_bool(c.alarm_armed) + t4;
    let t2 = enc_bool(c.irq_enabled) + t3;
    let t1 = enc_u64(c.alarm_ns) + t2;
    let a1 = ((), c.time_ns);
    let a2 = (a1, c.alarm_ns);
    let a3 = (a2, c.irq_enabled);
    let a4 = (a3, c.alarm_armed);
    lemma_read_u64((), c.time_ns, t1);
    lemma_read_u64(a1, c.alarm_ns, t2);
    lemma_read_bool(a2, c.irq_enabled, t3);
    lemma_read_bool(a3, c.alarm_armed, t4);
    lemma_read_bool(a4, c.interrupt_pending, Seq::empty());
    assert(c.encoding() =~= enc_u64(c.time_ns) + t1);
    lemma_read_section((), SNAPSHOT_VERSION, c.encoding(), tail);
}

/// The alarm goes off once the clock has reached it while it is armed, and
/// not before. Setting it, by its low word, arms it and forgets an earlier
/// interrupt; one already in the past goes off at once.
pub proof fn law_alarm(r: GoldfishRtc, value: u64)
    requires
        value < 0x1_0000_0000,
    ensures
        ({
            let set = r.written(0x08, value)->Some_0;
            let alarm = r.alarm_ns / 0x1_0000_0000 * 0x1_0000_0000 + value;
            &&& r.written(0x08, value) is Some
            &&& set.alarm_ns == alarm
            &&& set.alarm_armed
            &&& set.interrupt_pending == (r.time_ns >= alarm)
            &&& set.time_ns == r.time_ns
            &&& set.irq_enabled == r.irq_enabled
        }),
        r.checked().interrupt_pending == (r.interrupt_pending || (r.alarm_armed && r.time_ns
            >= r.alarm_ns)),
        r.checked() == (GoldfishRtc {
            interrupt_pending: r.checked().interrupt_pending,
            ..r
        }),
{
}

/// Clearing the interrupt leaves the alarm armed; clearing the alarm disarms
/// it and clears the interrupt. Neither moves the clock.
pub proof fn law_clearing(r: GoldfishRtc, value: u64)
    ensures
        r.written(0x1c, value) == Some(GoldfishRtc { interrupt_pending: false, ..r }),
        r.written(0x14, value) == Some(
            GoldfishRtc { interrupt_pending: false, alarm_armed: false, ..r },
        ),
        r.written(0x18, value) == Some(r),
        r.written(0x10, value) == Some(
            GoldfishRtc { irq_enabled: value % 0x1_0000_0000 != 0, ..r },
        ),
{
}

/// The two halves of the clock and of the alarm read back as written and leave
/// each other.
pub proof fn law_halves(r: GoldfishRtc, low: u64, high: u64)
    requires
        low < 0x1_0000_0000,
        high < 0x1_0000_0000,
    ensures
        ({
            let t = r.written(0x04, high)->Some_0.written(0x00, low)->Some_0;
            &&& t.time_ns == high * 0x1_0000_0000 + low
            &&& t.seen(0x00) == Some(low)
            &&& t.seen(0x04) == Some(high)
            &&& t.alarm_ns == r.alarm_ns
        }),
        ({
            let t = r.written(0x0c, high)->Some_0.written(0x08, low)->Some_0;
            &&& t.alarm_ns == high * 0x1_0000_0000 + low
            &&& t.seen(0x08) == Some(low)
            &&& t.seen(0x0c) == Some(high)
            &&& t.time_ns == r.time_ns
        }),
        r.seen(0x10) == Some(
            if r.irq_enabled {
                1u64
            } else {
                0
            },
        ),
        r.seen(0x18) == Some(
            if r.alarm_armed {
                1u64
            } else {
                0
            },
        ),
        r.seen(0x20) is None,
{
}

} // verus!
