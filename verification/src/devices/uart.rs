//! 16550-compatible UART (byte-wide registers at 1-byte stride, like the
//! QEMU virt `ns16550a`).
//!
//! Registers (offset from UART_BASE):
//! - 0: RBR (read) / THR (write) / DLL when DLAB=1
//! - 1: IER / DLM when DLAB=1
//! - 2: IIR (read) / FCR (write)
//! - 3: LCR (bit 7 = DLAB)
//! - 4: MCR
//! - 5: LSR (bit 0 = data ready, bits 5/6 = THR empty / transmitter idle)
//! - 6: MSR
//! - 7: SCR
//!
//! TX is always ready (bytes append to `tx`); RX comes from `rx` (host pushes
//! with `push_rx`). Interrupts: RX-data-available and THR-empty per IER;
//! `irq_pending()` reflects the IIR state and drives the PLIC line (level).
use std::collections::VecDeque;

use vstd::prelude::*;

use super::byte_queue;
use crate::snapshot::{
    and_bool, and_bytes, and_end, and_section, and_u8, enc_bool, enc_bytes, enc_section,
    lemma_read_bool, lemma_read_bytes, lemma_read_section, lemma_read_u8, start, Parsed, Reader,
    RestoreError, Writer,
};

verus! {

/// IER bit 0: received-data-available interrupt enable.
pub const IER_RDA: u8 = 0x01;

/// IER bit 1: THR-empty interrupt enable.
pub const IER_THRE: u8 = 0x02;

/// LCR bit 7: divisor latch access.
pub const LCR_DLAB: u8 = 0x80;

/// LSR bit 1: overrun error (a byte arrived while the RX FIFO was full).
pub const LSR_OE: u8 = 0x02;

/// RX FIFO depth. A real 16550 holds 16 bytes, which drops interactive pastes
/// whenever the guest has RX interrupts masked; 4096 survives a paste while
/// still bounding host input. Overflow sets the LSR overrun bit.
pub const RX_FIFO_CAP: usize = 4096;

pub struct Uart {
    pub rx: VecDeque<u8>,
    pub tx: Vec<u8>,
    pub ier: u8,
    pub lcr: u8,
    pub mcr: u8,
    pub scr: u8,
    pub dll: u8,
    pub dlm: u8,
    /// THR-empty interrupt latched (cleared on IIR read / THR write).
    pub thre_ip: bool,
    /// Overrun error: a byte arrived at a full RX FIFO. Surfaced in LSR bit 1
    /// and cleared on an LSR read, per 16550 semantics.
    pub oe: bool,
}

/// What a [`Uart`] holds.
#[verifier::ext_equal]
pub struct UartState {
    pub rx: Seq<u8>,
    pub tx: Seq<u8>,
    pub ier: u8,
    pub lcr: u8,
    pub mcr: u8,
    pub scr: u8,
    pub dll: u8,
    pub dlm: u8,
    pub thre_ip: bool,
    pub oe: bool,
}

impl View for Uart {
    type V = UartState;

    open spec fn view(&self) -> UartState {
        UartState {
            rx: self.rx@,
            tx: self.tx@,
            ier: self.ier,
            lcr: self.lcr,
            mcr: self.mcr,
            scr: self.scr,
            dll: self.dll,
            dlm: self.dlm,
            thre_ip: self.thre_ip,
            oe: self.oe,
        }
    }
}

proof fn lemma_registers(v: u8)
    by (bit_vector)
    ensures
        v & IER_RDA == v % 2,
        (v & IER_THRE != 0) == ((v / 2) % 2 == 1),
        (v & LCR_DLAB != 0) == (v >= 0x80),
        v & 0x0F == v % 16,
        ((v & 0x0F) / 2) % 2 == (v / 2) % 2,
{
}

impl UartState {
    pub open spec fn reset() -> UartState {
        UartState {
            rx: Seq::empty(),
            tx: Seq::empty(),
            ier: 0,
            lcr: 0,
            mcr: 0,
            scr: 0,
            dll: 0,
            dlm: 0,
            thre_ip: false,
            oe: false,
        }
    }

    /// Offsets 0 and 1 address the divisor latch.
    pub open spec fn divisor_latched(self) -> bool {
        self.lcr >= 0x80
    }

    /// Received-data interrupt enabled with data waiting.
    pub open spec fn rx_interrupt(self) -> bool {
        self.ier % 2 == 1 && self.rx.len() > 0
    }

    /// Transmitter-empty interrupt enabled and latched.
    pub open spec fn tx_interrupt(self) -> bool {
        (self.ier / 2) % 2 == 1 && self.thre_ip
    }

    /// The byte a read returns.
    pub open spec fn seen(self, offset: u64) -> u8 {
        if offset == 0 {
            if self.divisor_latched() {
                self.dll
            } else if self.rx.len() > 0 {
                self.rx[0]
            } else {
                0
            }
        } else if offset == 1 {
            if self.divisor_latched() {
                self.dlm
            } else {
                self.ier
            }
        } else if offset == 2 {
            if self.rx_interrupt() {
                0xC4
            } else if self.tx_interrupt() {
                0xC2
            } else {
                0xC1
            }
        } else if offset == 3 {
            self.lcr
        } else if offset == 4 {
            self.mcr
        } else if offset == 5 {
            if self.rx.len() > 0 && self.oe {
                0x63
            } else if self.oe {
                0x62
            } else if self.rx.len() > 0 {
                0x61
            } else {
                0x60
            }
        } else if offset == 6 {
            0xB0
        } else if offset == 7 {
            self.scr
        } else {
            0
        }
    }

    /// The device after a read: RBR takes a byte out, IIR acknowledges the
    /// THRE interrupt it reports, LSR clears the overrun latch.
    pub open spec fn after_read(self, offset: u64) -> UartState {
        if offset == 0 && !self.divisor_latched() && self.rx.len() > 0 {
            UartState { rx: self.rx.subrange(1, self.rx.len() as int), ..self }
        } else if offset == 2 && !self.rx_interrupt() && self.tx_interrupt() {
            UartState { thre_ip: false, ..self }
        } else if offset == 5 {
            UartState { oe: false, ..self }
        } else {
            self
        }
    }

    /// The device after a write of one byte.
    pub open spec fn written(self, offset: u64, b: u8) -> UartState {
        if offset == 0 {
            if self.divisor_latched() {
                UartState { dll: b, ..self }
            } else {
                UartState { tx: self.tx.push(b), thre_ip: true, ..self }
            }
        } else if offset == 1 {
            if self.divisor_latched() {
                UartState { dlm: b, ..self }
            } else {
                UartState {
                    ier: b % 16,
                    thre_ip: self.thre_ip || ((b / 2) % 2 == 1 && (self.ier / 2) % 2 == 0),
                    ..self
                }
            }
        } else if offset == 3 {
            UartState { lcr: b, ..self }
        } else if offset == 4 {
            UartState { mcr: b, ..self }
        } else if offset == 7 {
            UartState { scr: b, ..self }
        } else {
            self
        }
    }
}

impl Uart {
    /// Host input is bounded.
    pub open spec fn wf(&self) -> bool {
        self.rx@.len() <= RX_FIFO_CAP
    }

    pub fn new() -> (r: Self)
        ensures
            r.wf(),
            r@ == UartState::reset(),
    {
        Uart {
            rx: VecDeque::new(),
            tx: Vec::new(),
            ier: 0,
            lcr: 0,
            mcr: 0,
            scr: 0,
            dll: 0,
            dlm: 0,
            thre_ip: false,
            oe: false,
        }
    }

    /// Host: feed a byte typed by the user. On a full FIFO the arriving byte
    /// is dropped and overrun is flagged, per 16550 semantics.
    pub fn push_rx(&mut self, b: u8)
        requires
            old(self).wf(),
        ensures
            final(self).wf(),
            final(self)@ == (if old(self)@.rx.len() >= RX_FIFO_CAP {
                UartState { oe: true, ..old(self)@ }
            } else {
                UartState { rx: old(self)@.rx.push(b), ..old(self)@ }
            }),
    {
        if self.rx.len() >= RX_FIFO_CAP {
            self.oe = true;
            return;
        }
        self.rx.push_back(b);
    }

    /// Host: drain output bytes for the terminal.
    pub fn take_tx(&mut self) -> (r: Vec<u8>)
        ensures
            r@ == old(self)@.tx,
            final(self)@ == (UartState { tx: Seq::empty(), ..old(self)@ }),
    {
        let mut taken: Vec<u8> = Vec::new();
        core::mem::swap(&mut taken, &mut self.tx);
        taken
    }

    fn dlab(&self) -> (r: bool)
        ensures
            r == self@.divisor_latched(),
    {
        proof {
            lemma_registers(self.lcr);
        }
        self.lcr & LCR_DLAB != 0
    }

    /// Level of the UART interrupt line into the PLIC.
    pub fn irq_pending(&self) -> (r: bool)
        ensures
            r == (self@.rx_interrupt() || self@.tx_interrupt()),
    {
        proof {
            lemma_registers(self.ier);
        }
        (self.ier & IER_RDA != 0 && self.rx.len() != 0) || (self.ier & IER_THRE != 0
            && self.thre_ip)
    }

    /// Registers are byte-wide; wider accesses act on the low byte.
    pub fn read(&mut self, offset: u64, _size: u8) -> (r: Result<u64, ()>)
        requires
            old(self).wf(),
        ensures
            final(self).wf(),
            r == Ok::<u64, ()>(old(self)@.seen(offset) as u64),
            final(self)@ == old(self)@.after_read(offset),
    {
        proof {
            lemma_registers(self.ier);
        }
        let b: u8 = match offset {
            0 => if self.dlab() {
                self.dll
            } else {
                match self.rx.pop_front() {
                    Some(b) => b,
                    None => 0,
                }
            },
            1 => if self.dlab() {
                self.dlm
            } else {
                self.ier
            },
            2 => {
                // IIR: FIFO-enabled bits always set; highest priority first.
                if self.ier & IER_RDA != 0 && self.rx.len() != 0 {
                    0xC4
                } else if self.thre_ip && self.ier & IER_THRE != 0 {
                    // Reading IIR acknowledges the THRE interrupt.
                    self.thre_ip = false;
                    0xC2
                } else {
                    0xC1  // no interrupt pending

                }
            },
            3 => self.lcr,
            4 => self.mcr,
            5 => {
                // LSR: THR-empty/idle (0x60), data-ready (bit 0), overrun
                // (bit 1). Reading LSR clears the overrun latch.
                let mut lsr: u8 = 0x60;
                if self.rx.len() != 0 {
                    lsr = lsr + 0x01;
                }
                if self.oe {
                    lsr = lsr + LSR_OE;
                    self.oe = false;
                }
                lsr
            },
            6 => 0xB0,  // MSR: CTS|DSR|CD
            7 => self.scr,
            _ => 0,
        };
        Ok(b as u64)
    }

    pub fn write(&mut self, offset: u64, val: u64, _size: u8) -> (r: Result<(), ()>)
        requires
            old(self).wf(),
        ensures
            final(self).wf(),
            r is Ok,
            final(self)@ == old(self)@.written(offset, val as u8),
    {
        let b: u8 = val as u8;
        proof {
            lemma_registers(b);
            lemma_registers(self.ier);
            lemma_registers(b & 0x0F);
        }
        match offset {
            0 => if self.dlab() {
                self.dll = b;
            } else {
                // THR: transmit is instantaneous, so THR is empty again.
                self.tx.push(b);
                self.thre_ip = true;
            },
            1 => if self.dlab() {
                self.dlm = b;
            } else {
                let new: u8 = b & 0x0F;
                // Transmission is instant, so the transmitter is always empty:
                // enabling IER_THRI (0->1) must assert THRE right away rather
                // than wait for the next THR write.
                if new & IER_THRE != 0 && self.ier & IER_THRE == 0 {
                    self.thre_ip = true;
                }
                self.ier = new;
            },
            2 => {},  // FCR: FIFOs are always on; ignore
            3 => self.lcr = b,
            4 => self.mcr = b,
            5 | 6 => {},  // LSR/MSR read-only
            7 => self.scr = b,
            _ => {},
        }
        Ok(())
    }
}

impl Default for Uart {
    fn default() -> (r: Self)
        ensures
            r.wf(),
            r@ == UartState::reset(),
    {
        Self::new()
    }
}

/// Bytes come out of the receiver in the order they were fed, one per read of
/// the data register.
pub proof fn law_receive_is_first_in_first_out(u: UartState, b: u8)
    requires
        !u.divisor_latched(),
        u.rx.len() > 0,
    ensures
        u.seen(0) == u.rx[0],
        (UartState { rx: u.rx.push(b), ..u }).seen(0) == u.rx[0],
        (UartState { rx: u.rx.push(b), ..u }).after_read(0).rx == u.after_read(0).rx.push(b),
{
    assert(u.rx.push(b).subrange(1, u.rx.len() as int + 1) =~= u.rx.subrange(
        1,
        u.rx.len() as int,
    ).push(b));
}

/// With the divisor latch addressed, a byte written to the data offset is not
/// transmitted.
pub proof fn law_divisor_latch_does_not_transmit(u: UartState, b: u8)
    requires
        u.divisor_latched(),
    ensures
        u.written(0, b).tx == u.tx,
        u.written(0, b).seen(0) == b,
        u.written(1, b).seen(1) == b,
{
}

/// Reading the identification register once takes a reported THRE interrupt
/// away, and it stays away until the transmitter is used or the interrupt is
/// enabled again.
pub proof fn law_identification_acknowledges_thre(u: UartState)
    requires
        u.seen(2) == 0xC2,
    ensures
        u.after_read(2).seen(2) == 0xC1,
        !u.after_read(2).tx_interrupt(),
{
}

// ---------------------------------------------------------------------------
// State snapshot
// ---------------------------------------------------------------------------

pub const SNAPSHOT_VERSION: u16 = 1;

impl UartState {
    pub open spec fn encoding(self) -> Seq<u8> {
        enc_bytes(self.rx) + enc_bytes(self.tx) + seq![self.ier] + seq![self.lcr] + seq![self.mcr]
            + seq![self.scr] + seq![self.dll] + seq![self.dlm] + enc_bool(self.thre_ip) + enc_bool(
            self.oe,
        )
    }

    pub open spec fn decoded(payload: Seq<u8>) -> Result<UartState, RestoreError> {
        match and_bytes(start(payload)) {
            Err(e) => Err(e),
            Ok(((_, rx), rest)) => if rx.len() > RX_FIFO_CAP {
                Err(RestoreError::UartRx { count: rx.len() as usize })
            } else {
                match and_end(
                    and_bool(
                        and_bool(
                            and_u8(and_u8(and_u8(and_u8(and_u8(and_u8(and_bytes(start(rest)))))))),
                        ),
                    ),
                ) {
                    Err(e) => Err(e),
                    Ok((((((((((_, tx), ier), lcr), mcr), scr), dll), dlm), thre_ip), oe)) => Ok(
                        UartState { rx, tx, ier, lcr, mcr, scr, dll, dlm, thre_ip, oe },
                    ),
                }
            },
        }
    }
}

impl Uart {
    pub fn snapshot(&self, out: &mut Writer)
        requires
            self.wf(),
            self@.encoding().len() <= u32::MAX,
        ensures
            final(out)@ == old(out)@ + enc_section(SNAPSHOT_VERSION, self@.encoding()),
    {
        let mut w = Writer::new();
        let rx = byte_queue::to_vec(&self.rx);
        w.bytes(rx.as_slice());
        w.bytes(self.tx.as_slice());
        w.u8(self.ier);
        w.u8(self.lcr);
        w.u8(self.mcr);
        w.u8(self.scr);
        w.u8(self.dll);
        w.u8(self.dlm);
        w.bool(self.thre_ip);
        w.bool(self.oe);
        assert(w@ =~= self@.encoding());
        out.section(SNAPSHOT_VERSION, &w);
    }

    /// Take the state back from a snapshot section. Data that does not parse
    /// leaves the device as it was.
    pub fn restore(&mut self, input: &mut Reader<'_>) -> (r: Result<(), RestoreError>)
        requires
            old(input).wf(),
            old(self).wf(),
        ensures
            final(input).wf(),
            final(self).wf(),
            match and_section(start(old(input).rest()), SNAPSHOT_VERSION) {
                Err(e) => r == Err::<(), RestoreError>(e) && *final(self) == *old(self),
                Ok(((_, payload), rest)) => final(input).rest() == rest && match UartState::decoded(
                    payload,
                ) {
                    Err(e) => r == Err::<(), RestoreError>(e) && *final(self) == *old(self),
                    Ok(state) => r is Ok && final(self)@ == state,
                },
            },
    {
        let mut section = input.section(SNAPSHOT_VERSION)?;
        let rx = section.bytes()?;
        if rx.len() > RX_FIFO_CAP {
            return Err(RestoreError::UartRx { count: rx.len() });
        }
        let tx = section.bytes()?;
        let ier: u8 = section.u8()?;
        let lcr: u8 = section.u8()?;
        let mcr: u8 = section.u8()?;
        let scr: u8 = section.u8()?;
        let dll: u8 = section.u8()?;
        let dlm: u8 = section.u8()?;
        let thre_ip: bool = section.bool()?;
        let oe: bool = section.bool()?;
        section.finish()?;
        self.rx = byte_queue::from_slice(rx);
        self.tx = byte_queue::copy_slice(tx);
        self.ier = ier;
        self.lcr = lcr;
        self.mcr = mcr;
        self.scr = scr;
        self.dll = dll;
        self.dlm = dlm;
        self.thre_ip = thre_ip;
        self.oe = oe;
        Ok(())
    }
}

/// Reading a snapshot back gives the state it was taken from.
pub proof fn law_snapshot_round_trip(u: UartState, tail: Seq<u8>)
    requires
        u.rx.len() <= RX_FIFO_CAP,
        u.encoding().len() <= u32::MAX,
    ensures
        and_section(start(enc_section(SNAPSHOT_VERSION, u.encoding()) + tail), SNAPSHOT_VERSION)
            == Parsed::<((), Seq<u8>)>::Ok((((), u.encoding()), tail)),
        UartState::decoded(u.encoding()) == Ok::<UartState, RestoreError>(u),
{
    lemma_read_section((), SNAPSHOT_VERSION, u.encoding(), tail);
    let t9 = Seq::<u8>::empty();
    let t8 = enc_bool(u.oe) + t9;
    let t7 = enc_bool(u.thre_ip) + t8;
    let t6 = seq![u.dlm] + t7;
    let t5 = seq![u.dll] + t6;
    let t4 = seq![u.scr] + t5;
    let t3 = seq![u.mcr] + t4;
    let t2 = seq![u.lcr] + t3;
    let t1 = seq![u.ier] + t2;
    let t0 = enc_bytes(u.tx) + t1;
    assert(u.encoding() =~= enc_bytes(u.rx) + t0);
    lemma_read_bytes((), u.rx, t0);
    lemma_read_bytes((), u.tx, t1);
    let a1 = ((), u.tx);
    let a2 = (a1, u.ier);
    let a3 = (a2, u.lcr);
    let a4 = (a3, u.mcr);
    let a5 = (a4, u.scr);
    let a6 = (a5, u.dll);
    let a7 = (a6, u.dlm);
    let a8 = (a7, u.thre_ip);
    lemma_read_u8(a1, u.ier, t2);
    lemma_read_u8(a2, u.lcr, t3);
    lemma_read_u8(a3, u.mcr, t4);
    lemma_read_u8(a4, u.scr, t5);
    lemma_read_u8(a5, u.dll, t6);
    lemma_read_u8(a6, u.dlm, t7);
    lemma_read_bool(a7, u.thre_ip, t8);
    lemma_read_bool(a8, u.oe, t9);
}

/// The line status shows received data in bit 0 and an overrun in bit 1, and
/// the transmitter always empty; reading it forgets the overrun and no data.
pub proof fn law_line_status(u: UartState)
    ensures
        u.seen(5) == 0x60 + (if u.rx.len() > 0 {
            1int
        } else {
            0
        }) + (if u.oe {
            2int
        } else {
            0
        }),
        !u.after_read(5).oe,
        u.after_read(5).rx == u.rx,
        u.after_read(5).seen(5) == 0x60 + (if u.rx.len() > 0 {
            1int
        } else {
            0
        }),
{
}

/// The identification register is even exactly while the interrupt line is
/// up: 4 in its low bits for received data, which goes first and stays until
/// the data is read, and 2 for the empty transmitter, which reading
/// acknowledges.
pub proof fn law_interrupt_identification(u: UartState)
    ensures
        ({
            let data = u.ier % 2 == 1 && u.rx.len() > 0;
            let empty = u.ier / 2 % 2 == 1 && u.thre_ip;
            &&& u.rx_interrupt() == data
            &&& u.tx_interrupt() == empty
            &&& (u.seen(2) % 2 == 0) == (data || empty)
            &&& data ==> u.seen(2) % 16 == 4 && u.after_read(2) == u
            &&& !data && empty ==> u.seen(2) % 16 == 2 && !u.after_read(2).tx_interrupt()
                && u.after_read(2).seen(2) % 16 == 1
            &&& !data && !empty ==> u.seen(2) % 16 == 1 && u.after_read(2) == u
            &&& u.seen(2) / 64 == 3
        }),
{
}

/// A byte written to the transmitter is the next one out, and the transmitter
/// is at once empty again; so does enabling its interrupt find it.
pub proof fn law_transmission(u: UartState, b: u8)
    ensures
        u.lcr < 0x80 ==> u.written(0, b).tx == u.tx.push(b) && u.written(0, b).thre_ip
            && u.written(0, b).rx == u.rx,
        u.lcr < 0x80 && b / 2 % 2 == 1 && u.ier / 2 % 2 == 0 ==> u.written(1, b).tx_interrupt(),
        u.lcr < 0x80 && b / 2 % 2 == 0 ==> !u.written(1, b).tx_interrupt(),
        u.lcr < 0x80 && u.ier / 2 % 2 == 1 ==> u.written(1, b).thre_ip == u.thre_ip,
{
}

/// The registers read back what was written to them, the interrupt enables
/// their four bits; while bit 7 of the line control is set the first two
/// offsets are the divisor, and the enables and the data stay as they are.
pub proof fn law_registers_read_back(u: UartState, b: u8)
    ensures
        u.written(3, b).seen(3) == b,
        u.written(4, b).seen(4) == b,
        u.written(7, b).seen(7) == b,
        u.lcr < 0x80 ==> u.written(1, b).seen(1) == b % 16,
        u.lcr >= 0x80 ==> u.written(0, b).seen(0) == b && u.written(1, b).seen(1) == b,
        u.lcr >= 0x80 ==> u.written(1, b).ier == u.ier && u.written(0, b).tx == u.tx
            && u.after_read(0) == u,
        u.written(2, b) == u,
        u.written(5, b) == u,
        u.written(6, b) == u,
        u.lcr < 0x80 ==> u.written(0, b).dll == u.dll && u.written(1, b).dlm == u.dlm,
{
}

} // verus!
