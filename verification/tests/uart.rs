use emulate_core::devices::uart::{IER_THRE, LSR_OE, RX_FIFO_CAP, Uart};

#[test]
fn rx_path() {
    let mut u = Uart::new();
    assert_eq!(u.read(5, 1).unwrap(), 0x60); // LSR: THR empty, no data
    u.push_rx(b'a');
    u.push_rx(b'b');
    assert_eq!(u.read(5, 1).unwrap(), 0x61); // data ready
    assert_eq!(u.read(0, 1).unwrap(), b'a' as u64);
    assert_eq!(u.read(0, 1).unwrap(), b'b' as u64);
    assert_eq!(u.read(5, 1).unwrap(), 0x60); // drained
    assert_eq!(u.read(0, 1).unwrap(), 0); // empty RBR reads 0
}

#[test]
fn tx_path() {
    let mut u = Uart::new();
    u.write(0, b'h' as u64, 1).unwrap();
    u.write(0, b'i' as u64, 1).unwrap();
    assert!(u.thre_ip);
    assert_eq!(u.take_tx(), b"hi");
    assert!(u.take_tx().is_empty());
}

#[test]
fn dlab_redirect() {
    let mut u = Uart::new();
    u.write(3, 0x80, 1).unwrap(); // LCR: DLAB=1
    u.write(0, 0x23, 1).unwrap();
    u.write(1, 0x45, 1).unwrap();
    assert_eq!(u.dll, 0x23);
    assert_eq!(u.dlm, 0x45);
    assert!(u.tx.is_empty()); // did not hit THR
    assert_eq!(u.read(0, 1).unwrap(), 0x23);
    assert_eq!(u.read(1, 1).unwrap(), 0x45);
    u.write(3, 0x03, 1).unwrap(); // DLAB=0, 8n1
    u.write(1, 0x03, 1).unwrap(); // now IER
    assert_eq!(u.ier, 0x03);
    assert_eq!(u.read(1, 1).unwrap(), 0x03);
}

#[test]
fn iir_priority_and_thre_ack() {
    let mut u = Uart::new();
    assert_eq!(u.read(2, 1).unwrap(), 0xC1); // nothing pending
    u.write(1, 0x03, 1).unwrap(); // enable RDA + THRE
    u.write(0, b'x' as u64, 1).unwrap(); // sets thre_ip
    u.push_rx(b'y');
    // RX data outranks THRE.
    assert_eq!(u.read(2, 1).unwrap(), 0xC4);
    assert!(u.thre_ip); // not acknowledged by an RDA-identified read
    u.rx.clear();
    // Now THRE is reported and reading IIR acknowledges it.
    assert_eq!(u.read(2, 1).unwrap(), 0xC2);
    assert!(!u.thre_ip);
    assert_eq!(u.read(2, 1).unwrap(), 0xC1);
}

#[test]
fn thre_reenable_relatches_only_after_disable() {
    let mut u = Uart::new();
    u.write(1, IER_THRE as u64, 1).unwrap();
    assert_eq!(u.read(2, 1).unwrap(), 0xC2);

    u.write(1, IER_THRE as u64, 1).unwrap();
    assert_eq!(u.read(2, 1).unwrap(), 0xC1);

    u.write(1, 0, 1).unwrap();
    u.write(1, IER_THRE as u64, 1).unwrap();
    assert_eq!(u.read(2, 1).unwrap(), 0xC2);
}

#[test]
fn irq_pending_combinations() {
    let mut u = Uart::new();
    assert!(!u.irq_pending());
    // RX data but interrupts disabled.
    u.push_rx(1);
    assert!(!u.irq_pending());
    u.write(1, 0x01, 1).unwrap(); // enable RDA
    assert!(u.irq_pending());
    u.read(0, 1).unwrap(); // pop -> line drops
    assert!(!u.irq_pending());
    // THRE latched but not enabled.
    u.write(0, 0, 1).unwrap();
    assert!(u.thre_ip);
    assert!(!u.irq_pending());
    u.write(1, 0x03, 1).unwrap();
    assert!(u.irq_pending());
    u.read(2, 1).unwrap(); // IIR read acks THRE
    assert!(!u.irq_pending());
}

#[test]
fn misc_registers_and_wide_access() {
    let mut u = Uart::new();
    u.write(4, 0x0B, 1).unwrap();
    assert_eq!(u.read(4, 1).unwrap(), 0x0B); // MCR
    u.write(7, 0x5A, 1).unwrap();
    assert_eq!(u.read(7, 1).unwrap(), 0x5A); // SCR
    assert_eq!(u.read(6, 1).unwrap(), 0xB0); // MSR
    // Wider accesses act on the low byte.
    u.write(0, 0x1234_5641, 4).unwrap();
    assert_eq!(u.take_tx(), vec![0x41]);
}

#[test]
fn thre_asserts_on_ier_enable_while_idle() {
    let mut u = Uart::new();
    // Transmitter is idle (empty) and nothing was written to THR.
    assert!(!u.thre_ip);
    // Enabling IER_THRI (bit 1) 0->1 must assert THRE immediately.
    u.write(1, IER_THRE as u64, 1).unwrap();
    assert!(u.thre_ip);
    assert!(u.irq_pending());
    // IIR reflects THRE and reading it acknowledges.
    assert_eq!(u.read(2, 1).unwrap(), 0xC2);
    assert!(!u.thre_ip);
    // Re-writing IER with bit 1 already set is not a 0->1 edge: no re-arm.
    u.write(1, IER_THRE as u64, 1).unwrap();
    assert!(!u.thre_ip);
}

#[test]
fn rx_overflow_sets_oe_and_drops_byte() {
    let mut u = Uart::new();
    for _ in 0..RX_FIFO_CAP {
        u.push_rx(b'a');
    }
    assert_eq!(u.rx.len(), RX_FIFO_CAP);
    assert!(!u.oe);
    // One more byte overflows: dropped, FIFO unchanged, OE set.
    u.push_rx(b'Z');
    assert_eq!(u.rx.len(), RX_FIFO_CAP);
    assert!(u.oe);
    // LSR reports overrun (bit 1) and reading it clears the latch.
    let lsr = u.read(5, 1).unwrap() as u8;
    assert_eq!(lsr & LSR_OE, LSR_OE);
    assert!(!u.oe);
    assert_eq!(u.read(5, 1).unwrap() as u8 & LSR_OE, 0);
}
