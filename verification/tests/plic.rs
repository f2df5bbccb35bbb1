use emulate_core::devices::plic::Plic;

const UART: u32 = 10;

/// Configure priority + enable + threshold via MMIO for context 0.
fn setup(plic: &mut Plic) {
    plic.write((UART as u64) * 4, 3, 4).unwrap(); // priority 3
    plic.write(0x2000, 1 << UART, 4).unwrap(); // enable ctx 0
    plic.write(0x20_0000, 0, 4).unwrap(); // threshold 0
}

#[test]
fn mmio_config_roundtrip() {
    let mut p = Plic::new();
    setup(&mut p);
    assert_eq!(p.read((UART as u64) * 4, 4).unwrap(), 3);
    assert_eq!(p.read(0x2000, 4).unwrap(), (1 << UART) as u64);
    assert_eq!(p.read(0x20_0000, 4).unwrap(), 0);
    // Context 1 registers are independent.
    p.write(0x20_1000, 5, 4).unwrap();
    assert_eq!(p.read(0x20_1000, 4).unwrap(), 5);
    assert_eq!(p.threshold[1], 5);
    p.write(0x2080, 0xFF, 4).unwrap();
    assert_eq!(p.enable[1], 0xFF);
    // Higher enable words read 0 / ignore writes.
    p.write(0x2004, 0xFFFF_FFFF, 4).unwrap();
    assert_eq!(p.read(0x2004, 4).unwrap(), 0);
}

#[test]
fn set_irq_pending_and_eip() {
    let mut p = Plic::new();
    setup(&mut p);
    p.set_irq(UART, true);
    assert_eq!(p.read(0x1000, 4).unwrap(), (1 << UART) as u64);
    assert!(p.eip(0));
    assert!(!p.eip(1)); // ctx 1 not enabled
    // Level drop clears pending.
    p.set_irq(UART, false);
    assert_eq!(p.pending, 0);
    assert!(!p.eip(0));
    // Writes to the pending region are ignored.
    p.write(0x1000, 0xFFFF_FFFF, 4).unwrap();
    assert_eq!(p.pending, 0);
}

#[test]
fn claim_highest_priority_then_none() {
    let mut p = Plic::new();
    setup(&mut p);
    // Second, higher-priority source 7.
    p.write(7 * 4, 5, 4).unwrap();
    p.write(0x2000, (1 << UART) | (1 << 7), 4).unwrap();
    p.set_irq(UART, true);
    p.set_irq(7, true);
    // Claim returns highest priority first (7 @ prio 5 over 10 @ prio 3).
    assert_eq!(p.read(0x20_0004, 4).unwrap(), 7);
    assert_eq!(p.pending & (1 << 7), 0);
    assert_eq!(p.claimed[0], 1 << 7);
    // Next claim gets the UART.
    assert_eq!(p.read(0x20_0004, 4).unwrap(), UART as u64);
    // Nothing left: claim returns 0.
    assert_eq!(p.read(0x20_0004, 4).unwrap(), 0);
}

#[test]
fn complete_repends_while_level_high() {
    let mut p = Plic::new();
    setup(&mut p);
    p.set_irq(UART, true);
    assert_eq!(p.read(0x20_0004, 4).unwrap(), UART as u64);
    // While claimed, a still-high level does not re-pend.
    p.set_irq(UART, true);
    assert_eq!(p.pending, 0);
    assert!(!p.eip(0));
    // Complete with level still high -> pending again.
    p.write(0x20_0004, UART as u64, 4).unwrap();
    assert_eq!(p.pending, 1 << UART);
    assert!(p.eip(0));
    // Claim, drop the level, complete -> stays clear.
    assert_eq!(p.read(0x20_0004, 4).unwrap(), UART as u64);
    p.set_irq(UART, false);
    p.write(0x20_0004, UART as u64, 4).unwrap();
    assert_eq!(p.pending, 0);
}

#[test]
fn eip_gated_by_threshold() {
    let mut p = Plic::new();
    setup(&mut p);
    p.set_irq(UART, true);
    assert!(p.eip(0)); // priority 3 > threshold 0
    p.write(0x20_0000, 3, 4).unwrap(); // threshold == priority
    assert!(!p.eip(0));
    p.write(0x20_0000, 2, 4).unwrap();
    assert!(p.eip(0));
    // Priority 0 sources never signal.
    p.write((UART as u64) * 4, 0, 4).unwrap();
    p.write(0x20_0000, 0, 4).unwrap();
    assert!(!p.eip(0));
}

#[test]
fn claim_respects_threshold_like_eip() {
    let mut p = Plic::new();
    setup(&mut p); // priority 3, threshold 0
    p.set_irq(UART, true);
    // Raise threshold to priority: eip masks it, so claim must too.
    p.write(0x20_0000, 3, 4).unwrap();
    assert!(!p.eip(0));
    assert_eq!(p.read(0x20_0004, 4).unwrap(), 0); // claim yields nothing
    assert_eq!(p.claimed[0], 0); // and nothing was marked claimed
    assert_eq!(p.pending, 1 << UART); // pending untouched
    // Lower threshold below priority: now claimable, agreeing with eip.
    p.write(0x20_0000, 2, 4).unwrap();
    assert!(p.eip(0));
    assert_eq!(p.read(0x20_0004, 4).unwrap(), UART as u64);
}

#[test]
fn complete_unclaimed_id_is_noop() {
    let mut p = Plic::new();
    setup(&mut p);
    p.set_irq(UART, true);
    // Complete a source that was never claimed: must not touch pending.
    assert_eq!(p.pending, 1 << UART);
    p.write(0x20_0004, UART as u64, 4).unwrap();
    assert_eq!(p.pending, 1 << UART);
    assert_eq!(p.claimed[0], 0);
    // A bogus id completion is also inert.
    p.write(0x20_0004, 7, 4).unwrap();
    assert_eq!(p.claimed[0], 0);
}

#[test]
fn completion_from_wrong_context_does_not_release_source() {
    let mut p = Plic::new();
    setup(&mut p);
    p.set_irq(UART, true);
    assert_eq!(p.read(0x20_0004, 4).unwrap(), UART as u64);

    p.write(0x20_1004, UART as u64, 4).unwrap();
    assert_eq!(p.claimed[0], 1 << UART);
    assert_eq!(p.pending, 0);

    p.write(0x20_0004, UART as u64, 4).unwrap();
    assert_eq!(p.claimed[0], 0);
    assert_eq!(p.pending, 1 << UART);
}

#[test]
fn per_context_claim_does_not_couple_sources() {
    let mut p = Plic::new();
    // Source 10 (UART) prio 3, source 7 prio 5; both enabled on both ctxs.
    p.write((UART as u64) * 4, 3, 4).unwrap();
    p.write(7 * 4, 5, 4).unwrap();
    let mask = (1 << UART) | (1 << 7);
    p.write(0x2000, mask, 4).unwrap(); // enable ctx 0
    p.write(0x2080, mask, 4).unwrap(); // enable ctx 1
    p.write(0x20_0000, 0, 4).unwrap(); // ctx0 threshold 0
    p.write(0x20_1000, 0, 4).unwrap(); // ctx1 threshold 0
    p.set_irq(UART, true);
    p.set_irq(7, true);
    // M-context (ctx 0) claims the highest-priority source (7).
    assert_eq!(p.read(0x20_0004, 4).unwrap(), 7);
    assert_eq!(p.claimed[0], 1 << 7);
    // S-context (ctx 1) can still claim the other source (UART).
    assert_eq!(p.read(0x20_1004, 4).unwrap(), UART as u64);
    assert_eq!(p.claimed[1], 1 << UART);
    // Each context completes only what it owns.
    p.set_irq(7, false);
    p.set_irq(UART, false);
    p.write(0x20_0004, 7, 4).unwrap();
    p.write(0x20_1004, UART as u64, 4).unwrap();
    assert_eq!(p.claimed[0], 0);
    assert_eq!(p.claimed[1], 0);
}
