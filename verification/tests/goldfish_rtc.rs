use emulate_core::devices::goldfish_rtc::{
    ALARM_HIGH, ALARM_LOW, CLEAR_INTERRUPT, GoldfishRtc, IRQ_ENABLED, TIME_HIGH, TIME_LOW,
};

#[test]
fn time_registers_expose_unix_nanoseconds() {
    let mut rtc = GoldfishRtc::new();
    rtc.set_time_ns(0x1122_3344_5566_7788);

    assert_eq!(rtc.read(TIME_LOW, 4), Ok(0x5566_7788));
    assert_eq!(rtc.read(TIME_HIGH, 4), Ok(0x1122_3344));
}

#[test]
fn mtime_ticks_advance_realtime_at_ten_megahertz() {
    let mut rtc = GoldfishRtc::new();
    rtc.set_time_ns(1_000);
    rtc.advance_mtime_ticks(25);

    assert_eq!(rtc.read(TIME_LOW, 4), Ok(3_500));
}

#[test]
fn armed_alarm_raises_and_clears_interrupt() {
    let mut rtc = GoldfishRtc::new();
    rtc.write(ALARM_HIGH, 0, 4).unwrap();
    rtc.write(ALARM_LOW, 1_000, 4).unwrap();
    rtc.write(IRQ_ENABLED, 1, 4).unwrap();
    rtc.advance_mtime_ticks(10);
    assert!(rtc.irq_pending());

    rtc.write(CLEAR_INTERRUPT, 1, 4).unwrap();
    assert!(!rtc.irq_pending());
}
