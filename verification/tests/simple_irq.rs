use emulate_core::devices::simple_irq::{COMMAND, SET, SUPPORTED, SimpleInterruptGenerator};
use emulate_core::trap::irq;

#[test]
fn command_sets_selected_interrupt_levels() {
    let mut generator = SimpleInterruptGenerator::new();

    generator
        .write(COMMAND, (SET | irq::MEIP as u32) as u64, 4)
        .unwrap();

    assert_eq!(generator.pending(), irq::MEIP);
}

#[test]
fn command_clears_only_selected_interrupt_levels() {
    let mut generator = SimpleInterruptGenerator::new();
    generator
        .write(COMMAND, (SET | SUPPORTED) as u64, 4)
        .unwrap();

    generator.write(COMMAND, irq::SEIP, 4).unwrap();

    assert_eq!(generator.pending(), irq::SSIP | irq::MEIP);
}

#[test]
fn command_ignores_interrupt_levels_outside_the_platform_profile() {
    let mut generator = SimpleInterruptGenerator::new();

    generator
        .write(COMMAND, (SET | irq::MSIP as u32) as u64, 4)
        .unwrap();

    assert_eq!(generator.pending(), 0);
}
