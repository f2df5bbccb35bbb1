use emulate_core::devices::clint::Clint;

#[test]
fn mtimecmp_8_byte_access() {
    let mut c = Clint::new();
    c.write(0x4000, 0x1122_3344_5566_7788, 8).unwrap();
    assert_eq!(c.mtimecmp, 0x1122_3344_5566_7788);
    assert_eq!(c.read(0x4000, 8).unwrap(), 0x1122_3344_5566_7788);
}

#[test]
fn mtimecmp_4_byte_halves_assemble() {
    let mut c = Clint::new();
    // Linux-style: write high half all-ones first, then low, then high.
    c.write(0x4004, 0xFFFF_FFFF, 4).unwrap();
    c.write(0x4000, 0xDEAD_BEEF, 4).unwrap();
    c.write(0x4004, 0x0000_00AB, 4).unwrap();
    assert_eq!(c.mtimecmp, 0x0000_00AB_DEAD_BEEF);
    // 32-bit reads return each half zero-extended.
    assert_eq!(c.read(0x4000, 4).unwrap(), 0xDEAD_BEEF);
    assert_eq!(c.read(0x4004, 4).unwrap(), 0x0000_00AB);
}

#[test]
fn mtime_4_and_8_byte_access() {
    let mut c = Clint::new();
    c.mtime = 0xAABB_CCDD_0011_2233;
    assert_eq!(c.read(0xBFF8, 8).unwrap(), 0xAABB_CCDD_0011_2233);
    assert_eq!(c.read(0xBFF8, 4).unwrap(), 0x0011_2233);
    assert_eq!(c.read(0xBFFC, 4).unwrap(), 0xAABB_CCDD);
    // 32-bit write replaces just the addressed half.
    c.write(0xBFF8, 0x4455_6677, 4).unwrap();
    assert_eq!(c.mtime, 0xAABB_CCDD_4455_6677);
    c.write(0xBFFC, 0x8899_0011, 4).unwrap();
    assert_eq!(c.mtime, 0x8899_0011_4455_6677);
}

#[test]
fn msip_and_mtip() {
    let mut c = Clint::new();
    assert!(!c.mtip()); // mtimecmp = u64::MAX at reset
    c.write(0x4000, 100, 8).unwrap();
    c.mtime = 99;
    assert!(!c.mtip());
    c.mtime = 100;
    assert!(c.mtip());

    assert_eq!(c.read(0x0, 4).unwrap(), 0);
    c.write(0x0, 1, 4).unwrap();
    assert!(c.msip);
    assert_eq!(c.read(0x0, 4).unwrap(), 1);
    c.write(0x0, 0xFFFF_FFFE, 4).unwrap(); // bit 0 clear
    assert!(!c.msip);
}

#[test]
fn unmapped_offsets_in_range() {
    let mut c = Clint::new();
    assert_eq!(c.read(0x8, 4).unwrap(), 0);
    assert_eq!(c.read(0x4008, 8).unwrap(), 0); // hart 1 mtimecmp: not mapped
    assert!(c.write(0x4008, 0x1234, 8).is_ok());
    assert_eq!(c.mtimecmp, u64::MAX); // untouched
}
