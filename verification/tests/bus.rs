use emulate_core::bus::{
    Bus, VIRTIO_KBD_BASE, VIRTIO_NET_BASE, VIRTIO_RNG_BASE, VIRTIO_TABLET_BASE,
};

#[test]
fn second_virtio_slot_dispatches_to_entropy_device() {
    let mut bus = Bus::new(8);

    assert_eq!(bus.read(VIRTIO_RNG_BASE + 0x008, 4), Ok(4));

    bus.write(VIRTIO_RNG_BASE + 0x070, 15, 4).unwrap();
    assert_eq!(bus.read(VIRTIO_RNG_BASE + 0x070, 4), Ok(15));
    bus.write(VIRTIO_RNG_BASE + 0x070, 0, 4).unwrap();
    assert_eq!(bus.read(VIRTIO_RNG_BASE + 0x070, 4), Ok(0));
}

#[test]
fn third_virtio_slot_dispatches_to_network_device() {
    let mut bus = Bus::new(8);

    assert_eq!(bus.read(VIRTIO_NET_BASE + 0x008, 4), Ok(1));
    // MAC lives in configuration space and is read byte-wise by Linux.
    assert_eq!(bus.read(VIRTIO_NET_BASE + 0x100, 1), Ok(0x52));
    assert_eq!(bus.read(VIRTIO_NET_BASE + 0x105, 1), Ok(0x56));

    bus.write(VIRTIO_NET_BASE + 0x070, 15, 4).unwrap();
    assert_eq!(bus.read(VIRTIO_NET_BASE + 0x070, 4), Ok(15));
    assert!(bus.write_accessible(VIRTIO_NET_BASE, 4));
}

#[test]
fn fourth_and_fifth_virtio_slots_dispatch_to_the_input_devices() {
    let mut bus = Bus::new(8);

    // Device ID 18 = virtio input, at both slots.
    assert_eq!(bus.read(VIRTIO_KBD_BASE + 0x008, 4), Ok(18));
    assert_eq!(bus.read(VIRTIO_TABLET_BASE + 0x008, 4), Ok(18));
    assert!(bus.write_accessible(VIRTIO_KBD_BASE, 4));
    assert!(bus.write_accessible(VIRTIO_TABLET_BASE, 4));

    // Configuration space is byte-addressed and tells the two apart.
    bus.write(VIRTIO_KBD_BASE + 0x100, 0x01, 1).unwrap();
    assert_eq!(bus.read(VIRTIO_KBD_BASE + 0x108, 1), Ok(u64::from(b'e')));
    bus.write(VIRTIO_TABLET_BASE + 0x100, 0x01, 1).unwrap();
    assert_eq!(bus.read(VIRTIO_TABLET_BASE + 0x102, 1), Ok(14));
}
