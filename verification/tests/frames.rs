use athena::frames::{PhysAddr, RawFrame, UnalignedAddress, FRAME_SIZE};

#[test]
fn frame_size_is_four_kib() {
    assert_eq!(FRAME_SIZE, 4096);
}

#[test]
fn phys_addr_round_trips() {
    assert_eq!(PhysAddr::new(0x1234_5678).as_u64(), 0x1234_5678);
    assert_eq!(PhysAddr::new(0).as_u64(), 0);
    assert_eq!(PhysAddr::new(u64::MAX).as_u64(), u64::MAX);
}

#[test]
fn from_start_address_keeps_the_address() {
    let frame = RawFrame::from_start_address(PhysAddr::new(0x10_0000));
    assert_eq!(frame.start_address().as_u64(), 0x10_0000);
}

#[test]
fn try_from_start_address_accepts_aligned() {
    let frame = RawFrame::try_from_start_address(PhysAddr::new(0x2000));
    assert_eq!(frame.map(|f| f.start_address().as_u64()), Ok(0x2000));
    let zero = RawFrame::try_from_start_address(PhysAddr::new(0));
    assert_eq!(zero.map(|f| f.start_address().as_u64()), Ok(0));
}

#[test]
fn try_from_start_address_rejects_unaligned() {
    assert_eq!(RawFrame::try_from_start_address(PhysAddr::new(0x2001)), Err(UnalignedAddress));
    assert_eq!(RawFrame::try_from_start_address(PhysAddr::new(4095)), Err(UnalignedAddress));
    assert_eq!(RawFrame::try_from_start_address(PhysAddr::new(u64::MAX)), Err(UnalignedAddress));
}

#[test]
fn within_frame_rounds_down() {
    assert_eq!(RawFrame::within_frame(PhysAddr::new(0x2abc)).start_address().as_u64(), 0x2000);
    assert_eq!(RawFrame::within_frame(PhysAddr::new(0x2000)).start_address().as_u64(), 0x2000);
    assert_eq!(RawFrame::within_frame(PhysAddr::new(0x2fff)).start_address().as_u64(), 0x2000);
    assert_eq!(RawFrame::within_frame(PhysAddr::new(0xfff)).start_address().as_u64(), 0);
    assert_eq!(
        RawFrame::within_frame(PhysAddr::new(u64::MAX)).start_address().as_u64(),
        0xffff_ffff_ffff_f000
    );
}

#[test]
fn frames_compare_by_address() {
    let a = RawFrame::from_start_address(PhysAddr::new(0x3000));
    let b = RawFrame::within_frame(PhysAddr::new(0x3010));
    let c = RawFrame::from_start_address(PhysAddr::new(0x4000));
    assert_eq!(a, b);
    assert_ne!(a, c);
}

#[test]
fn frames_and_addresses_are_ordered_by_address() {
    let low = RawFrame::from_start_address(PhysAddr::new(0x3000));
    let high = RawFrame::from_start_address(PhysAddr::new(0x4000));
    assert!(low < high);
    assert!(high > low);
    assert!(low <= low);
    assert!(!(high < low));
    assert_eq!(low.partial_cmp(&high), Some(std::cmp::Ordering::Less));
    assert_eq!(high.partial_cmp(&low), Some(std::cmp::Ordering::Greater));
    assert_eq!(low.partial_cmp(&low), Some(std::cmp::Ordering::Equal));
    assert_eq!(low.cmp(&high), std::cmp::Ordering::Less);
    assert!(PhysAddr::new(1) < PhysAddr::new(2));
    assert!(PhysAddr::new(u64::MAX) > PhysAddr::new(0));
    assert_eq!(PhysAddr::new(7).max(PhysAddr::new(9)), PhysAddr::new(9));
    let mut frames = vec![high, low];
    frames.sort();
    assert_eq!(frames, vec![low, high]);
}
