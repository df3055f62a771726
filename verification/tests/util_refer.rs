use ach::{MemoryRefer, MemoryState};

#[test]
fn refer_test() {
    assert_eq!(
        MemoryRefer::from(MemoryState::Initialized).state(),
        MemoryState::Initialized
    );

    let mut refer = MemoryRefer::new();
    assert!(!refer.state().is_initialized());
    assert!(refer.ref_num().is_err());

    refer.set_state(MemoryState::Initialized);
    assert!(refer.state().is_initialized());
    assert_eq!(refer.ref_num(), Ok(0));

    refer.ref_add().unwrap();
    assert!(refer.state().is_initialized());
    assert_eq!(refer.ref_num(), Ok(1));

    refer.ref_sub().unwrap();
    assert!(refer.state().is_initialized());
    assert_eq!(refer.ref_num(), Ok(0));
    refer.ref_sub().unwrap();
    assert!(refer.state().is_initialized());
    assert_eq!(refer.ref_num(), Ok(0));
}

#[test]
fn refer_saturation() {
    // state byte Initialized, count already at the 24-bit maximum
    let mut refer = MemoryRefer::from(0x02FF_FFFFu32);
    assert_eq!(refer.ref_num(), Ok(MemoryRefer::max_refer()));
    refer.ref_add().unwrap();
    assert_eq!(refer.ref_num(), Ok(MemoryRefer::max_refer()));
    refer.ref_sub().unwrap();
    assert_eq!(refer.ref_num(), Ok(MemoryRefer::max_refer()));

    let mut erasing = MemoryRefer::from(MemoryState::Erasing);
    assert_eq!(erasing.ref_num(), Ok(0));
    assert_eq!(erasing.ref_add(), Err(MemoryState::Erasing));
    assert_eq!(u32::from(erasing), 0x0300_0000);
}
