use ach::MemoryState;

#[test]
fn state_test() {
    assert_eq!(
        MemoryState::Uninitialized,
        u8::from(MemoryState::Uninitialized).into()
    );
    assert_eq!(
        MemoryState::Initializing,
        u8::from(MemoryState::Initializing).into()
    );
    assert_eq!(
        MemoryState::Initialized,
        u8::from(MemoryState::Initialized).into()
    );
    assert_eq!(MemoryState::Erasing, u8::from(MemoryState::Erasing).into());
    assert_eq!(
        MemoryState::Regaining,
        u8::from(MemoryState::Regaining).into()
    );

    assert!(MemoryState::Uninitialized.is_uninitialized());
    assert!(MemoryState::Initializing.is_initializing());
    assert!(MemoryState::Initialized.is_initialized());
    assert!(MemoryState::Erasing.is_erasing());
    assert!(MemoryState::Regaining.is_regaining());
}

#[test]
fn state_extra() {
    assert_eq!(u8::from(MemoryState::Peeking), 4);
    // the Peeking code is unassigned: borrowed-ness is only ever encoded
    // by magnitude, so decoding it gives Unknown
    assert_eq!(MemoryState::from(4u8), MemoryState::Unknown);
    assert!(MemoryState::Peeking.is_peeking());
    assert!(MemoryState::Unknown.is_unknown());
    assert_eq!(MemoryState::from(200u8), MemoryState::Unknown);

    assert!(MemoryState::Initializing.is_transient());
    assert!(MemoryState::Erasing.is_transient());
    assert!(MemoryState::Regaining.is_transient());
    assert!(!MemoryState::Uninitialized.is_transient());
    assert!(!MemoryState::Initialized.is_transient());
    assert!(!MemoryState::Peeking.is_transient());

    assert!(MemoryState::Uninitialized < MemoryState::Initializing);
    assert!(MemoryState::Initialized < MemoryState::Erasing);
}
