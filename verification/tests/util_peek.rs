use ach::{MemoryPeek, MemoryState};

#[test]
fn peek_test() {
    assert_eq!(MemoryPeek::new().state(), MemoryState::Uninitialized);

    assert_eq!(
        MemoryPeek::from(MemoryState::Initialized).state(),
        MemoryState::Initialized
    );

    assert_eq!(MemoryPeek::from(256u32).peek_num(), Ok(1));

    let mut peek = MemoryPeek::new();
    assert!(!peek.is_peekable());
    assert!(peek.peek_num().is_err());

    peek.set_state(MemoryState::Initialized).unwrap();
    assert!(peek.state().is_initialized());
    assert!(peek.is_peekable());
    assert_eq!(peek.peek_num(), Ok(0));

    peek.peek_add().unwrap();
    assert!(peek.set_state(MemoryState::Initialized).is_err());
    assert!(peek.state().is_peeking());
    assert_eq!(peek.peek_num(), Ok(1));

    peek.peek_sub().unwrap();
    assert!(peek.state().is_initialized());
    assert_eq!(peek.peek_num(), Ok(0));
    peek.peek_sub().unwrap();
    assert!(peek.state().is_initialized());
    assert_eq!(peek.peek_num(), Ok(0));
}

#[test]
fn peekable_iff_counted() {
    // a word holding the raw Peeking code is no borrowed word: both
    // is_peekable and peek_num refuse it
    let raw4 = MemoryPeek::from(4u32);
    assert!(!raw4.is_peekable());
    assert!(raw4.peek_num().is_err());
    assert!(raw4.state().is_unknown());
}

#[test]
fn peek_saturation() {
    // the largest borrow count the word can hold
    let mut peek = MemoryPeek::from(0x00FF_FFFFu32);
    let max = 0x00FF_FFFF - 256 + 1;
    assert_eq!(peek.peek_num(), Ok(max));
    peek.peek_add().unwrap();
    assert_eq!(peek.peek_num(), Ok(max));
    peek.peek_sub().unwrap();
    assert_eq!(peek.peek_num(), Ok(max));
    assert_eq!(u32::from(peek), 0x00FF_FFFF);
}
