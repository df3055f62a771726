use ach::{MemoryRing, MemoryState, Ring};

/// Sequential shadow of heavy producer/consumer traffic: 1000 distinct
/// values each pushed once and popped once, in windows that wrap the ring
/// many times; nothing is lost, nothing is duplicated.
#[test]
fn no_loss_no_duplication() {
    let mut ring: Ring<usize, 100> = Ring::new();
    let mut popped = Vec::new();
    let mut next: usize = 0;
    while next < 1000 {
        while next < 1000 && ring.push(next).is_ok() {
            next += 1;
        }
        while let Ok(v) = ring.pop() {
            popped.push(v);
        }
    }
    assert!(ring.is_empty());
    assert_eq!(popped.len(), 1000);
    for (i, v) in popped.iter().enumerate() {
        assert_eq!(*v, i);
    }
}

#[test]
fn full_and_empty_errors() {
    let mut ring: Ring<u32, 2> = Ring::new();
    let empty = ring.try_pop().unwrap_err();
    assert_eq!(empty.state, MemoryState::Uninitialized);
    assert!(!empty.retry);

    assert!(ring.try_push(1).is_ok());
    assert!(ring.try_push(2).is_ok());
    assert!(ring.is_full());
    let full = ring.try_push(3).unwrap_err();
    assert_eq!(full.input, 3);
    assert_eq!(full.state, MemoryState::Initialized);
    assert!(!full.retry);
    assert_eq!(ring.len(), 2);
}

#[test]
fn clear_resets() {
    let mut ring: Ring<u32, 3> = Ring::new();
    assert!(ring.push(1).is_ok());
    assert!(ring.push(2).is_ok());
    ring.clear();
    assert!(ring.is_empty());
    assert!(ring.pop().is_err());
    assert!(ring.push(4).is_ok());
    assert_eq!(ring.pop().unwrap(), 4);
}

#[test]
fn cursor_domain() {
    // the cursor domain is the largest multiple of size * max_cycle that
    // fits in usize
    let size: usize = 3;
    let lap = size * MemoryRing::max_cycle();
    assert_eq!(MemoryRing::max_idx(size), usize::MAX / lap * lap);
    assert_eq!(MemoryRing::max_idx(1), usize::MAX / 0x0100_0000 * 0x0100_0000);
    assert_eq!(MemoryRing::cycle_of_idx(7, 3), 2);
    assert_eq!(MemoryRing::cycle_of_idx(0x0100_0000, 1), 0x0100_0000);
}
