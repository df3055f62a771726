use ach::{Cell, MemoryState};

/// Of several attempts to set one empty cell, exactly the first succeeds
/// and its value is the one that stays.
#[test]
fn single_winner_set() {
    let mut cell: Cell<u32> = Cell::new();
    assert!(cell.try_set(10).is_ok());
    let second = cell.try_set(20).unwrap_err();
    assert_eq!(second.input, 20);
    assert!(!second.retry);
    assert_eq!(second.state, MemoryState::Initialized);
    let third = cell.try_set(30).unwrap_err();
    assert_eq!(third.input, 30);
    assert_eq!(cell.take().unwrap(), Some(10));
}

/// After an interleaving of gets and releases, the borrow count returns
/// to zero and a take succeeds.
#[test]
fn borrow_balance() {
    let mut cell: Cell<u32> = Cell::new();
    assert!(cell.set(9).is_ok());

    let a = cell.get().unwrap();
    let b = cell.get().unwrap();
    assert_eq!(cell.ref_num(), Ok(2));
    assert!(cell.release(a).is_none());
    let c = cell.get().unwrap();
    assert_eq!(cell.ref_num(), Ok(2));
    assert!(cell.release(c).is_none());
    assert!(cell.release(b).is_none());
    assert_eq!(cell.ref_num(), Ok(0));

    assert_eq!(cell.take().unwrap(), Some(9));
}

#[test]
fn get_errors() {
    let mut cell: Cell<u32> = Cell::new();
    let empty = cell.try_get().unwrap_err();
    assert_eq!(empty.state, MemoryState::Uninitialized);
    assert!(!empty.retry);

    assert!(cell.set(5).is_ok());
    let guard = cell.get().unwrap();
    assert!(cell.take().is_err());
    // once removal is announced, new borrows are refused transiently
    let pending = cell.try_get().unwrap_err();
    assert_eq!(pending.state, MemoryState::Unknown);
    assert!(pending.retry);
    assert_eq!(cell.release(guard), Some(5));
}

#[test]
fn take_errors() {
    let mut cell: Cell<u32> = Cell::new();
    assert_eq!(cell.try_take().unwrap(), None);

    assert!(cell.set(7).is_ok());
    let guard = cell.get().unwrap();
    let deferred = cell.try_take().unwrap_err();
    assert_eq!(deferred.state, MemoryState::Peeking);
    assert!(deferred.retry);
    let deferred = cell.try_replace(8).unwrap_err();
    assert_eq!(deferred.state, MemoryState::Peeking);
    assert_eq!(deferred.input, 8);
    assert!(deferred.retry);
    assert_eq!(cell.release(guard), Some(7));
}

#[test]
fn get_or_init_behaviour() {
    let mut cell: Cell<u32> = Cell::new();
    let guard = cell.get_or_init(11);
    assert_eq!(cell.ref_num(), Ok(1));
    assert_eq!(*cell.peek(), 11);
    let again = cell.get_or_try_init(12).unwrap();
    assert_eq!(cell.ref_num(), Ok(2));
    assert_eq!(*cell.peek(), 11);
    assert!(cell.release(guard).is_none());
    assert!(cell.release(again).is_none());
    assert_eq!(cell.take().unwrap(), Some(11));
}

#[test]
fn new_with_starts_initialized() {
    let mut cell = Cell::new_with(3u32);
    assert!(cell.is_initialized());
    assert_eq!(cell.ref_num(), Ok(0));
    assert_eq!(cell.replace(4).unwrap(), Some(3));
    assert_eq!(cell.take().unwrap(), Some(4));
}

#[test]
fn remove_announces() {
    let mut cell: Cell<u32> = Cell::new();
    assert!(cell.set(1).is_ok());
    let guard = cell.get().unwrap();
    assert!(!cell.will_remove());
    cell.remove(&guard);
    assert!(cell.will_remove());
    assert_eq!(cell.release(guard), Some(1));
    assert!(!cell.will_remove());
}
