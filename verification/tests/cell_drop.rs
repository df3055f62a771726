use ach::Cell;
use on_drop::OnDrop;

#[test]
fn test() {
    let mut cell = Cell::new();

    let (item, token) = OnDrop::token(1);
    assert!(cell.set(item).is_ok());
    drop(cell.take().unwrap());
    assert!(token.is_droped());

    let (item, token) = OnDrop::token(1);
    assert!(cell.set(item).is_ok());
    drop(cell);
    assert!(token.is_droped());
}

/// A value marked for removal while borrowed is destroyed exactly once,
/// by the release of the last borrow.
#[test]
fn deferred_drop() {
    let mut cell = Cell::new();
    let (item, token) = OnDrop::token(1);
    assert!(cell.set(item).is_ok());

    let guard = cell.get().unwrap();
    let second = cell.get().unwrap();
    assert_eq!(cell.ref_num(), Ok(2));

    assert!(cell.take().is_err());
    assert!(cell.will_remove());
    assert!(!token.is_droped());

    assert!(cell.release(second).is_none());
    assert!(!token.is_droped());
    assert_eq!(cell.ref_num(), Ok(1));

    let removed = cell.release(guard);
    assert!(removed.is_some());
    assert!(!token.is_droped());
    drop(removed);
    assert!(token.is_droped());
    assert!(!cell.is_initialized());
}
