use ach::Cell;

#[test]
fn base() {
    let mut cell: Cell<usize> = Cell::new();

    assert!(cell.set(1).is_ok());
    assert!(cell.is_initialized());
    assert!(cell.set(2).is_err());
    assert_eq!(cell.take().unwrap(), Some(1));
    assert!(!cell.is_initialized());
    assert!(cell.take().unwrap().is_none());

    assert!(cell.ref_num().is_err());
    assert!(cell.set(3).is_ok());
    assert_eq!(cell.ref_num(), Ok(0));
    let refer = cell.get().unwrap();
    assert_eq!(cell.ref_num(), Ok(1));
    assert_eq!(*cell.peek(), 3);
    // taking while borrowed fails and defers the removal to the last guard
    assert!(cell.take().is_err());
    assert!(cell.will_remove());
    assert_eq!(cell.release(refer), Some(3));
    assert_eq!(cell.take().unwrap(), None);

    assert!(cell.set(4).is_ok());
    let refer = cell.get().unwrap();
    assert_eq!(*cell.peek(), 4);
    assert_eq!(cell.release(refer), None);
    assert_eq!(cell.take().unwrap(), Some(4));

    assert_eq!(cell.replace(5).unwrap(), None);
    assert_eq!(cell.replace(6).unwrap(), Some(5));
    let refer = cell.get().unwrap();
    // replacing while borrowed hands the input back and defers the removal
    assert_eq!(cell.replace(7).unwrap_err().input, 7);
    assert_eq!(cell.release(refer), Some(6));
    assert_eq!(cell.replace(8).unwrap(), None);
    assert_eq!(cell.take().unwrap(), Some(8));
}
