use ach::Ring;

#[test]
fn base_base() {
    let mut vec: Ring<usize, 3> = Ring::new();
    assert_eq!(vec.capacity(), 3);
    assert!(vec.is_empty());

    assert!(vec.push(1).is_ok());
    assert!(!vec.is_empty());
    assert!(vec.push(2).is_ok());
    assert!(vec.push(3).is_ok());
    assert!(vec.push(4).is_err());
    assert_eq!(vec.pop().unwrap(), 1);
    assert!(vec.push(5).is_ok());
    assert_eq!(vec.pop().unwrap(), 2);
    assert_eq!(vec.pop().unwrap(), 3);
    assert_eq!(vec.pop().unwrap(), 5);
    assert!(vec.pop().is_err());
    assert!(vec.push(6).is_ok());
}
