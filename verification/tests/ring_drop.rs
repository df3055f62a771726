use ach::Ring;
use on_drop::OnDrop;

#[test]
fn drop_test() {
    let mut vec: Ring<_, 3> = Ring::new();
    let (item, token) = OnDrop::token(1);
    assert!(vec.push(item).is_ok());
    drop(vec.pop().unwrap());
    assert!(token.is_droped());

    let (item, token) = OnDrop::token(1);
    assert!(vec.push(item).is_ok());
    drop(vec);
    assert!(token.is_droped());
}
