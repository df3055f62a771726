use ach::{MemoryOp, Op};

#[test]
fn op_codes() {
    assert_eq!(u8::from(Op::Idle), 0);
    assert_eq!(u8::from(Op::Write), 1);
    assert_eq!(u8::from(Op::Take), 2);
    assert_eq!(u8::from(Op::Replace), 3);
    assert_eq!(u8::from(Op::Update), 4);
    assert_eq!(u8::from(Op::Remove), 5);
    assert_eq!(Op::from(5u8), Op::Remove);
    // the unassigned code falls back to Idle
    assert_eq!(Op::from(4u8), Op::Idle);
    assert_eq!(Op::from(77u8), Op::Idle);
}

#[test]
fn op_versions() {
    let mut op = MemoryOp::new();
    assert_eq!(op.op(), Op::Idle);
    assert_eq!(op.cur_version(), 0);
    assert_eq!(op.next_version(), 0);
    assert!(op.is_finished());

    let v = op.set_op(Op::Remove);
    assert_eq!(v, 1);
    assert_eq!(op.op(), Op::Remove);
    assert_eq!(op.cur_version(), 0);
    assert_eq!(op.next_version(), 1);
    assert!(!op.is_finished());

    op.finish();
    assert_eq!(op.op(), Op::Idle);
    assert_eq!(op.cur_version(), 1);
    assert_eq!(op.next_version(), 1);
    assert!(op.is_finished());

    let v = op.set_op(Op::Write);
    assert_eq!(v, 2);
    assert_eq!(op.op(), Op::Write);
    assert_eq!(op.cur_version(), 1);
    assert_eq!(op.next_version(), 2);

    // the version counter wraps after 4096 announcements
    let wrapping = MemoryOp::from(0xFFF0_0000u32);
    let mut wrapping = wrapping;
    assert_eq!(wrapping.next_version(), 0xFFF);
    let v = wrapping.set_op(Op::Take);
    assert_eq!(v, 0);
    assert_eq!(u32::from(wrapping), 2);
}
