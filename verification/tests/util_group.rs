use ach::{MemoryGroup, MemoryRing, MemoryState};

#[test]
fn group_test() {
    let mut cycle = MemoryRing::new(0, MemoryState::Uninitialized);
    assert_eq!(cycle.cycle(), 0);
    assert!(cycle.state().is_uninitialized());

    cycle.set_cycle(1);
    assert_eq!(cycle.cycle(), 1);
    cycle.set_cycle(MemoryRing::max_cycle());
    assert_eq!(cycle.cycle(), 0);
    cycle.set_state(MemoryState::Initialized);
    assert!(cycle.state().is_initialized());

    cycle.set_cycle(MemoryRing::max_cycle() - 1);
    cycle.set_state(MemoryState::Erasing);
    let cycle_next = cycle.next();
    assert_eq!(cycle_next.cycle(), 0);
    assert!(cycle_next.state().is_uninitialized());
    assert!(cycle_next > cycle);

    assert!(
        MemoryRing::new(0, MemoryState::Uninitialized)
            < MemoryRing::new(0, MemoryState::Initializing)
    );
    assert!(
        MemoryRing::new(0, MemoryState::Initializing)
            < MemoryRing::new(0, MemoryState::Initialized)
    );
    assert!(
        MemoryRing::new(0, MemoryState::Initialized) < MemoryRing::new(0, MemoryState::Erasing)
    );
    assert!(
        MemoryRing::new(0, MemoryState::Erasing) < MemoryRing::new(1, MemoryState::Uninitialized)
    );
}

#[test]
fn group_word() {
    let mut g = MemoryGroup::new(0, MemoryState::Uninitialized);
    assert_eq!(g.group(), 0);
    assert!(g.state().is_uninitialized());

    g.set_group(7);
    assert_eq!(g.group(), 7);
    g.set_state(MemoryState::Erasing);
    let next = g.next();
    assert_eq!(next.group(), 8);
    assert!(next.state().is_uninitialized());
    assert_eq!(MemoryGroup::max_group(), 0x0100_0000);

    let wrapped = MemoryGroup::new(MemoryGroup::max_group() - 1, MemoryState::Erasing).next();
    assert_eq!(wrapped.group(), 0);
}
