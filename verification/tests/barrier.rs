use groupsim::barrier::Barrier;

#[test]
fn no_release_until_every_signal_arrived() {
    // Two groups of three clients each: six signals expected.
    let mut barrier = Barrier::new(6);
    assert!(!barrier.is_released());
    barrier.record_group_finished(3);
    assert!(!barrier.is_released());
    barrier.record_group_finished(3);
    assert!(!barrier.is_released());
    barrier.release();
    assert!(barrier.is_released());
}

#[test]
fn signals_count_one_by_one() {
    let mut barrier = Barrier::new(3);
    for _ in 0..3 {
        assert!(!barrier.is_released());
        barrier.record_finished();
    }
    assert!(!barrier.is_released());
    barrier.release();
    assert!(barrier.is_released());
}
