use groupsim::latency::{average, try_average, LatencyAggregator};

#[test]
fn average_of_three_samples() {
    assert_eq!(average(&vec![10, 20, 30]), 20);
}

#[test]
fn average_floors_the_quotient() {
    assert_eq!(average(&vec![1, 2]), 1);
    assert_eq!(average(&vec![5]), 5);
}

#[test]
fn empty_input_is_guarded() {
    assert_eq!(try_average(&vec![]), None);
}

#[test]
fn overflowing_sum_is_guarded() {
    assert_eq!(try_average(&vec![u64::MAX, 1]), None);
    assert_eq!(try_average(&vec![u64::MAX]), Some(u64::MAX));
}

#[test]
fn guarded_average_matches_average() {
    assert_eq!(try_average(&vec![10, 20, 30]), Some(20));
}

#[test]
fn aggregator_records_and_averages() {
    let mut aggregator = LatencyAggregator::new();
    assert_eq!(aggregator.count(), 0);
    aggregator.record(10);
    aggregator.record(20);
    aggregator.record(30);
    assert_eq!(aggregator.count(), 3);
    assert_eq!(aggregator.average(), 20);
}
