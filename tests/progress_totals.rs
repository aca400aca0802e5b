use cryptosift::progress::{Message, ProgressAggregator};

#[test]
fn latest_report_replaces_earlier_one() {
    let mut agg = ProgressAggregator::new();
    agg.record(Message { progress: 100, id: 0 });
    agg.record(Message { progress: 50, id: 1 });
    agg.record(Message { progress: 300, id: 0 });
    assert_eq!(agg.total(), 350);
}

#[test]
fn empty_total_is_zero() {
    assert_eq!(ProgressAggregator::new().total(), 0);
}

#[test]
fn total_saturates() {
    let mut agg = ProgressAggregator::new();
    agg.record(Message { progress: usize::MAX, id: 0 });
    agg.record(Message { progress: 5, id: 1 });
    assert_eq!(agg.total(), usize::MAX);
}

#[test]
fn interleaved_workers() {
    let mut agg = ProgressAggregator::new();
    for step in 0..10usize {
        for id in 0..4usize {
            agg.record(Message { progress: step * 10 + id, id });
        }
    }
    assert_eq!(agg.total(), 90 * 4 + 6);
}
