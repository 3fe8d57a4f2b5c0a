use rapidlog::sinks::{RotationPolicy, TimeInterval};
use rapidlog::{NullSink, Sink};

#[test]
fn write_and_flush_no_panic() {
    let sink = NullSink;
    sink.write("anything");
    sink.write("can go here");
    sink.flush();
}

#[test]
fn rotation_due_by_size_counts_the_newline() {
    let policy = RotationPolicy::SizeBased { max_bytes: 20 };
    assert!(!policy.due(0, 19, false));
    assert!(policy.due(0, 20, false));
    assert!(policy.due(10, 10, false));
    assert!(policy.due(u64::MAX, 0, false));
}

#[test]
fn rotation_due_by_time_follows_the_deadline() {
    let policy = RotationPolicy::TimeBased { interval: TimeInterval::Hourly };
    assert!(!policy.due(1_000_000, 1_000_000, false));
    assert!(policy.due(0, 0, true));
    assert_eq!(policy.period_secs(), 3600);
    assert_eq!(RotationPolicy::TimeBased { interval: TimeInterval::Daily }.period_secs(), 86400);
    assert_eq!(RotationPolicy::SizeBased { max_bytes: 1 }.period_secs(), 86400 * 365 * 100);
}

#[test]
fn null_sink_is_send_sync() {
    fn assert_send<T: Send>() {}
    fn assert_sync<T: Sync>() {}
    assert_send::<NullSink>();
    assert_sync::<NullSink>();
}
