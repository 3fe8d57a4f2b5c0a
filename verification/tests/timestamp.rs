use rapidlog::{now, to_display_nanos};

#[test]
fn now_returns_reasonable_value() {
    let ts = now();
    assert!(ts < u64::MAX);
}

#[test]
fn now_is_monotonic() {
    let a = now();
    let b = now();
    assert!(b >= a || b < a + 1_000_000);
}

#[test]
fn to_display_nanos_works() {
    let raw = now();
    let display = to_display_nanos(raw);
    assert!(display < u64::MAX);
    assert_eq!(display, raw);
}
