use rapidlog::LogLevel;

#[test]
fn level_rank_roundtrip() {
    let levels = [
        LogLevel::TraceL3,
        LogLevel::TraceL2,
        LogLevel::TraceL1,
        LogLevel::Debug,
        LogLevel::Info,
        LogLevel::Warning,
        LogLevel::Error,
        LogLevel::Critical,
    ];
    for (i, l) in levels.iter().enumerate() {
        assert_eq!(l.as_usize(), i);
        assert_eq!(LogLevel::from_usize(i), Some(*l));
    }
    assert_eq!(LogLevel::from_usize(8), None);
    assert!(LogLevel::Warning > LogLevel::Info);
}

#[test]
fn level_byte_reads_back() {
    assert_eq!(rapidlog::logger::level_from_byte(6), LogLevel::Error);
    assert_eq!(rapidlog::logger::level_from_byte(200), LogLevel::Info);
}
