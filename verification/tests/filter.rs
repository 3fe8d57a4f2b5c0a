use rapidlog::metadata::{empty_string_tables_provider, empty_user_formatters_provider, Metadata};
use rapidlog::{Filter, LevelFilter, LogLevel};

fn meta_at(level: LogLevel) -> Metadata {
    Metadata::new(
        level,
        "test",
        "f.rs",
        1,
        "mod",
        &[],
        empty_string_tables_provider(),
        empty_user_formatters_provider(),
    )
}

#[test]
fn level_filter_accepts_same() {
    let filter = LevelFilter::new(LogLevel::Warning);
    assert!(filter.accept(&meta_at(LogLevel::Warning), &[]));
}

#[test]
fn level_filter_rejects_lower() {
    let filter = LevelFilter::new(LogLevel::Error);
    assert!(!filter.accept(&meta_at(LogLevel::Warning), &[]));
}

#[test]
fn level_filter_accepts_higher() {
    let filter = LevelFilter::new(LogLevel::Info);
    assert!(filter.accept(&meta_at(LogLevel::Critical), &[]));
}

#[test]
fn level_filter_order_over_all_levels() {
    let levels = [
        LogLevel::TraceL3,
        LogLevel::TraceL2,
        LogLevel::TraceL1,
        LogLevel::Debug,
        LogLevel::Info,
        LogLevel::Warning,
        LogLevel::Error,
        LogLevel::Critical,
    ];
    for (i, min) in levels.iter().enumerate() {
        let filter = LevelFilter::new(*min);
        for (j, lvl) in levels.iter().enumerate() {
            assert_eq!(filter.accept(&meta_at(*lvl), &[1, 2, 3]), j >= i);
        }
    }
}

#[test]
fn all_accept_combines_filters() {
    let warn = LevelFilter::new(LogLevel::Warning);
    let err = LevelFilter::new(LogLevel::Error);
    let filters: Vec<&dyn Filter> = vec![&warn, &err];
    assert!(rapidlog::filter::all_accept(&filters, &meta_at(LogLevel::Error), &[]));
    assert!(!rapidlog::filter::all_accept(&filters, &meta_at(LogLevel::Warning), &[]));
    assert!(rapidlog::filter::all_accept(&[], &meta_at(LogLevel::TraceL3), &[]));
}
