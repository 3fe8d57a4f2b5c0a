use rapidlog::metadata::{empty_string_tables_provider, empty_user_formatters_provider, Metadata};
use rapidlog::LogLevel;

fn empty_schemas() -> &'static [u8] {
    &[]
}

#[test]
fn new_metadata() {
    let meta = Metadata::new(
        LogLevel::Info,
        "test fmt {}",
        "tests/metadata.rs",
        12,
        "metadata",
        empty_schemas(),
        empty_string_tables_provider(),
        empty_user_formatters_provider(),
    );
    assert_eq!(meta.level, LogLevel::Info);
    assert_eq!(meta.format_str, "test fmt {}");
    assert!(meta.file.contains("metadata.rs"));
    assert!(meta.line > 0);
    assert!(meta.module.contains("metadata"));
}

#[test]
fn metadata_per_level() {
    for level in [
        LogLevel::TraceL3,
        LogLevel::TraceL2,
        LogLevel::TraceL1,
        LogLevel::Debug,
        LogLevel::Info,
        LogLevel::Warning,
        LogLevel::Error,
        LogLevel::Critical,
    ] {
        let meta = Metadata::new(
            level,
            "",
            "",
            0,
            "",
            empty_schemas(),
            empty_string_tables_provider(),
            empty_user_formatters_provider(),
        );
        assert_eq!(meta.level, level);
    }
}
