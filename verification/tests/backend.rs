use rapidlog::backend::WorkerStep;
use rapidlog::arg::{op_signed_int, Encode};
use rapidlog::formatter::PatternFormatter;
use rapidlog::message::{LogMessage, ARCHIVED_HEADER_SIZE};
use rapidlog::metadata::{empty_string_tables_provider, empty_user_formatters_provider, Metadata};
use rapidlog::text::Token;
use rapidlog::{Backend, BackendOptions, Filter, LevelFilter, LogLevel};

fn render(tokens: &[Token]) -> String {
    let mut bytes: Vec<u8> = Vec::new();
    for t in tokens {
        match t {
            Token::Byte(b) => bytes.push(*b),
            Token::F32(bits) => bytes.extend_from_slice(format!("{}", f32::from_bits(*bits)).as_bytes()),
            Token::F64(bits) => bytes.extend_from_slice(format!("{}", f64::from_bits(*bits)).as_bytes()),
        }
    }
    String::from_utf8(bytes).unwrap()
}

fn schema_one_i32() -> &'static [u8] {
    Box::leak(Box::new([1u8, op_signed_int(3)]))
}

fn schema_two_i32() -> &'static [u8] {
    Box::leak(Box::new([2u8, op_signed_int(3), op_signed_int(3)]))
}

fn meta(level: LogLevel, fmt: &'static str, file: &'static str, line: u32, schemas: &'static [u8]) -> Metadata {
    Metadata::new(
        level,
        fmt,
        file,
        line,
        "test",
        schemas,
        empty_string_tables_provider(),
        empty_user_formatters_provider(),
    )
}

fn record(ts: u64, payload_len: usize) -> Vec<u8> {
    let mut buf = vec![0u8; ARCHIVED_HEADER_SIZE + payload_len];
    LogMessage::new(ts, 0, 0, payload_len as u16).serialize_header_into(&mut buf);
    buf
}

#[test]
fn format_message_output() {
    let m = meta(LogLevel::Warning, "fmt: {} {}", "src/main.rs", 42, schema_two_i32());
    let mut buf = record(1_700_000_001, 8);
    123i32.encode_to(&mut buf[ARCHIVED_HEADER_SIZE..]);
    456i32.encode_to(&mut buf[ARCHIVED_HEADER_SIZE + 4..]);
    let decoded = LogMessage::decode(&buf).unwrap();
    let payload = &buf[ARCHIVED_HEADER_SIZE..];
    let formatted = render(&Backend::format_message(decoded.timestamp_ns, &m, payload, None));
    assert!(formatted.contains("fmt: 123 456"), "got: {formatted}");
    assert!(formatted.contains("[Warning]"), "got: {formatted}");
    assert!(formatted.contains("src/main.rs:42"), "got: {formatted}");
    assert_eq!(formatted, "[1.700000001] [Warning] src/main.rs:42 fmt: 123 456");
}

#[test]
fn format_message_with_custom_pattern() {
    let m = meta(LogLevel::Error, "error {}", "src/lib.rs", 100, schema_one_i32());
    let mut buf = record(1_700_000_010_000_000_000, 4);
    99i32.encode_to(&mut buf[ARCHIVED_HEADER_SIZE..]);
    let decoded = LogMessage::decode(&buf).unwrap();
    let payload = &buf[ARCHIVED_HEADER_SIZE..];
    let fmt = PatternFormatter::new("[%l] %F:%L — %v");
    let formatted = render(&Backend::format_message(decoded.timestamp_ns, &m, payload, Some(&fmt)));
    assert!(formatted.starts_with("[Error] src/lib.rs:100"), "got: {formatted}");
    assert!(formatted.contains("error 99"), "got: {formatted}");
}

#[test]
fn decode_batch_sorts_by_timestamp_and_drops_short_records() {
    let raw = vec![record(300, 0), vec![1u8, 2, 3], record(100, 0), record(200, 0)];
    let batch = Backend::decode_batch(raw);
    let ts: Vec<u64> = batch.iter().map(|(h, _)| h.timestamp_ns).collect();
    assert_eq!(ts, vec![100, 200, 300]);
}

#[test]
fn process_record_applies_level_and_filters() {
    let m = meta(LogLevel::Info, "value {}", "t.rs", 7, schema_one_i32());
    let mut buf = record(5_000_000_123, 4);
    11i32.encode_to(&mut buf[ARCHIVED_HEADER_SIZE..]);
    let header = LogMessage::decode(&buf).unwrap();

    let line = Backend::process_record(&header, &buf, &m, LogLevel::Debug, &[], None).unwrap();
    assert_eq!(render(&line), "[5.000000123] [Info] t.rs:7 value 11");

    assert!(Backend::process_record(&header, &buf, &m, LogLevel::Warning, &[], None).is_none());

    let err_only = LevelFilter::new(LogLevel::Error);
    let filters: Vec<&dyn Filter> = vec![&err_only];
    assert!(Backend::process_record(&header, &buf, &m, LogLevel::TraceL3, &filters, None).is_none());
}

#[test]
fn backend_defaults() {
    let opts = BackendOptions::default();
    assert_eq!(opts.min_batch_size, 256);
    assert!(opts.pattern_formatter.is_none());
    assert_eq!(opts.sleep_duration, std::time::Duration::from_millis(1));
    assert!(Backend::should_deliver(LogLevel::Info, LogLevel::Info));
    assert!(!Backend::should_deliver(LogLevel::Debug, LogLevel::Info));
    assert!(Backend::wants_more(1, 256));
    assert!(!Backend::wants_more(256, 256));
}

#[test]
fn worker_sleeps_gathers_or_processes_after_a_poll() {
    assert_eq!(Backend::next_step(true, 0, 0, 10, false), WorkerStep::Sleep);
    assert_eq!(Backend::next_step(false, 0, 4, 10, false), WorkerStep::Process);
    assert_eq!(Backend::next_step(true, 3, 3, 10, false), WorkerStep::Gather);
    assert_eq!(Backend::next_step(true, 3, 3, 10, true), WorkerStep::Process);
    assert_eq!(Backend::next_step(false, 2, 10, 10, false), WorkerStep::Process);
    assert_eq!(Backend::next_step(true, 1, 1, 1, false), WorkerStep::Process);
}
