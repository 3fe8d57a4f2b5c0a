use rapidlog::formatter::{FormattedRecord, PatternFormatter};
use rapidlog::text::Token;
use rapidlog::LogLevel;

fn render(tokens: &[Token]) -> String {
    let mut bytes: Vec<u8> = Vec::new();
    for t in tokens {
        match t {
            Token::Byte(b) => bytes.push(*b),
            Token::F32(bits) => bytes.extend_from_slice(format!("{}", f32::from_bits(*bits)).as_bytes()),
            Token::F64(bits) => bytes.extend_from_slice(format!("{}", f64::from_bits(*bits)).as_bytes()),
        }
    }
    String::from_utf8(bytes).unwrap()
}

fn tokens(s: &str) -> Vec<Token> {
    s.bytes().map(Token::Byte).collect()
}

fn format_with(pattern: &str, body: &str) -> String {
    let fmt = PatternFormatter::new(pattern);
    let body = tokens(body);
    let record = FormattedRecord {
        timestamp_secs: 1_700_000_001,
        timestamp_nanos: 123_456_789,
        level: &LogLevel::Warning,
        file: "src/main.rs",
        line: 42,
        body: &body,
    };
    render(&fmt.format(&record))
}

#[test]
fn default_pattern_matches_current_format() {
    let output = format_with("[%s.%f] [%l] %F:%L %v", "test body");
    assert!(output.contains("[1700000001.123456789]"));
    assert!(output.contains("[Warning]"));
    assert!(output.contains("src/main.rs:42"));
    assert!(output.contains("test body"));
}

#[test]
fn custom_date_pattern() {
    let output = format_with("%Y-%m-%d %H:%M:%S", "ignored");
    assert!(output.starts_with("202"));
    assert_eq!(output.len(), 19);
}

#[test]
fn level_specifier() {
    assert_eq!(format_with("%l", ""), "Warning");
}

#[test]
fn file_and_line_specifiers() {
    assert_eq!(format_with("%F:%L", ""), "src/main.rs:42");
}

#[test]
fn body_specifier() {
    assert_eq!(format_with("%v", "hello world"), "hello world");
}

#[test]
fn literal_text() {
    assert_eq!(format_with("prefix %v suffix", "mid"), "prefix mid suffix");
}

#[test]
fn unknown_specifier() {
    assert_eq!(format_with("%x is unknown", ""), "%x is unknown");
}

#[test]
fn empty_args_format() {
    assert_eq!(format_with("[%l] %v", "no args here"), "[Warning] no args here");
}

#[test]
fn utc_date_of_a_known_instant() {
    // 1_700_000_001 s after the epoch is 2023-11-14 22:13:21 UTC.
    assert_eq!(format_with("%Y-%m-%d %H:%M:%S", ""), "2023-11-14 22:13:21");
}

#[test]
fn date_fields_come_from_the_given_calendar_time() {
    let fmt = PatternFormatter::new("%Y-%m-%d %H:%M:%S|%s");
    let body = tokens("");
    let record = FormattedRecord {
        timestamp_secs: 5,
        timestamp_nanos: 0,
        level: &LogLevel::Info,
        file: "f.rs",
        line: 1,
        body: &body,
    };
    assert_eq!(render(&fmt.format_with_civil(&record, Some((987, 3, 4, 5, 6, 7)))), "0987-03-04 05:06:07|5");
    assert_eq!(render(&fmt.format_with_civil(&record, Some((-44, 12, 31, 23, 59, 58)))), "-044-12-31 23:59:58|5");
    assert_eq!(render(&fmt.format_with_civil(&record, None)), "????-??-?? ??:??:??|5");
}
