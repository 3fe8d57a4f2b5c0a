use rapidlog::message::{LogMessage, ARCHIVED_HEADER_SIZE};
use rapidlog::metadata::{empty_string_tables_provider, empty_user_formatters_provider, Metadata};
use rapidlog::LogLevel;

fn test_metadata() -> &'static Metadata {
    Box::leak(Box::new(Metadata::new(
        LogLevel::Info,
        "test {}",
        "test.rs",
        42,
        "test",
        &[],
        empty_string_tables_provider(),
        empty_user_formatters_provider(),
    )))
}

fn address_of(_meta: &'static Metadata) -> u64 {
    0x7f00_1234_5678
}

#[test]
fn serialize_header_into_works() {
    let meta = test_metadata();
    let msg = LogMessage::new(123456789, address_of(meta), 0, 42);
    let mut buf = vec![0u8; ARCHIVED_HEADER_SIZE];
    msg.serialize_header_into(&mut buf);
    let archived = LogMessage::decode(&buf).unwrap();
    assert_eq!(archived.timestamp_ns, 123456789);
    assert_eq!(archived.args_len, 42);
}

#[test]
fn metadata_pointer_roundtrip() {
    let meta = test_metadata();
    let msg = LogMessage::new(100, address_of(meta), 0, 0);
    let mut buf = vec![0u8; ARCHIVED_HEADER_SIZE];
    msg.serialize_header_into(&mut buf);
    let archived = LogMessage::decode(&buf).unwrap();
    assert_eq!(archived.metadata_ptr, address_of(meta));
    assert_eq!(meta.level, LogLevel::Info);
    assert_eq!(meta.format_str, "test {}");
}

#[test]
fn decode_invalid_bytes_returns_none() {
    let invalid = vec![0u8; 10];
    assert!(LogMessage::decode(&invalid).is_none());
}

#[test]
fn args_len_preserved() {
    let meta = test_metadata();
    let msg = LogMessage::new(0, address_of(meta), 0, 1234);
    let mut buf = vec![0u8; ARCHIVED_HEADER_SIZE];
    msg.serialize_header_into(&mut buf);
    let archived = LogMessage::decode(&buf).unwrap();
    assert_eq!(archived.args_len, 1234);
}

#[test]
fn header_roundtrip_keeps_every_field_and_the_tail() {
    let msg = LogMessage::new(u64::MAX, 0x0102_0304_0506_0708, 7, u16::MAX);
    let mut buf = vec![0xAAu8; ARCHIVED_HEADER_SIZE + 3];
    msg.serialize_header_into(&mut buf);
    assert_eq!(&buf[0..8], &[0xFF; 8]);
    assert_eq!(&buf[8..16], &[8, 7, 6, 5, 4, 3, 2, 1]);
    assert_eq!(&buf[26..], &[0xAA; 9]);
    assert_eq!(LogMessage::decode(&buf), Some(msg));
}

#[test]
fn decode_needs_a_full_header() {
    assert!(LogMessage::decode(&[0u8; 31]).is_none());
    assert!(LogMessage::decode(&[0u8; 32]).is_some());
}
