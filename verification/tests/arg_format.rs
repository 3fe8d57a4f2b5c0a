use rapidlog::arg::{decode_args, format_body, op_float, op_signed_int, Encode, Float64Bits};
use rapidlog::metadata::{empty_string_tables_provider, empty_user_formatters_provider, Metadata};
use rapidlog::text::Token;
use rapidlog::LogLevel;

fn render(tokens: &[Token]) -> String {
    let mut bytes: Vec<u8> = Vec::new();
    for t in tokens {
        match t {
            Token::Byte(b) => bytes.push(*b),
            Token::F32(bits) => bytes.extend_from_slice(format!("{}", f32::from_bits(*bits)).as_bytes()),
            Token::F64(bits) => bytes.extend_from_slice(format!("{}", f64::from_bits(*bits)).as_bytes()),
        }
    }
    String::from_utf8(bytes).unwrap()
}

fn schema_bytes_i32_f64() -> &'static [u8] {
    Box::leak(Box::new([2u8, op_signed_int(3), op_float(4)]))
}

fn schema_bytes_one_i32() -> &'static [u8] {
    Box::leak(Box::new([1u8, op_signed_int(3)]))
}

fn empty_schemas() -> &'static [u8] {
    &[]
}

fn meta(fmt: &'static str, schemas: &'static [u8], tables: &'static [&'static [u8]]) -> Metadata {
    Metadata::new(LogLevel::Info, fmt, "test.rs", 1, "test", schemas, tables, empty_user_formatters_provider())
}

#[test]
fn arg_format_format_body_simple() {
    let metadata = meta("x: {}, y: {}", schema_bytes_i32_f64(), empty_string_tables_provider());
    let mut payload = vec![0u8; 4 + 8];
    42i32.encode_to(&mut payload[..]);
    Float64Bits(3.14f64.to_bits()).encode_to(&mut payload[4..]);
    let result = render(&format_body(&metadata, &payload));
    assert!(result.contains("x: 42"), "got: {result}");
    assert!(result.contains("y: 3.14"), "got: {result}");
}

#[test]
fn arg_format_format_body_no_args() {
    let metadata = meta("no args", empty_schemas(), empty_string_tables_provider());
    assert_eq!(render(&format_body(&metadata, &[])), "no args");
}

#[test]
fn arg_format_format_body_fewer_args_than_placeholders() {
    let metadata = meta("a: {}, b: {}", schema_bytes_one_i32(), empty_string_tables_provider());
    let mut payload = vec![0u8; 4];
    42i32.encode_to(&mut payload[..]);
    assert!(render(&format_body(&metadata, &payload)).contains("a: 42"));
}

#[test]
fn arg_format_format_body_with_debug_spec() {
    let metadata = meta("val: {:?}", schema_bytes_one_i32(), empty_string_tables_provider());
    let mut payload = vec![0u8; 4];
    99i32.encode_to(&mut payload[..]);
    let result = render(&format_body(&metadata, &payload));
    assert!(result.contains("val: 99"), "got: {result}");
}

#[test]
fn arg_format_format_body_extra_placeholders() {
    let metadata = meta("a: {}, b: {}", schema_bytes_one_i32(), empty_string_tables_provider());
    let mut payload = vec![0u8; 4];
    5i32.encode_to(&mut payload[..]);
    let result = render(&format_body(&metadata, &payload));
    assert!(result.contains("a: 5"));
    assert!(!result.contains("b: 5"));
}

#[test]
fn arg_format_format_body_empty_payload() {
    let metadata = meta("hello", empty_schemas(), empty_string_tables_provider());
    assert_eq!(render(&format_body(&metadata, &[])), "hello");
}

#[test]
fn arg_format_decode_args_two_ints() {
    let metadata = meta("", schema_bytes_i32_f64(), empty_string_tables_provider());
    let mut buf = [0u8; 16];
    let mut pos = 0;
    pos += 42i32.encode_to(&mut buf[pos..]);
    Float64Bits(3.14f64.to_bits()).encode_to(&mut buf[pos..]);
    let decoded = decode_args(&metadata, &buf);
    assert_eq!(decoded.len(), 2);
    assert_eq!(render(&decoded[0]), "42");
    assert!(render(&decoded[1]).contains("3.14"));
}

#[test]
fn arg_format_decode_args_empty() {
    let metadata = meta("", empty_schemas(), empty_string_tables_provider());
    assert!(decode_args(&metadata, &[]).is_empty());
}

#[test]
fn arg_format_decode_args_zero_arg_count() {
    let metadata = meta("", empty_schemas(), empty_string_tables_provider());
    assert!(decode_args(&metadata, &[]).is_empty());
}

#[test]
fn decode_args_truncated_payload() {
    let metadata = meta("", schema_bytes_one_i32(), empty_string_tables_provider());
    let decoded = decode_args(&metadata, &[0u8]);
    assert_eq!(decoded.len(), 1);
    assert_eq!(render(&decoded[0]), "");
}

fn st_idx_tables_provider() -> &'static [&'static [u8]] {
    let tables: Vec<&'static [u8]> = vec![b"None\0Some\0", b"Absent\0Present\0"];
    Box::leak(tables.into_boxed_slice())
}

fn st_idx_schema_provider() -> &'static [u8] {
    Box::leak({
        let v: Vec<u8> = vec![
            2, 0xB2, 1, 0, 0, 0, 0x00, 5, 0, op_signed_int(3),
            0xB2, 1, 0, 0, 0, 0x00, 5, 0, op_signed_int(3),
        ];
        v.into_boxed_slice()
    })
}

#[test]
fn st_idx_positional_alignment() {
    let metadata = meta("a: {}, b: {}", st_idx_schema_provider(), st_idx_tables_provider());
    let mut payload = vec![0u8; 1 + 4 + 1];
    payload[0] = 1;
    payload[1..5].copy_from_slice(&42i32.to_ne_bytes());
    payload[5] = 0;
    let result = render(&format_body(&metadata, &payload));
    assert!(result.contains("a: Some(42)"), "got: {result}");
    assert!(result.contains("b: Absent"), "got: {result}");
}
