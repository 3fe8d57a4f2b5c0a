use rapidlog::arg::packed::{decode_args, format_body};
use rapidlog::arg::{
    format_payload, measure_schema, op_bool, op_float, op_signed_int, op_str, Encode, Float64Bits,
    OP_ENUM, OP_SEQ, OP_STRUCT, OP_TUPLE, OP_UNIT,
};
use rapidlog::metadata::{empty_string_tables_provider, empty_user_formatters_provider, Metadata};
use rapidlog::text::Token;
use rapidlog::LogLevel;

fn render(tokens: &[Token]) -> String {
    let mut bytes: Vec<u8> = Vec::new();
    for t in tokens {
        match t {
            Token::Byte(b) => bytes.push(*b),
            Token::F32(bits) => bytes.extend_from_slice(format!("{}", f32::from_bits(*bits)).as_bytes()),
            Token::F64(bits) => bytes.extend_from_slice(format!("{}", f64::from_bits(*bits)).as_bytes()),
        }
    }
    String::from_utf8(bytes).unwrap()
}

fn format_one(schema: &[u8], payload: &[u8]) -> String {
    let mut out = Vec::new();
    format_payload(schema, payload, &[], &[], &mut out);
    render(&out)
}

fn format_with_tables(schema: &[u8], payload: &[u8], tables: &[&[u8]]) -> String {
    let mut out = Vec::new();
    format_payload(schema, payload, tables, &[], &mut out);
    render(&out)
}

fn meta(fmt: &'static str) -> Metadata {
    Metadata::new(
        LogLevel::Info,
        fmt,
        "test.rs",
        1,
        "test",
        &[],
        empty_string_tables_provider(),
        empty_user_formatters_provider(),
    )
}

fn body(m: &Metadata, payload: &[u8]) -> String {
    render(&format_body(m, payload))
}

#[test]
fn arg_encode_i32() {
    let val: i32 = 42;
    let mut buf = [0u8; 16];
    let wrote = val.encode_to(&mut buf);
    assert_eq!(wrote, 4);
    assert_eq!(i32::from_ne_bytes([buf[0], buf[1], buf[2], buf[3]]), 42);
}

#[test]
fn arg_encode_i64() {
    let val: i64 = -1234567890123;
    let mut buf = [0u8; 16];
    let wrote = val.encode_to(&mut buf);
    assert_eq!(wrote, 8);
    let decoded = i64::from_ne_bytes([buf[0], buf[1], buf[2], buf[3], buf[4], buf[5], buf[6], buf[7]]);
    assert_eq!(decoded, val);
}

#[test]
fn arg_encode_f64() {
    let val: f64 = 3.1415926535;
    let mut buf = [0u8; 16];
    let wrote = Float64Bits(val.to_bits()).encode_to(&mut buf);
    assert_eq!(wrote, 8);
    let decoded = f64::from_ne_bytes([buf[0], buf[1], buf[2], buf[3], buf[4], buf[5], buf[6], buf[7]]);
    assert!((decoded - val).abs() < 1e-10);
}

#[test]
fn arg_encode_bool_true() {
    let mut buf = [0u8; 4];
    let wrote = true.encode_to(&mut buf);
    assert_eq!(wrote, 1);
    assert_eq!(buf[0], 1);
}

#[test]
fn arg_encode_bool_false() {
    let mut buf = [0u8; 4];
    let wrote = false.encode_to(&mut buf);
    assert_eq!(wrote, 1);
    assert_eq!(buf[0], 0);
}

#[test]
fn arg_encode_char() {
    let mut buf = [0u8; 4];
    let wrote = '🦀'.encode_to(&mut buf);
    assert_eq!(wrote, 4);
    let code = u32::from_ne_bytes(buf);
    assert_eq!(code, '🦀' as u32);
}

#[test]
fn arg_encode_unit() {
    let mut buf = [0u8; 4];
    let wrote = ().encode_to(&mut buf);
    assert_eq!(wrote, 0);
}

#[test]
fn arg_encode_str() {
    let val: &str = "hello world";
    let mut buf = [0u8; 32];
    let wrote = val.encode_to(&mut buf);
    assert_eq!(wrote, 2 + 11);
    let len = u16::from_ne_bytes([buf[0], buf[1]]);
    assert_eq!(len, 11);
    assert_eq!(&buf[2..13], b"hello world");
}

#[test]
fn arg_encode_string() {
    let val = String::from("test");
    let mut buf = [0u8; 32];
    let wrote = val.encode_to(&mut buf);
    assert_eq!(wrote, 6);
}

#[test]
fn arg_schema_i32_is_signed_int_3() {
    assert_eq!(<i32 as Encode>::schema(), vec![op_signed_int(3)]);
}

#[test]
fn arg_schema_f64_is_float_4() {
    assert_eq!(<Float64Bits as Encode>::schema(), vec![op_float(4)]);
}

#[test]
fn arg_schema_bool() {
    assert_eq!(<bool as Encode>::schema(), vec![op_bool()]);
}

#[test]
fn arg_schema_str() {
    assert_eq!(<&str as Encode>::schema(), vec![op_str(2)]);
}

#[test]
fn arg_measure_schema_primitive() {
    assert_eq!(measure_schema(&[op_signed_int(3)]), 1);
    assert_eq!(measure_schema(&[op_float(4)]), 1);
    assert_eq!(measure_schema(&[op_bool()]), 1);
}

#[test]
fn arg_measure_schema_seq() {
    let schema = [OP_SEQ | 2, op_signed_int(3)];
    assert_eq!(measure_schema(&schema), 2);
}

#[test]
fn arg_measure_schema_tuple_inline() {
    let schema = [OP_TUPLE | 2, op_signed_int(4), op_float(4)];
    assert_eq!(measure_schema(&schema), 3);
}

#[test]
fn arg_measure_schema_empty() {
    assert_eq!(measure_schema(&[]), 0);
}

#[test]
fn arg_format_i32() {
    let mut buf = [0u8; 4];
    42i32.encode_to(&mut buf);
    assert_eq!(format_one(&<i32 as Encode>::schema(), &buf), "42");
}

#[test]
fn arg_format_i64_negative() {
    let mut buf = [0u8; 8];
    (-123i64).encode_to(&mut buf);
    assert_eq!(format_one(&<i64 as Encode>::schema(), &buf), "-123");
}

#[test]
fn arg_format_u32() {
    let mut buf = [0u8; 4];
    100u32.encode_to(&mut buf);
    assert_eq!(format_one(&<u32 as Encode>::schema(), &buf), "100");
}

#[test]
fn arg_format_f64() {
    let mut buf = [0u8; 8];
    Float64Bits(3.14f64.to_bits()).encode_to(&mut buf);
    let result = format_one(&<Float64Bits as Encode>::schema(), &buf);
    assert!(result.contains("3.14"));
}

#[test]
fn arg_format_str() {
    let mut buf = [0u8; 32];
    let wrote = "hello".encode_to(&mut buf);
    assert_eq!(format_one(&<&str as Encode>::schema(), &buf[..wrote]), "hello");
}

#[test]
fn arg_format_bool() {
    assert_eq!(format_one(&<bool as Encode>::schema(), &[1]), "true");
    assert_eq!(format_one(&<bool as Encode>::schema(), &[0]), "false");
}

#[test]
fn arg_format_char() {
    let mut buf = [0u8; 4];
    'X'.encode_to(&mut buf);
    assert_eq!(format_one(&<char as Encode>::schema(), &buf), "X");
}

#[test]
fn arg_format_unit() {
    assert_eq!(format_one(&<() as Encode>::schema(), &[]), "()");
}

#[test]
fn arg_format_seq_i32() {
    let mut buf = [0u8; 64];
    let count: u16 = 2;
    buf[..2].copy_from_slice(&count.to_ne_bytes());
    let mut pos = 2;
    pos += 10i32.encode_to(&mut buf[pos..]);
    pos += 20i32.encode_to(&mut buf[pos..]);
    let schema = [OP_SEQ | 2, op_signed_int(3)];
    assert_eq!(format_one(&schema, &buf[..pos]), "[10, 20]");
}

#[test]
fn arg_format_tuple_two() {
    let mut buf = [0u8; 64];
    let mut pos = 0;
    pos += 5i64.encode_to(&mut buf[pos..]);
    pos += Float64Bits(2.5f64.to_bits()).encode_to(&mut buf[pos..]);
    let schema = [OP_TUPLE | 2, op_signed_int(4), op_float(4)];
    assert_eq!(format_one(&schema, &buf[..pos]), "(5, 2.5)");
}

#[test]
fn arg_format_struct_two_fields() {
    let mut buf = [0u8; 64];
    let mut pos = 0;
    pos += 1i32.encode_to(&mut buf[pos..]);
    pos += "xyz".encode_to(&mut buf[pos..]);
    let st: &[&[u8]] = &[b"x\0y\0"];
    let schema = [OP_STRUCT | 2, 0u8, 0u8, 0u8, op_signed_int(3), 2u8, 0u8, op_str(2)];
    assert_eq!(format_with_tables(&schema, &buf[..pos], st), "{x: 1, y: xyz}");
}

#[test]
fn arg_format_enum_unit_variant() {
    let schema = [OP_ENUM | 2, 1u8, 0u8, 0u8, 0u8, OP_UNIT, 5u8, 0u8, op_signed_int(3)];
    let st: &[u8] = b"None\0Some\0";
    let payload = [0u8];
    assert_eq!(format_with_tables(&schema, &payload, &[st]), "None");

    let mut payload = [0u8; 8];
    payload[0] = 1;
    payload[1..5].copy_from_slice(&42i32.to_ne_bytes());
    assert_eq!(format_with_tables(&schema, &payload, &[st]), "Some(42)");
}

#[test]
fn arg_format_empty_schema() {
    assert!(format_one(&[], &[]).is_empty());
}

#[test]
fn arg_format_large_i32() {
    let val: i32 = 0x7FFF_FFFF;
    let mut buf = [0u8; 4];
    val.encode_to(&mut buf);
    assert_eq!(format_one(&<i32 as Encode>::schema(), &buf), "2147483647");
}

#[test]
fn arg_format_large_u32() {
    let val: u32 = 0xFFFF_FFFF;
    let mut buf = [0u8; 4];
    val.encode_to(&mut buf);
    assert_eq!(format_one(&<u32 as Encode>::schema(), &buf), "4294967295");
}

#[test]
fn arg_format_large_i64() {
    let val: i64 = 0x7FFF_FFFF_FFFF_FFFF;
    let mut buf = [0u8; 8];
    val.encode_to(&mut buf);
    assert_eq!(format_one(&<i64 as Encode>::schema(), &buf), "9223372036854775807");
}

#[test]
fn arg_format_body_simple() {
    let metadata = meta("x: {}, y: {}");
    let mut payload = vec![0u8; 1 + 1 + 1 + 4 + 8];
    payload[0] = 2;
    payload[1] = op_signed_int(3);
    payload[2] = op_float(4);
    let data_off = 3;
    42i32.encode_to(&mut payload[data_off..]);
    Float64Bits(3.14f64.to_bits()).encode_to(&mut payload[data_off + 4..]);
    let result = body(&metadata, &payload);
    assert!(result.contains("x: 42"), "got: {result}");
    assert!(result.contains("y: 3.14"), "got: {result}");
}

#[test]
fn arg_format_body_no_args() {
    let metadata = meta("no args");
    assert_eq!(body(&metadata, &[0]), "no args");
}

#[test]
fn arg_format_body_fewer_args_than_placeholders() {
    let metadata = meta("a: {}, b: {}");
    let mut payload = vec![0u8; 1 + 1 + 4];
    payload[0] = 1;
    payload[1] = op_signed_int(3);
    42i32.encode_to(&mut payload[2..]);
    assert!(body(&metadata, &payload).contains("a: 42"));
}

#[test]
fn arg_format_body_with_debug_spec() {
    let metadata = meta("val: {:?}");
    let mut payload = vec![0u8; 1 + 1 + 4];
    payload[0] = 1;
    payload[1] = op_signed_int(3);
    99i32.encode_to(&mut payload[2..]);
    let result = body(&metadata, &payload);
    assert!(result.contains("val: 99"), "got: {result}");
}

#[test]
fn arg_measure_schema_struct_inline() {
    let schema = [OP_STRUCT | 2, 0u8, 0u8, 0u8, op_signed_int(3), 2u8, 0u8, op_float(4)];
    assert_eq!(measure_schema(&schema), 1 + 1 + 2 + 1 + 2 + 1);
}

#[test]
fn arg_measure_schema_struct_u16() {
    let schema = [OP_STRUCT, 2u8, 0u8, 0u8, 0u8, 0u8, op_signed_int(3), 2u8, 0u8, op_float(4)];
    assert_eq!(measure_schema(&schema), 1 + 2 + 1 + 2 + 1 + 2 + 1);
}

#[test]
fn arg_measure_schema_enum_inline() {
    let schema = [OP_ENUM | 2, 1u8, 0u8, 0u8, 0u8, OP_UNIT, 5u8, 0u8, op_signed_int(3)];
    assert_eq!(measure_schema(&schema), 1 + 1 + 1 + 2 + 1 + 2 + 1);
}

#[test]
fn arg_measure_schema_enum_u16() {
    let schema = [OP_ENUM, 2u8, 0u8, 1u8, 0u8, 0u8, 0u8, OP_UNIT, 5u8, 0u8, op_signed_int(3)];
    assert_eq!(measure_schema(&schema), 1 + 2 + 1 + 1 + 2 + 1 + 2 + 1);
}

#[test]
fn arg_measure_schema_tuple_u16() {
    let schema = [OP_TUPLE, 2u8, 0u8, op_signed_int(4), op_float(4)];
    assert_eq!(measure_schema(&schema), 1 + 2 + 1 + 1);
}

#[test]
fn arg_format_struct_u16() {
    let mut buf = [0u8; 64];
    let mut pos = 0;
    pos += 100i32.encode_to(&mut buf[pos..]);
    pos += "abc".encode_to(&mut buf[pos..]);
    let st: &[&[u8]] = &[b"field1\0field2\0"];
    let schema = [OP_STRUCT, 2u8, 0u8, 0u8, 0u8, 0u8, op_signed_int(3), 7u8, 0u8, op_str(2)];
    assert_eq!(format_with_tables(&schema, &buf[..pos], st), "{field1: 100, field2: abc}");
}

#[test]
fn arg_format_enum_u16() {
    let schema = [OP_ENUM, 2u8, 0u8, 1u8, 0u8, 0u8, 0u8, OP_UNIT, 2u8, 0u8, op_signed_int(3)];
    let st: &[&[u8]] = &[b"A\0B\0"];
    assert_eq!(format_with_tables(&schema, &[0u8], st), "A");
    let mut payload = [0u8; 8];
    payload[0] = 1;
    payload[1..5].copy_from_slice(&42i32.to_ne_bytes());
    assert_eq!(format_with_tables(&schema, &payload, st), "B(42)");
}

#[test]
fn arg_format_truncated_payload() {
    let schema = [op_signed_int(3)];
    assert!(format_one(&schema, &[0u8; 1]).is_empty());
    let schema = [op_str(2)];
    assert!(format_one(&schema, &[0u8; 1]).is_empty());
}

#[test]
fn arg_format_zero_count_seq() {
    let schema = [OP_SEQ | 2, op_signed_int(3)];
    assert_eq!(format_one(&schema, &[0u8, 0u8]), "[]");
}

#[test]
fn arg_format_empty_payload_nonempty_schema() {
    assert!(format_one(&[op_signed_int(3)], &[]).is_empty());
}

#[test]
fn arg_format_unknown_opcode() {
    assert!(format_one(&[0xCCu8], &[1u8; 8]).is_empty());
}

#[test]
fn arg_decode_args_two_ints() {
    let mut buf = [0u8; 32];
    buf[0] = 2;
    buf[1] = op_signed_int(3);
    buf[2] = op_float(4);
    let mut pos = 3;
    pos += 42i32.encode_to(&mut buf[pos..]);
    Float64Bits(3.14f64.to_bits()).encode_to(&mut buf[pos..]);
    let decoded = decode_args(&buf);
    assert_eq!(decoded.len(), 2);
    assert_eq!(render(&decoded[0]), "42");
    assert!(render(&decoded[1]).contains("3.14"));
}

#[test]
fn arg_decode_args_empty() {
    assert!(decode_args(&[]).is_empty());
}

#[test]
fn arg_decode_args_zero_arg_count() {
    assert!(decode_args(&[0u8]).is_empty());
}

#[test]
fn decode_args_truncated_schema() {
    let buf = [2u8, 0x13];
    let decoded = decode_args(&buf);
    assert_eq!(decoded.len(), 1, "expected 1 schema, got {:?}", decoded.len());
}

#[test]
fn arg_format_body_extra_placeholders() {
    let metadata = meta("a: {}, b: {}");
    let mut payload = vec![0u8; 1 + 1 + 4];
    payload[0] = 1;
    payload[1] = op_signed_int(3);
    5i32.encode_to(&mut payload[2..]);
    let result = body(&metadata, &payload);
    assert!(result.contains("a: 5"));
    assert!(!result.contains("b: 5"));
}

#[test]
fn arg_format_body_empty_payload() {
    let metadata = meta("hello");
    assert_eq!(body(&metadata, &[]), "hello");
}
