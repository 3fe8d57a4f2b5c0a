use rapidlog::arg::{format_payload, measure_schema, Encode, Float64Bits, CAT_MASK, OP_TUPLE, SIZE_MASK};
use rapidlog::text::Token;

fn render(tokens: &[Token]) -> String {
    let mut bytes: Vec<u8> = Vec::new();
    for t in tokens {
        match t {
            Token::Byte(b) => bytes.push(*b),
            Token::F32(bits) => bytes.extend_from_slice(format!("{}", f32::from_bits(*bits)).as_bytes()),
            Token::F64(bits) => bytes.extend_from_slice(format!("{}", f64::from_bits(*bits)).as_bytes()),
        }
    }
    String::from_utf8(bytes).unwrap()
}

fn fmt_tuple_payload(schema: &[u8], payload: &[u8]) -> String {
    let mut out = Vec::new();
    format_payload(schema, payload, &[], &[], &mut out);
    render(&out)
}

fn f64v(v: f64) -> Float64Bits {
    Float64Bits(v.to_bits())
}

#[test]
fn encode_decode_tuple_1_i32() {
    let val: (i32,) = (42,);
    let mut buf = [0u8; 64];
    let wrote = val.encode_to(&mut buf);
    let schema = <(i32,) as Encode>::schema();
    assert!(schema[0] & OP_TUPLE != 0);
    assert_eq!(fmt_tuple_payload(&schema, &buf[..wrote]), "(42)");
}

#[test]
fn encode_decode_tuple_2_i32_f64() {
    let val: (i32, Float64Bits) = (42, f64v(3.14));
    let mut buf = [0u8; 64];
    let wrote = val.encode_to(&mut buf);
    let schema = <(i32, Float64Bits) as Encode>::schema();
    assert!(schema[0] & OP_TUPLE != 0);
    let result = fmt_tuple_payload(&schema, &buf[..wrote]);
    assert!(result.contains("42"));
    assert!(result.contains("3.14"));
}

#[test]
fn encode_decode_tuple_3_mixed() {
    let val: (i32, &str, bool) = (1, "hello", true);
    let mut buf = [0u8; 128];
    let wrote = val.encode_to(&mut buf);
    let schema = <(i32, &str, bool) as Encode>::schema();
    let result = fmt_tuple_payload(&schema, &buf[..wrote]);
    assert!(result.contains("1"));
    assert!(result.contains("hello"));
    assert!(result.contains("true"));
}

#[test]
fn encode_decode_tuple_empty_0() {
    let mut buf = [0u8; 4];
    let wrote = ().encode_to(&mut buf);
    assert_eq!(wrote, 0);
    assert_eq!(fmt_tuple_payload(&<() as Encode>::schema(), &[]), "()");
}

#[test]
fn encode_decode_tuple_12_max() {
    let val: (i32, i32, i32, i32, i32, i32, i32, i32, i32, i32, i32, i32) =
        (1, 2, 3, 4, 5, 6, 7, 8, 9, 10, 11, 12);
    let mut buf = [0u8; 256];
    let wrote = val.encode_to(&mut buf);
    let schema = <(i32, i32, i32, i32, i32, i32, i32, i32, i32, i32, i32, i32) as Encode>::schema();
    assert!(measure_schema(&schema) > 1);
    let result = fmt_tuple_payload(&schema, &buf[..wrote]);
    for i in 1..=12 {
        assert!(result.contains(&i.to_string()), "missing {i} in {result:?}");
    }
}

#[test]
fn tuple_schema_starts_with_op_tuple_n() {
    let schema = <(i32, Float64Bits) as Encode>::schema();
    assert!((schema[0] & CAT_MASK) == OP_TUPLE);
    assert!((schema[0] & SIZE_MASK) == 2);
}

#[test]
fn tuple_encoded_size_equals_sum() {
    let val: (i32, Float64Bits) = (42, f64v(3.14));
    let max = val.encoded_size();
    let actual = 42i32.encoded_size() + f64v(3.14).encoded_size();
    assert_eq!(max, actual);
}

#[test]
fn tuple_nested_1tuple() {
    let s1 = <(i32,) as Encode>::schema();
    assert_eq!(s1.len(), 2);
    let s2 = <((i32,), (i32,)) as Encode>::schema();
    assert_eq!(s2.len(), 5);
}

#[test]
fn tuple_nested_tuple_2d() {
    let val: ((i32, i32), (i32, i32)) = ((1, 2), (3, 4));
    let mut buf = [0u8; 256];
    let wrote = val.encode_to(&mut buf);
    assert_eq!(wrote, 16);
    let schema = <((i32, i32), (i32, i32)) as Encode>::schema();
    assert_eq!(schema.len(), 7);
    let result = fmt_tuple_payload(&schema, &buf[..wrote]);
    assert!(result.contains("((1, 2), (3, 4))"), "got: {result:?}");
}

#[test]
fn tuple_measure_schema_correct() {
    let schema = <(i32, Float64Bits) as Encode>::schema();
    assert_eq!(measure_schema(&schema), schema.len());
}

#[test]
fn option_and_result_format_their_variants() {
    let some: Option<i32> = Some(7);
    let mut buf = [0u8; 16];
    let wrote = some.encode_to(&mut buf);
    let mut out = Vec::new();
    let table = some.string_table();
    let tables: Vec<&[u8]> = vec![table.as_slice()];
    format_payload(&<Option<i32> as Encode>::schema(), &buf[..wrote], &tables, &[], &mut out);
    assert_eq!(render(&out), "Some(7)");

    let none: Option<i32> = None;
    let wrote = none.encode_to(&mut buf);
    let mut out = Vec::new();
    format_payload(&<Option<i32> as Encode>::schema(), &buf[..wrote], &tables, &[], &mut out);
    assert_eq!(render(&out), "None");
}

#[test]
fn vec_of_ints_formats_as_list() {
    let v: Vec<u8> = vec![1, 2, 3];
    let mut buf = [0u8; 32];
    let wrote = v.encode_to(&mut buf);
    assert_eq!(fmt_tuple_payload(&<Vec<u8> as Encode>::schema(), &buf[..wrote]), "[1, 2, 3]");
}
