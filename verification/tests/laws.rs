use rapidlog::arg::{format_payload, Encode};
use rapidlog::text::Token;

fn formatted<T: Encode>(v: &T, tail: &[u8]) -> (usize, String) {
    formatted_with(v, tail, &[])
}

fn formatted_with<T: Encode>(v: &T, tail: &[u8], tables: &[&[u8]]) -> (usize, String) {
    let mut buf = vec![0u8; v.encoded_size()];
    let n = v.encode_to(&mut buf);
    buf.extend_from_slice(tail);
    let mut out = Vec::new();
    let used = format_payload(&T::schema(), &buf, tables, &[], &mut out);
    let bytes: Vec<u8> = out
        .iter()
        .map(|t| match t {
            Token::Byte(b) => *b,
            _ => b'?',
        })
        .collect();
    assert_eq!(used, n);
    (used, String::from_utf8(bytes).unwrap())
}

#[test]
fn integers_format_back_to_their_decimal_text() {
    assert_eq!(formatted(&-128i8, &[9, 9]), (1, "-128".to_string()));
    assert_eq!(formatted(&i16::MIN, &[9]), (2, "-32768".to_string()));
    assert_eq!(formatted(&-7i32, &[]), (4, "-7".to_string()));
    assert_eq!(formatted(&i64::MIN, &[1, 2, 3]), (8, "-9223372036854775808".to_string()));
    assert_eq!(formatted(&255u8, &[]), (1, "255".to_string()));
    assert_eq!(formatted(&65535u16, &[]), (2, "65535".to_string()));
    assert_eq!(formatted(&u64::MAX, &[7]), (8, "18446744073709551615".to_string()));
}

#[test]
fn bool_char_str_unit_format_back() {
    assert_eq!(formatted(&true, &[0]), (1, "true".to_string()));
    assert_eq!(formatted(&false, &[1]), (1, "false".to_string()));
    assert_eq!(formatted(&'é', &[]), (4, "é".to_string()));
    assert_eq!(formatted(&"héllo", &[0xFF]), (8, "héllo".to_string()));
    assert_eq!(formatted(&(), &[1, 2]), (0, "()".to_string()));
}

#[test]
fn frame_roundtrip_through_a_queue() {
    let (mut prod, mut cons) = rapidlog::queue::create_queue(4096);
    let msgs: Vec<Vec<u8>> = vec![vec![], vec![1], vec![2; 63], vec![3; 64], vec![4; 200]];
    for m in &msgs {
        prod.push(m).unwrap();
    }
    assert_eq!(cons.pop_all(), msgs);
}

#[test]
fn pair_formats_as_parenthesised_elements() {
    assert_eq!(formatted(&(-5i32, true), &[1, 2]), (5, "(-5, true)".to_string()));
    assert_eq!(formatted(&(7u16, "ab"), &[]), (6, "(7, ab)".to_string()));
}

#[test]
fn invalid_utf8_string_renders_nothing_but_is_consumed() {
    let schema = <&str as Encode>::schema();
    let mut out = Vec::new();
    let used = format_payload(&schema, &[2, 0, 0xFF, 0xFE, 7], &[], &[], &mut out);
    assert_eq!(used, 4);
    assert!(out.is_empty());
    let mut out = Vec::new();
    let used = format_payload(&schema, &[2, 0, b'o', b'k'], &[], &[], &mut out);
    assert_eq!(used, 4);
    assert_eq!(out, vec![Token::Byte(b'o'), Token::Byte(b'k')]);
}

#[test]
fn option_formats_back_as_its_variant() {
    let table = Some(0u8).string_table();
    let tables: Vec<&[u8]> = vec![table.as_slice()];
    assert_eq!(formatted_with(&Some(-3i16), &[5, 5], &tables), (3, "Some(-3)".to_string()));
    assert_eq!(formatted_with(&None::<i16>, &[1, 9], &tables), (1, "None".to_string()));
    assert_eq!(formatted_with(&Some("hi"), &[], &tables), (5, "Some(hi)".to_string()));
}

#[test]
fn result_formats_back_as_its_variant() {
    let ok: Result<u32, bool> = Ok(42);
    let err: Result<u32, bool> = Err(true);
    let table = ok.string_table();
    let tables: Vec<&[u8]> = vec![table.as_slice()];
    assert_eq!(formatted_with(&ok, &[8], &tables), (5, "Ok(42)".to_string()));
    assert_eq!(formatted_with(&err, &[0, 0], &tables), (2, "Err(true)".to_string()));
}

fn call_site(fmt: &'static str, schemas: Vec<u8>, table: Vec<u8>) -> rapidlog::Metadata {
    let tables: &'static [&'static [u8]] = Box::leak(vec![&*Box::leak(table.into_boxed_slice())].into_boxed_slice());
    rapidlog::Metadata::new(
        rapidlog::LogLevel::Info,
        fmt,
        "laws.rs",
        7,
        "laws",
        Box::leak(schemas.into_boxed_slice()),
        tables,
        rapidlog::metadata::empty_user_formatters_provider(),
    )
}

fn text_of(tokens: &[Token]) -> String {
    String::from_utf8(
        tokens
            .iter()
            .map(|t| match t {
                Token::Byte(b) => *b,
                _ => b'?',
            })
            .collect(),
    )
    .unwrap()
}

#[test]
fn each_argument_decodes_to_its_own_text() {
    let mut schemas = vec![3u8];
    schemas.extend(<i32 as Encode>::schema());
    schemas.extend(<&str as Encode>::schema());
    schemas.extend(<(u8, bool) as Encode>::schema());
    let m = call_site("x={} y={} z={}!", schemas, Vec::new());
    let mut payload = vec![0u8; 4 + 4 + 2];
    let a = (-9i32).encode_to(&mut payload);
    let b = "hi".encode_to(&mut payload[a..]);
    (5u8, false).encode_to(&mut payload[a + b..]);
    payload.extend_from_slice(&[0xEE, 0xEE]);
    let args: Vec<String> = rapidlog::arg::decode_args(&m, &payload).iter().map(|t| text_of(t)).collect();
    assert_eq!(args, vec!["-9".to_string(), "hi".to_string(), "(5, false)".to_string()]);
    assert_eq!(text_of(&rapidlog::arg::format_body(&m, &payload)), "x=-9 y=hi z=(5, false)!");
}

#[test]
fn packed_payload_decodes_each_argument() {
    let mut packed = vec![2u8];
    packed.extend(<u16 as Encode>::schema());
    packed.extend(<(bool, i8) as Encode>::schema());
    let start = packed.len();
    packed.resize(start + 2 + 2, 0);
    let a = 700u16.encode_to(&mut packed[start..]);
    (true, -1i8).encode_to(&mut packed[start + a..]);
    packed.push(0xAB);
    let args: Vec<String> = rapidlog::arg::packed::decode_args(&packed).iter().map(|t| text_of(t)).collect();
    assert_eq!(args, vec!["700".to_string(), "(true, -1)".to_string()]);
    let m = call_site("a={}, b={}", Vec::new(), Vec::new());
    assert_eq!(text_of(&rapidlog::arg::packed::format_body(&m, &packed)), "a=700, b=(true, -1)");
}

#[test]
fn wide_integers_format_back_to_their_decimal_text() {
    assert_eq!(formatted(&7i128, &[1]), (16, "7".to_string()));
    assert_eq!(formatted(&i128::MIN, &[]), (16, "-170141183460469231731687303715884105728".to_string()));
    assert_eq!(formatted(&-1i128, &[]), (16, "-1".to_string()));
    assert_eq!(formatted(&u128::MAX, &[3]), (16, "340282366920938463463374607431768211455".to_string()));
    let mut out = Vec::new();
    let used = format_payload(&[0x15], &7i128.to_le_bytes(), &[], &[], &mut out);
    assert_eq!((used, text_of(&out)), (16, "7".to_string()));
}

#[test]
fn body_is_the_decoded_arguments_joined_whatever_the_payload() {
    let mut schemas = vec![2u8];
    schemas.extend(<i32 as Encode>::schema());
    schemas.extend(<u8 as Encode>::schema());
    let m = call_site("{} | {}", schemas, Vec::new());
    for payload in [vec![5u8, 0, 0, 0, 9], vec![1u8, 2, 3], vec![]] {
        let args: Vec<String> = rapidlog::arg::decode_args(&m, &payload).iter().map(|t| text_of(t)).collect();
        assert_eq!(text_of(&rapidlog::arg::format_body(&m, &payload)), args.join(" | "));
    }
}

#[test]
fn unclosed_brace_is_copied_once() {
    let mut schemas = vec![1u8];
    schemas.extend(<i32 as Encode>::schema());
    let m = call_site("v={} {", schemas, Vec::new());
    assert_eq!(text_of(&rapidlog::arg::format_body(&m, &7i32.to_ne_bytes())), "v=7 {");
    let mut packed = vec![1u8];
    packed.extend(<i32 as Encode>::schema());
    packed.extend_from_slice(&7i32.to_ne_bytes());
    let m2 = call_site("v={} {", Vec::new(), Vec::new());
    assert_eq!(text_of(&rapidlog::arg::packed::format_body(&m2, &packed)), "v=7 {");
    let m3 = call_site("open { here", vec![0u8], Vec::new());
    assert_eq!(text_of(&rapidlog::arg::format_body(&m3, &[])), "open { here");
}

#[test]
fn tuples_format_back_as_parenthesised_elements() {
    assert_eq!(formatted(&(42i32,), &[]), (4, "(42)".to_string()));
    assert_eq!(formatted(&(1u8, -2i16, "x", true), &[7]), (7, "(1, -2, x, true)".to_string()));
    assert_eq!(formatted(&((1i32, 2i32), (3i32, 4i32)), &[]), (16, "((1, 2), (3, 4))".to_string()));
}

#[test]
fn arrays_encode_as_sequences_of_their_elements() {
    assert_eq!(formatted(&[1u8, 2, 3], &[9]), (5, "[1, 2, 3]".to_string()));
    assert_eq!(formatted(&[-1i32, 7], &[]), (10, "[-1, 7]".to_string()));
    let empty: [u16; 0] = [];
    assert_eq!(formatted(&empty, &[]), (2, "[]".to_string()));
    assert_eq!(<[u8; 4] as Encode>::schema(), <Vec<u8> as Encode>::schema());
    assert_eq!([5u64; 3].encoded_size(), 2 + 3 * 8);
    let mut buf = vec![0u8; 4];
    assert_eq!([(1u8, true)].encode_to(&mut buf), 4);
    assert_eq!(buf, vec![1, 0, 1, 1]);
}
