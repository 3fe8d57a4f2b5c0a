use rapidlog::arg::{op_bool, op_float, op_signed_int, op_str, Encode, Float64Bits};

#[test]
fn primitives_encode_i32() {
    let val: i32 = 42;
    let mut buf = [0u8; 16];
    let wrote = val.encode_to(&mut buf);
    assert_eq!(wrote, 4);
    assert_eq!(i32::from_ne_bytes([buf[0], buf[1], buf[2], buf[3]]), 42);
}

#[test]
fn primitives_encode_i64() {
    let val: i64 = -1234567890123;
    let mut buf = [0u8; 16];
    let wrote = val.encode_to(&mut buf);
    assert_eq!(wrote, 8);
    let decoded = i64::from_ne_bytes([buf[0], buf[1], buf[2], buf[3], buf[4], buf[5], buf[6], buf[7]]);
    assert_eq!(decoded, val);
}

#[test]
fn primitives_encode_f64() {
    let val: f64 = 3.1415926535;
    let mut buf = [0u8; 16];
    let wrote = Float64Bits(val.to_bits()).encode_to(&mut buf);
    assert_eq!(wrote, 8);
    let decoded = f64::from_ne_bytes([buf[0], buf[1], buf[2], buf[3], buf[4], buf[5], buf[6], buf[7]]);
    assert!((decoded - val).abs() < 1e-10);
}

#[test]
fn primitives_encode_bool_true() {
    let mut buf = [0u8; 4];
    let wrote = true.encode_to(&mut buf);
    assert_eq!(wrote, 1);
    assert_eq!(buf[0], 1);
}

#[test]
fn primitives_encode_bool_false() {
    let mut buf = [0u8; 4];
    let wrote = false.encode_to(&mut buf);
    assert_eq!(wrote, 1);
    assert_eq!(buf[0], 0);
}

#[test]
fn primitives_encode_char() {
    let mut buf = [0u8; 4];
    let wrote = '🦀'.encode_to(&mut buf);
    assert_eq!(wrote, 4);
    let code = u32::from_ne_bytes(buf);
    assert_eq!(code, '🦀' as u32);
}

#[test]
fn primitives_encode_unit() {
    let mut buf = [0u8; 4];
    let wrote = ().encode_to(&mut buf);
    assert_eq!(wrote, 0);
}

#[test]
fn primitives_encode_str() {
    let val: &str = "hello world";
    let mut buf = [0u8; 32];
    let wrote = val.encode_to(&mut buf);
    assert_eq!(wrote, 2 + 11);
    let len = u16::from_ne_bytes([buf[0], buf[1]]);
    assert_eq!(len, 11);
    assert_eq!(&buf[2..13], b"hello world");
}

#[test]
fn primitives_encode_string() {
    let val = String::from("test");
    let mut buf = [0u8; 32];
    let wrote = val.encode_to(&mut buf);
    assert_eq!(wrote, 6);
}

#[test]
fn primitives_schema_i32_is_signed_int_3() {
    assert_eq!(<i32 as Encode>::schema(), vec![op_signed_int(3)]);
}

#[test]
fn primitives_schema_f64_is_float_4() {
    assert_eq!(<Float64Bits as Encode>::schema(), vec![op_float(4)]);
}

#[test]
fn primitives_schema_bool() {
    assert_eq!(<bool as Encode>::schema(), vec![op_bool()]);
}

#[test]
fn primitives_schema_str() {
    assert_eq!(<&str as Encode>::schema(), vec![op_str(2)]);
}
