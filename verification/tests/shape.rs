use rapidlog::arg::shape::{
    derive_encode, enum_encode_body, enum_max_size_body, enum_schema, struct_encode_body,
    struct_max_size_body, struct_schema_named, struct_schema_unnamed, variant_encode_body,
    variant_max_size_body, variant_sub_schema, DeriveError, FieldsShape, NamedField, TypeShape,
    VariantShape,
};
use rapidlog::arg::{format_payload, measure_schema, Encode};
use rapidlog::text::Token;

fn render(tokens: &[Token]) -> String {
    let bytes: Vec<u8> = tokens
        .iter()
        .map(|t| match t {
            Token::Byte(b) => *b,
            _ => b'?',
        })
        .collect();
    String::from_utf8(bytes).unwrap()
}

fn named(name: &str, schema: Vec<u8>) -> NamedField {
    NamedField { name: name.to_string(), schema }
}

fn encoded<T: Encode>(v: &T) -> Vec<u8> {
    let mut buf = vec![0u8; v.encoded_size()];
    let n = v.encode_to(&mut buf);
    buf.truncate(n);
    buf
}

#[test]
fn named_struct_schema_matches_the_documented_layout() {
    let fields = vec![named("x", <i32 as Encode>::schema()), named("y", <&str as Encode>::schema())];
    let mut table = Vec::new();
    let schema = struct_schema_named(&fields, &mut table);
    assert_eq!(schema, vec![0xA2, 0x00, 0x00, 0x00, 0x13, 0x02, 0x00, 0x42]);
    assert_eq!(table, b"x\0y\0".to_vec());
    assert_eq!(measure_schema(&schema), schema.len());
    let mut followed = schema.clone();
    followed.extend_from_slice(&[0x13, 0xA1, 0x00]);
    assert_eq!(measure_schema(&followed), schema.len());
}

#[test]
fn named_struct_formats_as_braced_fields() {
    let fields = vec![named("x", <i32 as Encode>::schema()), named("y", <&str as Encode>::schema())];
    let mut table = Vec::new();
    let schema = struct_schema_named(&fields, &mut table);
    let payload = struct_encode_body(&[encoded(&1i32), encoded(&"xyz")]);
    assert_eq!(payload, vec![1, 0, 0, 0, 3, 0, b'x', b'y', b'z']);
    let mut out = Vec::new();
    let used = format_payload(&schema, &payload, &[table.as_slice()], &[], &mut out);
    assert_eq!(used, payload.len());
    assert_eq!(render(&out), "{x: 1, y: xyz}");
}

#[test]
fn struct_with_many_fields_uses_a_u16_count() {
    let fields: Vec<NamedField> = (0..16).map(|i| named(&format!("f{i}"), vec![0x60])).collect();
    let mut table = vec![7u8];
    let schema = struct_schema_named(&fields, &mut table);
    assert_eq!(&schema[..4], &[0xA0, 16, 0, 0]);
    assert_eq!(&schema[4..7], &[1, 0, 0x60]);
    assert_eq!(&schema[7..10], &[4, 0, 0x60]);
    assert_eq!(&table[..5], &[7, b'f', b'0', 0, b'f']);
    assert_eq!(measure_schema(&schema), schema.len());
}

#[test]
fn tuple_struct_schema_is_a_tuple() {
    let schema = struct_schema_unnamed(&[<u8 as Encode>::schema(), <bool as Encode>::schema()]);
    assert_eq!(schema, vec![0x92, 0x21, 0x60]);
    let payload = struct_encode_body(&[encoded(&200u8), encoded(&true)]);
    let mut out = Vec::new();
    format_payload(&schema, &payload, &[], &[], &mut out);
    assert_eq!(render(&out), "(200, true)");
}

#[test]
fn variant_sub_schemas_by_kind() {
    let mut table = Vec::new();
    assert_eq!(variant_sub_schema(&FieldsShape::Unit, &mut table), vec![0x00]);
    assert_eq!(
        variant_sub_schema(&FieldsShape::Unnamed(vec![<i32 as Encode>::schema()]), &mut table),
        vec![0x13]
    );
    assert_eq!(
        variant_sub_schema(
            &FieldsShape::Unnamed(vec![<i32 as Encode>::schema(), <u8 as Encode>::schema()]),
            &mut table
        ),
        vec![0x92, 0x13, 0x21]
    );
    assert!(table.is_empty());
    let sub = variant_sub_schema(&FieldsShape::Named(vec![named("a", vec![0x60])]), &mut table);
    assert_eq!(sub, vec![0xA1, 0x00, 0x00, 0x00, 0x60]);
    assert_eq!(table, b"a\0".to_vec());
}

#[test]
fn enum_schema_matches_the_documented_option_layout() {
    let variants = vec![
        VariantShape { name: "None".to_string(), fields: FieldsShape::Unit },
        VariantShape {
            name: "Some".to_string(),
            fields: FieldsShape::Unnamed(vec![<i32 as Encode>::schema()]),
        },
    ];
    let mut table = Vec::new();
    let schema = enum_schema(&variants, &mut table);
    assert_eq!(schema, vec![0xB2, 0x01, 0x00, 0x00, 0x00, 0x00, 0x05, 0x00, 0x13]);
    assert_eq!(table, b"None\0Some\0".to_vec());
    assert_eq!(schema, <Option<i32> as Encode>::schema());
    let mut followed = schema.clone();
    followed.extend_from_slice(&[0x42, 0x00]);
    assert_eq!(measure_schema(&followed), schema.len());

    let some = enum_encode_body(2, 1, &[encoded(&42i32)]);
    assert_eq!(some, vec![0x01, 0x2A, 0x00, 0x00, 0x00]);
    let mut out = Vec::new();
    format_payload(&schema, &some, &[table.as_slice()], &[], &mut out);
    assert_eq!(render(&out), "Some(42)");
    let none = enum_encode_body(2, 0, &[]);
    assert_eq!(none, vec![0x00]);
    let mut out = Vec::new();
    format_payload(&schema, &none, &[table.as_slice()], &[], &mut out);
    assert_eq!(render(&out), "None");
}

#[test]
fn enum_variant_names_then_field_names_share_the_table() {
    let variants = vec![VariantShape {
        name: "Move".to_string(),
        fields: FieldsShape::Named(vec![named("dx", <i8 as Encode>::schema())]),
    }];
    let mut table = Vec::new();
    let schema = enum_schema(&variants, &mut table);
    assert_eq!(table, b"Move\0dx\0".to_vec());
    assert_eq!(schema, vec![0xB1, 0x01, 0x00, 0x00, 0x00, 0xA1, 0x00, 0x05, 0x00, 0x11]);
    let payload = enum_encode_body(1, 0, &[encoded(&-3i8)]);
    let mut out = Vec::new();
    format_payload(&schema, &payload, &[table.as_slice()], &[], &mut out);
    assert_eq!(render(&out), "Move({dx: -3})");
}

#[test]
fn many_variants_use_a_u16_discriminant() {
    let variants: Vec<VariantShape> = (0..300)
        .map(|i| VariantShape { name: format!("V{i}"), fields: FieldsShape::Unit })
        .collect();
    let mut table = Vec::new();
    let schema = enum_schema(&variants, &mut table);
    assert_eq!(&schema[..5], &[0xB0, 0x2C, 0x01, 0x02, 0x00]);
    assert_eq!(measure_schema(&schema), schema.len());
    assert_eq!(enum_encode_body(300, 258, &[]), vec![0x02, 0x01]);
    assert_eq!(variant_encode_body(258, false, &[]), vec![0x02]);
    let mut out = Vec::new();
    format_payload(&schema, &[0x02, 0x01], &[table.as_slice()], &[], &mut out);
    assert_eq!(render(&out), "V258");
}

#[test]
fn max_sizes_add_the_fields_and_the_discriminant() {
    assert_eq!(struct_max_size_body(&[4, 8, 2]), 14);
    assert_eq!(struct_max_size_body(&[]), 0);
    assert_eq!(variant_max_size_body(2, &[4]), 6);
    assert_eq!(enum_max_size_body(3, &[4, 1]), 6);
    assert_eq!(enum_max_size_body(256, &[4, 1]), 7);
}

#[test]
fn derive_refuses_unit_structs_and_unions() {
    assert_eq!(derive_encode(&TypeShape::Struct(FieldsShape::Unit)).err(), Some(DeriveError::UnitStruct));
    assert_eq!(derive_encode(&TypeShape::Union).err(), Some(DeriveError::Union));
    let d = derive_encode(&TypeShape::Struct(FieldsShape::Named(vec![named("id", vec![0x23])]))).ok().unwrap();
    assert_eq!(d.schema, vec![0xA1, 0x00, 0x00, 0x00, 0x23]);
    assert_eq!(d.string_table, b"id\0".to_vec());
    let d = derive_encode(&TypeShape::Struct(FieldsShape::Unnamed(vec![vec![0x23]]))).ok().unwrap();
    assert_eq!(d.schema, vec![0x91, 0x23]);
    assert!(d.string_table.is_empty());
}
