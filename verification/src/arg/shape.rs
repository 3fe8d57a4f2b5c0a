//! The schemas, string tables and encodings of user-defined structs and enums,
//! built from the shape of the type: its fields and variants, their names, and
//! the schemas of their field types.
//!
//! A struct with named fields is a `STRUCT` whose field names go, each followed
//! by a 0 byte, into the type's string table (table index 0); a tuple struct is a
//! `TUPLE` of its field schemas; an enum is an `ENUM` whose variant names go into
//! the string table, each variant carrying a unit schema, its single field's
//! schema, a `TUPLE` or a `STRUCT` of its fields.
use vstd::prelude::*;

use super::compound::{append_bytes, opcode_byte};
use super::schema_laws::concat;
use super::{opcode, OP_ENUM, OP_STRUCT, OP_TUPLE, OP_UNIT};

verus! {

/// A named field: its name and the schema of its type.
pub struct NamedField {
    pub name: String,
    pub schema: Vec<u8>,
}

/// The fields of a struct or of an enum variant.
pub enum FieldsShape {
    Unit,
    /// The schemas of the field types, in order.
    Unnamed(Vec<Vec<u8>>),
    Named(Vec<NamedField>),
}

/// One variant of an enum: its name and its fields.
pub struct VariantShape {
    pub name: String,
    pub fields: FieldsShape,
}

/// The shape of a type that `Encode` is to be derived for.
pub enum TypeShape {
    Struct(FieldsShape),
    Enum(Vec<VariantShape>),
    Union,
}

/// The shapes that no `Encode` can be derived for.
#[derive(Debug, Clone, Copy, PartialEq, Eq, Structural)]
pub enum DeriveError {
    /// A struct without fields.
    UnitStruct,
    Union,
}

/// What a derived `Encode` describes a type by: its schema and its string table.
pub struct DerivedEncode {
    pub schema: Vec<u8>,
    pub string_table: Vec<u8>,
}

/// The UTF-8 bytes of a name.
pub open spec fn name_bytes(name: String) -> Seq<u8> {
    vstd::utf8::encode_utf8(name@)
}

/// The low 16 bits of `n`, little-endian.
pub open spec fn u16_le(n: nat) -> Seq<u8> {
    seq![(n % 256) as u8, ((n / 256) % 256) as u8]
}

/// The opening of a compound of category `cat` with `n` members: the count inline
/// in the opcode when it is at most 15, else a 0 count nibble and the count's low
/// 16 bits.
pub open spec fn count_header(cat: u8, n: nat) -> Seq<u8> {
    if n <= 15 {
        seq![opcode(cat, n as u8)]
    } else {
        seq![cat] + u16_le(n)
    }
}

/// The views of a list of byte vectors.
pub open spec fn byte_views(v: Seq<Vec<u8>>) -> Seq<Seq<u8>> {
    v.map_values(|b: Vec<u8>| b@)
}

/// The (name offset, schema) entries of named fields, and the string table after
/// their names (each followed by a 0 byte) are appended to `table`. A name's
/// offset is the table's length before it, kept to 16 bits.
pub open spec fn named_fields_schema(fields: Seq<NamedField>, table: Seq<u8>) -> (Seq<u8>, Seq<u8>)
    decreases fields.len(),
{
    if fields.len() == 0 {
        (Seq::empty(), table)
    } else {
        let f = fields[0];
        let (rest, t2) = named_fields_schema(fields.drop_first(), table + name_bytes(f.name) + seq![0u8]);
        (u16_le(table.len()) + f.schema@ + rest, t2)
    }
}

/// The schema of a struct with named fields (string table index 0), and the
/// string table after the field names are appended to `table`.
pub open spec fn spec_struct_schema_named(fields: Seq<NamedField>, table: Seq<u8>) -> (Seq<u8>, Seq<u8>) {
    let (body, t2) = named_fields_schema(fields, table);
    (count_header(OP_STRUCT, fields.len()) + seq![0u8] + body, t2)
}

/// The schema of a tuple struct: a `TUPLE` of its field schemas.
pub open spec fn spec_struct_schema_unnamed(fields: Seq<Seq<u8>>) -> Seq<u8> {
    count_header(OP_TUPLE, fields.len()) + concat(fields)
}

/// The schema a variant carries, and the string table after it.
pub open spec fn spec_variant_sub_schema(fields: FieldsShape, table: Seq<u8>) -> (Seq<u8>, Seq<u8>) {
    match fields {
        FieldsShape::Unit => (seq![OP_UNIT], table),
        FieldsShape::Unnamed(v) => if v@.len() == 1 {
            (v@[0]@, table)
        } else {
            (spec_struct_schema_unnamed(byte_views(v@)), table)
        },
        FieldsShape::Named(v) => spec_struct_schema_named(v@, table),
    }
}

/// The (name offset, variant schema) entries of an enum's variants, and the
/// string table after each variant's name, then its fields' names, are appended.
pub open spec fn variants_schema(variants: Seq<VariantShape>, table: Seq<u8>) -> (Seq<u8>, Seq<u8>)
    decreases variants.len(),
{
    if variants.len() == 0 {
        (Seq::empty(), table)
    } else {
        let v = variants[0];
        let (sub, t1) = spec_variant_sub_schema(v.fields, table + name_bytes(v.name) + seq![0u8]);
        let (rest, t2) = variants_schema(variants.drop_first(), t1);
        (u16_le(table.len()) + sub + rest, t2)
    }
}

/// The width of an enum's discriminant: one byte for up to 255 variants, else two.
pub open spec fn discriminant_width(n: nat) -> u8 {
    if n <= 255 {
        1
    } else {
        2
    }
}

/// The schema of an enum (string table index 0), and the string table after its
/// names are appended to `table`.
pub open spec fn spec_enum_schema(variants: Seq<VariantShape>, table: Seq<u8>) -> (Seq<u8>, Seq<u8>) {
    let (body, t2) = variants_schema(variants, table);
    (count_header(OP_ENUM, variants.len()) + seq![discriminant_width(variants.len()), 0u8] + body, t2)
}

/// What deriving `Encode` gives for a shape: its schema and string table, or the
/// reason it cannot be derived.
pub open spec fn spec_derive(shape: TypeShape) -> Result<(Seq<u8>, Seq<u8>), DeriveError> {
    match shape {
        TypeShape::Struct(FieldsShape::Named(v)) => Ok(spec_struct_schema_named(v@, Seq::empty())),
        TypeShape::Struct(FieldsShape::Unnamed(v)) => Ok((spec_struct_schema_unnamed(byte_views(v@)), Seq::empty())),
        TypeShape::Struct(FieldsShape::Unit) => Err(DeriveError::UnitStruct),
        TypeShape::Enum(v) => Ok(spec_enum_schema(v@, Seq::empty())),
        TypeShape::Union => Err(DeriveError::Union),
    }
}

/// The discriminant of variant `idx`: two little-endian bytes when the enum uses
/// a `u16` discriminant, else one byte.
pub open spec fn discriminant(idx: nat, uses_u16: bool) -> Seq<u8> {
    if uses_u16 {
        u16_le(idx)
    } else {
        seq![(idx % 256) as u8]
    }
}

/// The sum of `sizes`.
pub open spec fn total(sizes: Seq<usize>) -> nat
    decreases sizes.len(),
{
    if sizes.len() == 0 {
        0
    } else {
        sizes[0] as nat + total(sizes.drop_first())
    }
}

fn push_u16_le(v: &mut Vec<u8>, n: usize)
    ensures
        final(v)@ == old(v)@ + u16_le(n as nat),
{
    v.push((n % 256) as u8);
    v.push(((n / 256) % 256) as u8);
    assert(final(v)@ =~= old(v)@ + u16_le(n as nat));
}

fn push_count_header(v: &mut Vec<u8>, cat: u8, n: usize)
    ensures
        final(v)@ == old(v)@ + count_header(cat, n as nat),
{
    if n <= 15 {
        v.push(opcode_byte(cat, n as u8));
    } else {
        v.push(cat);
        push_u16_le(v, n);
    }
    assert(final(v)@ =~= old(v)@ + count_header(cat, n as nat));
}

/// Appends `name` and a 0 byte to the string table.
fn push_name(table: &mut Vec<u8>, name: &String)
    ensures
        final(table)@ == old(table)@ + name_bytes(*name) + seq![0u8],
{
    append_bytes(table, name.as_str().as_bytes());
    table.push(0u8);
}

/// The schema of a struct with named fields; their names are appended to
/// `string_table`, each followed by a 0 byte.
pub fn struct_schema_named(fields: &[NamedField], string_table: &mut Vec<u8>) -> (r: Vec<u8>)
    ensures
        (r@, final(string_table)@) == spec_struct_schema_named(fields@, old(string_table)@),
{
    let mut v: Vec<u8> = Vec::new();
    push_count_header(&mut v, OP_STRUCT, fields.len());
    v.push(0u8);
    let ghost head = v@;
    let ghost target = named_fields_schema(fields@, string_table@);
    assert(fields@.skip(0) =~= fields@);
    let mut i: usize = 0;
    while i < fields.len()
        invariant
            i <= fields@.len(),
            named_fields_schema(fields@.skip(i as int), string_table@) matches (rest, t2)
                && v@ + rest == head + target.0 && t2 == target.1,
        decreases fields.len() - i,
    {
        let ghost before = v@;
        let ghost tbl = string_table@;
        assert(fields@.skip(i as int).drop_first() =~= fields@.skip(i + 1));
        push_u16_le(&mut v, string_table.len());
        push_name(string_table, &fields[i].name);
        append_bytes(&mut v, fields[i].schema.as_slice());
        proof {
            let rest1 = named_fields_schema(fields@.skip(i + 1), string_table@).0;
            assert(v@ + rest1 =~= before + (u16_le(tbl.len()) + fields@[i as int].schema@ + rest1));
        }
        i = i + 1;
    }
    assert(v@ + Seq::<u8>::empty() =~= v@);
    assert(head + target.0 =~= count_header(OP_STRUCT, fields@.len()) + seq![0u8] + target.0);
    v
}

/// The schema of a tuple struct: a `TUPLE` of its field schemas.
pub fn struct_schema_unnamed(fields: &[Vec<u8>]) -> (r: Vec<u8>)
    ensures
        r@ == spec_struct_schema_unnamed(byte_views(fields@)),
{
    let mut v: Vec<u8> = Vec::new();
    push_count_header(&mut v, OP_TUPLE, fields.len());
    let ghost head = v@;
    let ghost all = byte_views(fields@);
    assert(all.skip(0) =~= all);
    let mut i: usize = 0;
    while i < fields.len()
        invariant
            i <= fields@.len(),
            all == byte_views(fields@),
            v@ + concat(all.skip(i as int)) == head + concat(all),
        decreases fields.len() - i,
    {
        let ghost before = v@;
        assert(all.skip(i as int).drop_first() =~= all.skip(i + 1));
        assert(all.skip(i as int)[0] == fields@[i as int]@);
        append_bytes(&mut v, fields[i].as_slice());
        assert(v@ + concat(all.skip(i + 1)) =~= before + (fields@[i as int]@ + concat(all.skip(i + 1))));
        i = i + 1;
    }
    assert(all.skip(i as int) =~= Seq::<Seq<u8>>::empty());
    assert(v@ + Seq::<u8>::empty() =~= v@);
    v
}

/// The schema a variant carries: the unit schema, its one field's schema, or a
/// `TUPLE` or `STRUCT` of its fields (whose names go into `string_table`).
pub fn variant_sub_schema(fields: &FieldsShape, string_table: &mut Vec<u8>) -> (r: Vec<u8>)
    ensures
        (r@, final(string_table)@) == spec_variant_sub_schema(*fields, old(string_table)@),
{
    match fields {
        FieldsShape::Unit => {
            let mut v: Vec<u8> = Vec::new();
            v.push(OP_UNIT);
            assert(v@ =~= seq![OP_UNIT]);
            v
        },
        FieldsShape::Unnamed(f) => {
            if f.len() == 1 {
                let mut v: Vec<u8> = Vec::new();
                append_bytes(&mut v, f[0].as_slice());
                assert(v@ =~= f@[0]@);
                v
            } else {
                struct_schema_unnamed(f.as_slice())
            }
        },
        FieldsShape::Named(f) => struct_schema_named(f.as_slice(), string_table),
    }
}

/// The schema of an enum: a one-byte discriminant for up to 255 variants, else
/// two; each variant's name, then its fields' names, go into `string_table`.
pub fn enum_schema(variants: &[VariantShape], string_table: &mut Vec<u8>) -> (r: Vec<u8>)
    ensures
        (r@, final(string_table)@) == spec_enum_schema(variants@, old(string_table)@),
{
    let n = variants.len();
    let vdx_k: u8 = if n <= 255 {
        1
    } else {
        2
    };
    let mut v: Vec<u8> = Vec::new();
    push_count_header(&mut v, OP_ENUM, n);
    v.push(vdx_k);
    v.push(0u8);
    let ghost head = v@;
    let ghost target = variants_schema(variants@, string_table@);
    assert(variants@.skip(0) =~= variants@);
    let mut i: usize = 0;
    while i < variants.len()
        invariant
            i <= variants@.len(),
            variants_schema(variants@.skip(i as int), string_table@) matches (rest, t2)
                && v@ + rest == head + target.0 && t2 == target.1,
        decreases variants.len() - i,
    {
        let ghost before = v@;
        let ghost tbl = string_table@;
        assert(variants@.skip(i as int).drop_first() =~= variants@.skip(i + 1));
        push_u16_le(&mut v, string_table.len());
        push_name(string_table, &variants[i].name);
        let sub = variant_sub_schema(&variants[i].fields, string_table);
        append_bytes(&mut v, sub.as_slice());
        proof {
            let rest1 = variants_schema(variants@.skip(i + 1), string_table@).0;
            assert(v@ + rest1 =~= before + (u16_le(tbl.len()) + sub@ + rest1));
        }
        i = i + 1;
    }
    assert(v@ + Seq::<u8>::empty() =~= v@);
    assert(head + target.0 =~= count_header(OP_ENUM, variants@.len()) + seq![discriminant_width(variants@.len()), 0u8] + target.0);
    v
}

/// Derives the schema and string table of a shape: structs with named fields and
/// tuple structs, and enums. A struct without fields and a union are refused.
pub fn derive_encode(shape: &TypeShape) -> (r: Result<DerivedEncode, DeriveError>)
    ensures
        match (r, spec_derive(*shape)) {
            (Ok(d), Ok((s, t))) => d.schema@ == s && d.string_table@ == t,
            (Err(e), Err(f)) => e == f,
            _ => false,
        },
{
    match shape {
        TypeShape::Struct(FieldsShape::Named(f)) => {
            let mut table: Vec<u8> = Vec::new();
            let schema = struct_schema_named(f.as_slice(), &mut table);
            Ok(DerivedEncode { schema, string_table: table })
        },
        TypeShape::Struct(FieldsShape::Unnamed(f)) => {
            let schema = struct_schema_unnamed(f.as_slice());
            Ok(DerivedEncode { schema, string_table: Vec::new() })
        },
        TypeShape::Struct(FieldsShape::Unit) => Err(DeriveError::UnitStruct),
        TypeShape::Enum(v) => {
            let mut table: Vec<u8> = Vec::new();
            let schema = enum_schema(v.as_slice(), &mut table);
            Ok(DerivedEncode { schema, string_table: table })
        },
        TypeShape::Union => Err(DeriveError::Union),
    }
}

/// The encoding of a struct: its fields' encodings, one after another.
pub fn struct_encode_body(fields: &[Vec<u8>]) -> (r: Vec<u8>)
    ensures
        r@ == concat(byte_views(fields@)),
{
    let mut v: Vec<u8> = Vec::new();
    let ghost all = byte_views(fields@);
    assert(all.skip(0) =~= all);
    let mut i: usize = 0;
    while i < fields.len()
        invariant
            i <= fields@.len(),
            all == byte_views(fields@),
            v@ + concat(all.skip(i as int)) == concat(all),
        decreases fields.len() - i,
    {
        let ghost before = v@;
        assert(all.skip(i as int).drop_first() =~= all.skip(i + 1));
        assert(all.skip(i as int)[0] == fields@[i as int]@);
        append_bytes(&mut v, fields[i].as_slice());
        assert(v@ + concat(all.skip(i + 1)) =~= before + (fields@[i as int]@ + concat(all.skip(i + 1))));
        i = i + 1;
    }
    assert(all.skip(i as int) =~= Seq::<Seq<u8>>::empty());
    assert(all.skip(0) =~= all);
    assert(v@ + Seq::<u8>::empty() =~= v@);
    v
}

/// The encoding of variant `idx` of an enum: its discriminant, then its fields'
/// encodings.
pub fn variant_encode_body(idx: usize, uses_u16: bool, fields: &[Vec<u8>]) -> (r: Vec<u8>)
    ensures
        r@ == discriminant(idx as nat, uses_u16) + concat(byte_views(fields@)),
{
    let mut v: Vec<u8> = Vec::new();
    if uses_u16 {
        push_u16_le(&mut v, idx);
    } else {
        v.push((idx % 256) as u8);
    }
    let body = struct_encode_body(fields);
    append_bytes(&mut v, body.as_slice());
    assert(v@ =~= discriminant(idx as nat, uses_u16) + concat(byte_views(fields@)));
    v
}

/// The encoding of variant `idx` of an enum of `variant_count` variants: a `u16`
/// discriminant when there are more than 255 variants.
pub fn enum_encode_body(variant_count: usize, idx: usize, fields: &[Vec<u8>]) -> (r: Vec<u8>)
    ensures
        r@ == discriminant(idx as nat, variant_count > 255) + concat(byte_views(fields@)),
{
    variant_encode_body(idx, variant_count > 255, fields)
}

/// The most bytes a variant's encoding takes: its discriminant's width and its
/// fields' sizes.
pub fn variant_max_size_body(disc_size: usize, sizes: &[usize]) -> (r: usize)
    requires
        disc_size + total(sizes@) <= usize::MAX,
    ensures
        r == disc_size + total(sizes@),
{
    let mut sum: usize = disc_size;
    assert(sizes@.skip(0) =~= sizes@);
    let mut i: usize = 0;
    while i < sizes.len()
        invariant
            i <= sizes@.len(),
            disc_size + total(sizes@) <= usize::MAX,
            sum + total(sizes@.skip(i as int)) == disc_size + total(sizes@),
        decreases sizes.len() - i,
    {
        assert(sizes@.skip(i as int).drop_first() =~= sizes@.skip(i + 1));
        sum = sum + sizes[i];
        i = i + 1;
    }
    assert(sizes@.skip(i as int) =~= Seq::<usize>::empty());
    sum
}

/// The most bytes a struct's encoding takes: the sum of its fields' sizes.
pub fn struct_max_size_body(sizes: &[usize]) -> (r: usize)
    requires
        total(sizes@) <= usize::MAX,
    ensures
        r == total(sizes@),
{
    variant_max_size_body(0, sizes)
}

/// The most bytes a variant of an enum of `variant_count` variants takes.
pub fn enum_max_size_body(variant_count: usize, sizes: &[usize]) -> (r: usize)
    requires
        discriminant_width(variant_count as nat) + total(sizes@) <= usize::MAX,
    ensures
        r == discriminant_width(variant_count as nat) + total(sizes@),
{
    let disc: usize = if variant_count > 255 {
        2
    } else {
        1
    };
    variant_max_size_body(disc, sizes)
}

} // verus!
