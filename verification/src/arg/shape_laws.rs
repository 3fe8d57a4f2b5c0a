//! What formatting gives back of a struct or an enum whose schema, string table and
//! encoding were derived from its shape, and which derived schemas delimit
//! themselves.
use vstd::prelude::*;

use super::laws::{formats_back, lemma_delimiting_not_unit};
use super::bytes::{lemma_pow256_values, spec_read_unsigned};
use super::render::{enum_scan, item_sep, lit, render, render_struct_items};
use super::schema_laws::{concat, self_delimiting};
use super::shape::{
    discriminant, discriminant_width, name_bytes, named_fields_schema, spec_enum_schema, spec_struct_schema_named,
    spec_variant_sub_schema, u16_le, variants_schema, FieldsShape, NamedField, VariantShape,
};
use super::schema::{extent_named_list, schema_extent, u16_at};
use super::strtab::{nul_end, table_name};
use super::traits::UserFormatter;
use super::{opcode, spec_size_for_k, CAT_MASK, OP_ENUM, OP_STRUCT, OP_UNIT, SIZE_MASK};
use crate::text::{text, Token};

verus! {

/// The names of named fields, each followed by a 0 byte, one after another: what
/// deriving appends to a string table.
pub open spec fn names_table(fields: Seq<NamedField>) -> Seq<u8>
    decreases fields.len(),
{
    if fields.len() == 0 {
        Seq::empty()
    } else {
        name_bytes(fields[0].name) + seq![0u8] + names_table(fields.drop_first())
    }
}

/// The UTF-8 names of fields.
pub open spec fn field_names(fields: Seq<NamedField>) -> Seq<Seq<u8>> {
    fields.map_values(|f: NamedField| name_bytes(f.name))
}

/// The text of a struct's fields from the one at position `i` on: `name: value`,
/// separated by `, `.
pub open spec fn fields_text(names: Seq<Seq<u8>>, outs: Seq<Seq<Token>>, i: nat) -> Seq<Token>
    decreases names.len(),
{
    if names.len() == 0 {
        Seq::empty()
    } else {
        item_sep(i) + text(names[0]) + lit(58) + lit(32) + outs[0] + fields_text(
            names.drop_first(),
            outs.drop_first(),
            i + 1,
        )
    }
}

/// Deriving appends exactly the field names, each followed by a 0 byte, to the table.
pub proof fn lemma_named_fields_table(fields: Seq<NamedField>, table: Seq<u8>)
    ensures
        named_fields_schema(fields, table).1 == table + names_table(fields),
    decreases fields.len(),
{
    if fields.len() > 0 {
        let f = fields[0];
        let next = table + name_bytes(f.name) + seq![0u8];
        lemma_named_fields_table(fields.drop_first(), next);
        assert(next + names_table(fields.drop_first()) =~= table + names_table(fields));
    } else {
        assert(table + Seq::<u8>::empty() =~= table);
    }
}

proof fn lemma_nul_end_at(t: Seq<u8>, i: nat, k: nat)
    requires
        i + k < t.len(),
        t[(i + k) as int] == 0,
        forall|j: int| i <= j < i + k ==> t[j] != 0,
    ensures
        nul_end(t, i) == i + k,
    decreases k,
{
    if k > 0 {
        lemma_nul_end_at(t, i + 1, (k - 1) as nat);
    }
}

/// A name followed by a 0 byte, with no 0 byte inside it, is read back whole from
/// its offset.
proof fn lemma_name_lookup(tables: Seq<Seq<u8>>, pre: Seq<u8>, name: Seq<u8>, post: Seq<u8>, chars: Seq<char>)
    requires
        tables.len() > 0,
        tables[0] == pre + name + seq![0u8] + post,
        name == vstd::utf8::encode_utf8(chars),
        !name.contains(0u8),
    ensures
        table_name(tables, 0, pre.len()) == name,
{
    let t = tables[0];
    let off = pre.len();
    assert forall|j: int| off <= j < off + name.len() implies t[j] != 0 by {
        assert(t[j] == name[j - off]);
        if t[j] == 0 {
            assert(name.contains(0u8));
        }
    }
    assert(t[(off + name.len()) as int] == 0u8);
    lemma_nul_end_at(t, off, name.len());
    assert(t.subrange(off as int, (off + name.len()) as int) =~= name);
    vstd::utf8::encode_utf8_valid_utf8(chars);
}

/// The fields of a derived struct, from some field on, render one after another
/// as `name: value`.
#[verifier::spinoff_prover]
#[verifier::rlimit(80)]
proof fn lemma_struct_items(
    fs: Seq<NamedField>,
    es: Seq<Seq<u8>>,
    os: Seq<Seq<Token>>,
    pre: Seq<u8>,
    p: Seq<u8>,
    pos: nat,
    rest: Seq<u8>,
    tables: Seq<Seq<u8>>,
    ufs: Seq<&dyn UserFormatter>,
    i: nat,
)
    requires
        es.len() == fs.len(),
        os.len() == fs.len(),
        forall|k: int|
            0 <= k < fs.len() ==> self_delimiting(#[trigger] fs[k].schema@) && formats_back(
                fs[k].schema@,
                es[k],
                os[k],
            ) && !name_bytes(fs[k].name).contains(0u8),
        tables.len() > 0,
        tables[0] == pre + names_table(fs),
        pre.len() + names_table(fs).len() <= 0x10000,
        named_fields_schema(fs, pre).0.len() <= usize::MAX,
        pos <= p.len(),
        p.subrange(pos as int, p.len() as int) == concat(es) + rest,
        pos + concat(es).len() <= usize::MAX,
    ensures
        render_struct_items(named_fields_schema(fs, pre).0, 0, p, tables, ufs, pos, i, i + fs.len())
            == Some((pos + concat(es).len(), fields_text(field_names(fs), os, i))),
    decreases fs.len(),
{
    let t = named_fields_schema(fs, pre).0;
    let n = i + fs.len();
    if fs.len() == 0 {
        assert(field_names(fs) =~= Seq::<Seq<u8>>::empty());
    } else {
        let f = fs[0];
        let fs2 = fs.drop_first();
        let es2 = es.drop_first();
        let os2 = os.drop_first();
        let name = name_bytes(f.name);
        let pre2 = pre + name + seq![0u8];
        let t_rest = named_fields_schema(fs2, pre2).0;
        let sch = f.schema@;
        assert(t == u16_le(pre.len()) + sch + t_rest);
        assert(names_table(fs) == name + seq![0u8] + names_table(fs2));
        assert(tables[0] =~= pre2 + names_table(fs2));
        assert(tables[0] =~= pre + name + seq![0u8] + names_table(fs2));
        assert(self_delimiting(fs[0].schema@));
        lemma_name_lookup(tables, pre, name, names_table(fs2), f.name@);
        assert(u16_at(t, 0) == pre.len());
        let t2 = t.subrange(2, t.len() as int);
        assert(t2 =~= sch + t_rest);
        assert(schema_extent(sch + t_rest) == Some(sch.len()));
        assert(t2.subrange(0, sch.len() as int) =~= sch);
        assert(t2.subrange(sch.len() as int, t2.len() as int) =~= t_rest);
        assert(concat(es) == es[0] + concat(es2));
        assert(p.subrange(pos as int, p.len() as int) =~= es[0] + (concat(es2) + rest));
        assert(render(sch, es[0] + (concat(es2) + rest), tables, ufs) == Some((es[0].len(), os[0])));
        let pos2 = pos + es[0].len();
        assert(p.subrange(pos2 as int, p.len() as int) =~= concat(es2) + rest) by {
            let q = p.subrange(pos as int, p.len() as int);
            assert(p.subrange(pos2 as int, p.len() as int) =~= q.subrange(es[0].len() as int, q.len() as int));
        }
        assert forall|k: int|
            0 <= k < fs2.len() implies self_delimiting(#[trigger] fs2[k].schema@) && formats_back(
                fs2[k].schema@,
                es2[k],
                os2[k],
            ) && !name_bytes(fs2[k].name).contains(0u8) by {
            assert(fs2[k] == fs[k + 1]);
            assert(self_delimiting(fs[k + 1].schema@));
        }
        lemma_struct_items(fs2, es2, os2, pre2, p, pos2, rest, tables, ufs, i + 1);
        assert(field_names(fs2) =~= field_names(fs).drop_first());
        assert(field_names(fs)[0] == name);
    }
}

/// The header of a derived struct schema: its opcode's category, the field count
/// that `compound_header` reads, and where the string table index and the fields are.
proof fn lemma_struct_header(fields: Seq<NamedField>, table: Seq<u8>)
    requires
        1 <= fields.len() <= 0xFFFF,
    ensures
        ({
            let s = spec_struct_schema_named(fields, table).0;
            let h: nat = if fields.len() <= 15 { 1 } else { 3 };
            &&& s[0] & CAT_MASK == OP_STRUCT
            &&& (s[0] & SIZE_MASK == 0) == (fields.len() > 15)
            &&& s.len() > h + 1
            &&& super::render::compound_header(s) == Some((fields.len(), h))
            &&& s[h as int] == 0u8
            &&& s.subrange(h + 1int, s.len() as int) == named_fields_schema(fields, table).0
            &&& fields.len() > 15 ==> u16_at(s, 1) == fields.len()
        }),
{
    let body = named_fields_schema(fields, table).0;
    let s = spec_struct_schema_named(fields, table).0;
    if fields.len() <= 15 {
        let n = fields.len() as u8;
        let op = opcode(OP_STRUCT, n);
        assert(op & CAT_MASK == OP_STRUCT && op & SIZE_MASK == n) by (bit_vector)
            requires
                op == OP_STRUCT | (n & 0x0F),
                1 <= n <= 15,
        ;
        assert(s == seq![op] + seq![0u8] + body);
        assert(s.subrange(2, s.len() as int) =~= body);
        lemma_named_fields_nonempty(fields, table);
    } else {
        let nn = fields.len();
        assert(OP_STRUCT & CAT_MASK == OP_STRUCT && OP_STRUCT & SIZE_MASK == 0) by (bit_vector);
        assert(s == seq![OP_STRUCT] + u16_le(nn) + seq![0u8] + body);
        assert(s[1] == (nn % 256) as u8 && s[2] == ((nn / 256) % 256) as u8);
        assert(u16_at(s, 1) == nn);
        assert(s.subrange(4, s.len() as int) =~= body);
        lemma_named_fields_nonempty(fields, table);
    }
}

/// The entries of at least one field take at least two bytes.
proof fn lemma_named_fields_nonempty(fields: Seq<NamedField>, table: Seq<u8>)
    requires
        fields.len() > 0,
    ensures
        named_fields_schema(fields, table).0.len() >= 2,
{
}

/// A struct with 1 to 65535 named fields, encoded field after field under the
/// schema and string table that deriving gives it, formats back as
/// `{name: value, ...}`, each field formatting back to its own text. The field
/// names hold no 0 byte and all of them fit in the 16-bit offsets of the string
/// table.
pub proof fn lemma_struct_roundtrip(
    fields: Seq<NamedField>,
    encs: Seq<Seq<u8>>,
    outs: Seq<Seq<Token>>,
    rest: Seq<u8>,
    tables: Seq<Seq<u8>>,
    ufs: Seq<&dyn UserFormatter>,
)
    requires
        1 <= fields.len() <= 0xFFFF,
        encs.len() == fields.len(),
        outs.len() == fields.len(),
        forall|k: int|
            0 <= k < fields.len() ==> self_delimiting(#[trigger] fields[k].schema@) && formats_back(
                fields[k].schema@,
                encs[k],
                outs[k],
            ) && !name_bytes(fields[k].name).contains(0u8),
        spec_struct_schema_named(fields, Seq::empty()).1.len() <= 0x10000,
        spec_struct_schema_named(fields, Seq::empty()).0.len() <= usize::MAX,
        concat(encs).len() <= usize::MAX,
        tables.len() > 0,
        tables[0] == spec_struct_schema_named(fields, Seq::empty()).1,
    ensures
        render(spec_struct_schema_named(fields, Seq::empty()).0, concat(encs) + rest, tables, ufs)
            == Some((concat(encs).len(), lit(123) + fields_text(field_names(fields), outs, 0) + lit(125))),
{
    lemma_struct_header(fields, Seq::empty());
    lemma_named_fields_table(fields, Seq::empty());
    assert(tables[0] =~= Seq::<u8>::empty() + names_table(fields));
    let p = concat(encs) + rest;
    assert(p.subrange(0, p.len() as int) =~= concat(encs) + rest);
    lemma_struct_items(fields, encs, outs, Seq::empty(), p, 0, rest, tables, ufs, 0);
}

/// A variant that is a bare name, or a name with one unnamed field whose schema
/// delimits itself and is not the unit schema.
pub open spec fn simple_variant(v: VariantShape) -> bool {
    match v.fields {
        FieldsShape::Unit => true,
        FieldsShape::Unnamed(f) => f@.len() == 1 && self_delimiting(f@[0]@) && f@[0]@ != seq![OP_UNIT],
        FieldsShape::Named(_) => false,
    }
}

/// The schema a simple variant carries.
pub open spec fn simple_sub(v: VariantShape) -> Seq<u8> {
    match v.fields {
        FieldsShape::Unnamed(f) => f@[0]@,
        _ => seq![OP_UNIT],
    }
}

/// The names of variants, each followed by a 0 byte, one after another.
pub open spec fn variant_names_table(vs: Seq<VariantShape>) -> Seq<u8>
    decreases vs.len(),
{
    if vs.len() == 0 {
        Seq::empty()
    } else {
        name_bytes(vs[0].name) + seq![0u8] + variant_names_table(vs.drop_first())
    }
}

/// How a value of a simple variant formats: its name, followed by its field's
/// text in parentheses when it has a field.
pub open spec fn variant_text(v: VariantShape, out: Seq<Token>) -> Seq<Token> {
    match v.fields {
        FieldsShape::Unit => text(name_bytes(v.name)),
        _ => text(name_bytes(v.name)) + lit(40) + out + lit(41),
    }
}

proof fn lemma_simple_variants_schema(vs: Seq<VariantShape>, pre: Seq<u8>)
    requires
        forall|k: int| 0 <= k < vs.len() ==> simple_variant(#[trigger] vs[k]),
    ensures
        variants_schema(vs, pre).1 == pre + variant_names_table(vs),
        vs.len() > 0 ==> variants_schema(vs, pre).0 == u16_le(pre.len()) + simple_sub(vs[0])
            + variants_schema(vs.drop_first(), pre + name_bytes(vs[0].name) + seq![0u8]).0,
    decreases vs.len(),
{
    if vs.len() > 0 {
        let v = vs[0];
        let pre2 = pre + name_bytes(v.name) + seq![0u8];
        assert(simple_variant(vs[0]));
        assert(spec_variant_sub_schema(v.fields, pre2) == (simple_sub(v), pre2));
        assert forall|k: int| 0 <= k < vs.drop_first().len() implies simple_variant(#[trigger] vs.drop_first()[k]) by {
            assert(vs.drop_first()[k] == vs[k + 1]);
        }
        lemma_simple_variants_schema(vs.drop_first(), pre2);
        assert(pre2 + variant_names_table(vs.drop_first()) =~= pre + variant_names_table(vs));
    } else {
        assert(pre + Seq::<u8>::empty() =~= pre);
    }
}

/// The schema and name offset that the scan of an enum's variants finds for the
/// variant it looks for.
pub open spec fn scan_hit(
    t: (nat, nat, nat),
    s: Seq<u8>,
    base: nat,
    tables: Seq<Seq<u8>>,
    name: Seq<u8>,
    sub: Seq<u8>,
) -> bool {
    &&& table_name(tables, 0, t.0) == name
    &&& t.2 == sub.len()
    &&& base + t.1 + t.2 <= s.len()
    &&& s.subrange(base + t.1 as int, base + t.1 + t.2 as int) == sub
}

/// Scanning the variants of a derived enum of simple variants, from some variant
/// on, finds the variant at `idx`: its name and its schema.
#[verifier::spinoff_prover]
#[verifier::rlimit(80)]
proof fn lemma_enum_scan(
    s: Seq<u8>,
    base: nat,
    tables: Seq<Seq<u8>>,
    vs: Seq<VariantShape>,
    pre: Seq<u8>,
    rel: nat,
    i: nat,
    idx: nat,
    found: Option<(nat, nat, nat)>,
    name: Seq<u8>,
    sub: Seq<u8>,
)
    requires
        forall|k: int| 0 <= k < vs.len() ==> simple_variant(#[trigger] vs[k]) && !name_bytes(vs[k].name).contains(0u8),
        idx < i + vs.len(),
        s.len() <= usize::MAX,
        base + rel <= s.len(),
        s.subrange(base + rel as int, s.len() as int) == variants_schema(vs, pre).0,
        tables.len() > 0,
        tables[0] == pre + variant_names_table(vs),
        pre.len() + variant_names_table(vs).len() <= 0x10000,
        i <= idx ==> found is None && name == name_bytes(vs[idx - i].name) && sub == simple_sub(vs[idx - i]),
        i > idx ==> (found matches Some(t) && scan_hit(t, s, base, tables, name, sub)),
    ensures
        enum_scan(s, base, rel, i, i + vs.len(), idx, found) matches Some(Some(t)) && scan_hit(t, s, base, tables, name, sub),
    decreases vs.len(),
{
    let n = i + vs.len();
    if vs.len() > 0 {
        let v = vs[0];
        let vs2 = vs.drop_first();
        let vname = name_bytes(v.name);
        let pre2 = pre + vname + seq![0u8];
        let vsub = simple_sub(v);
        lemma_simple_variants_schema(vs, pre);
        let body2 = variants_schema(vs2, pre2).0;
        let t = s.subrange(base + rel as int, s.len() as int);
        assert(t == u16_le(pre.len()) + vsub + body2);
        assert(simple_variant(vs[0]));
        assert(self_delimiting(vsub)) by {
            if v.fields is Unit {
                assert(OP_UNIT & CAT_MASK == OP_UNIT) by (bit_vector);
                super::schema_laws::lemma_primitive_self_delimiting(OP_UNIT);
            }
        }
        assert(s[base + rel as int] == t[0] && s[base + rel + 1 as int] == t[1]);
        assert(u16_at(s, base + rel as int) == pre.len());
        let fstart = base + rel + 2;
        assert(t.subrange(2, t.len() as int) =~= vsub + body2);
        assert(s.subrange(fstart as int, s.len() as int) =~= t.subrange(2, t.len() as int));
        assert(schema_extent(vsub + body2) == Some(vsub.len()));
        let rel2 = rel + 2 + vsub.len();
        let found2 = if i == idx {
            Some((pre.len(), rel + 2, vsub.len()))
        } else {
            found
        };
        assert(t.subrange(2 + vsub.len() as int, t.len() as int) =~= body2);
        assert(s.subrange(base + rel2 as int, s.len() as int) =~= t.subrange(2 + vsub.len() as int, t.len() as int));
        assert(variant_names_table(vs) == vname + seq![0u8] + variant_names_table(vs2));
        assert(tables[0] =~= pre2 + variant_names_table(vs2));
        if i == idx {
            lemma_name_lookup(tables, pre, vname, variant_names_table(vs2), v.name@);
            assert(tables[0] =~= pre + vname + seq![0u8] + variant_names_table(vs2));
            assert(s.subrange(fstart as int, fstart + vsub.len() as int) =~= vsub);
            assert(scan_hit(found2.unwrap(), s, base, tables, name, sub));
        }
        if i < idx {
            assert(vs2[idx - (i + 1)] == vs[idx - i]);
        }
        assert forall|k: int| 0 <= k < vs2.len() implies simple_variant(#[trigger] vs2[k]) && !name_bytes(vs2[k].name).contains(0u8) by {
            assert(vs2[k] == vs[k + 1]);
        }
        lemma_enum_scan(s, base, tables, vs2, pre2, rel2, i + 1, idx, found2, name, sub);
    }
}

/// The header of a derived enum schema: its opcode's category, the variant count
/// and the header's length that `compound_header` reads, the discriminant width
/// and string table index after it.
proof fn lemma_enum_header(variants: Seq<VariantShape>, table: Seq<u8>)
    requires
        1 <= variants.len() <= 0xFFFF,
    ensures
        ({
            let s = spec_enum_schema(variants, table).0;
            let start: nat = if variants.len() <= 15 { 1 } else { 3 };
            &&& s[0] & CAT_MASK == OP_ENUM
            &&& super::render::compound_header(s) == Some((variants.len(), start))
            &&& s.len() >= start + 2
            &&& s[start as int] == discriminant_width(variants.len())
            &&& s[start + 1int] == 0u8
            &&& s.subrange(start + 2int, s.len() as int) == variants_schema(variants, table).0
        }),
{
    let body = variants_schema(variants, table).0;
    let s = spec_enum_schema(variants, table).0;
    let w = discriminant_width(variants.len());
    if variants.len() <= 15 {
        let n = variants.len() as u8;
        let op = opcode(OP_ENUM, n);
        assert(op & CAT_MASK == OP_ENUM && op & SIZE_MASK == n) by (bit_vector)
            requires
                op == OP_ENUM | (n & 0x0F),
                1 <= n <= 15,
        ;
        assert(s == seq![op] + seq![w, 0u8] + body);
        assert(s.subrange(3, s.len() as int) =~= body);
    } else {
        let nn = variants.len();
        assert(OP_ENUM & CAT_MASK == OP_ENUM && OP_ENUM & SIZE_MASK == 0) by (bit_vector);
        assert(s == seq![OP_ENUM] + u16_le(nn) + seq![w, 0u8] + body);
        assert(s[1] == (nn % 256) as u8 && s[2] == ((nn / 256) % 256) as u8);
        assert(u16_at(s, 1) == nn);
        assert(s.subrange(5, s.len() as int) =~= body);
    }
}

/// A discriminant reads back as the variant index it was written for.
proof fn lemma_discriminant_read(idx: nat, uses_u16: bool, tail: Seq<u8>)
    requires
        idx <= (if uses_u16 { 0xFFFFnat } else { 0xFFnat }),
    ensures
        spec_read_unsigned(discriminant(idx, uses_u16) + tail, if uses_u16 { 2u8 } else { 1u8 }) == idx,
        discriminant(idx, uses_u16).len() == spec_size_for_k(if uses_u16 { 2u8 } else { 1u8 }),
{
    let p = discriminant(idx, uses_u16) + tail;
    if uses_u16 {
        let two = p.subrange(0, 2);
        assert(two =~= u16_le(idx));
        reveal_with_fuel(super::bytes::le_value, 3);
        assert(two.drop_first().drop_first() =~= Seq::<u8>::empty());
        assert(super::bytes::le_value(two) == two[0] as nat + 256 * (two[1] as nat));
    } else {
        assert(p[0] == idx as u8);
    }
}

/// A value of a derived enum of 1 to 65535 variants, each a bare name or a name
/// with one (non-unit, self-delimiting) field, encoded as its discriminant (one
/// byte for up to 255 variants, else two) and its field's encoding, formats back as
/// the variant's name, followed by the field's text in parentheses when it has one.
#[verifier::spinoff_prover]
#[verifier::rlimit(60)]
pub proof fn lemma_enum_roundtrip(
    variants: Seq<VariantShape>,
    idx: nat,
    enc: Seq<u8>,
    out: Seq<Token>,
    rest: Seq<u8>,
    tables: Seq<Seq<u8>>,
    ufs: Seq<&dyn UserFormatter>,
)
    requires
        1 <= variants.len() <= 0xFFFF,
        idx < variants.len(),
        forall|k: int|
            0 <= k < variants.len() ==> simple_variant(#[trigger] variants[k]) && !name_bytes(
                variants[k].name,
            ).contains(0u8),
        variants[idx as int].fields is Unit ==> enc.len() == 0,
        !(variants[idx as int].fields is Unit) ==> formats_back(simple_sub(variants[idx as int]), enc, out),
        spec_enum_schema(variants, Seq::empty()).1.len() <= 0x10000,
        spec_enum_schema(variants, Seq::empty()).0.len() <= usize::MAX,
        2 + enc.len() <= usize::MAX,
        tables.len() > 0,
        tables[0] == spec_enum_schema(variants, Seq::empty()).1,
    ensures
        render(
            spec_enum_schema(variants, Seq::empty()).0,
            discriminant(idx, variants.len() > 255) + enc + rest,
            tables,
            ufs,
        ) == Some(
            (
                (discriminant_width(variants.len()) + enc.len()) as nat,
                variant_text(variants[idx as int], out),
            ),
        ),
{
    let s = spec_enum_schema(variants, Seq::empty()).0;
    lemma_enum_header(variants, Seq::empty());
    lemma_simple_variants_schema(variants, Seq::empty());
    assert(tables[0] =~= Seq::<u8>::empty() + variant_names_table(variants));
    let wide = variants.len() > 255;
    let k: u8 = if wide { 2 } else { 1 };
    assert(discriminant_width(variants.len()) == k);
    let d = discriminant(idx, wide);
    let p = d + enc + rest;
    assert(p =~= d + (enc + rest));
    lemma_discriminant_read(idx, wide, enc + rest);
    let vcs = spec_size_for_k(k);
    assert(vcs == k as nat);
    let start: nat = if variants.len() <= 15 { 1 } else { 3 };
    let base = start + 2;
    let v = variants[idx as int];
    let name = name_bytes(v.name);
    let sub = simple_sub(v);
    lemma_enum_scan(s, base, tables, variants, Seq::empty(), 0, 0, idx, None, name, sub);
    let t = enum_scan(s, base, 0, 0, variants.len(), idx, None).unwrap().unwrap();
    assert(scan_hit(t, s, base, tables, name, sub));
    assert(simple_variant(variants[idx as int]));
    if !(v.fields is Unit) {
        lemma_delimiting_not_unit(sub);
    }
    assert(sub.len() > 0);
    assert(p.subrange(vcs as int, p.len() as int) =~= enc + rest);
    if !(v.fields is Unit) {
        assert(render(sub, enc + rest, tables, ufs) == Some((enc.len(), out)));
        assert(!(sub.len() == 1 && sub[0] == OP_UNIT)) by {
            if sub.len() == 1 && sub[0] == OP_UNIT {
                assert(sub =~= seq![OP_UNIT]);
            }
        }
    } else {
        assert(sub =~= seq![OP_UNIT]);
    }
}

/// The (name offset, schema) entries of fields whose schemas delimit themselves
/// measure, as a list, exactly their own length.
proof fn lemma_named_list_extent(fs: Seq<NamedField>, pre: Seq<u8>, t: Seq<u8>)
    requires
        forall|k: int| 0 <= k < fs.len() ==> self_delimiting(#[trigger] fs[k].schema@),
    ensures
        extent_named_list(named_fields_schema(fs, pre).0 + t, fs.len()) == Some(named_fields_schema(fs, pre).0.len()),
    decreases fs.len(),
{
    if fs.len() > 0 {
        let f = fs[0];
        let fs2 = fs.drop_first();
        let pre2 = pre + name_bytes(f.name) + seq![0u8];
        let rest = named_fields_schema(fs2, pre2).0;
        let sch = f.schema@;
        assert forall|k: int| 0 <= k < fs2.len() implies self_delimiting(#[trigger] fs2[k].schema@) by {
            assert(fs2[k] == fs[k + 1]);
        }
        lemma_named_list_extent(fs2, pre2, t);
        assert(self_delimiting(fs[0].schema@));
        let u = named_fields_schema(fs, pre).0 + t;
        assert(u =~= u16_le(pre.len()) + (sch + (rest + t)));
        assert(u.subrange(2, u.len() as int) =~= sch + (rest + t));
        assert(schema_extent(sch + (rest + t)) == Some(sch.len()));
        assert(u.subrange(2 + sch.len() as int, u.len() as int) =~= rest + t);
        if fs.len() == 1 {
            assert(rest =~= Seq::<u8>::empty());
        }
    }
}

/// The schema derived for a struct of 1 to 65535 named fields delimits itself
/// when every field's schema does, so such a struct can be a field of another.
pub proof fn lemma_struct_self_delimiting(fields: Seq<NamedField>, table: Seq<u8>)
    requires
        1 <= fields.len() <= 0xFFFF,
        forall|k: int| 0 <= k < fields.len() ==> self_delimiting(#[trigger] fields[k].schema@),
    ensures
        self_delimiting(spec_struct_schema_named(fields, table).0),
{
    lemma_struct_header(fields, table);
    let body = named_fields_schema(fields, table).0;
    let s = spec_struct_schema_named(fields, table).0;
    let h: nat = if fields.len() <= 15 { 1 } else { 3 };
    assert forall|t: Seq<u8>| #[trigger] schema_extent(s + t) == Some(s.len()) by {
        lemma_named_list_extent(fields, table, t);
        let u = s + t;
        assert(u[0] == s[0]);
        assert(u.subrange(h + 1int, u.len() as int) =~= body + t);
        if fields.len() > 15 {
            assert(u16_at(u, 1) == u16_at(s, 1));
        }
    }
}

/// The (name offset, schema) entries of simple variants measure, as a list,
/// exactly their own length.
proof fn lemma_variants_list_extent(vs: Seq<VariantShape>, pre: Seq<u8>, t: Seq<u8>)
    requires
        forall|k: int| 0 <= k < vs.len() ==> simple_variant(#[trigger] vs[k]),
    ensures
        extent_named_list(variants_schema(vs, pre).0 + t, vs.len()) == Some(variants_schema(vs, pre).0.len()),
    decreases vs.len(),
{
    if vs.len() > 0 {
        let v = vs[0];
        let vs2 = vs.drop_first();
        let pre2 = pre + name_bytes(v.name) + seq![0u8];
        lemma_simple_variants_schema(vs, pre);
        let rest = variants_schema(vs2, pre2).0;
        let sub = simple_sub(v);
        assert(simple_variant(vs[0]));
        assert(self_delimiting(sub)) by {
            if v.fields is Unit {
                assert(OP_UNIT & CAT_MASK == OP_UNIT) by (bit_vector);
                super::schema_laws::lemma_primitive_self_delimiting(OP_UNIT);
            }
        }
        assert forall|k: int| 0 <= k < vs2.len() implies simple_variant(#[trigger] vs2[k]) by {
            assert(vs2[k] == vs[k + 1]);
        }
        lemma_variants_list_extent(vs2, pre2, t);
        let u = variants_schema(vs, pre).0 + t;
        assert(u =~= u16_le(pre.len()) + (sub + (rest + t)));
        assert(u.subrange(2, u.len() as int) =~= sub + (rest + t));
        assert(schema_extent(sub + (rest + t)) == Some(sub.len()));
        assert(u.subrange(2 + sub.len() as int, u.len() as int) =~= rest + t);
        if vs.len() == 1 {
            assert(rest =~= Seq::<u8>::empty());
        }
    }
}

/// The schema derived for an enum of 1 to 65535 simple variants delimits itself,
/// so such an enum can be a field of another type.
pub proof fn lemma_enum_self_delimiting(variants: Seq<VariantShape>, table: Seq<u8>)
    requires
        1 <= variants.len() <= 0xFFFF,
        forall|k: int| 0 <= k < variants.len() ==> simple_variant(#[trigger] variants[k]),
    ensures
        self_delimiting(spec_enum_schema(variants, table).0),
{
    lemma_enum_header(variants, table);
    let body = variants_schema(variants, table).0;
    let s = spec_enum_schema(variants, table).0;
    let start: nat = if variants.len() <= 15 { 1 } else { 3 };
    assert forall|t: Seq<u8>| #[trigger] schema_extent(s + t) == Some(s.len()) by {
        lemma_variants_list_extent(variants, table, t);
        let u = s + t;
        assert(u[0] == s[0]);
        assert(u.subrange(start + 2int, u.len() as int) =~= body + t);
        if variants.len() > 15 {
            assert(u16_at(u, 1) == u16_at(s, 1));
        }
    }
}

} // verus!
