//! What formatting gives back of what encoding wrote.
use vstd::prelude::*;
use vstd::string::StringSliceAdditionalSpecFns;

use super::bytes::{
    int_encoding, le_bytes, le_value, lemma_le_bytes_len, lemma_le_roundtrip, lemma_pow256_values,
    pow256, spec_read_signed, spec_read_unsigned, twos,
};
use super::primitives::str_encoding;
use super::compound::{option_table, result_table};
use super::container::{items_encoding, seq_count};
use super::render::{
    enum_scan, item_sep, lit, render, render_seq_items, render_struct_items, render_tuple_items, text_false,
    text_true, text_unit, Rendered,
};
use super::schema::{schema_extent, u16_at};
use super::strtab::{nul_end, table_name};
use super::schema_laws::{concat, self_delimiting};
use super::decode_laws::{lemma_concat_split, lemma_concat_step};
use super::traits::{Encode, UserFormatter};
use super::{
    opcode, spec_size_for_k, CAT_MASK, OP_BOOL, OP_CHAR, OP_ENUM, OP_SEQ, OP_SIGNED_INT, OP_STR, OP_TUPLE,
    OP_UNIT,
    OP_STRUCT, OP_UNSIGNED_INT, OP_USER_DEFINED, SIZE_MASK,
};
use crate::text::{dec_int, text, Token};

verus! {

proof fn lemma_read_unsigned_of_le(t: nat, k: u8, rest: Seq<u8>)
    requires
        1 <= k <= 5,
        t < pow256(spec_size_for_k(k)),
    ensures
        spec_read_unsigned(le_bytes(t, spec_size_for_k(k)) + rest, k) == t,
{
    let size = spec_size_for_k(k);
    lemma_pow256_values();
    lemma_le_bytes_len(t, size);
    lemma_le_roundtrip(t, size);
    let buf = le_bytes(t, size) + rest;
    assert(buf.subrange(0, size as int) =~= le_bytes(t, size));
    if size == 1 {
        assert(le_bytes(t, 1) == seq![(t % 256) as u8] + le_bytes(t / 256, 0));
        assert(buf[0] == le_bytes(t, 1)[0]);
        assert(t < 256);
        assert(t % 256 == t);
        assert(buf[0] as nat == t);
    } else {
        let p = pow256(size);
        assert(p > 0);
        assert(t % p == t) by {
            vstd::arithmetic::div_mod::lemma_small_mod(t, p);
        }
        assert(le_value(buf.subrange(0, size as int)) == t);
    }
}

/// A signed integer of 1, 2, 4, 8 or 16 bytes (size parameter `k` from 1 to 5),
/// encoded and then formatted with its one-byte schema, renders as its decimal text
/// and consumes exactly its bytes, whatever follows them.
pub proof fn lemma_signed_roundtrip(
    k: u8,
    v: int,
    rest: Seq<u8>,
    tables: Seq<Seq<u8>>,
    ufs: Seq<&dyn UserFormatter>,
)
    requires
        1 <= k <= 5,
        -(pow256(spec_size_for_k(k)) / 2) <= v < pow256(spec_size_for_k(k)) / 2,
    ensures
        render(
            seq![opcode(OP_SIGNED_INT, k)],
            int_encoding(v, spec_size_for_k(k)) + rest,
            tables,
            ufs,
        ) == Some((spec_size_for_k(k), text(dec_int(v)))),
{
    let size = spec_size_for_k(k);
    lemma_pow256_values();
    let t = twos(v, size);
    assert(t < pow256(size));
    lemma_read_unsigned_of_le(t, k, rest);
    lemma_le_bytes_len(t, size);
    assert(spec_read_signed(int_encoding(v, size) + rest, k) == v);
    assert(opcode(OP_SIGNED_INT, k) & 0xF0 == OP_SIGNED_INT && opcode(OP_SIGNED_INT, k) & 0x0F == k)
        by (bit_vector)
        requires
            1 <= k <= 5,
    ;
}

/// An unsigned integer of 1, 2, 4, 8 or 16 bytes (size parameter `k` from 1 to 5),
/// encoded and then formatted with its one-byte schema, renders as its decimal text
/// and consumes exactly its bytes, whatever follows them.
pub proof fn lemma_unsigned_roundtrip(
    k: u8,
    v: nat,
    rest: Seq<u8>,
    tables: Seq<Seq<u8>>,
    ufs: Seq<&dyn UserFormatter>,
)
    requires
        1 <= k <= 5,
        v < pow256(spec_size_for_k(k)),
    ensures
        render(seq![opcode(OP_UNSIGNED_INT, k)], le_bytes(v, spec_size_for_k(k)) + rest, tables, ufs)
            == Some((spec_size_for_k(k), text(dec_int(v as int)))),
{
    let size = spec_size_for_k(k);
    lemma_pow256_values();
    lemma_read_unsigned_of_le(v, k, rest);
    lemma_le_bytes_len(v, size);
    assert(opcode(OP_UNSIGNED_INT, k) & 0xF0 == OP_UNSIGNED_INT && opcode(OP_UNSIGNED_INT, k) & 0x0F
        == k) by (bit_vector)
        requires
            1 <= k <= 5,
    ;
}

/// A `bool`, encoded and then formatted, renders as `true` or `false`.
pub proof fn lemma_bool_roundtrip(
    b: bool,
    rest: Seq<u8>,
    tables: Seq<Seq<u8>>,
    ufs: Seq<&dyn UserFormatter>,
)
    ensures
        render(<bool as Encode>::spec_schema(), b.spec_encoding() + rest, tables, ufs) == Some(
            (1nat, if b {
                text_true()
            } else {
                text_false()
            }),
        ),
{
    assert(OP_BOOL & 0xF0 == OP_BOOL) by (bit_vector);
    assert((b.spec_encoding() + rest)[0] == b.spec_encoding()[0]);
}

/// A `char`, encoded and then formatted, renders as its UTF-8 bytes.
pub proof fn lemma_char_roundtrip(
    c: char,
    rest: Seq<u8>,
    tables: Seq<Seq<u8>>,
    ufs: Seq<&dyn UserFormatter>,
)
    ensures
        render(<char as Encode>::spec_schema(), c.spec_encoding() + rest, tables, ufs) == Some(
            (4nat, text(vstd::utf8::encode_scalar(c as u32))),
        ),
{
    lemma_pow256_values();
    let code = (c as u32) as nat;
    lemma_le_bytes_len(code, 4);
    lemma_le_roundtrip(code, 4);
    let buf = c.spec_encoding() + rest;
    assert(buf.subrange(0, 4) =~= le_bytes(code, 4));
    assert(le_value(buf.subrange(0, 4)) == code);
    vstd::utf8::char_is_scalar(c);
    assert(OP_CHAR & 0xF0 == OP_CHAR) by (bit_vector);
}

/// A string of at most 65535 bytes of valid UTF-8, encoded and then formatted with
/// the schema of `&str`, renders as its bytes and consumes its length prefix and
/// its bytes, whatever follows them.
pub proof fn lemma_str_roundtrip(
    bytes: Seq<u8>,
    rest: Seq<u8>,
    tables: Seq<Seq<u8>>,
    ufs: Seq<&dyn UserFormatter>,
)
    requires
        bytes.len() <= 0xFFFF,
        vstd::utf8::valid_utf8(bytes),
    ensures
        render(<&str as Encode>::spec_schema(), str_encoding(bytes) + rest, tables, ufs) == Some(
            (2 + bytes.len(), text(bytes)),
        ),
{
    lemma_pow256_values();
    lemma_le_bytes_len(bytes.len(), 2);
    lemma_read_unsigned_of_le(bytes.len(), 2, rest.subrange(0, 0) + bytes + rest);
    let buf = str_encoding(bytes) + rest;
    assert(bytes.subrange(0, bytes.len() as int) =~= bytes);
    assert(buf =~= le_bytes(bytes.len(), 2) + (Seq::<u8>::empty() + bytes + rest));
    assert(buf.subrange(2, 2 + bytes.len() as int) =~= bytes);
    assert(opcode(OP_STR, 2) & 0xF0 == OP_STR && opcode(OP_STR, 2) & 0x0F == 2) by (bit_vector);
}

/// The unit value takes no bytes and renders as `()`.
pub proof fn lemma_unit_roundtrip(rest: Seq<u8>, tables: Seq<Seq<u8>>, ufs: Seq<&dyn UserFormatter>)
    ensures
        render(<() as Encode>::spec_schema(), ().spec_encoding() + rest, tables, ufs) == Some(
            (0nat, text_unit()),
        ),
{
    assert(OP_UNIT & 0xF0 == OP_UNIT) by (bit_vector);
}

/// Whatever follows the bytes `enc`, and whatever the string tables and user
/// formatters, formatting them with schema `s` consumes exactly `enc` and renders
/// `out`.
pub open spec fn formats_back(s: Seq<u8>, enc: Seq<u8>, out: Seq<Token>) -> bool {
    forall|rest: Seq<u8>, tables: Seq<Seq<u8>>, ufs: Seq<&dyn UserFormatter>|
        #[trigger] render(s, enc + rest, tables, ufs) == Some((enc.len(), out))
}

/// Signed integers of 1, 2, 4, 8 or 16 bytes format back as their decimal text.
pub proof fn lemma_signed_formats_back(k: u8, v: int)
    requires
        1 <= k <= 5,
        -(pow256(spec_size_for_k(k)) / 2) <= v < pow256(spec_size_for_k(k)) / 2,
    ensures
        formats_back(seq![opcode(OP_SIGNED_INT, k)], int_encoding(v, spec_size_for_k(k)), text(dec_int(v))),
{
    lemma_le_bytes_len(twos(v, spec_size_for_k(k)), spec_size_for_k(k));
    assert forall|rest: Seq<u8>, tables: Seq<Seq<u8>>, ufs: Seq<&dyn UserFormatter>| #[trigger]
        render(seq![opcode(OP_SIGNED_INT, k)], int_encoding(v, spec_size_for_k(k)) + rest, tables, ufs)
            == Some((int_encoding(v, spec_size_for_k(k)).len(), text(dec_int(v)))) by {
        lemma_signed_roundtrip(k, v, rest, tables, ufs);
    }
}

/// Unsigned integers of 1, 2, 4, 8 or 16 bytes format back as their decimal text.
pub proof fn lemma_unsigned_formats_back(k: u8, v: nat)
    requires
        1 <= k <= 5,
        v < pow256(spec_size_for_k(k)),
    ensures
        formats_back(seq![opcode(OP_UNSIGNED_INT, k)], le_bytes(v, spec_size_for_k(k)), text(dec_int(v as int))),
{
    lemma_le_bytes_len(v, spec_size_for_k(k));
    assert forall|rest: Seq<u8>, tables: Seq<Seq<u8>>, ufs: Seq<&dyn UserFormatter>| #[trigger]
        render(seq![opcode(OP_UNSIGNED_INT, k)], le_bytes(v, spec_size_for_k(k)) + rest, tables, ufs)
            == Some((le_bytes(v, spec_size_for_k(k)).len(), text(dec_int(v as int)))) by {
        lemma_unsigned_roundtrip(k, v, rest, tables, ufs);
    }
}

/// On a 64-bit target a `usize` formats back as its decimal text, its schema
/// consuming exactly the 8 bytes its encoding writes. (On a 32-bit target its
/// schema describes 4 bytes while the encoding still writes 8, so this does not
/// hold there.)
pub proof fn lemma_usize_formats_back(v: usize)
    requires
        usize::BITS == 64,
    ensures
        formats_back(<usize as Encode>::spec_schema(), v.spec_encoding(), text(dec_int(v as int))),
        v.spec_encoding().len() == v.spec_encoded_size(),
{
    lemma_pow256_values();
    lemma_le_bytes_len(v as nat, 8);
    assert(spec_size_for_k(4) == 8);
    lemma_unsigned_formats_back(4, v as nat);
}

/// A pair formats back as its two elements' texts, separated by `", "` and
/// wrapped in parentheses, when each element formats back and its schema delimits
/// itself.
pub proof fn lemma_pair_roundtrip<T0: Encode, T1: Encode>(
    a: T0,
    b: T1,
    out0: Seq<Token>,
    out1: Seq<Token>,
)
    requires
        formats_back(T0::spec_schema(), a.spec_encoding(), out0),
        formats_back(T1::spec_schema(), b.spec_encoding(), out1),
        self_delimiting(T0::spec_schema()),
        self_delimiting(T1::spec_schema()),
        T0::spec_schema().len() + T1::spec_schema().len() <= usize::MAX,
        a.spec_encoding().len() + b.spec_encoding().len() <= usize::MAX,
    ensures
        formats_back(
            <(T0, T1) as Encode>::spec_schema(),
            (a, b).spec_encoding(),
            lit(40) + out0 + lit(44) + lit(32) + out1 + lit(41),
        ),
{
    let s0 = T0::spec_schema();
    let s1 = T1::spec_schema();
    let e0 = a.spec_encoding();
    let e1 = b.spec_encoding();
    let op = opcode(OP_TUPLE, 2);
    assert(op & CAT_MASK == OP_TUPLE && op & SIZE_MASK == 2) by (bit_vector)
        requires
            op == OP_TUPLE | (2u8 & 0x0F),
    ;
    assert forall|rest: Seq<u8>, tables: Seq<Seq<u8>>, ufs: Seq<&dyn UserFormatter>| #[trigger]
        render(<(T0, T1) as Encode>::spec_schema(), (a, b).spec_encoding() + rest, tables, ufs)
            == Some(((e0 + e1).len(), lit(40) + out0 + lit(44) + lit(32) + out1 + lit(41))) by {
        let s = <(T0, T1) as Encode>::spec_schema();
        let p = (a, b).spec_encoding() + rest;
        assert(s =~= seq![op] + s0 + s1);
        assert(p =~= e0 + (e1 + rest));
        let t = s.subrange(1, s.len() as int);
        assert(t =~= s0 + s1);
        assert(schema_extent(s0 + s1) == Some(s0.len()));
        assert(t.subrange(0, s0.len() as int) =~= s0);
        assert(p.subrange(0, p.len() as int) =~= e0 + (e1 + rest));
        assert(render(s0, e0 + (e1 + rest), tables, ufs) == Some((e0.len(), out0)));
        let t1 = t.subrange(s0.len() as int, t.len() as int);
        assert(t1 =~= s1);
        assert(schema_extent(s1 + Seq::<u8>::empty()) == Some(s1.len()));
        assert(s1 + Seq::<u8>::empty() =~= s1);
        assert(t1.subrange(0, s1.len() as int) =~= s1);
        assert(p.subrange(e0.len() as int, p.len() as int) =~= e1 + rest);
        assert(render(s1, e1 + rest, tables, ufs) == Some((e1.len(), out1)));
        let t2 = t1.subrange(s1.len() as int, t1.len() as int);
        assert(render_tuple_items(t2, p, tables, ufs, e0.len() + e1.len(), 2, 2) == Some(
            ((e0.len() + e1.len()) as nat, Seq::<Token>::empty()),
        ));
        assert(render_tuple_items(t1, p, tables, ufs, e0.len(), 1, 2) == Some(
            ((e0.len() + e1.len()) as nat, item_sep(1) + out1 + Seq::<Token>::empty()),
        ));
        assert(render_tuple_items(t, p, tables, ufs, 0, 0, 2) == Some(
            ((e0.len() + e1.len()) as nat, item_sep(0) + out0 + (item_sep(1) + out1 + Seq::<Token>::empty())),
        ));
        assert(lit(40) + (item_sep(0) + out0 + (item_sep(1) + out1 + Seq::<Token>::empty())) + lit(41)
            =~= lit(40) + out0 + lit(44) + lit(32) + out1 + lit(41));
    }
    assert((e0 + e1).len() == (a, b).spec_encoding().len());
}

/// Items `i..n` of `outs`, each after `", "` but the first of all.
pub open spec fn joined(outs: Seq<Seq<Token>>, i: nat, n: nat) -> Seq<Token>
    decreases n - i,
{
    if i >= n {
        Seq::empty()
    } else {
        item_sep(i) + outs[i as int] + joined(outs, i + 1, n)
    }
}

proof fn lemma_items_prefix<T: Encode>(items: Seq<T>, i: nat, n: nat)
    requires
        i <= n,
    ensures
        items_encoding(items, i).is_prefix_of(items_encoding(items, n)),
    decreases n - i,
{
    if i < n {
        lemma_items_prefix(items, i, (n - 1) as nat);
        assert(items_encoding(items, (n - 1) as nat).is_prefix_of(items_encoding(items, n)));
    }
}

proof fn lemma_seq_items<T: Encode>(
    items: Seq<T>,
    outs: Seq<Seq<Token>>,
    n: nat,
    p: Seq<u8>,
    tables: Seq<Seq<u8>>,
    ufs: Seq<&dyn UserFormatter>,
    i: nat,
)
    requires
        i <= n <= items.len(),
        n <= outs.len(),
        forall|j: int| 0 <= j < n ==> #[trigger] formats_back(T::spec_schema(), items[j].spec_encoding(), outs[j]),
        items_encoding(items, n).is_prefix_of(p.subrange(2, p.len() as int)),
        2 <= p.len(),
        2 + items_encoding(items, n).len() <= usize::MAX,
    ensures
        render_seq_items(T::spec_schema(), p, tables, ufs, 2 + items_encoding(items, i).len(), i, n)
            == Some(((2 + items_encoding(items, n).len()) as nat, joined(outs, i, n))),
    decreases n - i,
{
    if i < n {
        lemma_items_prefix(items, i + 1, n);
        lemma_items_prefix(items, i, n);
        lemma_seq_items(items, outs, n, p, tables, ufs, i + 1);
        let pos = 2 + items_encoding(items, i).len();
        let e = items[i as int].spec_encoding();
        let after = p.subrange(pos as int + e.len(), p.len() as int);
        let a = items_encoding(items, i);
        let b = items_encoding(items, i + 1);
        let c = items_encoding(items, n);
        let q = p.subrange(2, p.len() as int);
        assert(b == a + e);
        assert(b =~= c.subrange(0, b.len() as int));
        assert(c =~= q.subrange(0, c.len() as int));
        assert(b =~= q.subrange(0, b.len() as int));
        assert(b.len() <= c.len() <= q.len());
        assert(b.subrange(a.len() as int, b.len() as int) =~= e);
        assert(q.subrange(a.len() as int, b.len() as int) =~= q.subrange(0, b.len() as int).subrange(
            a.len() as int,
            b.len() as int,
        ));
        assert(q.subrange(a.len() as int, b.len() as int) =~= e);
        assert(p.subrange(pos as int, (pos + e.len()) as int) =~= q.subrange(a.len() as int, b.len() as int));
        assert(p.subrange(pos as int, p.len() as int) =~= p.subrange(pos as int, (pos + e.len()) as int) + after);
        assert(formats_back(T::spec_schema(), e, outs[i as int]));
        assert(render(T::spec_schema(), e + after, tables, ufs) == Some((e.len(), outs[i as int])));
    }
}

/// A vector of at most 65535 items formats back as its items' texts joined by
/// `", "` in brackets, when each item formats back and the item schema delimits
/// itself. (Longer vectors encode, and so format, their first 65535 items.)
pub proof fn lemma_vec_roundtrip<T: Encode>(v: Vec<T>, outs: Seq<Seq<Token>>)
    requires
        v@.len() <= 0xFFFF,
        outs.len() == v@.len(),
        forall|j: int| 0 <= j < v@.len() ==> #[trigger] formats_back(T::spec_schema(), v@[j].spec_encoding(), outs[j]),
        self_delimiting(T::spec_schema()),
        1 + T::spec_schema().len() <= usize::MAX,
        v.spec_encoding().len() <= usize::MAX,
    ensures
        formats_back(<Vec<T> as Encode>::spec_schema(), v.spec_encoding(), lit(91) + joined(outs, 0, outs.len()) + lit(93)),
{
    let n = v@.len();
    let elem = T::spec_schema();
    let op = opcode(OP_SEQ, 2);
    assert(op & CAT_MASK == OP_SEQ && op & SIZE_MASK == 2) by (bit_vector)
        requires
            op == OP_SEQ | (2u8 & 0x0F),
    ;
    lemma_pow256_values();
    lemma_le_bytes_len(n, 2);
    assert(seq_count(n) == n);
    assert forall|rest: Seq<u8>, tables: Seq<Seq<u8>>, ufs: Seq<&dyn UserFormatter>| #[trigger]
        render(<Vec<T> as Encode>::spec_schema(), v.spec_encoding() + rest, tables, ufs)
            == Some((v.spec_encoding().len(), lit(91) + joined(outs, 0, outs.len()) + lit(93))) by {
        let s = <Vec<T> as Encode>::spec_schema();
        let p = v.spec_encoding() + rest;
        let items = items_encoding(v@, n);
        assert(p =~= le_bytes(n, 2) + (items + rest));
        lemma_read_unsigned_of_le(n, 2, items + rest);
        assert(spec_read_unsigned(p, 2) == n);
        assert(((n as usize) as nat) == n);
        assert(schema_extent(elem + Seq::<u8>::empty()) == Some(elem.len()));
        assert(elem + Seq::<u8>::empty() =~= elem);
        assert(s.subrange(1, s.len() as int) =~= elem);
        assert(s.subrange(1, 1 + elem.len() as int) =~= elem);
        assert(items.is_prefix_of(p.subrange(2, p.len() as int))) by {
            assert(p.subrange(2, p.len() as int) =~= items + rest);
        }
        assert(items_encoding(v@, 0) =~= Seq::<u8>::empty());
        lemma_seq_items(v@, outs, n, p, tables, ufs, 0);
    }
}

proof fn lemma_option_names(tables: Seq<Seq<u8>>)
    requires
        tables.len() > 0,
        tables[0] == option_table(),
    ensures
        table_name(tables, 0, 0) == seq![78u8, 111, 110, 101],
        table_name(tables, 0, 5) == seq![83u8, 111, 109, 101],
{
    let t = option_table();
    reveal_with_fuel(nul_end, 6);
    assert(nul_end(t, 0) == 4);
    assert(nul_end(t, 5) == 9);
    assert(t.subrange(0, 4) =~= seq![78u8, 111, 110, 101]);
    assert(t.subrange(5, 9) =~= seq![83u8, 111, 109, 101]);
    reveal_with_fuel(vstd::utf8::valid_utf8, 5);
    assert(vstd::utf8::valid_utf8(seq![78u8, 111, 110, 101]));
    assert(vstd::utf8::valid_utf8(seq![83u8, 111, 109, 101]));
}

/// `Option<T>` formats back as `None`, or as `Some(` and its value's text and `)`,
/// when the argument's string table is the one `Option` supplies, `T`'s schema
/// delimits itself, and the value formats back. (When `T`'s schema is the unit
/// schema, `Some(())` formats as `Some`, so that case is left out.)
#[verifier::spinoff_prover]
#[verifier::rlimit(60)]
pub proof fn lemma_option_roundtrip<T: Encode>(
    o: Option<T>,
    out: Seq<Token>,
    rest: Seq<u8>,
    tables: Seq<Seq<u8>>,
    ufs: Seq<&dyn UserFormatter>,
)
    requires
        self_delimiting(T::spec_schema()),
        T::spec_schema() != seq![OP_UNIT],
        8 + T::spec_schema().len() <= usize::MAX,
        tables.len() > 0,
        tables[0] == option_table(),
        o matches Some(v) ==> formats_back(T::spec_schema(), v.spec_encoding(), out) && 1
            + v.spec_encoding().len() <= usize::MAX,
    ensures
        o is None ==> render(<Option<T> as Encode>::spec_schema(), o.spec_encoding() + rest, tables, ufs)
            == Some((1nat, text(seq![78u8, 111, 110, 101]))),
        o matches Some(v) ==> render(<Option<T> as Encode>::spec_schema(), o.spec_encoding() + rest, tables, ufs)
            == Some((1 + v.spec_encoding().len(), text(seq![83u8, 111, 109, 101]) + lit(40) + out + lit(41))),
{
    let elem = T::spec_schema();
    let op = opcode(OP_ENUM, 2);
    assert(op & CAT_MASK == OP_ENUM && op & SIZE_MASK == 2 && OP_UNIT & CAT_MASK == OP_UNIT) by (bit_vector)
        requires
            op == OP_ENUM | (2u8 & 0x0F),
    ;
    lemma_option_names(tables);
    lemma_pow256_values();
    let s = <Option<T> as Encode>::spec_schema();
    let p = o.spec_encoding() + rest;
    assert(s =~= seq![op, 1u8, 0u8, 0u8, 0u8, OP_UNIT, 5u8, 0u8] + elem);
    lemma_delimiting_not_unit(elem);
    assert(schema_extent(elem + Seq::<u8>::empty()) == Some(elem.len()));
    assert(elem + Seq::<u8>::empty() =~= elem);
    assert(s.subrange(5, s.len() as int)[0] == OP_UNIT);
    assert(schema_extent(s.subrange(5, s.len() as int)) == Some(1nat));
    assert(s.subrange(8, s.len() as int) =~= elem);
    assert(u16_at(s, 3) == 0);
    assert(u16_at(s, 6) == 5);
    let var_idx = (spec_read_unsigned(p, 1) as usize) as nat;
    assert(spec_read_unsigned(p, 1) == p[0] as nat);
    let found0: Option<(nat, nat, nat)> = if var_idx == 0 {
        Some((0nat, 2nat, 1nat))
    } else {
        None
    };
    let found1: Option<(nat, nat, nat)> = if var_idx == 1 {
        Some((5nat, 5nat, elem.len()))
    } else {
        found0
    };
    assert(enum_scan(s, 3, (5 + elem.len()) as nat, 2, 2, var_idx, found1) == Some(found1));
    assert(enum_scan(s, 3, 3, 1, 2, var_idx, found0) == Some(found1));
    assert(enum_scan(s, 3, 0, 0, 2, var_idx, None) == Some(found1));
    match o {
        Option::None => {
            assert(p[0] == 0u8);
            assert(var_idx == 0);
            assert(found1 == Some((0nat, 2nat, 1nat)));
            assert(s[1] == 1u8 && s[2] == 0u8);
            let var = s.subrange(5int, 6int);
            assert(var =~= seq![OP_UNIT]);
            assert(var.len() == 1 && var[0] == OP_UNIT);
            assert(super::render::compound_header(s) == Some((2nat, 1nat)));
            assert(p.len() >= 1);
            assert(spec_size_for_k(1) == 1);
            assert(table_name(tables, s[2] as nat, 0) == seq![78u8, 111, 110, 101]);
        },
        Option::Some(v) => {
            let e = v.spec_encoding();
            assert(p[0] == 1u8);
            assert(s.subrange(8, 8 + elem.len() as int) =~= elem);
            assert(p.subrange(1, p.len() as int) =~= e + rest);
            assert(render(elem, e + rest, tables, ufs) == Some((e.len(), out)));
            assert(found1 == Some((5nat, 5nat, elem.len())));
            assert(super::render::compound_header(s) == Some((2nat, 1nat)));
            assert(table_name(tables, s[2] as nat, 5) == seq![83u8, 111, 109, 101]);
            assert(p.subrange(1, p.len() as int) =~= e + rest);
            assert(spec_size_for_k(1) == 1);
            assert(render(s, p, tables, ufs) == Some((1 + e.len(), text(seq![83u8, 111, 109, 101]) + lit(40) + out + lit(41))));
        },
    }
}

proof fn lemma_result_names(tables: Seq<Seq<u8>>)
    requires
        tables.len() > 0,
        tables[0] == result_table(),
    ensures
        table_name(tables, 0, 0) == seq![79u8, 107],
        table_name(tables, 0, 3) == seq![69u8, 114, 114],
{
    let t = result_table();
    reveal_with_fuel(nul_end, 5);
    assert(nul_end(t, 0) == 2);
    assert(nul_end(t, 3) == 6);
    assert(t.subrange(0, 2) =~= seq![79u8, 107]);
    assert(t.subrange(3, 6) =~= seq![69u8, 114, 114]);
    reveal_with_fuel(vstd::utf8::valid_utf8, 4);
    assert(vstd::utf8::valid_utf8(seq![79u8, 107]));
    assert(vstd::utf8::valid_utf8(seq![69u8, 114, 114]));
}

/// A self-delimiting schema other than the unit schema has at least two bytes or a
/// first byte other than the unit opcode.
pub proof fn lemma_delimiting_not_unit(elem: Seq<u8>)
    requires
        self_delimiting(elem),
        elem != seq![OP_UNIT],
    ensures
        elem.len() > 0,
        !(elem.len() == 1 && elem[0] == OP_UNIT),
{
    assert(schema_extent(elem + seq![OP_UNIT]) == Some(elem.len()));
    if elem.len() == 0 {
        let one = seq![OP_UNIT];
        assert(elem + one =~= one);
        assert(schema_extent(one) == Some(1nat));
    }
    if elem.len() == 1 && elem[0] == OP_UNIT {
        assert(elem =~= seq![OP_UNIT]);
    }
}

/// `Result<T, E>` formats back as `Ok(` or `Err(`, its value's text and `)`, when the
/// argument's string table is the one `Result` supplies, both schemas delimit
/// themselves, and the value formats back. (A unit payload formats as the bare
/// variant name, so the unit schemas are left out.)
#[verifier::spinoff_prover]
#[verifier::rlimit(80)]
pub proof fn lemma_result_roundtrip<T: Encode, E: Encode>(
    r: Result<T, E>,
    out: Seq<Token>,
    rest: Seq<u8>,
    tables: Seq<Seq<u8>>,
    ufs: Seq<&dyn UserFormatter>,
)
    requires
        self_delimiting(T::spec_schema()),
        self_delimiting(E::spec_schema()),
        T::spec_schema() != seq![OP_UNIT],
        E::spec_schema() != seq![OP_UNIT],
        9 + T::spec_schema().len() + E::spec_schema().len() <= usize::MAX,
        tables.len() > 0,
        tables[0] == result_table(),
        r matches Ok(v) ==> formats_back(T::spec_schema(), v.spec_encoding(), out) && 1
            + v.spec_encoding().len() <= usize::MAX,
        r matches Err(e) ==> formats_back(E::spec_schema(), e.spec_encoding(), out) && 1
            + e.spec_encoding().len() <= usize::MAX,
    ensures
        r matches Ok(v) ==> render(<Result<T, E> as Encode>::spec_schema(), r.spec_encoding() + rest, tables, ufs)
            == Some((1 + v.spec_encoding().len(), text(seq![79u8, 107]) + lit(40) + out + lit(41))),
        r matches Err(e) ==> render(<Result<T, E> as Encode>::spec_schema(), r.spec_encoding() + rest, tables, ufs)
            == Some((1 + e.spec_encoding().len(), text(seq![69u8, 114, 114]) + lit(40) + out + lit(41))),
{
    let ts = T::spec_schema();
    let es = E::spec_schema();
    let op = opcode(OP_ENUM, 2);
    assert(op & CAT_MASK == OP_ENUM && op & SIZE_MASK == 2) by (bit_vector)
        requires
            op == OP_ENUM | (2u8 & 0x0F),
    ;
    lemma_result_names(tables);
    lemma_pow256_values();
    lemma_delimiting_not_unit(ts);
    lemma_delimiting_not_unit(es);
    let s = <Result<T, E> as Encode>::spec_schema();
    let p = r.spec_encoding() + rest;
    let tl: int = ts.len() as int;
    let el: int = es.len() as int;
    assert(s =~= seq![op, 1u8, 0u8, 0u8, 0u8] + ts + seq![3u8, 0u8] + es);
    assert(s.subrange(5, s.len() as int) =~= ts + (seq![3u8, 0u8] + es));
    assert(schema_extent(s.subrange(5, s.len() as int)) == Some(ts.len()));
    assert(s.subrange(7 + tl, s.len() as int) =~= es + Seq::<u8>::empty());
    assert(schema_extent(s.subrange(7 + tl, s.len() as int)) == Some(es.len()));
    assert(u16_at(s, 3) == 0);
    assert(s[5 + tl] == 3u8 && s[6 + tl] == 0u8);
    assert(u16_at(s, 5 + tl) == 3);
    let var_idx = (spec_read_unsigned(p, 1) as usize) as nat;
    assert(spec_read_unsigned(p, 1) == p[0] as nat);
    let found0: Option<(nat, nat, nat)> = if var_idx == 0 {
        Some((0nat, 2nat, ts.len()))
    } else {
        None
    };
    let found1: Option<(nat, nat, nat)> = if var_idx == 1 {
        Some((3nat, (4 + tl) as nat, es.len()))
    } else {
        found0
    };
    assert(enum_scan(s, 3, (4 + tl + el) as nat, 2, 2, var_idx, found1) == Some(found1));
    assert(enum_scan(s, 3, (2 + tl) as nat, 1, 2, var_idx, found0) == Some(found1));
    assert(enum_scan(s, 3, 0, 0, 2, var_idx, None) == Some(found1));
    assert(super::render::compound_header(s) == Some((2nat, 1nat)));
    assert(s[1] == 1u8 && s[2] == 0u8);
    assert(spec_size_for_k(1) == 1);
    match r {
        Result::Ok(v) => {
            let e = v.spec_encoding();
            assert(p[0] == 0u8);
            assert(found1 == Some((0nat, 2nat, ts.len())));
            assert(table_name(tables, s[2] as nat, 0) == seq![79u8, 107]);
            assert(s.subrange(5, 5 + tl as int) =~= ts);
            assert(p.subrange(1, p.len() as int) =~= e + rest);
            assert(render(ts, e + rest, tables, ufs) == Some((e.len(), out)));
            assert(render(s, p, tables, ufs) == Some((1 + e.len(), text(seq![79u8, 107]) + lit(40) + out + lit(41))));
        },
        Result::Err(x) => {
            let e = x.spec_encoding();
            assert(p[0] == 1u8);
            assert(found1 == Some((3nat, (4 + tl) as nat, es.len())));
            assert(table_name(tables, s[2] as nat, 3) == seq![69u8, 114, 114]);
            assert(s.subrange(7 + tl, 7 + tl + el) =~= es);
            assert(p.subrange(1, p.len() as int) =~= e + rest);
            assert(render(es, e + rest, tables, ufs) == Some((e.len(), out)));
            assert(render(s, p, tables, ufs) == Some((1 + e.len(), text(seq![69u8, 114, 114]) + lit(40) + out + lit(41))));
        },
    }
}

/// Tuple elements from `i` on, each with a self-delimiting schema that formats
/// back, render one after another, separated by `", "`.
proof fn lemma_tuple_items(
    parts: Seq<Seq<u8>>,
    encs: Seq<Seq<u8>>,
    outs: Seq<Seq<Token>>,
    p: Seq<u8>,
    pos: nat,
    rest: Seq<u8>,
    tables: Seq<Seq<u8>>,
    ufs: Seq<&dyn UserFormatter>,
    i: nat,
)
    requires
        encs.len() == parts.len(),
        outs.len() == parts.len(),
        i <= parts.len(),
        forall|k: int|
            0 <= k < parts.len() ==> self_delimiting(#[trigger] parts[k]) && formats_back(parts[k], encs[k], outs[k]),
        concat(parts).len() <= usize::MAX,
        pos <= p.len(),
        p.subrange(pos as int, p.len() as int) == concat(encs.skip(i as int)) + rest,
        pos + concat(encs.skip(i as int)).len() <= usize::MAX,
    ensures
        render_tuple_items(concat(parts.skip(i as int)), p, tables, ufs, pos, i, parts.len())
            == Some((pos + concat(encs.skip(i as int)).len(), joined(outs, i, parts.len()))),
    decreases parts.len() - i,
{
    if i == parts.len() {
        assert(encs.skip(i as int) =~= Seq::<Seq<u8>>::empty());
    } else {
        let ii = i as int;
        lemma_concat_step(parts, ii);
        lemma_concat_step(encs, ii);
        lemma_concat_split(parts, ii);
        let sch = parts[ii];
        let t = concat(parts.skip(ii));
        let t2 = concat(parts.skip(ii + 1));
        assert(self_delimiting(parts[ii]));
        assert(schema_extent(sch + t2) == Some(sch.len()));
        assert(t.subrange(0, sch.len() as int) =~= sch);
        assert(t.subrange(sch.len() as int, t.len() as int) =~= t2);
        let e = encs[ii];
        let q = p.subrange(pos as int, p.len() as int);
        assert(q =~= e + (concat(encs.skip(ii + 1)) + rest));
        assert(render(sch, e + (concat(encs.skip(ii + 1)) + rest), tables, ufs) == Some((e.len(), outs[ii])));
        let pos2 = pos + e.len();
        assert(p.subrange(pos2 as int, p.len() as int) =~= q.subrange(e.len() as int, q.len() as int));
        assert(p.subrange(pos2 as int, p.len() as int) =~= concat(encs.skip(ii + 1)) + rest);
        lemma_tuple_items(parts, encs, outs, p, pos2, rest, tables, ufs, i + 1);
    }
}

/// A tuple of 1 to 15 elements, each with a self-delimiting schema that formats
/// back, encoded element after element, formats back as its elements' texts
/// separated by `", "` in parentheses, whatever follows the encodings.
pub proof fn lemma_tuple_roundtrip(
    parts: Seq<Seq<u8>>,
    encs: Seq<Seq<u8>>,
    outs: Seq<Seq<Token>>,
    rest: Seq<u8>,
    tables: Seq<Seq<u8>>,
    ufs: Seq<&dyn UserFormatter>,
)
    requires
        1 <= parts.len() <= 15,
        encs.len() == parts.len(),
        outs.len() == parts.len(),
        forall|k: int|
            0 <= k < parts.len() ==> self_delimiting(#[trigger] parts[k]) && formats_back(parts[k], encs[k], outs[k]),
        concat(parts).len() <= usize::MAX,
        concat(encs).len() <= usize::MAX,
    ensures
        render(seq![opcode(OP_TUPLE, parts.len() as u8)] + concat(parts), concat(encs) + rest, tables, ufs)
            == Some((concat(encs).len(), lit(40) + joined(outs, 0, parts.len()) + lit(41))),
{
    let n = parts.len() as u8;
    let op = opcode(OP_TUPLE, n);
    assert(op & CAT_MASK == OP_TUPLE && op & SIZE_MASK == n) by (bit_vector)
        requires
            op == OP_TUPLE | (n & 0x0F),
            1 <= n <= 15,
    ;
    let s = seq![op] + concat(parts);
    let p = concat(encs) + rest;
    assert(parts.skip(0) =~= parts);
    assert(encs.skip(0) =~= encs);
    assert(p.subrange(0, p.len() as int) =~= p);
    lemma_tuple_items(parts, encs, outs, p, 0, rest, tables, ufs, 0);
    assert(s[0] == op);
    assert(s.subrange(1, s.len() as int) =~= concat(parts));
}

/// User formatters that never claim more bytes than they are handed.
pub open spec fn formatters_within(ufs: Seq<&dyn UserFormatter>) -> bool {
    forall|i: int, q: Seq<u8>| 0 <= i < ufs.len() ==> (#[trigger] ufs[i].spec_format(q)).0 <= q.len()
}

/// Formatting never consumes more than the payload holds, whatever the schema
/// and the payload, when the user formatters never claim more than they are
/// handed.
pub proof fn lemma_render_within(s: Seq<u8>, p: Seq<u8>, tables: Seq<Seq<u8>>, ufs: Seq<&dyn UserFormatter>)
    requires
        formatters_within(ufs),
    ensures
        render(s, p, tables, ufs) matches Some((u, _)) ==> u <= p.len(),
    decreases s.len(), 0nat, 0int,
{
    if s.len() > 0 {
        let op = s[0];
        let c = op & CAT_MASK;
        let k = op & SIZE_MASK;
        if c == OP_SEQ {
            let cs = spec_size_for_k(k);
            if p.len() >= cs {
                let count = (spec_read_unsigned(p, k) as usize) as nat;
                match schema_extent(s.subrange(1, s.len() as int)) {
                    None => {},
                    Some(m) => if m <= usize::MAX && 1 + m <= s.len() {
                        lemma_seq_items_within(s.subrange(1, 1 + m as int), p, tables, ufs, cs, 0, count);
                    },
                }
            }
        } else if c == OP_TUPLE {
            match super::render::compound_header(s) {
                None => {},
                Some((n, start)) => {
                    lemma_tuple_items_within(s.subrange(start as int, s.len() as int), p, tables, ufs, 0, 0, n);
                },
            }
        } else if c == OP_STRUCT {
            match super::render::compound_header(s) {
                None => {},
                Some((n, start)) => if s.len() > start {
                    lemma_struct_items_within(
                        s.subrange(start + 1 as int, s.len() as int),
                        s[start as int],
                        p,
                        tables,
                        ufs,
                        0,
                        0,
                        n,
                    );
                },
            }
        } else if c == OP_ENUM {
            match super::render::compound_header(s) {
                None => {},
                Some((n, start)) => if s.len() > start + 1 {
                    let vdx_k = s[start as int];
                    let vcs = spec_size_for_k(vdx_k);
                    if p.len() >= vcs {
                        let var_idx = (spec_read_unsigned(p, vdx_k) as usize) as nat;
                        let base = start + 2;
                        match enum_scan(s, base, 0, 0, n, var_idx, None) {
                            Some(Some((_, rel, fl))) => if fl > 0 && base + rel + fl <= s.len() {
                                let var = s.subrange((base + rel) as int, (base + rel + fl) as int);
                                lemma_render_within(var, p.subrange(vcs as int, p.len() as int), tables, ufs);
                            },
                            _ => {},
                        }
                    }
                },
            }
        } else if c == OP_USER_DEFINED {
            if s.len() >= 2 && (s[1] as nat) < ufs.len() {
                assert(ufs[s[1] as int].spec_format(p).0 <= p.len());
            }
        }
    }
}

proof fn lemma_seq_items_within(
    elem: Seq<u8>,
    p: Seq<u8>,
    tables: Seq<Seq<u8>>,
    ufs: Seq<&dyn UserFormatter>,
    pos: nat,
    i: nat,
    n: nat,
)
    requires
        formatters_within(ufs),
        pos <= p.len(),
    ensures
        render_seq_items(elem, p, tables, ufs, pos, i, n) matches Some((fp, _)) ==> fp <= p.len(),
    decreases elem.len(), 1nat, n - i,
{
    if i < n {
        let q = p.subrange(pos as int, p.len() as int);
        lemma_render_within(elem, q, tables, ufs);
        match render(elem, q, tables, ufs) {
            Some((u, _)) => {
                lemma_seq_items_within(elem, p, tables, ufs, pos + u, i + 1, n);
            },
            None => {},
        }
    }
}

proof fn lemma_tuple_items_within(
    t: Seq<u8>,
    p: Seq<u8>,
    tables: Seq<Seq<u8>>,
    ufs: Seq<&dyn UserFormatter>,
    pos: nat,
    i: nat,
    n: nat,
)
    requires
        formatters_within(ufs),
        pos <= p.len(),
    ensures
        render_tuple_items(t, p, tables, ufs, pos, i, n) matches Some((fp, _)) ==> fp <= p.len(),
    decreases t.len(), 1nat, n - i,
{
    if i < n {
        match schema_extent(t) {
            Some(m) => if m <= usize::MAX && m <= t.len() {
                let q = p.subrange(pos as int, p.len() as int);
                lemma_render_within(t.subrange(0, m as int), q, tables, ufs);
                match render(t.subrange(0, m as int), q, tables, ufs) {
                    Some((u, _)) => {
                        lemma_tuple_items_within(t.subrange(m as int, t.len() as int), p, tables, ufs, pos + u, i + 1, n);
                    },
                    None => {},
                }
            },
            None => {},
        }
    }
}

proof fn lemma_struct_items_within(
    t: Seq<u8>,
    st_idx: u8,
    p: Seq<u8>,
    tables: Seq<Seq<u8>>,
    ufs: Seq<&dyn UserFormatter>,
    pos: nat,
    i: nat,
    n: nat,
)
    requires
        formatters_within(ufs),
        pos <= p.len(),
    ensures
        render_struct_items(t, st_idx, p, tables, ufs, pos, i, n) matches Some((fp, _)) ==> fp <= p.len(),
    decreases t.len(), 1nat, n - i,
{
    if i < n && t.len() >= 2 {
        let t2 = t.subrange(2, t.len() as int);
        match schema_extent(t2) {
            Some(m) => if m <= usize::MAX && m <= t2.len() {
                let q = p.subrange(pos as int, p.len() as int);
                lemma_render_within(t2.subrange(0, m as int), q, tables, ufs);
                match render(t2.subrange(0, m as int), q, tables, ufs) {
                    Some((u, _)) => {
                        lemma_struct_items_within(t2.subrange(m as int, t2.len() as int), st_idx, p, tables, ufs, pos + u, i + 1, n);
                    },
                    None => {},
                }
            },
            None => {},
        }
    }
}

} // verus!
