use vstd::prelude::*;

use super::bytes::{le_value, read_signed_ne, read_unsigned_ne, read_needs, lemma_le_bound, lemma_pow256_values};
use super::render::{
    compound_header, enum_scan, item_sep, lit, render, render_bool, render_char, render_float,
    render_seq_items, render_signed, render_str, render_struct_items, render_tuple_items,
    render_unsigned, render_user, text_false, text_true, text_unit, Rendered,
};
use super::schema::{measure_schema, read_u16_at, slice_from, schema_extent, u16_at};
use super::strtab::{read_str_from_table, table_name, tables_view};
use super::traits::UserFormatter;
use super::{
    size_for_k, spec_size_for_k, CAT_MASK, OP_BOOL, OP_CHAR, OP_ENUM, OP_FLOAT, OP_SEQ,
    OP_SIGNED_INT, OP_STR, OP_STRUCT, OP_TUPLE, OP_UNIT, OP_UNSIGNED_INT, OP_USER_DEFINED,
    SIZE_MASK,
};
use crate::ext::utf8_is_valid;
use super::laws::{formatters_within, lemma_render_within};
use crate::text::{push_bytes, push_dec_i128, push_dec_u128, text, Token, lemma_text_add};

verus! {

pub fn push_lit(w: &mut Vec<Token>, b: u8)
    ensures
        final(w)@ == old(w)@ + lit(b),
{
    w.push(Token::Byte(b));
    assert(final(w)@ =~= old(w)@ + lit(b));
}

fn push_sep(w: &mut Vec<Token>, i: usize)
    ensures
        final(w)@ == old(w)@ + item_sep(i as nat),
{
    if i > 0 {
        push_lit(w, 44);
        push_lit(w, 32);
        assert(final(w)@ =~= old(w)@ + item_sep(i as nat));
    } else {
        assert(final(w)@ =~= old(w)@ + item_sep(i as nat));
    }
}

fn format_signed(payload: &[u8], k: u8, w: &mut Vec<Token>) -> (used: usize)
    ensures
        render_signed(payload@, k) matches Some((u, out)) && used == u && final(w)@ == old(w)@ + out,
{
    let size = size_for_k(k);
    if payload.len() < size {
        assert(w@ =~= old(w)@ + Seq::<Token>::empty());
        return 0;
    }
    let v = read_signed_ne(payload, k);
    push_dec_i128(w, v);
    size
}

fn format_unsigned(payload: &[u8], k: u8, w: &mut Vec<Token>) -> (used: usize)
    ensures
        render_unsigned(payload@, k) matches Some((u, out)) && used == u && final(w)@ == old(w)@ + out,
{
    let size = size_for_k(k);
    if payload.len() < size {
        assert(w@ =~= old(w)@ + Seq::<Token>::empty());
        return 0;
    }
    let v = read_unsigned_ne(payload, k);
    push_dec_u128(w, v);
    size
}


/// Appends the UTF-8 encoding of the Unicode scalar `code`.
fn push_scalar_utf8(w: &mut Vec<Token>, code: u32)
    requires
        vstd::utf8::is_scalar(code),
    ensures
        final(w)@ == old(w)@ + text(vstd::utf8::encode_scalar(code)),
{
    if code <= 0x7F {
        w.push(Token::Byte((code & 0x7F) as u8));
    } else if code <= 0x7FF {
        w.push(Token::Byte(0xC0 | ((code >> 6) & 0x1F) as u8));
        w.push(Token::Byte(0x80 | (code & 0x3F) as u8));
    } else if code <= 0xFFFF {
        w.push(Token::Byte(0xE0 | ((code >> 12) & 0x0F) as u8));
        w.push(Token::Byte(0x80 | ((code >> 6) & 0x3F) as u8));
        w.push(Token::Byte(0x80 | (code & 0x3F) as u8));
    } else {
        w.push(Token::Byte(0xF0 | ((code >> 18) & 0x7) as u8));
        w.push(Token::Byte(0x80 | ((code >> 12) & 0x3F) as u8));
        w.push(Token::Byte(0x80 | ((code >> 6) & 0x3F) as u8));
        w.push(Token::Byte(0x80 | (code & 0x3F) as u8));
    }
    assert(final(w)@ =~= old(w)@ + text(vstd::utf8::encode_scalar(code)));
}

fn format_float(payload: &[u8], k: u8, w: &mut Vec<Token>) -> (used: usize)
    ensures
        render_float(payload@, k) matches Some((u, out)) && used == u && final(w)@ == old(w)@ + out,
{
    let size = size_for_k(k);
    if payload.len() < size {
        assert(w@ =~= old(w)@ + Seq::<Token>::empty());
        return 0;
    }
    if k == 3 {
        let bits = read_unsigned_ne(payload, 3);
        proof {
            lemma_le_bound(payload@.subrange(0, 4));
            lemma_pow256_values();
        }
        w.push(Token::F32(bits as u32));
    } else if k == 4 {
        let bits = read_unsigned_ne(payload, 4);
        proof {
            lemma_le_bound(payload@.subrange(0, 8));
            lemma_pow256_values();
        }
        w.push(Token::F64(bits as u64));
    }
    assert(w@ =~= old(w)@ + render_float(payload@, k).unwrap().1);
    size
}

fn format_str(payload: &[u8], k: u8, w: &mut Vec<Token>) -> (used: usize)
    requires
        render_str(payload@, k) is Some,
    ensures
        render_str(payload@, k) matches Some((u, out)) && used == u && final(w)@ == old(w)@ + out,
{
    let count_size = size_for_k(k);
    if payload.len() < count_size {
        assert(w@ =~= old(w)@ + Seq::<Token>::empty());
        return 0;
    }
    let len = read_unsigned_ne(payload, k) as usize;
    if payload.len() < count_size + len {
        assert(w@ =~= old(w)@ + Seq::<Token>::empty());
        return count_size;
    }
    let bytes = &payload[count_size..count_size + len];
    if utf8_is_valid(bytes) {
        push_bytes(w, bytes);
    } else {
        assert(w@ =~= old(w)@ + Seq::<Token>::empty());
    }
    count_size + len
}

fn format_char(payload: &[u8], w: &mut Vec<Token>) -> (used: usize)
    ensures
        render_char(payload@) matches Some((u, out)) && used == u && final(w)@ == old(w)@ + out,
{
    if payload.len() < 4 {
        assert(w@ =~= old(w)@ + Seq::<Token>::empty());
        return 0;
    }
    let code64 = read_unsigned_ne(payload, 3);
    proof {
        lemma_le_bound(payload@.subrange(0, 4));
        lemma_pow256_values();
    }
    let code = code64 as u32;
    if code <= 0x10FFFF && !(0xD800 <= code && code <= 0xDFFF) {
        push_scalar_utf8(w, code);
    } else {
        assert(w@ =~= old(w)@ + Seq::<Token>::empty());
    }
    4
}

fn format_bool(payload: &[u8], w: &mut Vec<Token>) -> (used: usize)
    ensures
        render_bool(payload@) matches Some((u, out)) && used == u && final(w)@ == old(w)@ + out,
{
    if payload.len() == 0 {
        assert(w@ =~= old(w)@ + Seq::<Token>::empty());
        return 0;
    }
    if payload[0] != 0 {
        push_lit(w, 116);
        push_lit(w, 114);
        push_lit(w, 117);
        push_lit(w, 101);
        assert(w@ =~= old(w)@ + text_true());
    } else {
        push_lit(w, 102);
        push_lit(w, 97);
        push_lit(w, 108);
        push_lit(w, 115);
        push_lit(w, 101);
        assert(w@ =~= old(w)@ + text_false());
    }
    1
}

fn format_user(schema: &[u8], payload: &[u8], user_formatters: &[&dyn UserFormatter], w: &mut Vec<Token>) -> (used: usize)
    ensures
        render_user(schema@, payload@, user_formatters@) matches Some((u, out)) && used == u && final(w)@ == old(w)@ + out,
{
    if schema.len() < 2 {
        assert(w@ =~= old(w)@ + Seq::<Token>::empty());
        return 0;
    }
    let idx = schema[1] as usize;
    if idx < user_formatters.len() {
        user_formatters[idx].format(payload, w)
    } else {
        assert(w@ =~= old(w)@ + Seq::<Token>::empty());
        0
    }
}


/// `format_payload` can run: rendering the payload by the schema completes.
pub open spec fn format_ok(
    schema: Seq<u8>,
    payload: Seq<u8>,
    string_tables: Seq<&[u8]>,
    user_formatters: Seq<&dyn UserFormatter>,
) -> bool {
    render(schema, payload, tables_view(string_tables), user_formatters) is Some
}

/// Renders the value that `payload` holds according to `schema`, appending the text
/// to `w`; returns the number of payload bytes consumed.
pub fn format_payload(
    schema: &[u8],
    payload: &[u8],
    string_tables: &[&[u8]],
    user_formatters: &[&dyn UserFormatter],
    w: &mut Vec<Token>,
) -> (used: usize)
    requires
        format_ok(schema@, payload@, string_tables@, user_formatters@),
    ensures
        render(schema@, payload@, tables_view(string_tables@), user_formatters@) matches Some((u, out))
            && used == u && final(w)@ == old(w)@ + out,
        formatters_within(user_formatters@) ==> used <= payload@.len(),
    decreases schema@.len(), 2nat,
{
    let ghost tv = tables_view(string_tables@);
    proof {
        if formatters_within(user_formatters@) {
            lemma_render_within(schema@, payload@, tv, user_formatters@);
        }
    }
    if schema.len() == 0 {
        assert(w@ =~= old(w)@ + Seq::<Token>::empty());
        return 0;
    }
    let op = schema[0];
    let cat = op & CAT_MASK;
    let k = op & SIZE_MASK;
    if cat == OP_UNIT {
        push_lit(w, 40);
        push_lit(w, 41);
        assert(w@ =~= old(w)@ + text_unit());
        0
    } else if cat == OP_SIGNED_INT {
        format_signed(payload, k, w)
    } else if cat == OP_UNSIGNED_INT {
        format_unsigned(payload, k, w)
    } else if cat == OP_FLOAT {
        format_float(payload, k, w)
    } else if cat == OP_STR {
        format_str(payload, k, w)
    } else if cat == OP_CHAR {
        format_char(payload, w)
    } else if cat == OP_BOOL {
        format_bool(payload, w)
    } else if cat == OP_SEQ {
        let count_size = size_for_k(k);
        if payload.len() < count_size {
            assert(w@ =~= old(w)@ + Seq::<Token>::empty());
            return 0;
        }
        let count = read_unsigned_ne(payload, k) as usize;
        let m = measure_schema(slice_from(schema, 1));
        let elem = &schema[1..1 + m];
        push_lit(w, 91);
        let ghost w1 = w@;
        let pos = format_seq_items(schema, elem, payload, string_tables, user_formatters, count_size, count, w);
        push_lit(w, 93);
        proof {
            let (fp, out) = render_seq_items(elem@, payload@, tv, user_formatters@, count_size as nat, 0, count as nat).unwrap();
            assert(w@ =~= old(w)@ + (lit(91) + out + lit(93)));
        }
        pos
    } else if cat == OP_TUPLE {
        let (n, start) = if k == 0 {
            (read_u16_at(schema, 1), 3usize)
        } else {
            (k as usize, 1usize)
        };
        push_lit(w, 40);
        let pos = format_tuple_items(schema, start, n, payload, string_tables, user_formatters, w);
        push_lit(w, 41);
        proof {
            let (fp, out) = render_tuple_items(schema@.subrange(start as int, schema@.len() as int), payload@, tv, user_formatters@, 0, 0, n as nat).unwrap();
            assert(w@ =~= old(w)@ + (lit(40) + out + lit(41)));
        }
        pos
    } else if cat == OP_STRUCT {
        let (n, start) = if k == 0 {
            (read_u16_at(schema, 1), 3usize)
        } else {
            (k as usize, 1usize)
        };
        let st_idx = schema[start];
        push_lit(w, 123);
        let pos = format_struct_items(schema, start + 1, st_idx, n, payload, string_tables, user_formatters, w);
        push_lit(w, 125);
        proof {
            let (fp, out) = render_struct_items(schema@.subrange(start + 1, schema@.len() as int), st_idx, payload@, tv, user_formatters@, 0, 0, n as nat).unwrap();
            assert(w@ =~= old(w)@ + (lit(123) + out + lit(125)));
        }
        pos
    } else if cat == OP_ENUM {
        format_enum(schema, payload, string_tables, user_formatters, w)
    } else if cat == OP_USER_DEFINED {
        format_user(schema, payload, user_formatters, w)
    } else {
        assert(w@ =~= old(w)@ + Seq::<Token>::empty());
        0
    }
}

fn format_seq_items(
    schema: &[u8],
    elem: &[u8],
    payload: &[u8],
    string_tables: &[&[u8]],
    user_formatters: &[&dyn UserFormatter],
    start: usize,
    count: usize,
    w: &mut Vec<Token>,
) -> (pos: usize)
    requires
        elem@.len() < schema@.len(),
        render_seq_items(elem@, payload@, tables_view(string_tables@), user_formatters@, start as nat, 0, count as nat) is Some,
    ensures
        render_seq_items(elem@, payload@, tables_view(string_tables@), user_formatters@, start as nat, 0, count as nat)
            matches Some((fp, out)) && pos == fp && final(w)@ == old(w)@ + out,
    decreases schema@.len(), 1nat,
{
    let ghost tv = tables_view(string_tables@);
    let ghost target = render_seq_items(elem@, payload@, tv, user_formatters@, start as nat, 0, count as nat).unwrap();
    let mut pos = start;
    let mut i: usize = 0;
    while i < count
        invariant
            elem@.len() < schema@.len(),
            tv == tables_view(string_tables@),
            i <= count,
            render_seq_items(elem@, payload@, tv, user_formatters@, pos as nat, i as nat, count as nat) matches Some((fp, rest))
                && fp == target.0 && old(w)@ + target.1 == w@ + rest,
        decreases count - i,
    {
        let ghost w0 = w@;
        let ghost (u0, out0) = render(elem@, payload@.subrange(pos as int, payload@.len() as int), tv, user_formatters@).unwrap();
        let ghost rest1 = render_seq_items(elem@, payload@, tv, user_formatters@, (pos + u0) as nat, (i + 1) as nat, count as nat).unwrap().1;
        push_sep(w, i);
        let used = format_payload(elem, slice_from(payload, pos), string_tables, user_formatters, w);
        proof {
            assert(w@ + rest1 =~= w0 + (item_sep(i as nat) + out0 + rest1));
        }
        pos = pos + used;
        i = i + 1;
    }
    assert(w@ =~= w@ + Seq::<Token>::empty());
    pos
}

fn format_tuple_items(
    schema: &[u8],
    start: usize,
    n: usize,
    payload: &[u8],
    string_tables: &[&[u8]],
    user_formatters: &[&dyn UserFormatter],
    w: &mut Vec<Token>,
) -> (pos: usize)
    requires
        1 <= start <= schema@.len(),
        render_tuple_items(schema@.subrange(start as int, schema@.len() as int), payload@, tables_view(string_tables@), user_formatters@, 0, 0, n as nat) is Some,
    ensures
        render_tuple_items(schema@.subrange(start as int, schema@.len() as int), payload@, tables_view(string_tables@), user_formatters@, 0, 0, n as nat)
            matches Some((fp, out)) && pos == fp && final(w)@ == old(w)@ + out,
    decreases schema@.len(), 1nat,
{
    let ghost tv = tables_view(string_tables@);
    let ghost target = render_tuple_items(schema@.subrange(start as int, schema@.len() as int), payload@, tv, user_formatters@, 0, 0, n as nat).unwrap();
    let mut pos: usize = 0;
    let mut spos = start;
    let mut i: usize = 0;
    let slen = schema.len();
    while i < n
        invariant
            slen == schema@.len(),
            1 <= start <= spos <= schema@.len(),
            tv == tables_view(string_tables@),
            i <= n,
            render_tuple_items(schema@.subrange(spos as int, schema@.len() as int), payload@, tv, user_formatters@, pos as nat, i as nat, n as nat)
                matches Some((fp, rest)) && fp == target.0 && old(w)@ + target.1 == w@ + rest,
        decreases n - i,
    {
        let ghost w0 = w@;
        let ghost t = schema@.subrange(spos as int, schema@.len() as int);
        let ghost m0 = schema_extent(t).unwrap();
        let ghost (u0, out0) = render(t.subrange(0, m0 as int), payload@.subrange(pos as int, payload@.len() as int), tv, user_formatters@).unwrap();
        let ghost rest1 = render_tuple_items(t.subrange(m0 as int, t.len() as int), payload@, tv, user_formatters@, (pos + u0) as nat, (i + 1) as nat, n as nat).unwrap().1;
        assert(m0 <= t.len());
        push_sep(w, i);
        let m = measure_schema(slice_from(schema, spos));
        let elem = &schema[spos..spos + m];
        assert(elem@ =~= t.subrange(0, m0 as int));
        let used = format_payload(elem, slice_from(payload, pos), string_tables, user_formatters, w);
        proof {
            assert(w@ + rest1 =~= w0 + (item_sep(i as nat) + out0 + rest1));
            assert(t.subrange(m0 as int, t.len() as int) =~= schema@.subrange(spos + m, schema@.len() as int));
        }
        pos = pos + used;
        spos = spos + m;
        i = i + 1;
    }
    assert(w@ =~= w@ + Seq::<Token>::empty());
    pos
}

fn format_struct_items(
    schema: &[u8],
    start: usize,
    st_idx: u8,
    n: usize,
    payload: &[u8],
    string_tables: &[&[u8]],
    user_formatters: &[&dyn UserFormatter],
    w: &mut Vec<Token>,
) -> (pos: usize)
    requires
        1 <= start <= schema@.len(),
        render_struct_items(schema@.subrange(start as int, schema@.len() as int), st_idx, payload@, tables_view(string_tables@), user_formatters@, 0, 0, n as nat) is Some,
    ensures
        render_struct_items(schema@.subrange(start as int, schema@.len() as int), st_idx, payload@, tables_view(string_tables@), user_formatters@, 0, 0, n as nat)
            matches Some((fp, out)) && pos == fp && final(w)@ == old(w)@ + out,
    decreases schema@.len(), 1nat,
{
    let ghost tv = tables_view(string_tables@);
    let ghost target = render_struct_items(schema@.subrange(start as int, schema@.len() as int), st_idx, payload@, tv, user_formatters@, 0, 0, n as nat).unwrap();
    let mut pos: usize = 0;
    let mut spos = start;
    let mut i: usize = 0;
    let slen = schema.len();
    while i < n
        invariant
            slen == schema@.len(),
            1 <= start <= spos <= schema@.len(),
            tv == tables_view(string_tables@),
            i <= n,
            render_struct_items(schema@.subrange(spos as int, schema@.len() as int), st_idx, payload@, tv, user_formatters@, pos as nat, i as nat, n as nat)
                matches Some((fp, rest)) && fp == target.0 && old(w)@ + target.1 == w@ + rest,
        decreases n - i,
    {
        let ghost w0 = w@;
        let ghost t = schema@.subrange(spos as int, schema@.len() as int);
        let ghost t2 = t.subrange(2, t.len() as int);
        let ghost m0 = schema_extent(t2).unwrap();
        let ghost name0 = table_name(tv, st_idx as nat, u16_at(t, 0));
        let ghost (u0, out0) = render(t2.subrange(0, m0 as int), payload@.subrange(pos as int, payload@.len() as int), tv, user_formatters@).unwrap();
        let ghost rest1 = render_struct_items(t2.subrange(m0 as int, t2.len() as int), st_idx, payload@, tv, user_formatters@, (pos + u0) as nat, (i + 1) as nat, n as nat).unwrap().1;
        assert(t.len() >= 2);
        assert(m0 <= t2.len());
        push_sep(w, i);
        let st_off = read_u16_at(schema, spos);
        let name = read_str_from_table(st_idx, st_off as u16, string_tables);
        spos = spos + 2;
        assert(t2 =~= schema@.subrange(spos as int, schema@.len() as int));
        let m = measure_schema(slice_from(schema, spos));
        push_bytes(w, name);
        push_lit(w, 58);
        push_lit(w, 32);
        let elem = &schema[spos..spos + m];
        assert(elem@ =~= t2.subrange(0, m0 as int));
        let used = format_payload(elem, slice_from(payload, pos), string_tables, user_formatters, w);
        proof {
            assert(w@ + rest1 =~= w0 + (item_sep(i as nat) + text(name0) + lit(58) + lit(32) + out0 + rest1));
            assert(t2.subrange(m0 as int, t2.len() as int) =~= schema@.subrange(spos + m, schema@.len() as int));
        }
        pos = pos + used;
        spos = spos + m;
        i = i + 1;
    }
    assert(w@ =~= w@ + Seq::<Token>::empty());
    pos
}


fn format_enum(
    schema: &[u8],
    payload: &[u8],
    string_tables: &[&[u8]],
    user_formatters: &[&dyn UserFormatter],
    w: &mut Vec<Token>,
) -> (used: usize)
    requires
        schema@.len() > 0,
        schema@[0] & CAT_MASK == OP_ENUM,
        format_ok(schema@, payload@, string_tables@, user_formatters@),
    ensures
        render(schema@, payload@, tables_view(string_tables@), user_formatters@) matches Some((u, out))
            && used == u && final(w)@ == old(w)@ + out,
    decreases schema@.len(), 1nat,
{
    let ghost tv = tables_view(string_tables@);
    let k = schema[0] & SIZE_MASK;
    let (n, start) = if k == 0 {
        (read_u16_at(schema, 1), 3usize)
    } else {
        (k as usize, 1usize)
    };
    let vdx_k = schema[start];
    let st_idx = schema[start + 1];
    let vcs = size_for_k(vdx_k);
    if payload.len() < vcs {
        assert(w@ =~= old(w)@ + Seq::<Token>::empty());
        return 0;
    }
    let var_idx = read_unsigned_ne(payload, vdx_k) as usize;
    let base = start + 2;
    let ghost result = enum_scan(schema@, base as nat, 0, 0, n as nat, var_idx as nat, None).unwrap();
    let empty: &[u8] = &[];
    let mut found_name: &[u8] = empty;
    let mut fstart: usize = 0;
    let mut fend: usize = 0;
    let ghost mut found: Option<(nat, nat, nat)> = None;
    let mut spos = base;
    let mut i: usize = 0;
    assert(empty@ =~= Seq::<u8>::empty());
    while i < n
        invariant
            3 <= base <= spos,
            tv == tables_view(string_tables@),
            i <= n,
            enum_scan(schema@, base as nat, (spos - base) as nat, i as nat, n as nat, var_idx as nat, found) == Some(result),
            found is None ==> fstart == 0 && fend == 0 && found_name@ == Seq::<u8>::empty(),
            found matches Some((off, rel, fl)) ==> fstart == base + rel && fend == fstart + fl
                && found_name@ == table_name(tv, st_idx as nat, off),
        decreases n - i,
    {
        let st_off = read_u16_at(schema, spos);
        spos = spos + 2;
        let m = measure_schema(slice_from(schema, spos));
        if i == var_idx {
            found_name = read_str_from_table(st_idx, st_off as u16, string_tables);
            fstart = spos;
            fend = spos + m;
            proof {
                found = Some((st_off as nat, (spos - base) as nat, m as nat));
            }
        }
        spos = spos + m;
        i = i + 1;
    }
    let var: &[u8] = if fend > fstart {
        &schema[fstart..fend]
    } else {
        empty
    };
    push_bytes(w, found_name);
    if var.len() == 0 || (var.len() == 1 && var[0] == OP_UNIT) {
        proof {
            if fend > fstart {
                assert(var@ =~= schema@.subrange(fstart as int, fend as int));
            }
        }
        vcs
    } else {
        assert(var@ =~= schema@.subrange(fstart as int, fend as int));
        let ghost w1 = w@;
        push_lit(w, 40);
        let used = format_payload(var, slice_from(payload, vcs), string_tables, user_formatters, w);
        push_lit(w, 41);
        proof {
            let (u0, out0) = render(var@, payload@.subrange(vcs as int, payload@.len() as int), tv, user_formatters@).unwrap();
            assert(w@ =~= old(w)@ + (text(found_name@) + lit(40) + out0 + lit(41)));
        }
        vcs + used
    }
}

} // verus!
