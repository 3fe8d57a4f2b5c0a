use vstd::prelude::*;
use vstd::string::StringSliceAdditionalSpecFns;

use super::format::{format_payload, format_ok, push_lit};
use super::render::{render, Rendered};
use super::schema::{measure_schema, schema_extent, slice_from};
use super::strtab::tables_view;
use super::traits::UserFormatter;
use crate::metadata::Metadata;
use crate::text::{push_bytes, text, Token};

verus! {

/// The (start, extent) of up to `n` consecutive schemas of `s` from position `pos`,
/// stopping early at the end of `s`, and the position after the last one.
/// `None` where a schema cannot be measured.
pub open spec fn schema_offsets(s: Seq<u8>, pos: nat, n: nat) -> Option<(Seq<(usize, usize)>, nat)>
    decreases n,
{
    if n == 0 || pos >= s.len() {
        Some((Seq::empty(), pos))
    } else {
        match schema_extent(s.subrange(pos as int, s.len() as int)) {
            None => None,
            Some(m) => if m > usize::MAX || pos + m > usize::MAX {
                None
            } else {
                match schema_offsets(s, pos + m, (n - 1) as nat) {
                    None => None,
                    Some((rest, end)) => Some((seq![(pos as usize, m as usize)] + rest, end)),
                }
            },
        }
    }
}

/// Locates up to `arg_count` schemas of `schemas` starting at `start`.
pub fn parse_schema_offsets(schemas: &[u8], start: usize, arg_count: usize) -> (r: (Vec<(usize, usize)>, usize))
    requires
        schema_offsets(schemas@, start as nat, arg_count as nat) is Some,
    ensures
        schema_offsets(schemas@, start as nat, arg_count as nat) == Some((r.0@, r.1 as nat)),
{
    let ghost target = schema_offsets(schemas@, start as nat, arg_count as nat).unwrap();
    let mut offsets: Vec<(usize, usize)> = Vec::new();
    let mut pos = start;
    let mut i: usize = 0;
    while i < arg_count && pos < schemas.len()
        invariant
            i <= arg_count,
            schema_offsets(schemas@, pos as nat, (arg_count - i) as nat) matches Some((rest, end))
                && target.0 == offsets@ + rest && target.1 == end,
        decreases arg_count - i,
    {
        let ghost rest1 = schema_offsets(schemas@, pos as nat + schema_extent(schemas@.subrange(pos as int, schemas@.len() as int)).unwrap(), (arg_count - i - 1) as nat).unwrap().0;
        let m = measure_schema(slice_from(schemas, pos));
        offsets.push((pos, m));
        proof {
            assert(offsets@ + rest1 =~= old_offsets_plus(offsets@, rest1));
        }
        pos = pos + m;
        i = i + 1;
    }
    proof {
        assert(offsets@ + Seq::<(usize, usize)>::empty() =~= offsets@);
    }
    (offsets, pos)
}

pub open spec fn old_offsets_plus(a: Seq<(usize, usize)>, b: Seq<(usize, usize)>) -> Seq<(usize, usize)> {
    a + b
}

/// The string tables passed to argument `idx`: only that argument's own table, if it has one.
pub open spec fn arg_tables(tables: Seq<Seq<u8>>, idx: nat) -> Seq<Seq<u8>> {
    if idx < tables.len() {
        seq![tables[idx as int]]
    } else {
        Seq::empty()
    }
}

/// The position of the first byte `b` in `s`.
pub open spec fn find_byte(s: Seq<u8>, b: u8) -> Option<nat>
    decreases s.len(),
{
    if s.len() == 0 {
        None
    } else if s[0] == b {
        Some(0)
    } else {
        match find_byte(s.drop_first(), b) {
            Some(i) => Some(i + 1),
            None => None,
        }
    }
}

pub proof fn lemma_find_byte_bound(s: Seq<u8>, b: u8)
    ensures
        find_byte(s, b) matches Some(i) ==> i < s.len() && s[i as int] == b,
    decreases s.len(),
{
    if s.len() > 0 && s[0] != b {
        lemma_find_byte_bound(s.drop_first(), b);
    }
}

#[verifier::opaque]
/// Renders format string `fmt` with placeholders: each `{...}` is replaced by the next
/// argument (schema `offsets[idx]` of `raw`, value at payload position `ppos`) while
/// arguments remain, and removed once they run out. A `{` without a later `}` ends the
/// substitution: the remaining format string, that `{` included, is emitted as it is.
pub open spec fn render_body(
    fmt: Seq<u8>,
    raw: Seq<u8>,
    offsets: Seq<(usize, usize)>,
    p: Seq<u8>,
    tables: Seq<Seq<u8>>,
    ufs: Seq<&dyn UserFormatter>,
    idx: nat,
    ppos: nat,
) -> Option<Seq<Token>>
    decreases fmt.len(),
{
    proof {
        lemma_find_byte_bound(fmt, 123);
        if find_byte(fmt, 123) is Some {
            lemma_find_byte_bound(fmt.subrange(find_byte(fmt, 123).unwrap() + 1 as int, fmt.len() as int), 125);
        }
    }
    match find_byte(fmt, 123) {
        None => Some(text(fmt)),
        Some(b) => {
            let after = fmt.subrange(b + 1 as int, fmt.len() as int);
            match find_byte(after, 125) {
                None => Some(text(fmt)),
                Some(c) => {
                    let rem = after.subrange(c + 1 as int, after.len() as int);
                    if idx < offsets.len() {
                        match render_arg(raw, offsets, p, tables, ufs, idx, ppos) {
                            None => None,
                            Some((u, out)) => if ppos + u > usize::MAX {
                                None
                            } else {
                                match render_body(rem, raw, offsets, p, tables, ufs, idx + 1, ppos + u) {
                                    None => None,
                                    Some(r) => Some(text(fmt.subrange(0, b as int)) + out + r),
                                }
                            },
                        }
                    } else {
                        match render_body(rem, raw, offsets, p, tables, ufs, idx, ppos) {
                            None => None,
                            Some(r) => Some(text(fmt.subrange(0, b as int)) + r),
                        }
                    }
                },
            }
        },
    }
}

/// The schemas of a call site: `None` when it has none (no bytes, or an argument count
/// of 0), else the offsets of up to that many schemas after the count byte.
/// The outer `None` is for schemas that cannot be measured.
pub open spec fn call_site_schemas(raw: Seq<u8>) -> Option<Option<Seq<(usize, usize)>>> {
    if raw.len() == 0 || raw[0] == 0 {
        Some(None)
    } else {
        match schema_offsets(raw, 1, raw[0] as nat) {
            None => None,
            Some((offs, _)) => Some(Some(offs)),
        }
    }
}

/// The body of a log message: the format string with its placeholders rendered.
pub open spec fn spec_format_body(m: Metadata, payload: Seq<u8>) -> Option<Seq<Token>> {
    let fmt = m.format_str.spec_bytes();
    match call_site_schemas(m.schemas@) {
        None => None,
        Some(None) => Some(text(fmt)),
        Some(Some(offs)) => render_body(
            fmt,
            m.schemas@,
            offs,
            payload,
            tables_view(m.string_tables@),
            m.user_formatters@,
            0,
            0,
        ),
    }
}

/// Each argument rendered on its own, in order, from payload position `ppos`.
pub open spec fn render_args(
    raw: Seq<u8>,
    offsets: Seq<(usize, usize)>,
    p: Seq<u8>,
    tables: Seq<Seq<u8>>,
    ufs: Seq<&dyn UserFormatter>,
    idx: nat,
    ppos: nat,
) -> Option<Seq<Seq<Token>>>
    decreases offsets.len() - idx,
{
    if idx >= offsets.len() {
        Some(Seq::empty())
    } else {
        let st = offsets[idx as int].0 as nat;
        let ln = offsets[idx as int].1 as nat;
        if st + ln > raw.len() || ppos > p.len() {
            None
        } else {
            match render(
                raw.subrange(st as int, (st + ln) as int),
                p.subrange(ppos as int, p.len() as int),
                arg_tables(tables, idx),
                ufs,
            ) {
                None => None,
                Some((u, out)) => if ppos + u > usize::MAX {
                    None
                } else {
                    match render_args(raw, offsets, p, tables, ufs, idx + 1, ppos + u) {
                        None => None,
                        Some(r) => Some(seq![out] + r),
                    }
                },
            }
        }
    }
}

/// The arguments of a log message, each rendered on its own.
pub open spec fn spec_decode_args(m: Metadata, payload: Seq<u8>) -> Option<Seq<Seq<Token>>> {
    match call_site_schemas(m.schemas@) {
        None => None,
        Some(None) => Some(Seq::empty()),
        Some(Some(offs)) => render_args(
            m.schemas@,
            offs,
            payload,
            tables_view(m.string_tables@),
            m.user_formatters@,
            0,
            0,
        ),
    }
}

/// The views of a list of token vectors.
pub open spec fn token_lists(v: Seq<Vec<Token>>) -> Seq<Seq<Token>> {
    v.map_values(|t: Vec<Token>| t@)
}

/// Finds the first byte `b` of `s` at or after `from`.
fn find_from(s: &[u8], from: usize, b: u8) -> (r: Option<usize>)
    requires
        from <= s@.len(),
    ensures
        match find_byte(s@.subrange(from as int, s@.len() as int), b) {
            Some(i) => r is Some && r.unwrap() == from + i,
            None => r is None,
        },
{
    let mut i = from;
    while i < s.len()
        invariant
            from <= i <= s@.len(),
            find_byte(s@.subrange(from as int, s@.len() as int), b) == match find_byte(s@.subrange(i as int, s@.len() as int), b) {
                Some(j) => Some((j + (i - from)) as nat),
                None => None,
            },
        decreases s.len() - i,
    {
        if s[i] == b {
            return Some(i);
        }
        assert(s@.subrange(i as int, s@.len() as int).drop_first() =~= s@.subrange(i + 1, s@.len() as int));
        i = i + 1;
    }
    None
}



/// Argument `idx` of `raw`, rendered from payload position `ppos` with its own string table.
pub open spec fn render_arg(
    raw: Seq<u8>,
    offsets: Seq<(usize, usize)>,
    p: Seq<u8>,
    tables: Seq<Seq<u8>>,
    ufs: Seq<&dyn UserFormatter>,
    idx: nat,
    ppos: nat,
) -> Rendered {
    let st = offsets[idx as int].0 as nat;
    let ln = offsets[idx as int].1 as nat;
    if st + ln > raw.len() || ppos > p.len() {
        None
    } else {
        render(
            raw.subrange(st as int, (st + ln) as int),
            p.subrange(ppos as int, p.len() as int),
            arg_tables(tables, idx),
            ufs,
        )
    }
}

fn format_arg(
    raw: &[u8],
    offsets: &Vec<(usize, usize)>,
    payload: &[u8],
    string_tables: &[&[u8]],
    user_formatters: &[&dyn UserFormatter],
    idx: usize,
    ppos: usize,
    output: &mut Vec<Token>,
) -> (used: usize)
    requires
        idx < offsets@.len(),
        render_arg(raw@, offsets@, payload@, tables_view(string_tables@), user_formatters@, idx as nat, ppos as nat) is Some,
    ensures
        render_arg(raw@, offsets@, payload@, tables_view(string_tables@), user_formatters@, idx as nat, ppos as nat)
            matches Some((u, out)) && used == u && final(output)@ == old(output)@ + out,
{
    let (st, ln) = offsets[idx];
    let rlen = raw.len();
    assert(st + ln <= rlen);
    let tables = tables_for_arg(string_tables, idx);
    format_payload(&raw[st..st + ln], slice_from(payload, ppos), tables.as_slice(), user_formatters, output)
}

/// The string tables of argument `idx`.
fn tables_for_arg<'a>(string_tables: &[&'a [u8]], idx: usize) -> (r: Vec<&'a [u8]>)
    ensures
        tables_view(r@) == arg_tables(tables_view(string_tables@), idx as nat),
{
    if idx < string_tables.len() {
        let v = vec![string_tables[idx]];
        assert(tables_view(v@) =~= arg_tables(tables_view(string_tables@), idx as nat));
        v
    } else {
        let v: Vec<&'a [u8]> = Vec::new();
        assert(tables_view(v@) =~= arg_tables(tables_view(string_tables@), idx as nat));
        v
    }
}

/// One step of the placeholder walk from format position `rem`: emits the text up to
/// the next placeholder and the argument that fills it. Returns whether the walk is
/// done, and otherwise the new format position, argument index and payload position.
fn placeholder_step(
    fmt: &[u8],
    rem: usize,
    raw: &[u8],
    offsets: &Vec<(usize, usize)>,
    payload: &[u8],
    string_tables: &[&[u8]],
    user_formatters: &[&dyn UserFormatter],
    idx: usize,
    ppos: usize,
    output: &mut Vec<Token>,
) -> (r: (bool, usize, usize, usize))
    requires
        rem <= fmt@.len(),
        render_body(fmt@.subrange(rem as int, fmt@.len() as int), raw@, offsets@, payload@, tables_view(string_tables@), user_formatters@, idx as nat, ppos as nat) is Some,
    ensures
        r.0 ==> final(output)@ == old(output)@ + render_body(fmt@.subrange(rem as int, fmt@.len() as int), raw@, offsets@, payload@, tables_view(string_tables@), user_formatters@, idx as nat, ppos as nat).unwrap(),
        r.0 ==> r.1 == rem,
        !r.0 ==> rem < r.1 <= fmt@.len(),
        !r.0 ==> (render_body(fmt@.subrange(r.1 as int, fmt@.len() as int), raw@, offsets@, payload@, tables_view(string_tables@), user_formatters@, r.2 as nat, r.3 as nat) matches Some(x)
            && old(output)@ + render_body(fmt@.subrange(rem as int, fmt@.len() as int), raw@, offsets@, payload@, tables_view(string_tables@), user_formatters@, idx as nat, ppos as nat).unwrap() == final(output)@ + x),
{
    reveal(render_body);
    let ghost tv = tables_view(string_tables@);
    let ghost sub = fmt@.subrange(rem as int, fmt@.len() as int);
    let ghost w0 = output@;
    let flen = fmt.len();
    proof {
        lemma_find_byte_bound(sub, 123);
    }
    match find_from(fmt, rem, 123) {
        None => {
            push_bytes(output, slice_from(fmt, rem));
            (true, rem, idx, ppos)
        },
        Some(b) => {
            let ghost i0 = find_byte(sub, 123).unwrap();
            let ghost after = sub.subrange(i0 + 1 as int, sub.len() as int);
            assert(after =~= fmt@.subrange(b + 1, fmt@.len() as int));
            proof {
                lemma_find_byte_bound(after, 125);
            }
            assert(sub.subrange(0, i0 as int) =~= fmt@.subrange(rem as int, b as int));
            match find_from(fmt, b + 1, 125) {
                None => {
                    push_bytes(output, slice_from(fmt, rem));
                    (true, rem, idx, ppos)
                },
                Some(c) => {
                    push_bytes(output, &fmt[rem..b]);
                    let ghost j0 = find_byte(after, 125).unwrap();
                    assert(after.subrange(j0 + 1 as int, after.len() as int) =~= fmt@.subrange(c + 1, fmt@.len() as int));
                    let rem2 = c + 1;
                    if idx < offsets.len() {
                        let ghost (u0, out0) = render_arg(raw@, offsets@, payload@, tv, user_formatters@, idx as nat, ppos as nat).unwrap();
                        let ghost r1 = render_body(fmt@.subrange(rem2 as int, fmt@.len() as int), raw@, offsets@, payload@, tv, user_formatters@, (idx + 1) as nat, (ppos + u0) as nat).unwrap();
                        let used = format_arg(raw, offsets, payload, string_tables, user_formatters, idx, ppos, output);
                        proof {
                            assert(output@ + r1 =~= w0 + (text(fmt@.subrange(rem as int, b as int)) + out0 + r1));
                        }
                        (false, rem2, idx + 1, ppos + used)
                    } else {
                        (false, rem2, idx, ppos)
                    }
                },
            }
        },
    }
}

/// Walks the format string `fmt`, replacing placeholders by the arguments that
/// `raw[offsets[i]]` describe and that `payload` holds from position `ppos0`.
pub fn render_placeholders(
    fmt: &[u8],
    raw: &[u8],
    offsets: &Vec<(usize, usize)>,
    payload: &[u8],
    string_tables: &[&[u8]],
    user_formatters: &[&dyn UserFormatter],
    ppos0: usize,
    output: &mut Vec<Token>,
)
    requires
        render_body(fmt@, raw@, offsets@, payload@, tables_view(string_tables@), user_formatters@, 0, ppos0 as nat) is Some,
    ensures
        final(output)@ == old(output)@ + render_body(fmt@, raw@, offsets@, payload@, tables_view(string_tables@), user_formatters@, 0, ppos0 as nat).unwrap(),
{
    let ghost tv = tables_view(string_tables@);
    let ghost target = old(output)@ + render_body(fmt@, raw@, offsets@, payload@, tv, user_formatters@, 0, ppos0 as nat).unwrap();
    let mut rem: usize = 0;
    let mut idx: usize = 0;
    let mut ppos: usize = ppos0;
    let mut done = false;
    assert(fmt@.subrange(0, fmt@.len() as int) =~= fmt@);
    while !done
        invariant
            rem <= fmt@.len(),
            tv == tables_view(string_tables@),
            !done ==> (render_body(fmt@.subrange(rem as int, fmt@.len() as int), raw@, offsets@, payload@, tv, user_formatters@, idx as nat, ppos as nat)
                matches Some(r) && output@ + r == target),
            done ==> output@ == target,
        decreases fmt@.len() - rem + (if done { 0int } else { 1int }),
    {
        let (d, r2, i2, p2) = placeholder_step(fmt, rem, raw, offsets, payload, string_tables, user_formatters, idx, ppos, output);
        done = d;
        rem = r2;
        idx = i2;
        ppos = p2;
    }
}

/// The schemas of a call site's arguments: `None` when it has none, else where
/// each schema starts and how many bytes it takes.
fn get_schemas(metadata: &Metadata) -> (r: Option<Vec<(usize, usize)>>)
    requires
        call_site_schemas(metadata.schemas@) is Some,
    ensures
        match (r, call_site_schemas(metadata.schemas@).unwrap()) {
            (None, None) => true,
            (Some(v), Some(offs)) => v@ == offs,
            _ => false,
        },
{
    let raw = metadata.schemas;
    if raw.len() == 0 || raw[0] == 0 {
        return None;
    }
    let (offsets, _end) = parse_schema_offsets(raw, 1, raw[0] as usize);
    Some(offsets)
}

/// Formats the body of a log message: the call site's format string with each
/// placeholder replaced by the next argument of `payload`.
pub fn format_body(metadata: &Metadata, payload: &[u8]) -> (r: Vec<Token>)
    requires
        spec_format_body(*metadata, payload@) is Some,
    ensures
        spec_format_body(*metadata, payload@) == Some(r@),
{
    let fmt = metadata.format_str.as_bytes();
    let mut output: Vec<Token> = Vec::new();
    let offsets = match get_schemas(metadata) {
        None => {
            push_bytes(&mut output, fmt);
            assert(output@ =~= text(fmt@));
            return output;
        },
        Some(offsets) => offsets,
    };
    render_placeholders(fmt, metadata.schemas, &offsets, payload, metadata.string_tables, metadata.user_formatters, 0, &mut output);
    assert(output@ =~= Seq::<Token>::empty() + output@);
    output
}

/// Renders arguments `offsets[..]` of `raw` one by one from payload position `ppos0`.
pub fn render_each_arg(
    raw: &[u8],
    offsets: &Vec<(usize, usize)>,
    payload: &[u8],
    string_tables: &[&[u8]],
    user_formatters: &[&dyn UserFormatter],
    ppos0: usize,
) -> (r: Vec<Vec<Token>>)
    requires
        render_args(raw@, offsets@, payload@, tables_view(string_tables@), user_formatters@, 0, ppos0 as nat) is Some,
    ensures
        render_args(raw@, offsets@, payload@, tables_view(string_tables@), user_formatters@, 0, ppos0 as nat) == Some(token_lists(r@)),
{
    let ghost tv = tables_view(string_tables@);
    let ghost target = render_args(raw@, offsets@, payload@, tv, user_formatters@, 0, ppos0 as nat).unwrap();
    let mut results: Vec<Vec<Token>> = Vec::new();
    let mut ppos = ppos0;
    let mut idx: usize = 0;
    while idx < offsets.len()
        invariant
            idx <= offsets@.len(),
            tv == tables_view(string_tables@),
            render_args(raw@, offsets@, payload@, tv, user_formatters@, idx as nat, ppos as nat) matches Some(rest)
                && token_lists(results@) + rest == target,
        decreases offsets.len() - idx,
    {
        let (st, ln) = offsets[idx];
        assert(st + ln <= raw.len());
        let ghost (u0, out0) = render(raw@.subrange(st as int, (st + ln) as int), payload@.subrange(ppos as int, payload@.len() as int), arg_tables(tv, idx as nat), user_formatters@).unwrap();
        let ghost rest1 = render_args(raw@, offsets@, payload@, tv, user_formatters@, (idx + 1) as nat, (ppos + u0) as nat).unwrap();
        let tables = tables_for_arg(string_tables, idx);
        let mut s: Vec<Token> = Vec::new();
        let used = format_payload(&raw[st..st + ln], slice_from(payload, ppos), tables.as_slice(), user_formatters, &mut s);
        assert(s@ =~= out0);
        let ghost before = token_lists(results@);
        results.push(s);
        proof {
            assert(token_lists(results@) =~= before.push(out0));
            assert(token_lists(results@) + rest1 =~= before + (seq![out0] + rest1));
        }
        ppos = ppos + used;
        idx = idx + 1;
    }
    assert(token_lists(results@) + Seq::<Seq<Token>>::empty() =~= token_lists(results@));
    results
}

/// Decodes each argument of a log message into its own rendering.
pub fn decode_args(metadata: &Metadata, payload: &[u8]) -> (r: Vec<Vec<Token>>)
    requires
        spec_decode_args(*metadata, payload@) is Some,
    ensures
        spec_decode_args(*metadata, payload@) == Some(token_lists(r@)),
{
    match get_schemas(metadata) {
        None => {
            let r: Vec<Vec<Token>> = Vec::new();
            assert(token_lists(r@) =~= Seq::<Seq<Token>>::empty());
            r
        },
        Some(offsets) => render_each_arg(
            metadata.schemas,
            &offsets,
            payload,
            metadata.string_tables,
            metadata.user_formatters,
            0,
        ),
    }
}

} // verus!
