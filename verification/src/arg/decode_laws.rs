//! What decoding a log message gives back: each argument that a call site encoded
//! decodes to its own text.
use vstd::prelude::*;

use super::decode::{
    arg_tables, call_site_schemas, find_byte, render_arg, render_args, render_body, schema_offsets,
    spec_decode_args, spec_format_body,
};
use super::laws::formats_back;
use super::packed::{spec_decode_packed, spec_format_body_packed};
use super::render::render;
use super::schema::schema_extent;
use super::schema_laws::{concat, self_delimiting};
use super::traits::UserFormatter;
use super::OP_UNIT;
use crate::metadata::Metadata;
use crate::text::{text, Token};
use vstd::string::StringSliceAdditionalSpecFns;

verus! {

/// Where each of `parts` starts, from position `pos`, and how long it is, when
/// they lie one after another.
pub open spec fn part_offsets(parts: Seq<Seq<u8>>, pos: nat) -> Seq<(usize, usize)>
    decreases parts.len(),
{
    if parts.len() == 0 {
        Seq::empty()
    } else {
        seq![(pos as usize, parts[0].len() as usize)] + part_offsets(parts.drop_first(), pos + parts[0].len())
    }
}

/// The concatenation splits at any position of the list.
pub proof fn lemma_concat_split(parts: Seq<Seq<u8>>, i: int)
    requires
        0 <= i <= parts.len(),
    ensures
        concat(parts) == concat(parts.take(i)) + concat(parts.skip(i)),
    decreases parts.len(),
{
    if i == 0 {
        assert(parts.take(0) =~= Seq::<Seq<u8>>::empty());
        assert(parts.skip(0) =~= parts);
        assert(Seq::<u8>::empty() + concat(parts) =~= concat(parts));
    } else {
        let rest = parts.drop_first();
        lemma_concat_split(rest, i - 1);
        let t = parts.take(i);
        assert(t[0] == parts[0]);
        assert(t.drop_first() =~= rest.take(i - 1));
        assert(parts.skip(i) =~= rest.skip(i - 1));
        assert(concat(t) == t[0] + concat(t.drop_first()));
        assert(concat(parts) =~= concat(t) + concat(parts.skip(i)));
    }
}

/// One more part, taken from the front of the rest.
pub proof fn lemma_concat_step(parts: Seq<Seq<u8>>, i: int)
    requires
        0 <= i < parts.len(),
    ensures
        concat(parts.skip(i)) == parts[i] + concat(parts.skip(i + 1)),
        concat(parts.take(i + 1)) == concat(parts.take(i)) + parts[i],
{
    let s = parts.skip(i);
    assert(s[0] == parts[i]);
    assert(s.drop_first() =~= parts.skip(i + 1));
    let t = parts.take(i + 1);
    lemma_concat_split(t, i);
    assert(t.take(i) =~= parts.take(i));
    let one = t.skip(i);
    assert(one.len() == 1 && one[0] == parts[i]);
    assert(one.drop_first() =~= Seq::<Seq<u8>>::empty());
    assert(concat(one.drop_first()) == Seq::<u8>::empty());
    assert(concat(one) == parts[i] + concat(one.drop_first()));
    assert(concat(one) =~= parts[i]);
}

/// A schema that delimits itself takes at least one byte.
pub proof fn lemma_delimiting_nonempty(s: Seq<u8>)
    requires
        self_delimiting(s),
    ensures
        s.len() > 0,
{
    let one = seq![OP_UNIT];
    assert(schema_extent(s + one) == Some(s.len()));
    if s.len() == 0 {
        assert(s + one =~= one);
        assert(schema_extent(one) == Some(1nat));
    }
}

proof fn lemma_part_offsets(parts: Seq<Seq<u8>>, pos: nat, i: int)
    requires
        0 <= i < parts.len(),
    ensures
        part_offsets(parts, pos).len() == parts.len(),
        part_offsets(parts, pos)[i] == ((pos + concat(parts.take(i)).len()) as usize, parts[i].len() as usize),
    decreases parts.len(),
{
    let rest = parts.drop_first();
    if i == 0 {
        assert(parts.take(0) =~= Seq::<Seq<u8>>::empty());
        if rest.len() > 0 {
            lemma_part_offsets(rest, pos + parts[0].len(), 0);
        }
    } else {
        lemma_part_offsets(rest, pos + parts[0].len(), i - 1);
        assert(rest[i - 1] == parts[i]);
        let t = parts.take(i);
        assert(t[0] == parts[0]);
        assert(t.drop_first() =~= rest.take(i - 1));
        assert(concat(t) == parts[0] + concat(rest.take(i - 1)));
    }
}

/// Self-delimiting schemas lying one after another in `raw` from `pos` are found
/// where they lie, whatever follows them.
proof fn lemma_schema_offsets(raw: Seq<u8>, pos: nat, parts: Seq<Seq<u8>>, t: Seq<u8>)
    requires
        pos <= raw.len(),
        raw.len() <= usize::MAX,
        raw.subrange(pos as int, raw.len() as int) == concat(parts) + t,
        forall|k: int| 0 <= k < parts.len() ==> #[trigger] self_delimiting(parts[k]),
    ensures
        schema_offsets(raw, pos, parts.len()) == Some((part_offsets(parts, pos), pos + concat(parts).len())),
    decreases parts.len(),
{
    if parts.len() > 0 {
        let rest = parts.drop_first();
        assert(self_delimiting(parts[0]));
        lemma_delimiting_nonempty(parts[0]);
        assert(concat(parts) == parts[0] + concat(rest));
        assert(concat(parts) + t =~= parts[0] + (concat(rest) + t));
        assert(schema_extent(parts[0] + (concat(rest) + t)) == Some(parts[0].len()));
        let pos2 = pos + parts[0].len();
        assert(raw.subrange(pos2 as int, raw.len() as int) =~= concat(rest) + t) by {
            let q = raw.subrange(pos as int, raw.len() as int);
            assert(raw.subrange(pos2 as int, raw.len() as int) =~= q.subrange(parts[0].len() as int, q.len() as int));
        }
        assert forall|k: int| 0 <= k < rest.len() implies #[trigger] self_delimiting(rest[k]) by {
            assert(rest[k] == parts[k + 1]);
        }
        lemma_schema_offsets(raw, pos2, rest, t);
    }
}

/// The argument at `i` renders to its text, from where the encodings before it end.
#[verifier::spinoff_prover]
#[verifier::rlimit(60)]
proof fn lemma_render_one(
    raw: Seq<u8>,
    schemas: Seq<Seq<u8>>,
    encs: Seq<Seq<u8>>,
    outs: Seq<Seq<Token>>,
    after: Seq<u8>,
    p: Seq<u8>,
    base: nat,
    rest: Seq<u8>,
    tables: Seq<Seq<u8>>,
    ufs: Seq<&dyn UserFormatter>,
    i: nat,
)
    requires
        encs.len() == schemas.len(),
        outs.len() == schemas.len(),
        i < schemas.len(),
        raw == seq![schemas.len() as u8] + concat(schemas) + after,
        raw.len() <= usize::MAX,
        base <= p.len(),
        p.subrange(base as int, p.len() as int) == concat(encs) + rest,
        base + concat(encs).len() <= usize::MAX,
        forall|k: int|
            0 <= k < schemas.len() ==> #[trigger] formats_back(schemas[k], encs[k], outs[k]),
    ensures
        part_offsets(schemas, 1).len() == schemas.len(),
        render_arg(raw, part_offsets(schemas, 1), p, tables, ufs, i, base + concat(encs.take(i as int)).len())
            == Some((encs[i as int].len(), outs[i as int])),
        concat(encs.take(i + 1int)).len() == concat(encs.take(i as int)).len() + encs[i as int].len(),
        base + concat(encs.take(i + 1int)).len() <= usize::MAX,
{
    let i = i as int;
    let offs = part_offsets(schemas, 1);
    let ppos = base + concat(encs.take(i)).len();
    lemma_concat_split(encs, i);
    lemma_concat_split(encs, i + 1);
    lemma_part_offsets(schemas, 1, i);
    lemma_concat_split(schemas, i);
    lemma_concat_step(schemas, i);
    lemma_concat_step(encs, i);
    let st = 1 + concat(schemas.take(i)).len();
    let ln = schemas[i].len();
    assert(raw =~= seq![schemas.len() as u8] + concat(schemas.take(i)) + (schemas[i] + concat(schemas.skip(i + 1)) + after));
    assert(raw.subrange(st as int, (st + ln) as int) =~= schemas[i]);
    let q = p.subrange(base as int, p.len() as int);
    assert(q =~= concat(encs.take(i)) + (encs[i] + concat(encs.skip(i + 1)) + rest));
    assert(p.subrange(ppos as int, p.len() as int) =~= q.subrange(concat(encs.take(i)).len() as int, q.len() as int));
    assert(p.subrange(ppos as int, p.len() as int) =~= encs[i] + (concat(encs.skip(i + 1)) + rest));
    assert(formats_back(schemas[i], encs[i], outs[i]));
    assert(render(schemas[i], encs[i] + (concat(encs.skip(i + 1)) + rest), arg_tables(tables, i as nat), ufs)
        == Some((encs[i].len(), outs[i])));
    assert(offs[i] == (st as usize, ln as usize));
}

/// The arguments from `idx` on render one by one to their texts.
proof fn lemma_render_args(
    raw: Seq<u8>,
    schemas: Seq<Seq<u8>>,
    encs: Seq<Seq<u8>>,
    outs: Seq<Seq<Token>>,
    after: Seq<u8>,
    p: Seq<u8>,
    base: nat,
    rest: Seq<u8>,
    tables: Seq<Seq<u8>>,
    ufs: Seq<&dyn UserFormatter>,
    idx: nat,
)
    requires
        encs.len() == schemas.len(),
        outs.len() == schemas.len(),
        idx <= schemas.len(),
        raw == seq![schemas.len() as u8] + concat(schemas) + after,
        raw.len() <= usize::MAX,
        base <= p.len(),
        p.subrange(base as int, p.len() as int) == concat(encs) + rest,
        base + concat(encs).len() <= usize::MAX,
        forall|k: int|
            0 <= k < schemas.len() ==> #[trigger] formats_back(schemas[k], encs[k], outs[k]),
    ensures
        render_args(raw, part_offsets(schemas, 1), p, tables, ufs, idx, base + concat(encs.take(idx as int)).len())
            == Some(outs.skip(idx as int)),
    decreases schemas.len() - idx,
{
    if idx == schemas.len() {
        if schemas.len() > 0 {
            lemma_part_offsets(schemas, 1, 0);
        } else {
            assert(part_offsets(schemas, 1) =~= Seq::<(usize, usize)>::empty());
        }
        assert(outs.skip(idx as int) =~= Seq::<Seq<Token>>::empty());
    } else {
        lemma_render_one(raw, schemas, encs, outs, after, p, base, rest, tables, ufs, idx);
        lemma_render_args(raw, schemas, encs, outs, after, p, base, rest, tables, ufs, idx + 1);
        assert(outs.skip(idx as int) =~= seq![outs[idx as int]] + outs.skip(idx + 1int));
    }
}

/// A call site whose schema list holds 1 to 255 self-delimiting argument schemas,
/// logged with a payload that holds those arguments' encodings one after another,
/// decodes each argument to its own text, whatever follows the encodings.
pub proof fn lemma_decode_args_roundtrip(
    m: Metadata,
    schemas: Seq<Seq<u8>>,
    encs: Seq<Seq<u8>>,
    outs: Seq<Seq<Token>>,
    rest: Seq<u8>,
)
    requires
        1 <= schemas.len() <= 255,
        encs.len() == schemas.len(),
        outs.len() == schemas.len(),
        m.schemas@ == seq![schemas.len() as u8] + concat(schemas),
        m.schemas@.len() <= usize::MAX,
        concat(encs).len() <= usize::MAX,
        forall|k: int|
            0 <= k < schemas.len() ==> self_delimiting(#[trigger] schemas[k]) && formats_back(
                schemas[k],
                encs[k],
                outs[k],
            ),
    ensures
        spec_decode_args(m, concat(encs) + rest) == Some(outs),
{
    let raw = m.schemas@;
    assert(raw[0] == schemas.len() as u8);
    assert(raw.subrange(1, raw.len() as int) =~= concat(schemas) + Seq::<u8>::empty());
    assert forall|k: int| 0 <= k < schemas.len() implies #[trigger] self_delimiting(schemas[k]) by {}
    lemma_schema_offsets(raw, 1, schemas, Seq::empty());
    assert forall|k: int| 0 <= k < schemas.len() implies #[trigger] formats_back(schemas[k], encs[k], outs[k]) by {}
    let p = concat(encs) + rest;
    assert(p.subrange(0, p.len() as int) =~= p);
    assert(raw =~= seq![schemas.len() as u8] + concat(schemas) + Seq::<u8>::empty());
    lemma_render_args(raw, schemas, encs, outs, Seq::empty(), p, 0, rest, super::strtab::tables_view(m.string_tables@), m.user_formatters@, 0);
    assert(encs.take(0) =~= Seq::<Seq<u8>>::empty());
    assert(outs.skip(0) =~= outs);
}

/// A format string made of `pieces` with a `{}` placeholder between each two.
pub open spec fn with_placeholders(pieces: Seq<Seq<u8>>) -> Seq<u8>
    decreases pieces.len(),
{
    if pieces.len() == 0 {
        Seq::empty()
    } else if pieces.len() == 1 {
        pieces[0]
    } else {
        pieces[0] + seq![123u8, 125u8] + with_placeholders(pieces.drop_first())
    }
}

/// The texts of `pieces` with the texts `outs` between them, in order.
pub open spec fn filled(pieces: Seq<Seq<u8>>, outs: Seq<Seq<Token>>) -> Seq<Token>
    decreases pieces.len(),
{
    if pieces.len() == 0 {
        Seq::empty()
    } else if pieces.len() == 1 {
        text(pieces[0])
    } else {
        text(pieces[0]) + outs[0] + filled(pieces.drop_first(), outs.drop_first())
    }
}

proof fn lemma_find_byte_after(a: Seq<u8>, b: Seq<u8>, x: u8)
    requires
        !a.contains(x),
    ensures
        find_byte(a + b, x) == (match find_byte(b, x) {
            Some(i) => Some(a.len() + i),
            None => None,
        }),
    decreases a.len(),
{
    if a.len() == 0 {
        assert(a + b =~= b);
    } else {
        assert((a + b)[0] == a[0]);
        if a[0] == x {
            assert(a.contains(x));
        }
        assert((a + b).drop_first() =~= a.drop_first() + b);
        assert(!a.drop_first().contains(x)) by {
            if a.drop_first().contains(x) {
                let j = choose|j: int| 0 <= j < a.drop_first().len() && a.drop_first()[j] == x;
                assert(a[j + 1] == x);
            }
        }
        lemma_find_byte_after(a.drop_first(), b, x);
    }
}

/// A format string that is text without `{` renders as that text.
proof fn lemma_body_last(
    piece: Seq<u8>,
    raw: Seq<u8>,
    offs: Seq<(usize, usize)>,
    p: Seq<u8>,
    tables: Seq<Seq<u8>>,
    ufs: Seq<&dyn UserFormatter>,
    idx: nat,
    ppos: nat,
)
    requires
        !piece.contains(123u8),
    ensures
        render_body(piece, raw, offs, p, tables, ufs, idx, ppos) == Some(text(piece)),
{
    reveal(render_body);
    lemma_find_byte_after(piece, Seq::empty(), 123u8);
    assert(piece + Seq::<u8>::empty() =~= piece);
}

/// A format string that starts with text without `{` and then `{}` renders that
/// text, then the argument at `idx`, then the rest with the next argument.
proof fn lemma_body_step(
    piece: Seq<u8>,
    tail: Seq<u8>,
    raw: Seq<u8>,
    offs: Seq<(usize, usize)>,
    p: Seq<u8>,
    tables: Seq<Seq<u8>>,
    ufs: Seq<&dyn UserFormatter>,
    idx: nat,
    ppos: nat,
    u: nat,
    out: Seq<Token>,
)
    requires
        !piece.contains(123u8),
        idx < offs.len(),
        render_arg(raw, offs, p, tables, ufs, idx, ppos) == Some((u, out)),
        ppos + u <= usize::MAX,
    ensures
        render_body(piece + seq![123u8, 125u8] + tail, raw, offs, p, tables, ufs, idx, ppos) == (match render_body(
            tail,
            raw,
            offs,
            p,
            tables,
            ufs,
            idx + 1,
            ppos + u,
        ) {
            None => None,
            Some(r) => Some(text(piece) + out + r),
        }),
{
    reveal(render_body);
    let fmt = piece + seq![123u8, 125u8] + tail;
    assert(fmt =~= piece + (seq![123u8, 125u8] + tail));
    lemma_find_byte_after(piece, seq![123u8, 125u8] + tail, 123u8);
    assert((seq![123u8, 125u8] + tail)[0] == 123u8);
    let b = piece.len();
    assert(find_byte(fmt, 123u8) == Some(b));
    let after = fmt.subrange(b + 1 as int, fmt.len() as int);
    assert(after =~= seq![125u8] + tail);
    assert(after[0] == 125u8);
    assert(find_byte(after, 125u8) == Some(0nat));
    assert(after.subrange(1, after.len() as int) =~= tail);
    assert(fmt.subrange(0, b as int) =~= piece);
}

/// The format string's pieces from `j` on render with the arguments from `j` on
/// in their placeholders.
proof fn lemma_render_pieces(
    raw: Seq<u8>,
    schemas: Seq<Seq<u8>>,
    encs: Seq<Seq<u8>>,
    outs: Seq<Seq<Token>>,
    pieces: Seq<Seq<u8>>,
    after: Seq<u8>,
    p: Seq<u8>,
    base: nat,
    rest: Seq<u8>,
    tables: Seq<Seq<u8>>,
    ufs: Seq<&dyn UserFormatter>,
    j: nat,
)
    requires
        encs.len() == schemas.len(),
        outs.len() == schemas.len(),
        pieces.len() == schemas.len() + 1,
        j <= schemas.len(),
        forall|k: int| 0 <= k < pieces.len() ==> !(#[trigger] pieces[k]).contains(123u8),
        raw == seq![schemas.len() as u8] + concat(schemas) + after,
        raw.len() <= usize::MAX,
        base <= p.len(),
        p.subrange(base as int, p.len() as int) == concat(encs) + rest,
        base + concat(encs).len() <= usize::MAX,
        forall|k: int|
            0 <= k < schemas.len() ==> #[trigger] formats_back(schemas[k], encs[k], outs[k]),
    ensures
        render_body(
            with_placeholders(pieces.skip(j as int)),
            raw,
            part_offsets(schemas, 1),
            p,
            tables,
            ufs,
            j,
            base + concat(encs.take(j as int)).len(),
        ) == Some(filled(pieces.skip(j as int), outs.skip(j as int))),
    decreases schemas.len() - j,
{
    let offs = part_offsets(schemas, 1);
    let ppos = base + concat(encs.take(j as int)).len();
    let ps = pieces.skip(j as int);
    let os = outs.skip(j as int);
    assert(!ps[0].contains(123u8)) by {
        assert(ps[0] == pieces[j as int]);
    }
    if j == schemas.len() {
        assert(ps.len() == 1);
        lemma_body_last(ps[0], raw, offs, p, tables, ufs, j, ppos);
    } else {
        let ps2 = pieces.skip(j + 1int);
        assert(ps.drop_first() =~= ps2);
        assert(os.drop_first() =~= outs.skip(j + 1int));
        let tail = with_placeholders(ps2);
        assert(with_placeholders(ps) == ps[0] + seq![123u8, 125u8] + tail);
        lemma_render_one(raw, schemas, encs, outs, after, p, base, rest, tables, ufs, j);
        lemma_body_step(ps[0], tail, raw, offs, p, tables, ufs, j, ppos, encs[j as int].len(), outs[j as int]);
        lemma_render_pieces(raw, schemas, encs, outs, pieces, after, p, base, rest, tables, ufs, j + 1);
        assert(os[0] == outs[j as int]);
    }
}

/// A call site whose format string has one `{}` placeholder per argument, and no
/// other `{`, formats a message whose payload holds the arguments' encodings one
/// after another as its text pieces with each argument's text in its placeholder.
/// The arguments are 1 to 255, with self-delimiting schemas.
pub proof fn lemma_format_body_roundtrip(
    m: Metadata,
    pieces: Seq<Seq<u8>>,
    schemas: Seq<Seq<u8>>,
    encs: Seq<Seq<u8>>,
    outs: Seq<Seq<Token>>,
    rest: Seq<u8>,
)
    requires
        1 <= schemas.len() <= 255,
        encs.len() == schemas.len(),
        outs.len() == schemas.len(),
        pieces.len() == schemas.len() + 1,
        forall|k: int| 0 <= k < pieces.len() ==> !(#[trigger] pieces[k]).contains(123u8),
        m.format_str.spec_bytes() == with_placeholders(pieces),
        m.schemas@ == seq![schemas.len() as u8] + concat(schemas),
        m.schemas@.len() <= usize::MAX,
        concat(encs).len() <= usize::MAX,
        forall|k: int|
            0 <= k < schemas.len() ==> self_delimiting(#[trigger] schemas[k]) && formats_back(
                schemas[k],
                encs[k],
                outs[k],
            ),
    ensures
        spec_format_body(m, concat(encs) + rest) == Some(filled(pieces, outs)),
{
    let raw = m.schemas@;
    assert(raw[0] == schemas.len() as u8);
    assert(raw.subrange(1, raw.len() as int) =~= concat(schemas) + Seq::<u8>::empty());
    assert forall|k: int| 0 <= k < schemas.len() implies #[trigger] self_delimiting(schemas[k]) by {}
    lemma_schema_offsets(raw, 1, schemas, Seq::empty());
    assert forall|k: int| 0 <= k < schemas.len() implies #[trigger] formats_back(schemas[k], encs[k], outs[k]) by {}
    let p = concat(encs) + rest;
    assert(p.subrange(0, p.len() as int) =~= p);
    assert(raw =~= seq![schemas.len() as u8] + concat(schemas) + Seq::<u8>::empty());
    lemma_render_pieces(
        raw,
        schemas,
        encs,
        outs,
        pieces,
        Seq::empty(),
        p,
        0,
        rest,
        super::strtab::tables_view(m.string_tables@),
        m.user_formatters@,
        0,
    );
    assert(encs.take(0) =~= Seq::<Seq<u8>>::empty());
    assert(outs.skip(0) =~= outs);
    assert(pieces.skip(0) =~= pieces);
}

/// A packed payload, `[count][schemas][values]`, holding 1 to 255 self-delimiting
/// schemas and then those arguments' encodings, decodes each argument to its own
/// text, whatever follows the encodings.
pub proof fn lemma_packed_decode_roundtrip(
    schemas: Seq<Seq<u8>>,
    encs: Seq<Seq<u8>>,
    outs: Seq<Seq<Token>>,
    rest: Seq<u8>,
)
    requires
        1 <= schemas.len() <= 255,
        encs.len() == schemas.len(),
        outs.len() == schemas.len(),
        1 + concat(schemas).len() + concat(encs).len() + rest.len() <= usize::MAX,
        forall|k: int|
            0 <= k < schemas.len() ==> self_delimiting(#[trigger] schemas[k]) && formats_back(
                schemas[k],
                encs[k],
                outs[k],
            ),
    ensures
        spec_decode_packed(seq![schemas.len() as u8] + concat(schemas) + concat(encs) + rest) == Some(outs),
{
    let after = concat(encs) + rest;
    let p = seq![schemas.len() as u8] + concat(schemas) + after;
    assert(seq![schemas.len() as u8] + concat(schemas) + concat(encs) + rest =~= p);
    assert(p[0] == schemas.len() as u8);
    assert(p.subrange(1, p.len() as int) =~= concat(schemas) + after);
    assert forall|k: int| 0 <= k < schemas.len() implies #[trigger] self_delimiting(schemas[k]) by {}
    lemma_schema_offsets(p, 1, schemas, after);
    let base = 1 + concat(schemas).len();
    assert(p.subrange(base as int, p.len() as int) =~= concat(encs) + rest);
    assert forall|k: int| 0 <= k < schemas.len() implies #[trigger] formats_back(schemas[k], encs[k], outs[k]) by {}
    lemma_render_args(p, schemas, encs, outs, after, p, base, rest, Seq::empty(), Seq::empty(), 0);
    assert(encs.take(0) =~= Seq::<Seq<u8>>::empty());
    assert(outs.skip(0) =~= outs);
}

/// A packed payload, with one `{}` placeholder per argument in the format string
/// and no other `{`, formats as the format string's pieces with each argument's
/// text in its placeholder.
pub proof fn lemma_packed_format_roundtrip(
    pieces: Seq<Seq<u8>>,
    schemas: Seq<Seq<u8>>,
    encs: Seq<Seq<u8>>,
    outs: Seq<Seq<Token>>,
    rest: Seq<u8>,
)
    requires
        1 <= schemas.len() <= 255,
        encs.len() == schemas.len(),
        outs.len() == schemas.len(),
        pieces.len() == schemas.len() + 1,
        forall|k: int| 0 <= k < pieces.len() ==> !(#[trigger] pieces[k]).contains(123u8),
        1 + concat(schemas).len() + concat(encs).len() + rest.len() <= usize::MAX,
        forall|k: int|
            0 <= k < schemas.len() ==> self_delimiting(#[trigger] schemas[k]) && formats_back(
                schemas[k],
                encs[k],
                outs[k],
            ),
    ensures
        spec_format_body_packed(
            with_placeholders(pieces),
            seq![schemas.len() as u8] + concat(schemas) + concat(encs) + rest,
        ) == Some(filled(pieces, outs)),
{
    let after = concat(encs) + rest;
    let p = seq![schemas.len() as u8] + concat(schemas) + after;
    assert(seq![schemas.len() as u8] + concat(schemas) + concat(encs) + rest =~= p);
    assert(p[0] == schemas.len() as u8);
    assert(p.subrange(1, p.len() as int) =~= concat(schemas) + after);
    assert forall|k: int| 0 <= k < schemas.len() implies #[trigger] self_delimiting(schemas[k]) by {}
    lemma_schema_offsets(p, 1, schemas, after);
    let base = 1 + concat(schemas).len();
    assert(p.subrange(base as int, p.len() as int) =~= concat(encs) + rest);
    assert forall|k: int| 0 <= k < schemas.len() implies #[trigger] formats_back(schemas[k], encs[k], outs[k]) by {}
    lemma_render_pieces(p, schemas, encs, outs, pieces, after, p, base, rest, Seq::empty(), Seq::empty(), 0);
    assert(encs.take(0) =~= Seq::<Seq<u8>>::empty());
    assert(outs.skip(0) =~= outs);
    assert(pieces.skip(0) =~= pieces);
}

/// From argument `j` on, the format string's pieces render with, in their
/// placeholders, the texts that the arguments decode to one by one.
proof fn lemma_body_matches_args(
    pieces: Seq<Seq<u8>>,
    raw: Seq<u8>,
    offs: Seq<(usize, usize)>,
    p: Seq<u8>,
    tables: Seq<Seq<u8>>,
    ufs: Seq<&dyn UserFormatter>,
    j: nat,
    ppos: nat,
    outs: Seq<Seq<Token>>,
)
    requires
        pieces.len() == offs.len() + 1,
        j <= offs.len(),
        forall|k: int| 0 <= k < pieces.len() ==> !(#[trigger] pieces[k]).contains(123u8),
        render_args(raw, offs, p, tables, ufs, j, ppos) == Some(outs),
    ensures
        outs.len() == offs.len() - j,
        render_body(with_placeholders(pieces.skip(j as int)), raw, offs, p, tables, ufs, j, ppos)
            == Some(filled(pieces.skip(j as int), outs)),
    decreases offs.len() - j,
{
    let ps = pieces.skip(j as int);
    assert(!ps[0].contains(123u8)) by {
        assert(ps[0] == pieces[j as int]);
    }
    if j == offs.len() {
        assert(ps.len() == 1);
        assert(outs =~= Seq::<Seq<Token>>::empty());
        lemma_body_last(ps[0], raw, offs, p, tables, ufs, j, ppos);
    } else {
        let st = offs[j as int].0 as nat;
        let ln = offs[j as int].1 as nat;
        let (u, out) = render_arg(raw, offs, p, tables, ufs, j, ppos).unwrap();
        let rest_outs = render_args(raw, offs, p, tables, ufs, j + 1, ppos + u).unwrap();
        assert(outs == seq![out] + rest_outs);
        lemma_body_matches_args(pieces, raw, offs, p, tables, ufs, j + 1, ppos + u, rest_outs);
        let ps2 = pieces.skip(j + 1int);
        assert(ps.drop_first() =~= ps2);
        let tail = with_placeholders(ps2);
        assert(with_placeholders(ps) == ps[0] + seq![123u8, 125u8] + tail);
        lemma_body_step(ps[0], tail, raw, offs, p, tables, ufs, j, ppos, u, out);
        assert(outs.drop_first() =~= rest_outs);
        assert(outs[0] == out);
    }
}

/// Whatever the payload, a call site whose format string has one `{}` placeholder
/// per argument schema, and no other `{`, formats its body as the format string's
/// pieces with, in each placeholder, the text that the argument decodes to on its
/// own; so with pieces that are empty at both ends and a separator between, the
/// body is the decoded arguments joined by the separator.
pub proof fn lemma_format_body_joins_args(
    m: Metadata,
    pieces: Seq<Seq<u8>>,
    payload: Seq<u8>,
    outs: Seq<Seq<Token>>,
)
    requires
        call_site_schemas(m.schemas@) matches Some(Some(offs)) && pieces.len() == offs.len() + 1,
        forall|k: int| 0 <= k < pieces.len() ==> !(#[trigger] pieces[k]).contains(123u8),
        m.format_str.spec_bytes() == with_placeholders(pieces),
        spec_decode_args(m, payload) == Some(outs),
    ensures
        spec_format_body(m, payload) == Some(filled(pieces, outs)),
{
    let offs = call_site_schemas(m.schemas@).unwrap().unwrap();
    lemma_body_matches_args(
        pieces,
        m.schemas@,
        offs,
        payload,
        super::strtab::tables_view(m.string_tables@),
        m.user_formatters@,
        0,
        0,
        outs,
    );
    assert(pieces.skip(0) =~= pieces);
}

} // verus!
