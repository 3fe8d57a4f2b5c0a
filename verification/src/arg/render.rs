use vstd::prelude::*;

use super::bytes::{le_value, spec_read_signed, spec_read_unsigned};
use super::schema::{schema_extent, u16_at};
use super::strtab::table_name;
use super::traits::UserFormatter;
use super::{
    spec_size_for_k, CAT_MASK, OP_BOOL, OP_CHAR, OP_ENUM, OP_FLOAT, OP_SEQ, OP_SIGNED_INT, OP_STR,
    OP_STRUCT, OP_TUPLE, OP_UNIT, OP_UNSIGNED_INT, OP_USER_DEFINED, SIZE_MASK,
};
use crate::text::{dec_int, text, Token};

verus! {

/// The rendering of a formatted value: payload bytes consumed and tokens produced,
/// or `None` where formatting cannot complete (an index past the end of the schema
/// or payload, or a position that overflows `usize`).
pub type Rendered = Option<(nat, Seq<Token>)>;

pub open spec fn lit(b: u8) -> Seq<Token> {
    seq![Token::Byte(b)]
}

/// `", "` before every item but the first.
pub open spec fn item_sep(i: nat) -> Seq<Token> {
    if i > 0 {
        lit(44) + lit(32)
    } else {
        Seq::empty()
    }
}

pub open spec fn text_unit() -> Seq<Token> {
    lit(40) + lit(41)
}

pub open spec fn text_true() -> Seq<Token> {
    text(seq![116u8, 114u8, 117u8, 101u8])
}

pub open spec fn text_false() -> Seq<Token> {
    text(seq![102u8, 97u8, 108u8, 115u8, 101u8])
}

/// A signed integer: its decimal rendering, when the payload holds its width.
pub open spec fn render_signed(p: Seq<u8>, k: u8) -> Rendered {
    let size = spec_size_for_k(k);
    if p.len() < size {
        Some((0, Seq::empty()))
    } else {
        Some((size, text(dec_int(spec_read_signed(p, k)))))
    }
}

/// An unsigned integer: its decimal rendering, when the payload holds its width.
pub open spec fn render_unsigned(p: Seq<u8>, k: u8) -> Rendered {
    let size = spec_size_for_k(k);
    if p.len() < size {
        Some((0, Seq::empty()))
    } else {
        Some((size, text(dec_int(spec_read_unsigned(p, k) as int))))
    }
}

/// A float: one `F32` or `F64` token carrying its bits, for the widths 4 and 8.
pub open spec fn render_float(p: Seq<u8>, k: u8) -> Rendered {
    let size = spec_size_for_k(k);
    if p.len() < size {
        Some((0, Seq::empty()))
    } else if k == 3 {
        Some((size, seq![Token::F32(le_value(p.subrange(0, 4)) as u32)]))
    } else if k == 4 {
        Some((size, seq![Token::F64(le_value(p.subrange(0, 8)) as u64)]))
    } else {
        Some((size, Seq::empty()))
    }
}

/// A string: a length prefix of width `k`, then that many bytes, rendered when they
/// are valid UTF-8.
pub open spec fn render_str(p: Seq<u8>, k: u8) -> Rendered {
    let cs = spec_size_for_k(k);
    if p.len() < cs {
        Some((0, Seq::empty()))
    } else {
        let len = (spec_read_unsigned(p, k) as usize) as nat;
        if cs + len > usize::MAX {
            None
        } else if p.len() < cs + len {
            Some((cs, Seq::empty()))
        } else {
            let b = p.subrange(cs as int, (cs + len) as int);
            if vstd::utf8::valid_utf8(b) {
                Some((cs + len, text(b)))
            } else {
                Some((cs + len, Seq::empty()))
            }
        }
    }
}

/// A char: 4 bytes holding a code point, rendered in UTF-8 when it is a Unicode scalar.
pub open spec fn render_char(p: Seq<u8>) -> Rendered {
    if p.len() < 4 {
        Some((0, Seq::empty()))
    } else {
        let code = le_value(p.subrange(0, 4)) as u32;
        if vstd::utf8::is_scalar(code) {
            Some((4, text(vstd::utf8::encode_scalar(code))))
        } else {
            Some((4, Seq::empty()))
        }
    }
}

/// A bool: `true` for any nonzero byte, else `false`.
pub open spec fn render_bool(p: Seq<u8>) -> Rendered {
    if p.len() == 0 {
        Some((0, Seq::empty()))
    } else if p[0] != 0 {
        Some((1, text_true()))
    } else {
        Some((1, text_false()))
    }
}

/// A `USER_DEFINED` entry: what the user formatter at the index byte reports, if there is one.
pub open spec fn render_user(s: Seq<u8>, p: Seq<u8>, ufs: Seq<&dyn UserFormatter>) -> Rendered {
    if s.len() < 2 {
        Some((0, Seq::empty()))
    } else if (s[1] as nat) < ufs.len() {
        let r = ufs[s[1] as int].spec_format(p);
        Some((r.0 as nat, r.1))
    } else {
        Some((0, Seq::empty()))
    }
}

/// The element count of a `TUPLE`, `STRUCT` or `ENUM` and where its body starts:
/// the inline count after the opcode, or a `u16` count in the next two bytes.
pub open spec fn compound_header(s: Seq<u8>) -> Option<(nat, nat)> {
    let k = s[0] & SIZE_MASK;
    if k == 0 {
        if s.len() < 3 {
            None
        } else {
            Some((u16_at(s, 1), 3))
        }
    } else {
        Some((k as nat, 1))
    }
}

/// Renders the value that `payload` holds according to schema `s`.
pub open spec fn render(
    s: Seq<u8>,
    p: Seq<u8>,
    tables: Seq<Seq<u8>>,
    ufs: Seq<&dyn UserFormatter>,
) -> Rendered
    decreases s.len(), 0nat, 0int,
{
    if s.len() == 0 {
        Some((0, Seq::empty()))
    } else {
        let op = s[0];
        let c = op & CAT_MASK;
        let k = op & SIZE_MASK;
        if c == OP_UNIT {
            Some((0, text_unit()))
        } else if c == OP_SIGNED_INT {
            render_signed(p, k)
        } else if c == OP_UNSIGNED_INT {
            render_unsigned(p, k)
        } else if c == OP_FLOAT {
            render_float(p, k)
        } else if c == OP_STR {
            render_str(p, k)
        } else if c == OP_CHAR {
            render_char(p)
        } else if c == OP_BOOL {
            render_bool(p)
        } else if c == OP_SEQ {
            let cs = spec_size_for_k(k);
            if p.len() < cs {
                Some((0, Seq::empty()))
            } else {
                let count = (spec_read_unsigned(p, k) as usize) as nat;
                match schema_extent(s.subrange(1, s.len() as int)) {
                    None => None,
                    Some(m) => if m > usize::MAX || 1 + m > s.len() {
                        None
                    } else {
                        match render_seq_items(s.subrange(1, 1 + m as int), p, tables, ufs, cs, 0, count) {
                            None => None,
                            Some((pos, out)) => Some((pos, lit(91) + out + lit(93))),
                        }
                    },
                }
            }
        } else if c == OP_TUPLE {
            match compound_header(s) {
                None => None,
                Some((n, start)) => match render_tuple_items(
                    s.subrange(start as int, s.len() as int),
                    p,
                    tables,
                    ufs,
                    0,
                    0,
                    n,
                ) {
                    None => None,
                    Some((pos, out)) => Some((pos, lit(40) + out + lit(41))),
                },
            }
        } else if c == OP_STRUCT {
            match compound_header(s) {
                None => None,
                Some((n, start)) => if s.len() <= start {
                    None
                } else {
                    match render_struct_items(
                        s.subrange(start + 1 as int, s.len() as int),
                        s[start as int],
                        p,
                        tables,
                        ufs,
                        0,
                        0,
                        n,
                    ) {
                        None => None,
                        Some((pos, out)) => Some((pos, lit(123) + out + lit(125))),
                    }
                },
            }
        } else if c == OP_ENUM {
            match compound_header(s) {
                None => None,
                Some((n, start)) => if s.len() <= start + 1 {
                    None
                } else {
                    let vdx_k = s[start as int];
                    let st_idx = s[start + 1 as int];
                    let vcs = spec_size_for_k(vdx_k);
                    if p.len() < vcs {
                        Some((0, Seq::empty()))
                    } else {
                        let var_idx = (spec_read_unsigned(p, vdx_k) as usize) as nat;
                        let base = start + 2;
                        match enum_scan(s, base, 0, 0, n, var_idx, None) {
                            None => None,
                            Some(found) => {
                                let name = match found {
                                    Some((off, _, _)) => table_name(tables, st_idx as nat, off),
                                    None => Seq::empty(),
                                };
                                match found {
                                    Some((_, rel, fl)) if fl > 0 => if base + rel + fl > s.len() {
                                        None
                                    } else {
                                        let var = s.subrange(
                                            (base + rel) as int,
                                            (base + rel + fl) as int,
                                        );
                                        if var.len() == 1 && var[0] == OP_UNIT {
                                            Some((vcs, text(name)))
                                        } else {
                                            match render(
                                                var,
                                                p.subrange(vcs as int, p.len() as int),
                                                tables,
                                                ufs,
                                            ) {
                                                None => None,
                                                Some((u, out)) => if vcs + u > usize::MAX {
                                                    None
                                                } else {
                                                    Some(
                                                        (
                                                            vcs + u,
                                                            text(name) + lit(40) + out + lit(41),
                                                        ),
                                                    )
                                                },
                                            }
                                        }
                                    },
                                    _ => Some((vcs, text(name))),
                                }
                            },
                        }
                    }
                },
            }
        } else if c == OP_USER_DEFINED {
            render_user(s, p, ufs)
        } else {
            Some((0, Seq::empty()))
        }
    }
}

/// Items `i..n` of a `SEQ` whose element schema is `elem`, starting at payload position `pos`:
/// the final position and the items joined by `", "`.
pub open spec fn render_seq_items(
    elem: Seq<u8>,
    p: Seq<u8>,
    tables: Seq<Seq<u8>>,
    ufs: Seq<&dyn UserFormatter>,
    pos: nat,
    i: nat,
    n: nat,
) -> Rendered
    decreases elem.len(), 1nat, n - i,
{
    if i >= n {
        Some((pos, Seq::empty()))
    } else if pos > p.len() {
        None
    } else {
        match render(elem, p.subrange(pos as int, p.len() as int), tables, ufs) {
            None => None,
            Some((u, out)) => if pos + u > usize::MAX {
                None
            } else {
                match render_seq_items(elem, p, tables, ufs, pos + u, i + 1, n) {
                    None => None,
                    Some((fp, rest)) => Some((fp, item_sep(i) + out + rest)),
                }
            },
        }
    }
}

/// Items `i..n` of a `TUPLE` whose remaining element schemas start at `t`.
pub open spec fn render_tuple_items(
    t: Seq<u8>,
    p: Seq<u8>,
    tables: Seq<Seq<u8>>,
    ufs: Seq<&dyn UserFormatter>,
    pos: nat,
    i: nat,
    n: nat,
) -> Rendered
    decreases t.len(), 1nat, n - i,
{
    if i >= n {
        Some((pos, Seq::empty()))
    } else {
        match schema_extent(t) {
            None => None,
            Some(m) => if m > usize::MAX || m > t.len() || pos > p.len() {
                None
            } else {
                match render(t.subrange(0, m as int), p.subrange(pos as int, p.len() as int), tables, ufs) {
                    None => None,
                    Some((u, out)) => if pos + u > usize::MAX {
                        None
                    } else {
                        match render_tuple_items(
                            t.subrange(m as int, t.len() as int),
                            p,
                            tables,
                            ufs,
                            pos + u,
                            i + 1,
                            n,
                        ) {
                            None => None,
                            Some((fp, rest)) => Some((fp, item_sep(i) + out + rest)),
                        }
                    },
                }
            },
        }
    }
}

/// Fields `i..n` of a `STRUCT` whose remaining (name offset, schema) entries start at `t`,
/// each rendered as `name: value`.
pub open spec fn render_struct_items(
    t: Seq<u8>,
    st_idx: u8,
    p: Seq<u8>,
    tables: Seq<Seq<u8>>,
    ufs: Seq<&dyn UserFormatter>,
    pos: nat,
    i: nat,
    n: nat,
) -> Rendered
    decreases t.len(), 1nat, n - i,
{
    if i >= n {
        Some((pos, Seq::empty()))
    } else if t.len() < 2 {
        None
    } else {
        let name = table_name(tables, st_idx as nat, u16_at(t, 0));
        let t2 = t.subrange(2, t.len() as int);
        match schema_extent(t2) {
            None => None,
            Some(m) => if m > usize::MAX || m > t2.len() || pos > p.len() {
                None
            } else {
                match render(t2.subrange(0, m as int), p.subrange(pos as int, p.len() as int), tables, ufs) {
                    None => None,
                    Some((u, out)) => if pos + u > usize::MAX {
                        None
                    } else {
                        match render_struct_items(
                            t2.subrange(m as int, t2.len() as int),
                            st_idx,
                            p,
                            tables,
                            ufs,
                            pos + u,
                            i + 1,
                            n,
                        ) {
                            None => None,
                            Some((fp, rest)) => Some(
                                (fp, item_sep(i) + text(name) + lit(58) + lit(32) + out + rest),
                            ),
                        }
                    },
                }
            },
        }
    }
}

/// Scans variants `i..n` of an `ENUM` whose entries start at `base + rel` and keeps, for
/// the variant numbered `var_idx`, its name offset, the start of its schema relative
/// to `base`, and the schema's extent.
pub open spec fn enum_scan(
    s: Seq<u8>,
    base: nat,
    rel: nat,
    i: nat,
    n: nat,
    var_idx: nat,
    found: Option<(nat, nat, nat)>,
) -> Option<Option<(nat, nat, nat)>>
    decreases n - i,
{
    if i >= n {
        Some(found)
    } else if base + rel + 1 >= s.len() {
        None
    } else {
        let off = u16_at(s, (base + rel) as int);
        let fstart = base + rel + 2;
        match schema_extent(s.subrange(fstart as int, s.len() as int)) {
            None => None,
            Some(m) => if m > usize::MAX || fstart + m > usize::MAX {
                None
            } else {
                let found2 = if i == var_idx {
                    Some((off, rel + 2, m))
                } else {
                    found
                };
                enum_scan(s, base, rel + 2 + m, i + 1, n, var_idx, found2)
            },
        }
    }
}

} // verus!
