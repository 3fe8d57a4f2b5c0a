use vstd::prelude::*;

use super::{
    CAT_MASK, OP_BOOL, OP_CHAR, OP_ENUM, OP_FLOAT, OP_SEQ, OP_SIGNED_INT, OP_STR, OP_STRUCT,
    OP_TUPLE, OP_UNIT, OP_UNSIGNED_INT, OP_USER_DEFINED, SIZE_MASK,
};

verus! {

/// The little-endian `u16` stored at `s[i]`, `s[i + 1]`.
pub open spec fn u16_at(s: Seq<u8>, i: int) -> nat {
    s[i] as nat + 256 * (s[i + 1] as nat)
}

/// True for the categories whose schema is the single opcode byte.
pub open spec fn is_primitive_category(c: u8) -> bool {
    c == OP_UNIT || c == OP_SIGNED_INT || c == OP_UNSIGNED_INT || c == OP_FLOAT || c == OP_STR
        || c == OP_CHAR || c == OP_BOOL
}

/// The number of bytes that the first schema in `s` occupies by the schema grammar,
/// or `None` where the grammar reads a byte past the end of `s` (a count field, or
/// a sub-schema that would start past the end).
///
/// Primitives occupy their opcode; `USER_DEFINED` its opcode and index byte;
/// `SEQ` its opcode and one element schema; `TUPLE`, `STRUCT` and `ENUM` their header
/// (with a `u16` count when the inline count is 0) and their element, field or
/// variant schemas, fields and variants each behind a 2-byte name offset.
/// Unknown categories occupy their opcode.
pub open spec fn schema_extent(s: Seq<u8>) -> Option<nat>
    decreases s.len(), 0nat, 0nat,
{
    if s.len() == 0 {
        Some(0)
    } else {
        let op = s[0];
        let c = op & CAT_MASK;
        let k = op & SIZE_MASK;
        if is_primitive_category(c) {
            Some(1)
        } else if c == OP_USER_DEFINED {
            Some(2)
        } else if c == OP_SEQ {
            match schema_extent(s.subrange(1, s.len() as int)) {
                Some(m) => Some(1 + m),
                None => None,
            }
        } else if c == OP_TUPLE {
            if k == 0 {
                if s.len() < 3 {
                    None
                } else {
                    match extent_list(s.subrange(3, s.len() as int), u16_at(s, 1)) {
                        Some(m) => Some(3 + m),
                        None => None,
                    }
                }
            } else {
                match extent_list(s.subrange(1, s.len() as int), k as nat) {
                    Some(m) => Some(1 + m),
                    None => None,
                }
            }
        } else if c == OP_STRUCT {
            if k == 0 {
                if s.len() < 3 {
                    None
                } else if u16_at(s, 1) == 0 {
                    Some(4)
                } else if s.len() < 4 {
                    None
                } else {
                    match extent_named_list(s.subrange(4, s.len() as int), u16_at(s, 1)) {
                        Some(m) => Some(4 + m),
                        None => None,
                    }
                }
            } else if s.len() < 2 {
                None
            } else {
                match extent_named_list(s.subrange(2, s.len() as int), k as nat) {
                    Some(m) => Some(2 + m),
                    None => None,
                }
            }
        } else if c == OP_ENUM {
            if k == 0 {
                if s.len() < 3 {
                    None
                } else if u16_at(s, 1) == 0 {
                    Some(5)
                } else if s.len() < 5 {
                    None
                } else {
                    match extent_named_list(s.subrange(5, s.len() as int), u16_at(s, 1)) {
                        Some(m) => Some(5 + m),
                        None => None,
                    }
                }
            } else if s.len() < 3 {
                None
            } else {
                match extent_named_list(s.subrange(3, s.len() as int), k as nat) {
                    Some(m) => Some(3 + m),
                    None => None,
                }
            }
        } else {
            Some(1)
        }
    }
}

/// The bytes occupied by `n` consecutive schemas at the start of `t`.
pub open spec fn extent_list(t: Seq<u8>, n: nat) -> Option<nat>
    decreases t.len(), 1nat, n,
{
    if n == 0 {
        Some(0)
    } else {
        match schema_extent(t) {
            None => None,
            Some(m) => if n == 1 {
                Some(m)
            } else if m > t.len() {
                None
            } else {
                match extent_list(t.subrange(m as int, t.len() as int), (n - 1) as nat) {
                    Some(r) => Some(m + r),
                    None => None,
                }
            },
        }
    }
}

/// The bytes occupied by `n` consecutive (2-byte name offset, schema) entries at the start of `t`.
pub open spec fn extent_named_list(t: Seq<u8>, n: nat) -> Option<nat>
    decreases t.len(), 1nat, n,
{
    if n == 0 {
        Some(0)
    } else if t.len() < 2 {
        None
    } else {
        match schema_extent(t.subrange(2, t.len() as int)) {
            None => None,
            Some(m) => if n == 1 {
                Some(2 + m)
            } else if m > t.len() - 2 {
                None
            } else {
                match extent_named_list(t.subrange(2 + m as int, t.len() as int), (n - 1) as nat) {
                    Some(r) => Some(2 + m + r),
                    None => None,
                }
            },
        }
    }
}

/// `measure_schema` can run on `s`: the grammar never reads past the end of `s`
/// and the extent fits in a `usize`.
pub open spec fn measure_ok(s: Seq<u8>) -> bool {
    schema_extent(s) matches Some(m) && m <= usize::MAX
}

pub(crate) fn read_u16_at(s: &[u8], i: usize) -> (r: usize)
    requires
        i + 1 < s@.len(),
    ensures
        r == u16_at(s@, i as int),
{
    s[i] as usize + 256 * (s[i + 1] as usize)
}

/// Measures `n` consecutive schemas of `schema` starting at `start`; returns the end position.
fn measure_list(schema: &[u8], start: usize, n: usize) -> (end: usize)
    requires
        1 <= start <= schema@.len(),
        extent_list(schema@.subrange(start as int, schema@.len() as int), n as nat) matches Some(m)
            && start + m <= usize::MAX,
    ensures
        end == start + extent_list(schema@.subrange(start as int, schema@.len() as int), n as nat).unwrap(),
    decreases schema@.len(), 0nat,
{
    let ghost total: nat = (start + extent_list(schema@.subrange(start as int, schema@.len() as int), n as nat).unwrap()) as nat;
    let mut pos = start;
    let mut i: usize = 0;
    while i < n
        invariant
            1 <= start <= pos,
            pos <= total,
            i <= n,
            total <= usize::MAX,
            i < n ==> pos <= schema@.len(),
            i < n ==> extent_list(schema@.subrange(pos as int, schema@.len() as int), (n - i) as nat) == Some((total - pos) as nat),
            i == n ==> pos == total,
        decreases n - i,
    {
        let ghost t = schema@.subrange(pos as int, schema@.len() as int);
        proof {
            reveal_with_fuel(extent_list, 2);
            assert(schema_extent(t) is Some);
            let m0 = schema_extent(t).unwrap();
            if n - i > 1 {
                let r0 = extent_list(t.subrange(m0 as int, t.len() as int), (n - i - 1) as nat);
                assert(r0 is Some);
                assert(m0 <= t.len());
                assert(extent_list(t, (n - i) as nat) == Some(m0 + r0.unwrap()));
                assert(m0 + r0.unwrap() == total - pos);
            }
            assert(m0 <= total - pos);
        }
        let m = measure_schema(slice_from(schema, pos));
        proof {
            if n - i > 1 {
                assert(t.subrange(m as int, t.len() as int) =~= schema@.subrange(pos + m, schema@.len() as int));
            }
        }
        pos = pos + m;
        i = i + 1;
    }
    pos
}

/// Measures `n` consecutive (name offset, schema) entries starting at `start`; returns the end position.
fn measure_named_list(schema: &[u8], start: usize, n: usize) -> (end: usize)
    requires
        1 <= start <= schema@.len(),
        extent_named_list(schema@.subrange(start as int, schema@.len() as int), n as nat) matches Some(m)
            && start + m <= usize::MAX,
    ensures
        end == start + extent_named_list(schema@.subrange(start as int, schema@.len() as int), n as nat).unwrap(),
    decreases schema@.len(), 0nat,
{
    let ghost total: nat = (start + extent_named_list(schema@.subrange(start as int, schema@.len() as int), n as nat).unwrap()) as nat;
    let mut pos = start;
    let mut i: usize = 0;
    while i < n
        invariant
            1 <= start <= pos,
            pos <= total,
            i <= n,
            total <= usize::MAX,
            i < n ==> pos <= schema@.len(),
            i < n ==> extent_named_list(schema@.subrange(pos as int, schema@.len() as int), (n - i) as nat) == Some((total - pos) as nat),
            i == n ==> pos == total,
        decreases n - i,
    {
        let ghost t = schema@.subrange(pos as int, schema@.len() as int);
        proof {
            reveal_with_fuel(extent_named_list, 2);
            assert(t.len() >= 2);
            assert(t.subrange(2, t.len() as int) =~= schema@.subrange(pos + 2, schema@.len() as int));
            assert(schema_extent(t.subrange(2, t.len() as int)) is Some);
            let m0 = schema_extent(t.subrange(2, t.len() as int)).unwrap();
            if n - i > 1 {
                let r0 = extent_named_list(t.subrange(2 + m0 as int, t.len() as int), (n - i - 1) as nat);
                assert(r0 is Some);
                assert(2 + m0 + r0.unwrap() == total - pos);
            }
            assert(m0 + 2 <= total - pos);
        }
        pos = pos + 2;
        let m = measure_schema(slice_from(schema, pos));
        proof {
            if n - i > 1 {
                assert(t.subrange(2 + m, t.len() as int) =~= schema@.subrange(pos + m, schema@.len() as int));
            }
        }
        pos = pos + m;
        i = i + 1;
    }
    pos
}

/// The suffix of `s` that starts at `start`.
pub fn slice_from(s: &[u8], start: usize) -> (r: &[u8])
    requires
        start <= s@.len(),
    ensures
        r@ == s@.subrange(start as int, s@.len() as int),
{
    &s[start..s.len()]
}

/// The number of bytes that the first schema of `schema` occupies.
pub fn measure_schema(schema: &[u8]) -> (r: usize)
    requires
        measure_ok(schema@),
    ensures
        r == schema_extent(schema@).unwrap(),
    decreases schema@.len(), 1nat,
{
    if schema.len() == 0 {
        return 0;
    }
    let op = schema[0];
    let cat = op & CAT_MASK;
    let k = op & SIZE_MASK;
    let len = schema.len();
    if cat == OP_UNIT || cat == OP_SIGNED_INT || cat == OP_UNSIGNED_INT || cat == OP_FLOAT
        || cat == OP_STR || cat == OP_CHAR || cat == OP_BOOL {
        1
    } else if cat == OP_USER_DEFINED {
        2
    } else if cat == OP_SEQ {
        1 + measure_schema(slice_from(schema, 1))
    } else if cat == OP_TUPLE {
        if k == 0 {
            let n = read_u16_at(schema, 1);
            measure_list(schema, 3, n)
        } else {
            measure_list(schema, 1, k as usize)
        }
    } else if cat == OP_STRUCT {
        if k == 0 {
            let n = read_u16_at(schema, 1);
            if n == 0 {
                4
            } else {
                measure_named_list(schema, 4, n)
            }
        } else {
            measure_named_list(schema, 2, k as usize)
        }
    } else if cat == OP_ENUM {
        if k == 0 {
            let n = read_u16_at(schema, 1);
            if n == 0 {
                5
            } else {
                measure_named_list(schema, 5, n)
            }
        } else {
            measure_named_list(schema, 3, k as usize)
        }
    } else {
        1
    }
}

} // verus!
