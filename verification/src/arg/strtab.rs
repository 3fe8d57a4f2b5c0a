use vstd::prelude::*;

use crate::ext::utf8_is_valid;

verus! {

/// The string tables as byte sequences.
pub open spec fn tables_view(ts: Seq<&[u8]>) -> Seq<Seq<u8>> {
    ts.map_values(|t: &[u8]| t@)
}

/// The position of the first 0 byte of `t` at or after `i`, or `t.len()` if there is none.
pub open spec fn nul_end(t: Seq<u8>, i: nat) -> nat
    decreases t.len() - i,
{
    if i >= t.len() {
        t.len()
    } else if t[i as int] == 0 {
        i
    } else {
        nul_end(t, i + 1)
    }
}

/// The name stored in table `idx` at byte offset `off`: the bytes up to the next 0
/// byte (or the end of the table), if they are valid UTF-8; otherwise, and for a
/// missing table or an offset past its end, no bytes.
pub open spec fn table_name(tables: Seq<Seq<u8>>, idx: nat, off: nat) -> Seq<u8> {
    let t = if idx < tables.len() {
        tables[idx as int]
    } else {
        Seq::<u8>::empty()
    };
    if off >= t.len() {
        Seq::empty()
    } else {
        let b = t.subrange(off as int, nul_end(t, off) as int);
        if vstd::utf8::valid_utf8(b) {
            b
        } else {
            Seq::empty()
        }
    }
}

proof fn lemma_nul_end_bounds(t: Seq<u8>, i: nat)
    requires
        i <= t.len(),
    ensures
        i <= nul_end(t, i) <= t.len(),
    decreases t.len() - i,
{
    if i < t.len() && t[i as int] != 0 {
        lemma_nul_end_bounds(t, i + 1);
    }
}

/// Reads a field or variant name from the string tables.
pub fn read_str_from_table<'a>(st_idx: u8, st_off: u16, string_tables: &[&'a [u8]]) -> (r: &'a [u8])
    ensures
        r@ == table_name(tables_view(string_tables@), st_idx as nat, st_off as nat),
{
    let empty: &'a [u8] = &[];
    let table: &'a [u8] = if (st_idx as usize) < string_tables.len() {
        string_tables[st_idx as usize]
    } else {
        empty
    };
    proof {
        assert(empty@ =~= Seq::<u8>::empty());
    }
    let start = st_off as usize;
    if start >= table.len() {
        return empty;
    }
    let mut end = start;
    while end < table.len() && table[end] != 0
        invariant
            start <= end <= table@.len(),
            nul_end(table@, start as nat) == nul_end(table@, end as nat),
        decreases table.len() - end,
    {
        end = end + 1;
    }
    let name = &table[start..end];
    if utf8_is_valid(name) {
        name
    } else {
        empty
    }
}

} // verus!
