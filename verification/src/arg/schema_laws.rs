//! Which schemas delimit themselves: the schemas the `Encode` impls build measure
//! exactly their own length, whatever bytes follow them in a call site's list.
use vstd::prelude::*;

use super::schema::{extent_list, extent_named_list, is_primitive_category, schema_extent};
use super::primitives::{Float32Bits, Float64Bits};
use super::traits::Encode;
use super::{
    opcode, CAT_MASK, OP_BOOL, OP_CHAR, OP_ENUM, OP_FLOAT, OP_SEQ, OP_SIGNED_INT, OP_STR, OP_TUPLE,
    OP_UNIT, OP_UNSIGNED_INT, SIZE_MASK,
};

verus! {

/// A schema that measures its own length whatever bytes follow it.
pub open spec fn self_delimiting(s: Seq<u8>) -> bool {
    forall|t: Seq<u8>| #[trigger] schema_extent(s + t) == Some(s.len())
}

/// The schemas `parts`, one after another.
pub open spec fn concat(parts: Seq<Seq<u8>>) -> Seq<u8>
    decreases parts.len(),
{
    if parts.len() == 0 {
        Seq::empty()
    } else {
        parts[0] + concat(parts.drop_first())
    }
}

/// A one-byte schema of a primitive category (unit, integers, floats, strings,
/// chars, bools) delimits itself.
pub proof fn lemma_primitive_self_delimiting(op: u8)
    requires
        is_primitive_category(op & CAT_MASK),
    ensures
        self_delimiting(seq![op]),
{
    assert forall|t: Seq<u8>| #[trigger] schema_extent(seq![op] + t) == Some(1nat) by {
        assert((seq![op] + t)[0] == op);
    }
}

/// A sequence schema whose element schema delimits itself delimits itself.
pub proof fn lemma_seq_self_delimiting(k: u8, elem: Seq<u8>)
    requires
        self_delimiting(elem),
    ensures
        self_delimiting(seq![opcode(OP_SEQ, k)] + elem),
{
    let op = opcode(OP_SEQ, k);
    assert(op & CAT_MASK == OP_SEQ) by (bit_vector)
        requires
            op == OP_SEQ | (k & 0x0F),
    ;
    let h = seq![op];
    assert forall|t: Seq<u8>| #[trigger] schema_extent(h + elem + t) == Some(1 + elem.len()) by {
        let s = h + elem + t;
        assert(s[0] == op);
        assert(s.subrange(1, s.len() as int) =~= elem + t);
        assert(schema_extent(elem + t) == Some(elem.len()));
    }
}

/// Self-delimiting schemas one after another measure, as a list, their total length.
pub proof fn lemma_list_extent(parts: Seq<Seq<u8>>, t: Seq<u8>)
    requires
        forall|i: int| 0 <= i < parts.len() ==> #[trigger] self_delimiting(parts[i]),
    ensures
        extent_list(concat(parts) + t, parts.len()) == Some(concat(parts).len()),
    decreases parts.len(),
{
    if parts.len() > 0 {
        let rest = parts.drop_first();
        assert forall|i: int| 0 <= i < rest.len() implies #[trigger] self_delimiting(rest[i]) by {
            assert(rest[i] == parts[i + 1]);
        }
        lemma_list_extent(rest, t);
        let u = concat(parts) + t;
        assert(self_delimiting(parts[0]));
        assert(u =~= parts[0] + (concat(rest) + t));
        assert(schema_extent(parts[0] + (concat(rest) + t)) == Some(parts[0].len()));
        assert(u.subrange(parts[0].len() as int, u.len() as int) =~= concat(rest) + t);
        if parts.len() == 1 {
            assert(concat(rest) =~= Seq::<u8>::empty());
        }
    }
}

/// A tuple schema with an inline count of 1 to 15 self-delimiting elements
/// delimits itself.
pub proof fn lemma_tuple_self_delimiting(parts: Seq<Seq<u8>>)
    requires
        1 <= parts.len() <= 15,
        forall|i: int| 0 <= i < parts.len() ==> #[trigger] self_delimiting(parts[i]),
    ensures
        self_delimiting(seq![opcode(OP_TUPLE, parts.len() as u8)] + concat(parts)),
{
    let n = parts.len() as u8;
    let op = opcode(OP_TUPLE, n);
    assert(op & CAT_MASK == OP_TUPLE && op & SIZE_MASK == n) by (bit_vector)
        requires
            op == OP_TUPLE | (n & 0x0F),
            1 <= n <= 15,
    ;
    let h = seq![op];
    assert forall|t: Seq<u8>| #[trigger] schema_extent(h + concat(parts) + t) == Some(
        1 + concat(parts).len(),
    ) by {
        let s = h + concat(parts) + t;
        assert(s[0] == op);
        assert(s.subrange(1, s.len() as int) =~= concat(parts) + t);
        lemma_list_extent(parts, t);
    }
}

/// The schema of `Option<T>` delimits itself when `T`'s does: an enum of the
/// variants `None` (unit) and `Some` (`T`).
pub proof fn lemma_option_self_delimiting(inner: Seq<u8>)
    requires
        self_delimiting(inner),
    ensures
        self_delimiting(seq![opcode(OP_ENUM, 2), 1u8, 0u8, 0u8, 0u8, OP_UNIT, 5u8, 0u8] + inner),
{
    let op = opcode(OP_ENUM, 2);
    assert(op & CAT_MASK == OP_ENUM && op & SIZE_MASK == 2 && OP_UNIT & CAT_MASK == OP_UNIT) by (bit_vector)
        requires
            op == OP_ENUM | (2u8 & 0x0F),
    ;
    let head = seq![op, 1u8, 0u8, 0u8, 0u8, OP_UNIT, 5u8, 0u8];
    assert forall|t: Seq<u8>| #[trigger] schema_extent(head + inner + t) == Some(8 + inner.len()) by {
        let s = head + inner + t;
        assert(s[0] == op);
        let l = s.subrange(3, s.len() as int);
        assert(l.subrange(2, l.len() as int)[0] == OP_UNIT);
        assert(schema_extent(l.subrange(2, l.len() as int)) == Some(1nat));
        let l2 = l.subrange(3, l.len() as int);
        assert(l.subrange(2 + 1nat as int, l.len() as int) == l2);
        assert(l2.subrange(2, l2.len() as int) =~= inner + t);
        assert(schema_extent(inner + t) == Some(inner.len()));
        assert(extent_named_list(l2, 1) == Some(2 + inner.len()));
        assert(extent_named_list(l, 2) == Some(5 + inner.len()));
    }
}

/// The schema of `Result<T, E>` delimits itself when those of `T` and `E` do: an
/// enum of the variants `Ok` (`T`) and `Err` (`E`).
pub proof fn lemma_result_self_delimiting(ok: Seq<u8>, err: Seq<u8>)
    requires
        self_delimiting(ok),
        self_delimiting(err),
    ensures
        self_delimiting(seq![opcode(OP_ENUM, 2), 1u8, 0u8, 0u8, 0u8] + ok + seq![3u8, 0u8] + err),
{
    let op = opcode(OP_ENUM, 2);
    assert(op & CAT_MASK == OP_ENUM && op & SIZE_MASK == 2) by (bit_vector)
        requires
            op == OP_ENUM | (2u8 & 0x0F),
    ;
    let head = seq![op, 1u8, 0u8, 0u8, 0u8];
    let mid = seq![3u8, 0u8];
    assert forall|t: Seq<u8>| #[trigger] schema_extent(head + ok + mid + err + t) == Some(
        7 + ok.len() + err.len(),
    ) by {
        let s = head + ok + mid + err + t;
        assert(s[0] == op);
        let l = s.subrange(3, s.len() as int);
        assert(l.subrange(2, l.len() as int) =~= ok + (seq![3u8, 0u8] + err + t));
        assert(schema_extent(ok + (seq![3u8, 0u8] + err + t)) == Some(ok.len()));
        let l2 = l.subrange(2 + ok.len() as int, l.len() as int);
        assert(l2 =~= seq![3u8, 0u8] + err + t);
        assert(l2.subrange(2, l2.len() as int) =~= err + t);
        assert(schema_extent(err + t) == Some(err.len()));
        assert(extent_named_list(l2, 1) == Some(2 + err.len()));
        assert(extent_named_list(l, 2) == Some(4 + ok.len() + err.len()));
    }
}

/// The schema of every primitive argument type delimits itself, so measuring the
/// schema of such an argument gives its length.
pub proof fn lemma_primitive_schemas_delimit()
    ensures
        self_delimiting(<i8 as Encode>::spec_schema()),
        self_delimiting(<i16 as Encode>::spec_schema()),
        self_delimiting(<i32 as Encode>::spec_schema()),
        self_delimiting(<i64 as Encode>::spec_schema()),
        self_delimiting(<i128 as Encode>::spec_schema()),
        self_delimiting(<u8 as Encode>::spec_schema()),
        self_delimiting(<u16 as Encode>::spec_schema()),
        self_delimiting(<u32 as Encode>::spec_schema()),
        self_delimiting(<u64 as Encode>::spec_schema()),
        self_delimiting(<u128 as Encode>::spec_schema()),
        self_delimiting(<usize as Encode>::spec_schema()),
        self_delimiting(<bool as Encode>::spec_schema()),
        self_delimiting(<char as Encode>::spec_schema()),
        self_delimiting(<() as Encode>::spec_schema()),
        self_delimiting(<&str as Encode>::spec_schema()),
        self_delimiting(<String as Encode>::spec_schema()),
        self_delimiting(<Float32Bits as Encode>::spec_schema()),
        self_delimiting(<Float64Bits as Encode>::spec_schema()),
{
    assert forall|c: u8, k: u8|
        (c == OP_SIGNED_INT || c == OP_UNSIGNED_INT || c == OP_FLOAT || c == OP_STR) && k < 16
        implies #[trigger] opcode(c, k) & CAT_MASK == c by {
        assert((c == 0x10u8 || c == 0x20u8 || c == 0x30u8 || c == 0x40u8) && k < 16 ==> (c | (k & 0x0F))
            & 0xF0 == c) by (bit_vector);
    }
    assert(OP_BOOL & CAT_MASK == OP_BOOL && OP_CHAR & CAT_MASK == OP_CHAR && OP_UNIT & CAT_MASK == OP_UNIT)
        by (bit_vector);
    let sig = OP_SIGNED_INT;
    let uns = OP_UNSIGNED_INT;
    assert(opcode(sig, 1) & CAT_MASK == sig && opcode(sig, 2) & CAT_MASK == sig && opcode(sig, 3)
        & CAT_MASK == sig && opcode(sig, 4) & CAT_MASK == sig && opcode(sig, 5) & CAT_MASK == sig);
    assert(opcode(uns, 1) & CAT_MASK == uns && opcode(uns, 2) & CAT_MASK == uns && opcode(uns, 3)
        & CAT_MASK == uns && opcode(uns, 4) & CAT_MASK == uns && opcode(uns, 5) & CAT_MASK == uns);
    assert(opcode(OP_FLOAT, 3) & CAT_MASK == OP_FLOAT && opcode(OP_FLOAT, 4) & CAT_MASK == OP_FLOAT);
    assert(opcode(OP_STR, 2) & CAT_MASK == OP_STR);
    lemma_primitive_self_delimiting(<i8 as Encode>::spec_schema()[0]);
    lemma_primitive_self_delimiting(<i16 as Encode>::spec_schema()[0]);
    lemma_primitive_self_delimiting(<i32 as Encode>::spec_schema()[0]);
    lemma_primitive_self_delimiting(<i64 as Encode>::spec_schema()[0]);
    lemma_primitive_self_delimiting(<i128 as Encode>::spec_schema()[0]);
    lemma_primitive_self_delimiting(<u8 as Encode>::spec_schema()[0]);
    lemma_primitive_self_delimiting(<u16 as Encode>::spec_schema()[0]);
    lemma_primitive_self_delimiting(<u32 as Encode>::spec_schema()[0]);
    lemma_primitive_self_delimiting(<u64 as Encode>::spec_schema()[0]);
    lemma_primitive_self_delimiting(<u128 as Encode>::spec_schema()[0]);
    lemma_primitive_self_delimiting(<usize as Encode>::spec_schema()[0]);
    lemma_primitive_self_delimiting(<bool as Encode>::spec_schema()[0]);
    lemma_primitive_self_delimiting(<char as Encode>::spec_schema()[0]);
    lemma_primitive_self_delimiting(<() as Encode>::spec_schema()[0]);
    lemma_primitive_self_delimiting(<&str as Encode>::spec_schema()[0]);
    lemma_primitive_self_delimiting(<String as Encode>::spec_schema()[0]);
    lemma_primitive_self_delimiting(<Float32Bits as Encode>::spec_schema()[0]);
    lemma_primitive_self_delimiting(<Float64Bits as Encode>::spec_schema()[0]);
}

/// A pair's schema delimits itself when its elements' schemas do.
pub proof fn lemma_pair_schema_delimits<T0: Encode, T1: Encode>()
    requires
        self_delimiting(T0::spec_schema()),
        self_delimiting(T1::spec_schema()),
    ensures
        self_delimiting(<(T0, T1) as Encode>::spec_schema()),
{
    let parts = seq![T0::spec_schema(), T1::spec_schema()];
    reveal_with_fuel(concat, 3);
    assert(parts.drop_first() =~= seq![T1::spec_schema()]);
    assert(parts.drop_first().drop_first() =~= Seq::<Seq<u8>>::empty());
    assert(concat(parts.drop_first().drop_first()) =~= Seq::<u8>::empty());
    assert(concat(parts.drop_first()) =~= T1::spec_schema());
    assert(concat(parts) =~= T0::spec_schema() + T1::spec_schema());
    assert(forall|i: int| 0 <= i < parts.len() ==> #[trigger] self_delimiting(parts[i]));
    lemma_tuple_self_delimiting(parts);
    assert(seq![opcode(OP_TUPLE, 2)] + concat(parts) =~= <(T0, T1) as Encode>::spec_schema());
}

/// A triple's schema delimits itself when its elements' schemas do.
pub proof fn lemma_triple_schema_delimits<T0: Encode, T1: Encode, T2: Encode>()
    requires
        self_delimiting(T0::spec_schema()),
        self_delimiting(T1::spec_schema()),
        self_delimiting(T2::spec_schema()),
    ensures
        self_delimiting(<(T0, T1, T2) as Encode>::spec_schema()),
{
    let parts = seq![T0::spec_schema(), T1::spec_schema(), T2::spec_schema()];
    reveal_with_fuel(concat, 4);
    assert(parts.drop_first() =~= seq![T1::spec_schema(), T2::spec_schema()]);
    assert(parts.drop_first().drop_first() =~= seq![T2::spec_schema()]);
    assert(parts.drop_first().drop_first().drop_first() =~= Seq::<Seq<u8>>::empty());
    assert(concat(parts.drop_first().drop_first().drop_first()) =~= Seq::<u8>::empty());
    assert(concat(parts.drop_first().drop_first()) =~= T2::spec_schema());
    assert(concat(parts.drop_first()) =~= T1::spec_schema() + T2::spec_schema());
    assert(concat(parts) =~= T0::spec_schema() + T1::spec_schema() + T2::spec_schema());
    assert(forall|i: int| 0 <= i < parts.len() ==> #[trigger] self_delimiting(parts[i]));
    lemma_tuple_self_delimiting(parts);
    assert(seq![opcode(OP_TUPLE, 3)] + concat(parts) =~= <(T0, T1, T2) as Encode>::spec_schema());
}

/// The schemas of `Vec<T>`, `Option<T>` and `Result<T, E>` delimit themselves when
/// those of `T` and `E` do.
pub proof fn lemma_container_schemas_delimit<T: Encode, E: Encode>()
    requires
        self_delimiting(T::spec_schema()),
        self_delimiting(E::spec_schema()),
    ensures
        self_delimiting(<Vec<T> as Encode>::spec_schema()),
        self_delimiting(<Option<T> as Encode>::spec_schema()),
        self_delimiting(<Result<T, E> as Encode>::spec_schema()),
{
    lemma_seq_self_delimiting(2, T::spec_schema());
    lemma_option_self_delimiting(T::spec_schema());
    lemma_result_self_delimiting(T::spec_schema(), E::spec_schema());
}

} // verus!
