use vstd::prelude::*;

use super::bytes::{le_bytes, lemma_le_bytes_len, write_le};
use super::traits::{Encode, HasStringTable};
use super::{opcode, OP_ENUM, OP_SEQ, OP_TUPLE, OP_UNIT};

verus! {

/// Writes the encoding of `v` at `buf[pos..]`; returns the position after it.
pub fn encode_at<T: Encode>(v: &T, buf: &mut [u8], pos: usize) -> (end: usize)
    requires
        pos + v.spec_encoding().len() <= old(buf)@.len(),
    ensures
        end == pos + v.spec_encoding().len(),
        final(buf)@ == old(buf)@.subrange(0, pos as int) + v.spec_encoding()
            + old(buf)@.subrange(end as int, old(buf)@.len() as int),
{
    let len = buf.len();
    let (front, rest) = buf.split_at_mut(pos);
    let n = v.encode_to(rest);
    assert(final(buf)@ =~= old(buf)@.subrange(0, pos as int) + v.spec_encoding()
        + old(buf)@.subrange(pos + n, old(buf)@.len() as int));
    pos + n
}

/// The opcode byte of category `cat` with parameter `k`.
pub fn opcode_byte(cat: u8, k: u8) -> (r: u8)
    ensures
        r == opcode(cat, k),
{
    cat | (k & super::SIZE_MASK)
}

/// Appends the bytes of `s` to `v`.
pub fn append_bytes(v: &mut Vec<u8>, s: &[u8])
    ensures
        final(v)@ == old(v)@ + s@,
{
    let mut i: usize = 0;
    while i < s.len()
        invariant
            i <= s@.len(),
            v@ == old(v)@ + s@.subrange(0, i as int),
        decreases s.len() - i,
    {
        v.push(s[i]);
        assert(v@ =~= old(v)@ + s@.subrange(0, i + 1));
        i = i + 1;
    }
    assert(s@.subrange(0, i as int) =~= s@);
}

impl<T0: Encode> Encode for (T0,) {
    open spec fn spec_schema() -> Seq<u8> {
        seq![opcode(OP_TUPLE, 1)] + T0::spec_schema()
    }

    open spec fn spec_encoding(&self) -> Seq<u8> {
        self.0.spec_encoding()
    }

    open spec fn spec_encoded_size(&self) -> nat {
        self.0.spec_encoded_size()
    }

    open spec fn spec_string_table(&self) -> Seq<u8> {
        Seq::empty()
    }

    fn schema() -> (r: Vec<u8>) {
        let mut v: Vec<u8> = Vec::new();
        v.push(opcode_byte(OP_TUPLE, 1));
        append_bytes(&mut v, T0::schema().as_slice());
        assert(v@ =~= Self::spec_schema());
        v
    }

    #[verifier::spinoff_prover]
    #[verifier::rlimit(40)]
    fn encode_to(&self, buf: &mut [u8]) -> (n: usize) {
        let mut pos: usize = 0;
        pos = encode_at(&self.0, buf, pos);
        assert(buf@ =~= (self.0.spec_encoding()) + old(buf)@.subrange(pos as int, old(buf)@.len() as int));
        assert(buf@ =~= self.spec_encoding() + old(buf)@.subrange(pos as int, old(buf)@.len() as int));
        pos
    }

    fn encoded_size(&self) -> (n: usize) {
        let mut n: usize = 0;
        n = n + self.0.encoded_size();
        n
    }

    fn string_table(&self) -> (r: Vec<u8>) {
        Vec::new()
    }
}

impl<T0: Encode, T1: Encode> Encode for (T0, T1) {
    open spec fn spec_schema() -> Seq<u8> {
        seq![opcode(OP_TUPLE, 2)] + T0::spec_schema() + T1::spec_schema()
    }

    open spec fn spec_encoding(&self) -> Seq<u8> {
        self.0.spec_encoding() + self.1.spec_encoding()
    }

    open spec fn spec_encoded_size(&self) -> nat {
        self.0.spec_encoded_size() + self.1.spec_encoded_size()
    }

    open spec fn spec_string_table(&self) -> Seq<u8> {
        Seq::empty()
    }

    fn schema() -> (r: Vec<u8>) {
        let mut v: Vec<u8> = Vec::new();
        v.push(opcode_byte(OP_TUPLE, 2));
        append_bytes(&mut v, T0::schema().as_slice());
        append_bytes(&mut v, T1::schema().as_slice());
        assert(v@ =~= Self::spec_schema());
        v
    }

    #[verifier::spinoff_prover]
    #[verifier::rlimit(40)]
    fn encode_to(&self, buf: &mut [u8]) -> (n: usize) {
        let mut pos: usize = 0;
        pos = encode_at(&self.0, buf, pos);
        assert(buf@ =~= (self.0.spec_encoding()) + old(buf)@.subrange(pos as int, old(buf)@.len() as int));
        pos = encode_at(&self.1, buf, pos);
        assert(buf@ =~= (self.0.spec_encoding() + self.1.spec_encoding()) + old(buf)@.subrange(pos as int, old(buf)@.len() as int));
        assert(buf@ =~= self.spec_encoding() + old(buf)@.subrange(pos as int, old(buf)@.len() as int));
        pos
    }

    fn encoded_size(&self) -> (n: usize) {
        let mut n: usize = 0;
        n = n + self.0.encoded_size();
        n = n + self.1.encoded_size();
        n
    }

    fn string_table(&self) -> (r: Vec<u8>) {
        Vec::new()
    }
}

impl<T0: Encode, T1: Encode, T2: Encode> Encode for (T0, T1, T2) {
    open spec fn spec_schema() -> Seq<u8> {
        seq![opcode(OP_TUPLE, 3)] + T0::spec_schema() + T1::spec_schema() + T2::spec_schema()
    }

    open spec fn spec_encoding(&self) -> Seq<u8> {
        self.0.spec_encoding() + self.1.spec_encoding() + self.2.spec_encoding()
    }

    open spec fn spec_encoded_size(&self) -> nat {
        self.0.spec_encoded_size() + self.1.spec_encoded_size() + self.2.spec_encoded_size()
    }

    open spec fn spec_string_table(&self) -> Seq<u8> {
        Seq::empty()
    }

    fn schema() -> (r: Vec<u8>) {
        let mut v: Vec<u8> = Vec::new();
        v.push(opcode_byte(OP_TUPLE, 3));
        append_bytes(&mut v, T0::schema().as_slice());
        append_bytes(&mut v, T1::schema().as_slice());
        append_bytes(&mut v, T2::schema().as_slice());
        assert(v@ =~= Self::spec_schema());
        v
    }

    #[verifier::spinoff_prover]
    #[verifier::rlimit(40)]
    fn encode_to(&self, buf: &mut [u8]) -> (n: usize) {
        let mut pos: usize = 0;
        pos = encode_at(&self.0, buf, pos);
        assert(buf@ =~= (self.0.spec_encoding()) + old(buf)@.subrange(pos as int, old(buf)@.len() as int));
        pos = encode_at(&self.1, buf, pos);
        assert(buf@ =~= (self.0.spec_encoding() + self.1.spec_encoding()) + old(buf)@.subrange(pos as int, old(buf)@.len() as int));
        pos = encode_at(&self.2, buf, pos);
        assert(buf@ =~= (self.0.spec_encoding() + self.1.spec_encoding() + self.2.spec_encoding()) + old(buf)@.subrange(pos as int, old(buf)@.len() as int));
        assert(buf@ =~= self.spec_encoding() + old(buf)@.subrange(pos as int, old(buf)@.len() as int));
        pos
    }

    fn encoded_size(&self) -> (n: usize) {
        let mut n: usize = 0;
        n = n + self.0.encoded_size();
        n = n + self.1.encoded_size();
        n = n + self.2.encoded_size();
        n
    }

    fn string_table(&self) -> (r: Vec<u8>) {
        Vec::new()
    }
}

impl<T0: Encode, T1: Encode, T2: Encode, T3: Encode> Encode for (T0, T1, T2, T3) {
    open spec fn spec_schema() -> Seq<u8> {
        seq![opcode(OP_TUPLE, 4)] + T0::spec_schema() + T1::spec_schema() + T2::spec_schema() + T3::spec_schema()
    }

    open spec fn spec_encoding(&self) -> Seq<u8> {
        self.0.spec_encoding() + self.1.spec_encoding() + self.2.spec_encoding() + self.3.spec_encoding()
    }

    open spec fn spec_encoded_size(&self) -> nat {
        self.0.spec_encoded_size() + self.1.spec_encoded_size() + self.2.spec_encoded_size() + self.3.spec_encoded_size()
    }

    open spec fn spec_string_table(&self) -> Seq<u8> {
        Seq::empty()
    }

    fn schema() -> (r: Vec<u8>) {
        let mut v: Vec<u8> = Vec::new();
        v.push(opcode_byte(OP_TUPLE, 4));
        append_bytes(&mut v, T0::schema().as_slice());
        append_bytes(&mut v, T1::schema().as_slice());
        append_bytes(&mut v, T2::schema().as_slice());
        append_bytes(&mut v, T3::schema().as_slice());
        assert(v@ =~= Self::spec_schema());
        v
    }

    #[verifier::spinoff_prover]
    #[verifier::rlimit(40)]
    fn encode_to(&self, buf: &mut [u8]) -> (n: usize) {
        let mut pos: usize = 0;
        pos = encode_at(&self.0, buf, pos);
        assert(buf@ =~= (self.0.spec_encoding()) + old(buf)@.subrange(pos as int, old(buf)@.len() as int));
        pos = encode_at(&self.1, buf, pos);
        assert(buf@ =~= (self.0.spec_encoding() + self.1.spec_encoding()) + old(buf)@.subrange(pos as int, old(buf)@.len() as int));
        pos = encode_at(&self.2, buf, pos);
        assert(buf@ =~= (self.0.spec_encoding() + self.1.spec_encoding() + self.2.spec_encoding()) + old(buf)@.subrange(pos as int, old(buf)@.len() as int));
        pos = encode_at(&self.3, buf, pos);
        assert(buf@ =~= (self.0.spec_encoding() + self.1.spec_encoding() + self.2.spec_encoding() + self.3.spec_encoding()) + old(buf)@.subrange(pos as int, old(buf)@.len() as int));
        assert(buf@ =~= self.spec_encoding() + old(buf)@.subrange(pos as int, old(buf)@.len() as int));
        pos
    }

    fn encoded_size(&self) -> (n: usize) {
        let mut n: usize = 0;
        n = n + self.0.encoded_size();
        n = n + self.1.encoded_size();
        n = n + self.2.encoded_size();
        n = n + self.3.encoded_size();
        n
    }

    fn string_table(&self) -> (r: Vec<u8>) {
        Vec::new()
    }
}

impl<T0: Encode, T1: Encode, T2: Encode, T3: Encode, T4: Encode> Encode for (T0, T1, T2, T3, T4) {
    open spec fn spec_schema() -> Seq<u8> {
        seq![opcode(OP_TUPLE, 5)] + T0::spec_schema() + T1::spec_schema() + T2::spec_schema() + T3::spec_schema() + T4::spec_schema()
    }

    open spec fn spec_encoding(&self) -> Seq<u8> {
        self.0.spec_encoding() + self.1.spec_encoding() + self.2.spec_encoding() + self.3.spec_encoding() + self.4.spec_encoding()
    }

    open spec fn spec_encoded_size(&self) -> nat {
        self.0.spec_encoded_size() + self.1.spec_encoded_size() + self.2.spec_encoded_size() + self.3.spec_encoded_size() + self.4.spec_encoded_size()
    }

    open spec fn spec_string_table(&self) -> Seq<u8> {
        Seq::empty()
    }

    fn schema() -> (r: Vec<u8>) {
        let mut v: Vec<u8> = Vec::new();
        v.push(opcode_byte(OP_TUPLE, 5));
        append_bytes(&mut v, T0::schema().as_slice());
        append_bytes(&mut v, T1::schema().as_slice());
        append_bytes(&mut v, T2::schema().as_slice());
        append_bytes(&mut v, T3::schema().as_slice());
        append_bytes(&mut v, T4::schema().as_slice());
        assert(v@ =~= Self::spec_schema());
        v
    }

    #[verifier::spinoff_prover]
    #[verifier::rlimit(40)]
    fn encode_to(&self, buf: &mut [u8]) -> (n: usize) {
        let mut pos: usize = 0;
        pos = encode_at(&self.0, buf, pos);
        assert(buf@ =~= (self.0.spec_encoding()) + old(buf)@.subrange(pos as int, old(buf)@.len() as int));
        pos = encode_at(&self.1, buf, pos);
        assert(buf@ =~= (self.0.spec_encoding() + self.1.spec_encoding()) + old(buf)@.subrange(pos as int, old(buf)@.len() as int));
        pos = encode_at(&self.2, buf, pos);
        assert(buf@ =~= (self.0.spec_encoding() + self.1.spec_encoding() + self.2.spec_encoding()) + old(buf)@.subrange(pos as int, old(buf)@.len() as int));
        pos = encode_at(&self.3, buf, pos);
        assert(buf@ =~= (self.0.spec_encoding() + self.1.spec_encoding() + self.2.spec_encoding() + self.3.spec_encoding()) + old(buf)@.subrange(pos as int, old(buf)@.len() as int));
        pos = encode_at(&self.4, buf, pos);
        assert(buf@ =~= (self.0.spec_encoding() + self.1.spec_encoding() + self.2.spec_encoding() + self.3.spec_encoding() + self.4.spec_encoding()) + old(buf)@.subrange(pos as int, old(buf)@.len() as int));
        assert(buf@ =~= self.spec_encoding() + old(buf)@.subrange(pos as int, old(buf)@.len() as int));
        pos
    }

    fn encoded_size(&self) -> (n: usize) {
        let mut n: usize = 0;
        n = n + self.0.encoded_size();
        n = n + self.1.encoded_size();
        n = n + self.2.encoded_size();
        n = n + self.3.encoded_size();
        n = n + self.4.encoded_size();
        n
    }

    fn string_table(&self) -> (r: Vec<u8>) {
        Vec::new()
    }
}

impl<T0: Encode, T1: Encode, T2: Encode, T3: Encode, T4: Encode, T5: Encode> Encode for (T0, T1, T2, T3, T4, T5) {
    open spec fn spec_schema() -> Seq<u8> {
        seq![opcode(OP_TUPLE, 6)] + T0::spec_schema() + T1::spec_schema() + T2::spec_schema() + T3::spec_schema() + T4::spec_schema() + T5::spec_schema()
    }

    open spec fn spec_encoding(&self) -> Seq<u8> {
        self.0.spec_encoding() + self.1.spec_encoding() + self.2.spec_encoding() + self.3.spec_encoding() + self.4.spec_encoding() + self.5.spec_encoding()
    }

    open spec fn spec_encoded_size(&self) -> nat {
        self.0.spec_encoded_size() + self.1.spec_encoded_size() + self.2.spec_encoded_size() + self.3.spec_encoded_size() + self.4.spec_encoded_size() + self.5.spec_encoded_size()
    }

    open spec fn spec_string_table(&self) -> Seq<u8> {
        Seq::empty()
    }

    fn schema() -> (r: Vec<u8>) {
        let mut v: Vec<u8> = Vec::new();
        v.push(opcode_byte(OP_TUPLE, 6));
        append_bytes(&mut v, T0::schema().as_slice());
        append_bytes(&mut v, T1::schema().as_slice());
        append_bytes(&mut v, T2::schema().as_slice());
        append_bytes(&mut v, T3::schema().as_slice());
        append_bytes(&mut v, T4::schema().as_slice());
        append_bytes(&mut v, T5::schema().as_slice());
        assert(v@ =~= Self::spec_schema());
        v
    }

    #[verifier::spinoff_prover]
    #[verifier::rlimit(40)]
    fn encode_to(&self, buf: &mut [u8]) -> (n: usize) {
        let mut pos: usize = 0;
        pos = encode_at(&self.0, buf, pos);
        assert(buf@ =~= (self.0.spec_encoding()) + old(buf)@.subrange(pos as int, old(buf)@.len() as int));
        pos = encode_at(&self.1, buf, pos);
        assert(buf@ =~= (self.0.spec_encoding() + self.1.spec_encoding()) + old(buf)@.subrange(pos as int, old(buf)@.len() as int));
        pos = encode_at(&self.2, buf, pos);
        assert(buf@ =~= (self.0.spec_encoding() + self.1.spec_encoding() + self.2.spec_encoding()) + old(buf)@.subrange(pos as int, old(buf)@.len() as int));
        pos = encode_at(&self.3, buf, pos);
        assert(buf@ =~= (self.0.spec_encoding() + self.1.spec_encoding() + self.2.spec_encoding() + self.3.spec_encoding()) + old(buf)@.subrange(pos as int, old(buf)@.len() as int));
        pos = encode_at(&self.4, buf, pos);
        assert(buf@ =~= (self.0.spec_encoding() + self.1.spec_encoding() + self.2.spec_encoding() + self.3.spec_encoding() + self.4.spec_encoding()) + old(buf)@.subrange(pos as int, old(buf)@.len() as int));
        pos = encode_at(&self.5, buf, pos);
        assert(buf@ =~= (self.0.spec_encoding() + self.1.spec_encoding() + self.2.spec_encoding() + self.3.spec_encoding() + self.4.spec_encoding() + self.5.spec_encoding()) + old(buf)@.subrange(pos as int, old(buf)@.len() as int));
        assert(buf@ =~= self.spec_encoding() + old(buf)@.subrange(pos as int, old(buf)@.len() as int));
        pos
    }

    fn encoded_size(&self) -> (n: usize) {
        let mut n: usize = 0;
        n = n + self.0.encoded_size();
        n = n + self.1.encoded_size();
        n = n + self.2.encoded_size();
        n = n + self.3.encoded_size();
        n = n + self.4.encoded_size();
        n = n + self.5.encoded_size();
        n
    }

    fn string_table(&self) -> (r: Vec<u8>) {
        Vec::new()
    }
}

impl<T0: Encode, T1: Encode, T2: Encode, T3: Encode, T4: Encode, T5: Encode, T6: Encode> Encode for (T0, T1, T2, T3, T4, T5, T6) {
    open spec fn spec_schema() -> Seq<u8> {
        seq![opcode(OP_TUPLE, 7)] + T0::spec_schema() + T1::spec_schema() + T2::spec_schema() + T3::spec_schema() + T4::spec_schema() + T5::spec_schema() + T6::spec_schema()
    }

    open spec fn spec_encoding(&self) -> Seq<u8> {
        self.0.spec_encoding() + self.1.spec_encoding() + self.2.spec_encoding() + self.3.spec_encoding() + self.4.spec_encoding() + self.5.spec_encoding() + self.6.spec_encoding()
    }

    open spec fn spec_encoded_size(&self) -> nat {
        self.0.spec_encoded_size() + self.1.spec_encoded_size() + self.2.spec_encoded_size() + self.3.spec_encoded_size() + self.4.spec_encoded_size() + self.5.spec_encoded_size() + self.6.spec_encoded_size()
    }

    open spec fn spec_string_table(&self) -> Seq<u8> {
        Seq::empty()
    }

    fn schema() -> (r: Vec<u8>) {
        let mut v: Vec<u8> = Vec::new();
        v.push(opcode_byte(OP_TUPLE, 7));
        append_bytes(&mut v, T0::schema().as_slice());
        append_bytes(&mut v, T1::schema().as_slice());
        append_bytes(&mut v, T2::schema().as_slice());
        append_bytes(&mut v, T3::schema().as_slice());
        append_bytes(&mut v, T4::schema().as_slice());
        append_bytes(&mut v, T5::schema().as_slice());
        append_bytes(&mut v, T6::schema().as_slice());
        assert(v@ =~= Self::spec_schema());
        v
    }

    #[verifier::spinoff_prover]
    #[verifier::rlimit(40)]
    fn encode_to(&self, buf: &mut [u8]) -> (n: usize) {
        let mut pos: usize = 0;
        pos = encode_at(&self.0, buf, pos);
        assert(buf@ =~= (self.0.spec_encoding()) + old(buf)@.subrange(pos as int, old(buf)@.len() as int));
        pos = encode_at(&self.1, buf, pos);
        assert(buf@ =~= (self.0.spec_encoding() + self.1.spec_encoding()) + old(buf)@.subrange(pos as int, old(buf)@.len() as int));
        pos = encode_at(&self.2, buf, pos);
        assert(buf@ =~= (self.0.spec_encoding() + self.1.spec_encoding() + self.2.spec_encoding()) + old(buf)@.subrange(pos as int, old(buf)@.len() as int));
        pos = encode_at(&self.3, buf, pos);
        assert(buf@ =~= (self.0.spec_encoding() + self.1.spec_encoding() + self.2.spec_encoding() + self.3.spec_encoding()) + old(buf)@.subrange(pos as int, old(buf)@.len() as int));
        pos = encode_at(&self.4, buf, pos);
        assert(buf@ =~= (self.0.spec_encoding() + self.1.spec_encoding() + self.2.spec_encoding() + self.3.spec_encoding() + self.4.spec_encoding()) + old(buf)@.subrange(pos as int, old(buf)@.len() as int));
        pos = encode_at(&self.5, buf, pos);
        assert(buf@ =~= (self.0.spec_encoding() + self.1.spec_encoding() + self.2.spec_encoding() + self.3.spec_encoding() + self.4.spec_encoding() + self.5.spec_encoding()) + old(buf)@.subrange(pos as int, old(buf)@.len() as int));
        pos = encode_at(&self.6, buf, pos);
        assert(buf@ =~= (self.0.spec_encoding() + self.1.spec_encoding() + self.2.spec_encoding() + self.3.spec_encoding() + self.4.spec_encoding() + self.5.spec_encoding() + self.6.spec_encoding()) + old(buf)@.subrange(pos as int, old(buf)@.len() as int));
        assert(buf@ =~= self.spec_encoding() + old(buf)@.subrange(pos as int, old(buf)@.len() as int));
        pos
    }

    fn encoded_size(&self) -> (n: usize) {
        let mut n: usize = 0;
        n = n + self.0.encoded_size();
        n = n + self.1.encoded_size();
        n = n + self.2.encoded_size();
        n = n + self.3.encoded_size();
        n = n + self.4.encoded_size();
        n = n + self.5.encoded_size();
        n = n + self.6.encoded_size();
        n
    }

    fn string_table(&self) -> (r: Vec<u8>) {
        Vec::new()
    }
}

impl<T0: Encode, T1: Encode, T2: Encode, T3: Encode, T4: Encode, T5: Encode, T6: Encode, T7: Encode> Encode for (T0, T1, T2, T3, T4, T5, T6, T7) {
    open spec fn spec_schema() -> Seq<u8> {
        seq![opcode(OP_TUPLE, 8)] + T0::spec_schema() + T1::spec_schema() + T2::spec_schema() + T3::spec_schema() + T4::spec_schema() + T5::spec_schema() + T6::spec_schema() + T7::spec_schema()
    }

    open spec fn spec_encoding(&self) -> Seq<u8> {
        self.0.spec_encoding() + self.1.spec_encoding() + self.2.spec_encoding() + self.3.spec_encoding() + self.4.spec_encoding() + self.5.spec_encoding() + self.6.spec_encoding() + self.7.spec_encoding()
    }

    open spec fn spec_encoded_size(&self) -> nat {
        self.0.spec_encoded_size() + self.1.spec_encoded_size() + self.2.spec_encoded_size() + self.3.spec_encoded_size() + self.4.spec_encoded_size() + self.5.spec_encoded_size() + self.6.spec_encoded_size() + self.7.spec_encoded_size()
    }

    open spec fn spec_string_table(&self) -> Seq<u8> {
        Seq::empty()
    }

    fn schema() -> (r: Vec<u8>) {
        let mut v: Vec<u8> = Vec::new();
        v.push(opcode_byte(OP_TUPLE, 8));
        append_bytes(&mut v, T0::schema().as_slice());
        append_bytes(&mut v, T1::schema().as_slice());
        append_bytes(&mut v, T2::schema().as_slice());
        append_bytes(&mut v, T3::schema().as_slice());
        append_bytes(&mut v, T4::schema().as_slice());
        append_bytes(&mut v, T5::schema().as_slice());
        append_bytes(&mut v, T6::schema().as_slice());
        append_bytes(&mut v, T7::schema().as_slice());
        assert(v@ =~= Self::spec_schema());
        v
    }

    #[verifier::spinoff_prover]
    #[verifier::rlimit(40)]
    fn encode_to(&self, buf: &mut [u8]) -> (n: usize) {
        let mut pos: usize = 0;
        pos = encode_at(&self.0, buf, pos);
        assert(buf@ =~= (self.0.spec_encoding()) + old(buf)@.subrange(pos as int, old(buf)@.len() as int));
        pos = encode_at(&self.1, buf, pos);
        assert(buf@ =~= (self.0.spec_encoding() + self.1.spec_encoding()) + old(buf)@.subrange(pos as int, old(buf)@.len() as int));
        pos = encode_at(&self.2, buf, pos);
        assert(buf@ =~= (self.0.spec_encoding() + self.1.spec_encoding() + self.2.spec_encoding()) + old(buf)@.subrange(pos as int, old(buf)@.len() as int));
        pos = encode_at(&self.3, buf, pos);
        assert(buf@ =~= (self.0.spec_encoding() + self.1.spec_encoding() + self.2.spec_encoding() + self.3.spec_encoding()) + old(buf)@.subrange(pos as int, old(buf)@.len() as int));
        pos = encode_at(&self.4, buf, pos);
        assert(buf@ =~= (self.0.spec_encoding() + self.1.spec_encoding() + self.2.spec_encoding() + self.3.spec_encoding() + self.4.spec_encoding()) + old(buf)@.subrange(pos as int, old(buf)@.len() as int));
        pos = encode_at(&self.5, buf, pos);
        assert(buf@ =~= (self.0.spec_encoding() + self.1.spec_encoding() + self.2.spec_encoding() + self.3.spec_encoding() + self.4.spec_encoding() + self.5.spec_encoding()) + old(buf)@.subrange(pos as int, old(buf)@.len() as int));
        pos = encode_at(&self.6, buf, pos);
        assert(buf@ =~= (self.0.spec_encoding() + self.1.spec_encoding() + self.2.spec_encoding() + self.3.spec_encoding() + self.4.spec_encoding() + self.5.spec_encoding() + self.6.spec_encoding()) + old(buf)@.subrange(pos as int, old(buf)@.len() as int));
        pos = encode_at(&self.7, buf, pos);
        assert(buf@ =~= (self.0.spec_encoding() + self.1.spec_encoding() + self.2.spec_encoding() + self.3.spec_encoding() + self.4.spec_encoding() + self.5.spec_encoding() + self.6.spec_encoding() + self.7.spec_encoding()) + old(buf)@.subrange(pos as int, old(buf)@.len() as int));
        assert(buf@ =~= self.spec_encoding() + old(buf)@.subrange(pos as int, old(buf)@.len() as int));
        pos
    }

    fn encoded_size(&self) -> (n: usize) {
        let mut n: usize = 0;
        n = n + self.0.encoded_size();
        n = n + self.1.encoded_size();
        n = n + self.2.encoded_size();
        n = n + self.3.encoded_size();
        n = n + self.4.encoded_size();
        n = n + self.5.encoded_size();
        n = n + self.6.encoded_size();
        n = n + self.7.encoded_size();
        n
    }

    fn string_table(&self) -> (r: Vec<u8>) {
        Vec::new()
    }
}

impl<T0: Encode, T1: Encode, T2: Encode, T3: Encode, T4: Encode, T5: Encode, T6: Encode, T7: Encode, T8: Encode> Encode for (T0, T1, T2, T3, T4, T5, T6, T7, T8) {
    open spec fn spec_schema() -> Seq<u8> {
        seq![opcode(OP_TUPLE, 9)] + T0::spec_schema() + T1::spec_schema() + T2::spec_schema() + T3::spec_schema() + T4::spec_schema() + T5::spec_schema() + T6::spec_schema() + T7::spec_schema() + T8::spec_schema()
    }

    open spec fn spec_encoding(&self) -> Seq<u8> {
        self.0.spec_encoding() + self.1.spec_encoding() + self.2.spec_encoding() + self.3.spec_encoding() + self.4.spec_encoding() + self.5.spec_encoding() + self.6.spec_encoding() + self.7.spec_encoding() + self.8.spec_encoding()
    }

    open spec fn spec_encoded_size(&self) -> nat {
        self.0.spec_encoded_size() + self.1.spec_encoded_size() + self.2.spec_encoded_size() + self.3.spec_encoded_size() + self.4.spec_encoded_size() + self.5.spec_encoded_size() + self.6.spec_encoded_size() + self.7.spec_encoded_size() + self.8.spec_encoded_size()
    }

    open spec fn spec_string_table(&self) -> Seq<u8> {
        Seq::empty()
    }

    fn schema() -> (r: Vec<u8>) {
        let mut v: Vec<u8> = Vec::new();
        v.push(opcode_byte(OP_TUPLE, 9));
        append_bytes(&mut v, T0::schema().as_slice());
        append_bytes(&mut v, T1::schema().as_slice());
        append_bytes(&mut v, T2::schema().as_slice());
        append_bytes(&mut v, T3::schema().as_slice());
        append_bytes(&mut v, T4::schema().as_slice());
        append_bytes(&mut v, T5::schema().as_slice());
        append_bytes(&mut v, T6::schema().as_slice());
        append_bytes(&mut v, T7::schema().as_slice());
        append_bytes(&mut v, T8::schema().as_slice());
        assert(v@ =~= Self::spec_schema());
        v
    }

    #[verifier::spinoff_prover]
    #[verifier::rlimit(40)]
    fn encode_to(&self, buf: &mut [u8]) -> (n: usize) {
        let mut pos: usize = 0;
        pos = encode_at(&self.0, buf, pos);
        assert(buf@ =~= (self.0.spec_encoding()) + old(buf)@.subrange(pos as int, old(buf)@.len() as int));
        pos = encode_at(&self.1, buf, pos);
        assert(buf@ =~= (self.0.spec_encoding() + self.1.spec_encoding()) + old(buf)@.subrange(pos as int, old(buf)@.len() as int));
        pos = encode_at(&self.2, buf, pos);
        assert(buf@ =~= (self.0.spec_encoding() + self.1.spec_encoding() + self.2.spec_encoding()) + old(buf)@.subrange(pos as int, old(buf)@.len() as int));
        pos = encode_at(&self.3, buf, pos);
        assert(buf@ =~= (self.0.spec_encoding() + self.1.spec_encoding() + self.2.spec_encoding() + self.3.spec_encoding()) + old(buf)@.subrange(pos as int, old(buf)@.len() as int));
        pos = encode_at(&self.4, buf, pos);
        assert(buf@ =~= (self.0.spec_encoding() + self.1.spec_encoding() + self.2.spec_encoding() + self.3.spec_encoding() + self.4.spec_encoding()) + old(buf)@.subrange(pos as int, old(buf)@.len() as int));
        pos = encode_at(&self.5, buf, pos);
        assert(buf@ =~= (self.0.spec_encoding() + self.1.spec_encoding() + self.2.spec_encoding() + self.3.spec_encoding() + self.4.spec_encoding() + self.5.spec_encoding()) + old(buf)@.subrange(pos as int, old(buf)@.len() as int));
        pos = encode_at(&self.6, buf, pos);
        assert(buf@ =~= (self.0.spec_encoding() + self.1.spec_encoding() + self.2.spec_encoding() + self.3.spec_encoding() + self.4.spec_encoding() + self.5.spec_encoding() + self.6.spec_encoding()) + old(buf)@.subrange(pos as int, old(buf)@.len() as int));
        pos = encode_at(&self.7, buf, pos);
        assert(buf@ =~= (self.0.spec_encoding() + self.1.spec_encoding() + self.2.spec_encoding() + self.3.spec_encoding() + self.4.spec_encoding() + self.5.spec_encoding() + self.6.spec_encoding() + self.7.spec_encoding()) + old(buf)@.subrange(pos as int, old(buf)@.len() as int));
        pos = encode_at(&self.8, buf, pos);
        assert(buf@ =~= (self.0.spec_encoding() + self.1.spec_encoding() + self.2.spec_encoding() + self.3.spec_encoding() + self.4.spec_encoding() + self.5.spec_encoding() + self.6.spec_encoding() + self.7.spec_encoding() + self.8.spec_encoding()) + old(buf)@.subrange(pos as int, old(buf)@.len() as int));
        assert(buf@ =~= self.spec_encoding() + old(buf)@.subrange(pos as int, old(buf)@.len() as int));
        pos
    }

    fn encoded_size(&self) -> (n: usize) {
        let mut n: usize = 0;
        n = n + self.0.encoded_size();
        n = n + self.1.encoded_size();
        n = n + self.2.encoded_size();
        n = n + self.3.encoded_size();
        n = n + self.4.encoded_size();
        n = n + self.5.encoded_size();
        n = n + self.6.encoded_size();
        n = n + self.7.encoded_size();
        n = n + self.8.encoded_size();
        n
    }

    fn string_table(&self) -> (r: Vec<u8>) {
        Vec::new()
    }
}

impl<T0: Encode, T1: Encode, T2: Encode, T3: Encode, T4: Encode, T5: Encode, T6: Encode, T7: Encode, T8: Encode, T9: Encode> Encode for (T0, T1, T2, T3, T4, T5, T6, T7, T8, T9) {
    open spec fn spec_schema() -> Seq<u8> {
        seq![opcode(OP_TUPLE, 10)] + T0::spec_schema() + T1::spec_schema() + T2::spec_schema() + T3::spec_schema() + T4::spec_schema() + T5::spec_schema() + T6::spec_schema() + T7::spec_schema() + T8::spec_schema() + T9::spec_schema()
    }

    open spec fn spec_encoding(&self) -> Seq<u8> {
        self.0.spec_encoding() + self.1.spec_encoding() + self.2.spec_encoding() + self.3.spec_encoding() + self.4.spec_encoding() + self.5.spec_encoding() + self.6.spec_encoding() + self.7.spec_encoding() + self.8.spec_encoding() + self.9.spec_encoding()
    }

    open spec fn spec_encoded_size(&self) -> nat {
        self.0.spec_encoded_size() + self.1.spec_encoded_size() + self.2.spec_encoded_size() + self.3.spec_encoded_size() + self.4.spec_encoded_size() + self.5.spec_encoded_size() + self.6.spec_encoded_size() + self.7.spec_encoded_size() + self.8.spec_encoded_size() + self.9.spec_encoded_size()
    }

    open spec fn spec_string_table(&self) -> Seq<u8> {
        Seq::empty()
    }

    fn schema() -> (r: Vec<u8>) {
        let mut v: Vec<u8> = Vec::new();
        v.push(opcode_byte(OP_TUPLE, 10));
        append_bytes(&mut v, T0::schema().as_slice());
        append_bytes(&mut v, T1::schema().as_slice());
        append_bytes(&mut v, T2::schema().as_slice());
        append_bytes(&mut v, T3::schema().as_slice());
        append_bytes(&mut v, T4::schema().as_slice());
        append_bytes(&mut v, T5::schema().as_slice());
        append_bytes(&mut v, T6::schema().as_slice());
        append_bytes(&mut v, T7::schema().as_slice());
        append_bytes(&mut v, T8::schema().as_slice());
        append_bytes(&mut v, T9::schema().as_slice());
        assert(v@ =~= Self::spec_schema());
        v
    }

    #[verifier::spinoff_prover]
    #[verifier::rlimit(40)]
    fn encode_to(&self, buf: &mut [u8]) -> (n: usize) {
        let mut pos: usize = 0;
        pos = encode_at(&self.0, buf, pos);
        assert(buf@ =~= (self.0.spec_encoding()) + old(buf)@.subrange(pos as int, old(buf)@.len() as int));
        pos = encode_at(&self.1, buf, pos);
        assert(buf@ =~= (self.0.spec_encoding() + self.1.spec_encoding()) + old(buf)@.subrange(pos as int, old(buf)@.len() as int));
        pos = encode_at(&self.2, buf, pos);
        assert(buf@ =~= (self.0.spec_encoding() + self.1.spec_encoding() + self.2.spec_encoding()) + old(buf)@.subrange(pos as int, old(buf)@.len() as int));
        pos = encode_at(&self.3, buf, pos);
        assert(buf@ =~= (self.0.spec_encoding() + self.1.spec_encoding() + self.2.spec_encoding() + self.3.spec_encoding()) + old(buf)@.subrange(pos as int, old(buf)@.len() as int));
        pos = encode_at(&self.4, buf, pos);
        assert(buf@ =~= (self.0.spec_encoding() + self.1.spec_encoding() + self.2.spec_encoding() + self.3.spec_encoding() + self.4.spec_encoding()) + old(buf)@.subrange(pos as int, old(buf)@.len() as int));
        pos = encode_at(&self.5, buf, pos);
        assert(buf@ =~= (self.0.spec_encoding() + self.1.spec_encoding() + self.2.spec_encoding() + self.3.spec_encoding() + self.4.spec_encoding() + self.5.spec_encoding()) + old(buf)@.subrange(pos as int, old(buf)@.len() as int));
        pos = encode_at(&self.6, buf, pos);
        assert(buf@ =~= (self.0.spec_encoding() + self.1.spec_encoding() + self.2.spec_encoding() + self.3.spec_encoding() + self.4.spec_encoding() + self.5.spec_encoding() + self.6.spec_encoding()) + old(buf)@.subrange(pos as int, old(buf)@.len() as int));
        pos = encode_at(&self.7, buf, pos);
        assert(buf@ =~= (self.0.spec_encoding() + self.1.spec_encoding() + self.2.spec_encoding() + self.3.spec_encoding() + self.4.spec_encoding() + self.5.spec_encoding() + self.6.spec_encoding() + self.7.spec_encoding()) + old(buf)@.subrange(pos as int, old(buf)@.len() as int));
        pos = encode_at(&self.8, buf, pos);
        assert(buf@ =~= (self.0.spec_encoding() + self.1.spec_encoding() + self.2.spec_encoding() + self.3.spec_encoding() + self.4.spec_encoding() + self.5.spec_encoding() + self.6.spec_encoding() + self.7.spec_encoding() + self.8.spec_encoding()) + old(buf)@.subrange(pos as int, old(buf)@.len() as int));
        pos = encode_at(&self.9, buf, pos);
        assert(buf@ =~= (self.0.spec_encoding() + self.1.spec_encoding() + self.2.spec_encoding() + self.3.spec_encoding() + self.4.spec_encoding() + self.5.spec_encoding() + self.6.spec_encoding() + self.7.spec_encoding() + self.8.spec_encoding() + self.9.spec_encoding()) + old(buf)@.subrange(pos as int, old(buf)@.len() as int));
        assert(buf@ =~= self.spec_encoding() + old(buf)@.subrange(pos as int, old(buf)@.len() as int));
        pos
    }

    fn encoded_size(&self) -> (n: usize) {
        let mut n: usize = 0;
        n = n + self.0.encoded_size();
        n = n + self.1.encoded_size();
        n = n + self.2.encoded_size();
        n = n + self.3.encoded_size();
        n = n + self.4.encoded_size();
        n = n + self.5.encoded_size();
        n = n + self.6.encoded_size();
        n = n + self.7.encoded_size();
        n = n + self.8.encoded_size();
        n = n + self.9.encoded_size();
        n
    }

    fn string_table(&self) -> (r: Vec<u8>) {
        Vec::new()
    }
}

impl<T0: Encode, T1: Encode, T2: Encode, T3: Encode, T4: Encode, T5: Encode, T6: Encode, T7: Encode, T8: Encode, T9: Encode, T10: Encode> Encode for (T0, T1, T2, T3, T4, T5, T6, T7, T8, T9, T10) {
    open spec fn spec_schema() -> Seq<u8> {
        seq![opcode(OP_TUPLE, 11)] + T0::spec_schema() + T1::spec_schema() + T2::spec_schema() + T3::spec_schema() + T4::spec_schema() + T5::spec_schema() + T6::spec_schema() + T7::spec_schema() + T8::spec_schema() + T9::spec_schema() + T10::spec_schema()
    }

    open spec fn spec_encoding(&self) -> Seq<u8> {
        self.0.spec_encoding() + self.1.spec_encoding() + self.2.spec_encoding() + self.3.spec_encoding() + self.4.spec_encoding() + self.5.spec_encoding() + self.6.spec_encoding() + self.7.spec_encoding() + self.8.spec_encoding() + self.9.spec_encoding() + self.10.spec_encoding()
    }

    open spec fn spec_encoded_size(&self) -> nat {
        self.0.spec_encoded_size() + self.1.spec_encoded_size() + self.2.spec_encoded_size() + self.3.spec_encoded_size() + self.4.spec_encoded_size() + self.5.spec_encoded_size() + self.6.spec_encoded_size() + self.7.spec_encoded_size() + self.8.spec_encoded_size() + self.9.spec_encoded_size() + self.10.spec_encoded_size()
    }

    open spec fn spec_string_table(&self) -> Seq<u8> {
        Seq::empty()
    }

    fn schema() -> (r: Vec<u8>) {
        let mut v: Vec<u8> = Vec::new();
        v.push(opcode_byte(OP_TUPLE, 11));
        append_bytes(&mut v, T0::schema().as_slice());
        append_bytes(&mut v, T1::schema().as_slice());
        append_bytes(&mut v, T2::schema().as_slice());
        append_bytes(&mut v, T3::schema().as_slice());
        append_bytes(&mut v, T4::schema().as_slice());
        append_bytes(&mut v, T5::schema().as_slice());
        append_bytes(&mut v, T6::schema().as_slice());
        append_bytes(&mut v, T7::schema().as_slice());
        append_bytes(&mut v, T8::schema().as_slice());
        append_bytes(&mut v, T9::schema().as_slice());
        append_bytes(&mut v, T10::schema().as_slice());
        assert(v@ =~= Self::spec_schema());
        v
    }

    #[verifier::spinoff_prover]
    #[verifier::rlimit(40)]
    fn encode_to(&self, buf: &mut [u8]) -> (n: usize) {
        let mut pos: usize = 0;
        pos = encode_at(&self.0, buf, pos);
        assert(buf@ =~= (self.0.spec_encoding()) + old(buf)@.subrange(pos as int, old(buf)@.len() as int));
        pos = encode_at(&self.1, buf, pos);
        assert(buf@ =~= (self.0.spec_encoding() + self.1.spec_encoding()) + old(buf)@.subrange(pos as int, old(buf)@.len() as int));
        pos = encode_at(&self.2, buf, pos);
        assert(buf@ =~= (self.0.spec_encoding() + self.1.spec_encoding() + self.2.spec_encoding()) + old(buf)@.subrange(pos as int, old(buf)@.len() as int));
        pos = encode_at(&self.3, buf, pos);
        assert(buf@ =~= (self.0.spec_encoding() + self.1.spec_encoding() + self.2.spec_encoding() + self.3.spec_encoding()) + old(buf)@.subrange(pos as int, old(buf)@.len() as int));
        pos = encode_at(&self.4, buf, pos);
        assert(buf@ =~= (self.0.spec_encoding() + self.1.spec_encoding() + self.2.spec_encoding() + self.3.spec_encoding() + self.4.spec_encoding()) + old(buf)@.subrange(pos as int, old(buf)@.len() as int));
        pos = encode_at(&self.5, buf, pos);
        assert(buf@ =~= (self.0.spec_encoding() + self.1.spec_encoding() + self.2.spec_encoding() + self.3.spec_encoding() + self.4.spec_encoding() + self.5.spec_encoding()) + old(buf)@.subrange(pos as int, old(buf)@.len() as int));
        pos = encode_at(&self.6, buf, pos);
        assert(buf@ =~= (self.0.spec_encoding() + self.1.spec_encoding() + self.2.spec_encoding() + self.3.spec_encoding() + self.4.spec_encoding() + self.5.spec_encoding() + self.6.spec_encoding()) + old(buf)@.subrange(pos as int, old(buf)@.len() as int));
        pos = encode_at(&self.7, buf, pos);
        assert(buf@ =~= (self.0.spec_encoding() + self.1.spec_encoding() + self.2.spec_encoding() + self.3.spec_encoding() + self.4.spec_encoding() + self.5.spec_encoding() + self.6.spec_encoding() + self.7.spec_encoding()) + old(buf)@.subrange(pos as int, old(buf)@.len() as int));
        pos = encode_at(&self.8, buf, pos);
        assert(buf@ =~= (self.0.spec_encoding() + self.1.spec_encoding() + self.2.spec_encoding() + self.3.spec_encoding() + self.4.spec_encoding() + self.5.spec_encoding() + self.6.spec_encoding() + self.7.spec_encoding() + self.8.spec_encoding()) + old(buf)@.subrange(pos as int, old(buf)@.len() as int));
        pos = encode_at(&self.9, buf, pos);
        assert(buf@ =~= (self.0.spec_encoding() + self.1.spec_encoding() + self.2.spec_encoding() + self.3.spec_encoding() + self.4.spec_encoding() + self.5.spec_encoding() + self.6.spec_encoding() + self.7.spec_encoding() + self.8.spec_encoding() + self.9.spec_encoding()) + old(buf)@.subrange(pos as int, old(buf)@.len() as int));
        pos = encode_at(&self.10, buf, pos);
        assert(buf@ =~= (self.0.spec_encoding() + self.1.spec_encoding() + self.2.spec_encoding() + self.3.spec_encoding() + self.4.spec_encoding() + self.5.spec_encoding() + self.6.spec_encoding() + self.7.spec_encoding() + self.8.spec_encoding() + self.9.spec_encoding() + self.10.spec_encoding()) + old(buf)@.subrange(pos as int, old(buf)@.len() as int));
        assert(buf@ =~= self.spec_encoding() + old(buf)@.subrange(pos as int, old(buf)@.len() as int));
        pos
    }

    fn encoded_size(&self) -> (n: usize) {
        let mut n: usize = 0;
        n = n + self.0.encoded_size();
        n = n + self.1.encoded_size();
        n = n + self.2.encoded_size();
        n = n + self.3.encoded_size();
        n = n + self.4.encoded_size();
        n = n + self.5.encoded_size();
        n = n + self.6.encoded_size();
        n = n + self.7.encoded_size();
        n = n + self.8.encoded_size();
        n = n + self.9.encoded_size();
        n = n + self.10.encoded_size();
        n
    }

    fn string_table(&self) -> (r: Vec<u8>) {
        Vec::new()
    }
}

impl<T0: Encode, T1: Encode, T2: Encode, T3: Encode, T4: Encode, T5: Encode, T6: Encode, T7: Encode, T8: Encode, T9: Encode, T10: Encode, T11: Encode> Encode for (T0, T1, T2, T3, T4, T5, T6, T7, T8, T9, T10, T11) {
    open spec fn spec_schema() -> Seq<u8> {
        seq![opcode(OP_TUPLE, 12)] + T0::spec_schema() + T1::spec_schema() + T2::spec_schema() + T3::spec_schema() + T4::spec_schema() + T5::spec_schema() + T6::spec_schema() + T7::spec_schema() + T8::spec_schema() + T9::spec_schema() + T10::spec_schema() + T11::spec_schema()
    }

    open spec fn spec_encoding(&self) -> Seq<u8> {
        self.0.spec_encoding() + self.1.spec_encoding() + self.2.spec_encoding() + self.3.spec_encoding() + self.4.spec_encoding() + self.5.spec_encoding() + self.6.spec_encoding() + self.7.spec_encoding() + self.8.spec_encoding() + self.9.spec_encoding() + self.10.spec_encoding() + self.11.spec_encoding()
    }

    open spec fn spec_encoded_size(&self) -> nat {
        self.0.spec_encoded_size() + self.1.spec_encoded_size() + self.2.spec_encoded_size() + self.3.spec_encoded_size() + self.4.spec_encoded_size() + self.5.spec_encoded_size() + self.6.spec_encoded_size() + self.7.spec_encoded_size() + self.8.spec_encoded_size() + self.9.spec_encoded_size() + self.10.spec_encoded_size() + self.11.spec_encoded_size()
    }

    open spec fn spec_string_table(&self) -> Seq<u8> {
        Seq::empty()
    }

    fn schema() -> (r: Vec<u8>) {
        let mut v: Vec<u8> = Vec::new();
        v.push(opcode_byte(OP_TUPLE, 12));
        append_bytes(&mut v, T0::schema().as_slice());
        append_bytes(&mut v, T1::schema().as_slice());
        append_bytes(&mut v, T2::schema().as_slice());
        append_bytes(&mut v, T3::schema().as_slice());
        append_bytes(&mut v, T4::schema().as_slice());
        append_bytes(&mut v, T5::schema().as_slice());
        append_bytes(&mut v, T6::schema().as_slice());
        append_bytes(&mut v, T7::schema().as_slice());
        append_bytes(&mut v, T8::schema().as_slice());
        append_bytes(&mut v, T9::schema().as_slice());
        append_bytes(&mut v, T10::schema().as_slice());
        append_bytes(&mut v, T11::schema().as_slice());
        assert(v@ =~= Self::spec_schema());
        v
    }

    #[verifier::spinoff_prover]
    #[verifier::rlimit(40)]
    fn encode_to(&self, buf: &mut [u8]) -> (n: usize) {
        let mut pos: usize = 0;
        pos = encode_at(&self.0, buf, pos);
        assert(buf@ =~= (self.0.spec_encoding()) + old(buf)@.subrange(pos as int, old(buf)@.len() as int));
        pos = encode_at(&self.1, buf, pos);
        assert(buf@ =~= (self.0.spec_encoding() + self.1.spec_encoding()) + old(buf)@.subrange(pos as int, old(buf)@.len() as int));
        pos = encode_at(&self.2, buf, pos);
        assert(buf@ =~= (self.0.spec_encoding() + self.1.spec_encoding() + self.2.spec_encoding()) + old(buf)@.subrange(pos as int, old(buf)@.len() as int));
        pos = encode_at(&self.3, buf, pos);
        assert(buf@ =~= (self.0.spec_encoding() + self.1.spec_encoding() + self.2.spec_encoding() + self.3.spec_encoding()) + old(buf)@.subrange(pos as int, old(buf)@.len() as int));
        pos = encode_at(&self.4, buf, pos);
        assert(buf@ =~= (self.0.spec_encoding() + self.1.spec_encoding() + self.2.spec_encoding() + self.3.spec_encoding() + self.4.spec_encoding()) + old(buf)@.subrange(pos as int, old(buf)@.len() as int));
        pos = encode_at(&self.5, buf, pos);
        assert(buf@ =~= (self.0.spec_encoding() + self.1.spec_encoding() + self.2.spec_encoding() + self.3.spec_encoding() + self.4.spec_encoding() + self.5.spec_encoding()) + old(buf)@.subrange(pos as int, old(buf)@.len() as int));
        pos = encode_at(&self.6, buf, pos);
        assert(buf@ =~= (self.0.spec_encoding() + self.1.spec_encoding() + self.2.spec_encoding() + self.3.spec_encoding() + self.4.spec_encoding() + self.5.spec_encoding() + self.6.spec_encoding()) + old(buf)@.subrange(pos as int, old(buf)@.len() as int));
        pos = encode_at(&self.7, buf, pos);
        assert(buf@ =~= (self.0.spec_encoding() + self.1.spec_encoding() + self.2.spec_encoding() + self.3.spec_encoding() + self.4.spec_encoding() + self.5.spec_encoding() + self.6.spec_encoding() + self.7.spec_encoding()) + old(buf)@.subrange(pos as int, old(buf)@.len() as int));
        pos = encode_at(&self.8, buf, pos);
        assert(buf@ =~= (self.0.spec_encoding() + self.1.spec_encoding() + self.2.spec_encoding() + self.3.spec_encoding() + self.4.spec_encoding() + self.5.spec_encoding() + self.6.spec_encoding() + self.7.spec_encoding() + self.8.spec_encoding()) + old(buf)@.subrange(pos as int, old(buf)@.len() as int));
        pos = encode_at(&self.9, buf, pos);
        assert(buf@ =~= (self.0.spec_encoding() + self.1.spec_encoding() + self.2.spec_encoding() + self.3.spec_encoding() + self.4.spec_encoding() + self.5.spec_encoding() + self.6.spec_encoding() + self.7.spec_encoding() + self.8.spec_encoding() + self.9.spec_encoding()) + old(buf)@.subrange(pos as int, old(buf)@.len() as int));
        pos = encode_at(&self.10, buf, pos);
        assert(buf@ =~= (self.0.spec_encoding() + self.1.spec_encoding() + self.2.spec_encoding() + self.3.spec_encoding() + self.4.spec_encoding() + self.5.spec_encoding() + self.6.spec_encoding() + self.7.spec_encoding() + self.8.spec_encoding() + self.9.spec_encoding() + self.10.spec_encoding()) + old(buf)@.subrange(pos as int, old(buf)@.len() as int));
        pos = encode_at(&self.11, buf, pos);
        assert(buf@ =~= (self.0.spec_encoding() + self.1.spec_encoding() + self.2.spec_encoding() + self.3.spec_encoding() + self.4.spec_encoding() + self.5.spec_encoding() + self.6.spec_encoding() + self.7.spec_encoding() + self.8.spec_encoding() + self.9.spec_encoding() + self.10.spec_encoding() + self.11.spec_encoding()) + old(buf)@.subrange(pos as int, old(buf)@.len() as int));
        assert(buf@ =~= self.spec_encoding() + old(buf)@.subrange(pos as int, old(buf)@.len() as int));
        pos
    }

    fn encoded_size(&self) -> (n: usize) {
        let mut n: usize = 0;
        n = n + self.0.encoded_size();
        n = n + self.1.encoded_size();
        n = n + self.2.encoded_size();
        n = n + self.3.encoded_size();
        n = n + self.4.encoded_size();
        n = n + self.5.encoded_size();
        n = n + self.6.encoded_size();
        n = n + self.7.encoded_size();
        n = n + self.8.encoded_size();
        n = n + self.9.encoded_size();
        n = n + self.10.encoded_size();
        n = n + self.11.encoded_size();
        n
    }

    fn string_table(&self) -> (r: Vec<u8>) {
        Vec::new()
    }
}

/// The string table of `Option`: `None\0Some\0`.
pub open spec fn option_table() -> Seq<u8> {
    seq![78u8, 111u8, 110u8, 101u8, 0u8, 83u8, 111u8, 109u8, 101u8, 0u8]
}

/// The string table of `Result`: `Ok\0Err\0`.
pub open spec fn result_table() -> Seq<u8> {
    seq![79u8, 107u8, 0u8, 69u8, 114u8, 114u8, 0u8]
}

impl<T: Encode> Encode for Option<T> {
    open spec fn spec_schema() -> Seq<u8> {
        seq![opcode(OP_ENUM, 2), 1u8, 0u8, 0u8, 0u8, OP_UNIT, 5u8, 0u8] + T::spec_schema()
    }

    open spec fn spec_encoding(&self) -> Seq<u8> {
        match self {
            None => seq![0u8],
            Some(v) => seq![1u8] + v.spec_encoding(),
        }
    }

    open spec fn spec_encoded_size(&self) -> nat {
        match self {
            None => 1,
            Some(v) => 1 + v.spec_encoded_size(),
        }
    }

    open spec fn spec_string_table(&self) -> Seq<u8> {
        option_table()
    }

    fn schema() -> (r: Vec<u8>) {
        let mut v: Vec<u8> = Vec::new();
        v.push(opcode_byte(OP_ENUM, 2));
        v.push(1);
        v.push(0);
        v.push(0);
        v.push(0);
        v.push(OP_UNIT);
        v.push(5);
        v.push(0);
        append_bytes(&mut v, T::schema().as_slice());
        assert(v@ =~= Self::spec_schema());
        v
    }

    fn encode_to(&self, buf: &mut [u8]) -> (n: usize) {
        match self {
            None => {
                buf[0] = 0;
                assert(buf@ =~= self.spec_encoding() + old(buf)@.subrange(1, old(buf)@.len() as int));
                1
            },
            Some(val) => {
                buf[0] = 1;
                let end = encode_at(val, buf, 1);
                assert(buf@ =~= self.spec_encoding() + old(buf)@.subrange(end as int, old(buf)@.len() as int));
                end
            },
        }
    }

    fn encoded_size(&self) -> (n: usize) {
        match self {
            None => 1,
            Some(val) => 1 + val.encoded_size(),
        }
    }

    fn string_table(&self) -> (r: Vec<u8>) {
        let mut v: Vec<u8> = Vec::new();
        v.push(78);
        v.push(111);
        v.push(110);
        v.push(101);
        v.push(0);
        v.push(83);
        v.push(111);
        v.push(109);
        v.push(101);
        v.push(0);
        assert(v@ =~= option_table());
        v
    }
}

impl<T: Encode, E: Encode> Encode for Result<T, E> {
    open spec fn spec_schema() -> Seq<u8> {
        seq![opcode(OP_ENUM, 2), 1u8, 0u8, 0u8, 0u8] + T::spec_schema() + seq![3u8, 0u8] + E::spec_schema()
    }

    open spec fn spec_encoding(&self) -> Seq<u8> {
        match self {
            Ok(v) => seq![0u8] + v.spec_encoding(),
            Err(e) => seq![1u8] + e.spec_encoding(),
        }
    }

    open spec fn spec_encoded_size(&self) -> nat {
        match self {
            Ok(v) => 1 + v.spec_encoded_size(),
            Err(e) => 1 + e.spec_encoded_size(),
        }
    }

    open spec fn spec_string_table(&self) -> Seq<u8> {
        result_table()
    }

    fn schema() -> (r: Vec<u8>) {
        let mut v: Vec<u8> = Vec::new();
        v.push(opcode_byte(OP_ENUM, 2));
        v.push(1);
        v.push(0);
        v.push(0);
        v.push(0);
        append_bytes(&mut v, T::schema().as_slice());
        v.push(3);
        v.push(0);
        append_bytes(&mut v, E::schema().as_slice());
        assert(v@ =~= Self::spec_schema());
        v
    }

    fn encode_to(&self, buf: &mut [u8]) -> (n: usize) {
        match self {
            Ok(val) => {
                buf[0] = 0;
                let end = encode_at(val, buf, 1);
                assert(buf@ =~= self.spec_encoding() + old(buf)@.subrange(end as int, old(buf)@.len() as int));
                end
            },
            Err(e) => {
                buf[0] = 1;
                let end = encode_at(e, buf, 1);
                assert(buf@ =~= self.spec_encoding() + old(buf)@.subrange(end as int, old(buf)@.len() as int));
                end
            },
        }
    }

    fn encoded_size(&self) -> (n: usize) {
        match self {
            Ok(val) => 1 + val.encoded_size(),
            Err(e) => 1 + e.encoded_size(),
        }
    }

    fn string_table(&self) -> (r: Vec<u8>) {
        let mut v: Vec<u8> = Vec::new();
        v.push(79);
        v.push(107);
        v.push(0);
        v.push(69);
        v.push(114);
        v.push(114);
        v.push(0);
        assert(v@ =~= result_table());
        v
    }
}

impl<T: Encode> HasStringTable for Option<T> {
    open spec fn spec_table() -> Seq<u8> {
        option_table()
    }

    fn string_table_bytes() -> (r: Vec<u8>) {
        let none: Option<T> = None;
        none.string_table()
    }
}

impl<T: Encode, E: Encode> HasStringTable for Result<T, E> {
    open spec fn spec_table() -> Seq<u8> {
        result_table()
    }

    fn string_table_bytes() -> (r: Vec<u8>) {
        let mut v: Vec<u8> = Vec::new();
        v.push(79);
        v.push(107);
        v.push(0);
        v.push(69);
        v.push(114);
        v.push(114);
        v.push(0);
        assert(v@ =~= result_table());
        v
    }
}

} // verus!
