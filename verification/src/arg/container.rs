use vstd::prelude::*;

use super::bytes::{le_bytes, lemma_le_bytes_len, write_le};
use super::compound::{append_bytes, encode_at, opcode_byte};
use super::traits::Encode;
use super::{opcode, OP_SEQ};

verus! {

/// The number of elements of a sequence that its encoding holds: at most 65535.
pub open spec fn seq_count(len: nat) -> nat {
    if len > 0xFFFF {
        0xFFFF
    } else {
        len
    }
}

/// The encodings of the first `n` items, concatenated.
pub open spec fn items_encoding<T: Encode>(items: Seq<T>, n: nat) -> Seq<u8>
    decreases n,
{
    if n == 0 {
        Seq::empty()
    } else {
        items_encoding(items, (n - 1) as nat) + items[n - 1].spec_encoding()
    }
}

/// The encoded sizes of the first `n` items, summed.
pub open spec fn items_size<T: Encode>(items: Seq<T>, n: nat) -> nat
    decreases n,
{
    if n == 0 {
        0
    } else {
        items_size(items, (n - 1) as nat) + items[n - 1].spec_encoded_size()
    }
}

proof fn lemma_items_mono<T: Encode>(items: Seq<T>, i: nat, j: nat)
    requires
        i <= j,
    ensures
        items_encoding(items, i).len() <= items_encoding(items, j).len(),
        items_size(items, i) <= items_size(items, j),
    decreases j,
{
    if i < j {
        lemma_items_mono(items, i, (j - 1) as nat);
    }
}

impl<T: Encode> Encode for Vec<T> {
    open spec fn spec_schema() -> Seq<u8> {
        seq![opcode(OP_SEQ, 2)] + T::spec_schema()
    }

    /// A 2-byte element count, then that many elements: all of them, up to 65535.
    open spec fn spec_encoding(&self) -> Seq<u8> {
        le_bytes(seq_count(self@.len()), 2) + items_encoding(self@, seq_count(self@.len()))
    }

    open spec fn spec_encoded_size(&self) -> nat {
        2 + items_size(self@, seq_count(self@.len()))
    }

    open spec fn spec_string_table(&self) -> Seq<u8> {
        Seq::empty()
    }

    fn schema() -> (r: Vec<u8>) {
        let mut v: Vec<u8> = Vec::new();
        v.push(opcode_byte(OP_SEQ, 2));
        append_bytes(&mut v, T::schema().as_slice());
        assert(v@ =~= Self::spec_schema());
        v
    }

    fn encode_to(&self, buf: &mut [u8]) -> (n: usize) {
        let count: usize = if self.len() > 0xFFFF {
            0xFFFF
        } else {
            self.len()
        };
        let ghost total = items_encoding(self@, count as nat);
        proof {
            lemma_le_bytes_len(count as nat, 2);
        }
        write_le(buf, 0, count as u128, 2);
        let mut pos: usize = 2;
        let mut i: usize = 0;
        assert(buf@ =~= le_bytes(count as nat, 2) + items_encoding(self@, 0) + old(buf)@.subrange(2, old(buf)@.len() as int));
        while i < count
            invariant
                count == seq_count(self@.len()),
                count <= self@.len(),
                i <= count,
                total == items_encoding(self@, count as nat),
                2 + total.len() <= old(buf)@.len(),
                buf@.len() == old(buf)@.len(),
                pos == 2 + items_encoding(self@, i as nat).len(),
                buf@ == le_bytes(count as nat, 2) + items_encoding(self@, i as nat) + old(buf)@.subrange(pos as int, old(buf)@.len() as int),
            decreases count - i,
        {
            proof {
                lemma_items_mono(self@, (i + 1) as nat, count as nat);
            }
            pos = encode_at(&self[i], buf, pos);
            assert(buf@ =~= le_bytes(count as nat, 2) + items_encoding(self@, (i + 1) as nat) + old(buf)@.subrange(pos as int, old(buf)@.len() as int));
            i = i + 1;
        }
        assert(buf@ =~= self.spec_encoding() + old(buf)@.subrange(pos as int, old(buf)@.len() as int));
        pos
    }

    fn encoded_size(&self) -> (n: usize) {
        let count: usize = if self.len() > 0xFFFF {
            0xFFFF
        } else {
            self.len()
        };
        let mut sum: usize = 0;
        let mut i: usize = 0;
        while i < count
            invariant
                count == seq_count(self@.len()),
                count <= self@.len(),
                i <= count,
                2 + items_size(self@, count as nat) <= usize::MAX,
                sum == items_size(self@, i as nat),
            decreases count - i,
        {
            proof {
                lemma_items_mono(self@, (i + 1) as nat, count as nat);
            }
            sum = sum + self[i].encoded_size();
            i = i + 1;
        }
        2 + sum
    }

    fn string_table(&self) -> (r: Vec<u8>) {
        Vec::new()
    }
}


/// A fixed-length array is encoded as a sequence: its length as a 2-byte number
/// (modulo 2^16), then every element.
impl<T: Encode, const N: usize> Encode for [T; N] {
    open spec fn spec_schema() -> Seq<u8> {
        seq![opcode(OP_SEQ, 2)] + T::spec_schema()
    }

    open spec fn spec_encoding(&self) -> Seq<u8> {
        le_bytes(N as nat % 0x10000, 2) + items_encoding(self@, N as nat)
    }

    /// Two bytes, and `N` times the size of the first element.
    open spec fn spec_encoded_size(&self) -> nat {
        if N == 0 {
            2
        } else {
            2 + N as nat * self@[0].spec_encoded_size()
        }
    }

    open spec fn spec_string_table(&self) -> Seq<u8> {
        Seq::empty()
    }

    fn schema() -> (r: Vec<u8>) {
        let mut v: Vec<u8> = Vec::new();
        v.push(opcode_byte(OP_SEQ, 2));
        append_bytes(&mut v, T::schema().as_slice());
        assert(v@ =~= Self::spec_schema());
        v
    }

    fn encode_to(&self, buf: &mut [u8]) -> (n: usize) {
        let count: usize = N % 0x10000;
        let ghost total = items_encoding(self@, N as nat);
        proof {
            lemma_le_bytes_len(count as nat, 2);
        }
        write_le(buf, 0, count as u128, 2);
        let mut pos: usize = 2;
        let mut i: usize = 0;
        assert(buf@ =~= le_bytes(count as nat, 2) + items_encoding(self@, 0) + old(buf)@.subrange(2, old(buf)@.len() as int));
        while i < N
            invariant
                count == N as nat % 0x10000,
                self@.len() == N,
                i <= N,
                total == items_encoding(self@, N as nat),
                2 + total.len() <= old(buf)@.len(),
                buf@.len() == old(buf)@.len(),
                pos == 2 + items_encoding(self@, i as nat).len(),
                buf@ == le_bytes(count as nat, 2) + items_encoding(self@, i as nat) + old(buf)@.subrange(pos as int, old(buf)@.len() as int),
            decreases N - i,
        {
            proof {
                lemma_items_mono(self@, (i + 1) as nat, N as nat);
            }
            pos = encode_at(&self[i], buf, pos);
            assert(buf@ =~= le_bytes(count as nat, 2) + items_encoding(self@, (i + 1) as nat) + old(buf)@.subrange(pos as int, old(buf)@.len() as int));
            i = i + 1;
        }
        assert(buf@ =~= self.spec_encoding() + old(buf)@.subrange(pos as int, old(buf)@.len() as int));
        pos
    }

    fn encoded_size(&self) -> (n: usize) {
        if N == 0 {
            2
        } else {
            let ghost s = self@[0].spec_encoded_size();
            assert(s <= N as nat * s) by (nonlinear_arith)
                requires
                    N >= 1,
            ;
            let first = self[0].encoded_size();
            2 + N * first
        }
    }

    fn string_table(&self) -> (r: Vec<u8>) {
        Vec::new()
    }
}

} // verus!
