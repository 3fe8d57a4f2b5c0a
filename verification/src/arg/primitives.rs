use vstd::prelude::*;
use vstd::string::StringSliceAdditionalSpecFns;

use super::bytes::{int_encoding, le_bytes, lemma_le_bytes_len, lemma_pow256_values, pow256, twos, write_le};
use super::traits::Encode;
use super::{
    op_bool, op_char, op_float, op_signed_int, op_str, op_unsigned_int, opcode, OP_BOOL, OP_CHAR,
    OP_FLOAT, OP_SIGNED_INT, OP_STR, OP_UNIT, OP_UNSIGNED_INT,
};

verus! {

/// Writes the `size`-byte two's-complement encoding of `v` at the start of `buf`.
fn encode_signed(buf: &mut [u8], v: i128, size: usize) -> (n: usize)
    requires
        size == 1 || size == 2 || size == 4 || size == 8 || size == 16,
        -(pow256(size as nat) / 2) <= v < pow256(size as nat) / 2,
        size <= old(buf)@.len(),
    ensures
        n == size,
        final(buf)@ == int_encoding(v as int, size as nat) + old(buf)@.subrange(size as int, old(buf)@.len() as int),
{
    proof {
        lemma_pow256_values();
    }
    let u: u128 = if v >= 0 {
        v as u128
    } else if size == 16 {
        (((v + 1) + 0x7FFF_FFFF_FFFF_FFFF_FFFF_FFFF_FFFF_FFFF) as u128) + 0x8000_0000_0000_0000_0000_0000_0000_0000
    } else if size == 8 {
        (v + 0x1_0000_0000_0000_0000) as u128
    } else if size == 4 {
        (v + 0x1_0000_0000) as u128
    } else if size == 2 {
        (v + 0x1_0000) as u128
    } else {
        (v + 0x100) as u128
    };
    assert(u == twos(v as int, size as nat));
    write_le(buf, 0, u, size);
    assert(buf@ =~= int_encoding(v as int, size as nat) + old(buf)@.subrange(size as int, old(buf)@.len() as int));
    size
}

/// Writes the `size` low bytes of `v`, least significant first, at the start of `buf`.
fn encode_unsigned(buf: &mut [u8], v: u128, size: usize) -> (n: usize)
    requires
        size <= old(buf)@.len(),
    ensures
        n == size,
        final(buf)@ == le_bytes(v as nat, size as nat) + old(buf)@.subrange(size as int, old(buf)@.len() as int),
{
    write_le(buf, 0, v, size);
    assert(buf@ =~= le_bytes(v as nat, size as nat) + old(buf)@.subrange(size as int, old(buf)@.len() as int));
    size
}

fn one_byte(b: u8) -> (r: Vec<u8>)
    ensures
        r@ == seq![b],
{
    let mut v = Vec::new();
    v.push(b);
    assert(v@ =~= seq![b]);
    v
}

impl Encode for i8 {
    open spec fn spec_schema() -> Seq<u8> {
        seq![opcode(OP_SIGNED_INT, 1)]
    }

    open spec fn spec_encoding(&self) -> Seq<u8> {
        int_encoding(*self as int, 1)
    }

    open spec fn spec_encoded_size(&self) -> nat {
        1
    }

    open spec fn spec_string_table(&self) -> Seq<u8> {
        Seq::empty()
    }

    fn schema() -> (r: Vec<u8>) {
        one_byte(op_signed_int(1))
    }

    fn encode_to(&self, buf: &mut [u8]) -> (n: usize) {
        proof {
            lemma_pow256_values();
            lemma_le_bytes_len(twos(*self as int, 1), 1);
        }
        encode_signed(buf, *self as i128, 1)
    }

    fn encoded_size(&self) -> (n: usize) {
        1
    }

    fn string_table(&self) -> (r: Vec<u8>) {
        Vec::new()
    }
}

impl Encode for i16 {
    open spec fn spec_schema() -> Seq<u8> {
        seq![opcode(OP_SIGNED_INT, 2)]
    }

    open spec fn spec_encoding(&self) -> Seq<u8> {
        int_encoding(*self as int, 2)
    }

    open spec fn spec_encoded_size(&self) -> nat {
        2
    }

    open spec fn spec_string_table(&self) -> Seq<u8> {
        Seq::empty()
    }

    fn schema() -> (r: Vec<u8>) {
        one_byte(op_signed_int(2))
    }

    fn encode_to(&self, buf: &mut [u8]) -> (n: usize) {
        proof {
            lemma_pow256_values();
            lemma_le_bytes_len(twos(*self as int, 2), 2);
        }
        encode_signed(buf, *self as i128, 2)
    }

    fn encoded_size(&self) -> (n: usize) {
        2
    }

    fn string_table(&self) -> (r: Vec<u8>) {
        Vec::new()
    }
}

impl Encode for i32 {
    open spec fn spec_schema() -> Seq<u8> {
        seq![opcode(OP_SIGNED_INT, 3)]
    }

    open spec fn spec_encoding(&self) -> Seq<u8> {
        int_encoding(*self as int, 4)
    }

    open spec fn spec_encoded_size(&self) -> nat {
        4
    }

    open spec fn spec_string_table(&self) -> Seq<u8> {
        Seq::empty()
    }

    fn schema() -> (r: Vec<u8>) {
        one_byte(op_signed_int(3))
    }

    fn encode_to(&self, buf: &mut [u8]) -> (n: usize) {
        proof {
            lemma_pow256_values();
            lemma_le_bytes_len(twos(*self as int, 4), 4);
        }
        encode_signed(buf, *self as i128, 4)
    }

    fn encoded_size(&self) -> (n: usize) {
        4
    }

    fn string_table(&self) -> (r: Vec<u8>) {
        Vec::new()
    }
}

impl Encode for i64 {
    open spec fn spec_schema() -> Seq<u8> {
        seq![opcode(OP_SIGNED_INT, 4)]
    }

    open spec fn spec_encoding(&self) -> Seq<u8> {
        int_encoding(*self as int, 8)
    }

    open spec fn spec_encoded_size(&self) -> nat {
        8
    }

    open spec fn spec_string_table(&self) -> Seq<u8> {
        Seq::empty()
    }

    fn schema() -> (r: Vec<u8>) {
        one_byte(op_signed_int(4))
    }

    fn encode_to(&self, buf: &mut [u8]) -> (n: usize) {
        proof {
            lemma_pow256_values();
            lemma_le_bytes_len(twos(*self as int, 8), 8);
        }
        encode_signed(buf, *self as i128, 8)
    }

    fn encoded_size(&self) -> (n: usize) {
        8
    }

    fn string_table(&self) -> (r: Vec<u8>) {
        Vec::new()
    }
}

impl Encode for i128 {
    open spec fn spec_schema() -> Seq<u8> {
        seq![opcode(OP_SIGNED_INT, 5)]
    }

    open spec fn spec_encoding(&self) -> Seq<u8> {
        int_encoding(*self as int, 16)
    }

    open spec fn spec_encoded_size(&self) -> nat {
        16
    }

    open spec fn spec_string_table(&self) -> Seq<u8> {
        Seq::empty()
    }

    fn schema() -> (r: Vec<u8>) {
        one_byte(op_signed_int(5))
    }

    fn encode_to(&self, buf: &mut [u8]) -> (n: usize) {
        proof {
            lemma_pow256_values();
            lemma_le_bytes_len(twos(*self as int, 16), 16);
        }
        encode_signed(buf, *self, 16)
    }

    fn encoded_size(&self) -> (n: usize) {
        16
    }

    fn string_table(&self) -> (r: Vec<u8>) {
        Vec::new()
    }
}

impl Encode for u8 {
    open spec fn spec_schema() -> Seq<u8> {
        seq![opcode(OP_UNSIGNED_INT, 1)]
    }

    open spec fn spec_encoding(&self) -> Seq<u8> {
        le_bytes(*self as nat, 1)
    }

    open spec fn spec_encoded_size(&self) -> nat {
        1
    }

    open spec fn spec_string_table(&self) -> Seq<u8> {
        Seq::empty()
    }

    fn schema() -> (r: Vec<u8>) {
        one_byte(op_unsigned_int(1))
    }

    fn encode_to(&self, buf: &mut [u8]) -> (n: usize) {
        proof {
            lemma_le_bytes_len(*self as nat, 1);
        }
        encode_unsigned(buf, *self as u128, 1)
    }

    fn encoded_size(&self) -> (n: usize) {
        1
    }

    fn string_table(&self) -> (r: Vec<u8>) {
        Vec::new()
    }
}

impl Encode for u16 {
    open spec fn spec_schema() -> Seq<u8> {
        seq![opcode(OP_UNSIGNED_INT, 2)]
    }

    open spec fn spec_encoding(&self) -> Seq<u8> {
        le_bytes(*self as nat, 2)
    }

    open spec fn spec_encoded_size(&self) -> nat {
        2
    }

    open spec fn spec_string_table(&self) -> Seq<u8> {
        Seq::empty()
    }

    fn schema() -> (r: Vec<u8>) {
        one_byte(op_unsigned_int(2))
    }

    fn encode_to(&self, buf: &mut [u8]) -> (n: usize) {
        proof {
            lemma_le_bytes_len(*self as nat, 2);
        }
        encode_unsigned(buf, *self as u128, 2)
    }

    fn encoded_size(&self) -> (n: usize) {
        2
    }

    fn string_table(&self) -> (r: Vec<u8>) {
        Vec::new()
    }
}

impl Encode for u32 {
    open spec fn spec_schema() -> Seq<u8> {
        seq![opcode(OP_UNSIGNED_INT, 3)]
    }

    open spec fn spec_encoding(&self) -> Seq<u8> {
        le_bytes(*self as nat, 4)
    }

    open spec fn spec_encoded_size(&self) -> nat {
        4
    }

    open spec fn spec_string_table(&self) -> Seq<u8> {
        Seq::empty()
    }

    fn schema() -> (r: Vec<u8>) {
        one_byte(op_unsigned_int(3))
    }

    fn encode_to(&self, buf: &mut [u8]) -> (n: usize) {
        proof {
            lemma_le_bytes_len(*self as nat, 4);
        }
        encode_unsigned(buf, *self as u128, 4)
    }

    fn encoded_size(&self) -> (n: usize) {
        4
    }

    fn string_table(&self) -> (r: Vec<u8>) {
        Vec::new()
    }
}

impl Encode for u64 {
    open spec fn spec_schema() -> Seq<u8> {
        seq![opcode(OP_UNSIGNED_INT, 4)]
    }

    open spec fn spec_encoding(&self) -> Seq<u8> {
        le_bytes(*self as nat, 8)
    }

    open spec fn spec_encoded_size(&self) -> nat {
        8
    }

    open spec fn spec_string_table(&self) -> Seq<u8> {
        Seq::empty()
    }

    fn schema() -> (r: Vec<u8>) {
        one_byte(op_unsigned_int(4))
    }

    fn encode_to(&self, buf: &mut [u8]) -> (n: usize) {
        proof {
            lemma_le_bytes_len(*self as nat, 8);
        }
        encode_unsigned(buf, *self as u128, 8)
    }

    fn encoded_size(&self) -> (n: usize) {
        8
    }

    fn string_table(&self) -> (r: Vec<u8>) {
        Vec::new()
    }
}

impl Encode for u128 {
    open spec fn spec_schema() -> Seq<u8> {
        seq![opcode(OP_UNSIGNED_INT, 5)]
    }

    open spec fn spec_encoding(&self) -> Seq<u8> {
        le_bytes(*self as nat, 16)
    }

    open spec fn spec_encoded_size(&self) -> nat {
        16
    }

    open spec fn spec_string_table(&self) -> Seq<u8> {
        Seq::empty()
    }

    fn schema() -> (r: Vec<u8>) {
        one_byte(op_unsigned_int(5))
    }

    fn encode_to(&self, buf: &mut [u8]) -> (n: usize) {
        proof {
            lemma_le_bytes_len(*self as nat, 16);
        }
        encode_unsigned(buf, *self, 16)
    }

    fn encoded_size(&self) -> (n: usize) {
        16
    }

    fn string_table(&self) -> (r: Vec<u8>) {
        Vec::new()
    }
}

/// The size parameter that the schema of `usize` carries: 3 (4 bytes) on 32-bit
/// targets, else 4 (8 bytes). The value itself is always encoded in 8 bytes.
pub open spec fn usize_schema_k() -> u8 {
    if usize::BITS == 32 {
        3
    } else {
        4
    }
}

impl Encode for usize {
    open spec fn spec_schema() -> Seq<u8> {
        seq![opcode(OP_UNSIGNED_INT, usize_schema_k())]
    }

    open spec fn spec_encoding(&self) -> Seq<u8> {
        le_bytes(*self as nat, 8)
    }

    open spec fn spec_encoded_size(&self) -> nat {
        8
    }

    open spec fn spec_string_table(&self) -> Seq<u8> {
        Seq::empty()
    }

    fn schema() -> (r: Vec<u8>) {
        if usize::BITS == 32 {
            one_byte(op_unsigned_int(3))
        } else {
            one_byte(op_unsigned_int(4))
        }
    }

    fn encode_to(&self, buf: &mut [u8]) -> (n: usize) {
        proof {
            lemma_le_bytes_len(*self as nat, 8);
        }
        encode_unsigned(buf, *self as u128, 8)
    }

    fn encoded_size(&self) -> (n: usize) {
        8
    }

    fn string_table(&self) -> (r: Vec<u8>) {
        Vec::new()
    }
}

impl Encode for bool {
    open spec fn spec_schema() -> Seq<u8> {
        seq![OP_BOOL]
    }

    open spec fn spec_encoding(&self) -> Seq<u8> {
        seq![if *self { 1u8 } else { 0u8 }]
    }

    open spec fn spec_encoded_size(&self) -> nat {
        1
    }

    open spec fn spec_string_table(&self) -> Seq<u8> {
        Seq::empty()
    }

    fn schema() -> (r: Vec<u8>) {
        one_byte(op_bool())
    }

    fn encode_to(&self, buf: &mut [u8]) -> (n: usize) {
        buf[0] = if *self { 1 } else { 0 };
        assert(buf@ =~= self.spec_encoding() + old(buf)@.subrange(1, old(buf)@.len() as int));
        1
    }

    fn encoded_size(&self) -> (n: usize) {
        1
    }

    fn string_table(&self) -> (r: Vec<u8>) {
        Vec::new()
    }
}

impl Encode for char {
    open spec fn spec_schema() -> Seq<u8> {
        seq![OP_CHAR]
    }

    open spec fn spec_encoding(&self) -> Seq<u8> {
        le_bytes((*self as u32) as nat, 4)
    }

    open spec fn spec_encoded_size(&self) -> nat {
        4
    }

    open spec fn spec_string_table(&self) -> Seq<u8> {
        Seq::empty()
    }

    fn schema() -> (r: Vec<u8>) {
        one_byte(op_char())
    }

    fn encode_to(&self, buf: &mut [u8]) -> (n: usize) {
        proof {
            lemma_le_bytes_len((*self as u32) as nat, 4);
        }
        let code = *self as u32;
        encode_unsigned(buf, code as u128, 4)
    }

    fn encoded_size(&self) -> (n: usize) {
        4
    }

    fn string_table(&self) -> (r: Vec<u8>) {
        Vec::new()
    }
}

impl Encode for () {
    open spec fn spec_schema() -> Seq<u8> {
        seq![OP_UNIT]
    }

    open spec fn spec_encoding(&self) -> Seq<u8> {
        Seq::empty()
    }

    open spec fn spec_encoded_size(&self) -> nat {
        0
    }

    open spec fn spec_string_table(&self) -> Seq<u8> {
        Seq::empty()
    }

    fn schema() -> (r: Vec<u8>) {
        one_byte(OP_UNIT)
    }

    fn encode_to(&self, buf: &mut [u8]) -> (n: usize) {
        assert(buf@ =~= self.spec_encoding() + old(buf)@.subrange(0, old(buf)@.len() as int));
        0
    }

    fn encoded_size(&self) -> (n: usize) {
        0
    }

    fn string_table(&self) -> (r: Vec<u8>) {
        Vec::new()
    }
}

/// The encoding of a string: its byte length, capped at 65535, as 2 bytes little-endian,
/// then that many of its bytes.
pub open spec fn str_encoding(bytes: Seq<u8>) -> Seq<u8> {
    let len = if bytes.len() > 0xFFFF {
        0xFFFFnat
    } else {
        bytes.len()
    };
    le_bytes(len, 2) + bytes.subrange(0, len as int)
}

/// Writes the encoding of the string whose bytes are `bytes`.
fn encode_str_bytes(bytes: &[u8], buf: &mut [u8]) -> (n: usize)
    requires
        str_encoding(bytes@).len() <= old(buf)@.len(),
    ensures
        n == str_encoding(bytes@).len(),
        final(buf)@ == str_encoding(bytes@) + old(buf)@.subrange(n as int, old(buf)@.len() as int),
{
    let len: usize = if bytes.len() > 0xFFFF {
        0xFFFF
    } else {
        bytes.len()
    };
    proof {
        lemma_le_bytes_len(len as nat, 2);
    }
    write_le(buf, 0, len as u128, 2);
    let mut i: usize = 0;
    while i < len
        invariant
            i <= len <= bytes@.len(),
            len == (if bytes@.len() > 0xFFFF { 0xFFFFnat } else { bytes@.len() }),
            2 + len <= old(buf)@.len(),
            buf@.len() == old(buf)@.len(),
            buf@ == le_bytes(len as nat, 2) + bytes@.subrange(0, i as int) + old(buf)@.subrange(2 + i, old(buf)@.len() as int),
        decreases len - i,
    {
        buf[2 + i] = bytes[i];
        assert(buf@ =~= le_bytes(len as nat, 2) + bytes@.subrange(0, i + 1) + old(buf)@.subrange(2 + i + 1, old(buf)@.len() as int));
        i = i + 1;
    }
    2 + len
}

impl<'a> Encode for &'a str {
    open spec fn spec_schema() -> Seq<u8> {
        seq![opcode(OP_STR, 2)]
    }

    open spec fn spec_encoding(&self) -> Seq<u8> {
        str_encoding((*self).spec_bytes())
    }

    open spec fn spec_encoded_size(&self) -> nat {
        2 + (*self).spec_bytes().len()
    }

    open spec fn spec_string_table(&self) -> Seq<u8> {
        Seq::empty()
    }

    fn schema() -> (r: Vec<u8>) {
        one_byte(op_str(2))
    }

    fn encode_to(&self, buf: &mut [u8]) -> (n: usize) {
        encode_str_bytes((*self).as_bytes(), buf)
    }

    fn encoded_size(&self) -> (n: usize) {
        2 + (*self).len()
    }

    fn string_table(&self) -> (r: Vec<u8>) {
        Vec::new()
    }
}

impl Encode for String {
    open spec fn spec_schema() -> Seq<u8> {
        seq![opcode(OP_STR, 2)]
    }

    open spec fn spec_encoding(&self) -> Seq<u8> {
        str_encoding(vstd::utf8::encode_utf8(self@))
    }

    open spec fn spec_encoded_size(&self) -> nat {
        2 + vstd::utf8::encode_utf8(self@).len()
    }

    open spec fn spec_string_table(&self) -> Seq<u8> {
        Seq::empty()
    }

    fn schema() -> (r: Vec<u8>) {
        one_byte(op_str(2))
    }

    fn encode_to(&self, buf: &mut [u8]) -> (n: usize) {
        encode_str_bytes(self.as_str().as_bytes(), buf)
    }

    fn encoded_size(&self) -> (n: usize) {
        2 + self.as_str().len()
    }

    fn string_table(&self) -> (r: Vec<u8>) {
        Vec::new()
    }
}

/// An `f32` argument, carried by its IEEE 754 bits.
pub struct Float32Bits(pub u32);

/// An `f64` argument, carried by its IEEE 754 bits.
pub struct Float64Bits(pub u64);

impl Encode for Float32Bits {
    open spec fn spec_schema() -> Seq<u8> {
        seq![opcode(OP_FLOAT, 3)]
    }

    open spec fn spec_encoding(&self) -> Seq<u8> {
        le_bytes(self.0 as nat, 4)
    }

    open spec fn spec_encoded_size(&self) -> nat {
        4
    }

    open spec fn spec_string_table(&self) -> Seq<u8> {
        Seq::empty()
    }

    fn schema() -> (r: Vec<u8>) {
        one_byte(op_float(3))
    }

    fn encode_to(&self, buf: &mut [u8]) -> (n: usize) {
        proof {
            lemma_le_bytes_len(self.0 as nat, 4);
        }
        encode_unsigned(buf, self.0 as u128, 4)
    }

    fn encoded_size(&self) -> (n: usize) {
        4
    }

    fn string_table(&self) -> (r: Vec<u8>) {
        Vec::new()
    }
}

impl Encode for Float64Bits {
    open spec fn spec_schema() -> Seq<u8> {
        seq![opcode(OP_FLOAT, 4)]
    }

    open spec fn spec_encoding(&self) -> Seq<u8> {
        le_bytes(self.0 as nat, 8)
    }

    open spec fn spec_encoded_size(&self) -> nat {
        8
    }

    open spec fn spec_string_table(&self) -> Seq<u8> {
        Seq::empty()
    }

    fn schema() -> (r: Vec<u8>) {
        one_byte(op_float(4))
    }

    fn encode_to(&self, buf: &mut [u8]) -> (n: usize) {
        proof {
            lemma_le_bytes_len(self.0 as nat, 8);
        }
        encode_unsigned(buf, self.0 as u128, 8)
    }

    fn encoded_size(&self) -> (n: usize) {
        8
    }

    fn string_table(&self) -> (r: Vec<u8>) {
        Vec::new()
    }
}

} // verus!
