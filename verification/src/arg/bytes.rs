use vstd::prelude::*;

use super::{size_for_k, spec_size_for_k};

verus! {

/// 256 to the power `n`.
pub open spec fn pow256(n: nat) -> nat
    decreases n,
{
    if n == 0 {
        1
    } else {
        256 * pow256((n - 1) as nat)
    }
}

/// The unsigned integer whose little-endian bytes are `s`.
pub open spec fn le_value(s: Seq<u8>) -> nat
    decreases s.len(),
{
    if s.len() == 0 {
        0
    } else {
        s[0] as nat + 256 * le_value(s.drop_first())
    }
}

/// The unsigned value stored at the start of `buf` for size parameter `k`:
/// the first 1, 2, 4, 8 or 16 bytes little-endian (an absent single byte reads
/// as 0); every other width reads as 0.
pub open spec fn spec_read_unsigned(buf: Seq<u8>, k: u8) -> nat {
    let size = spec_size_for_k(k);
    if size == 1 {
        if buf.len() == 0 {
            0
        } else {
            buf[0] as nat
        }
    } else if size == 2 || size == 4 || size == 8 || size == 16 {
        le_value(buf.subrange(0, size as int))
    } else {
        0
    }
}

/// The two's-complement reading of `spec_read_unsigned` over the same width.
pub open spec fn spec_read_signed(buf: Seq<u8>, k: u8) -> int {
    let size = spec_size_for_k(k);
    let u = spec_read_unsigned(buf, k);
    if size == 1 || size == 2 || size == 4 || size == 8 || size == 16 {
        if u >= pow256(size) / 2 {
            u - pow256(size)
        } else {
            u as int
        }
    } else {
        0
    }
}

/// The bytes that `read_unsigned_ne` and `read_signed_ne` need to be present.
pub open spec fn read_needs(buf: Seq<u8>, k: u8) -> bool {
    let size = spec_size_for_k(k);
    (size == 2 || size == 4 || size == 8 || size == 16) ==> buf.len() >= size
}

pub proof fn lemma_pow256_values()
    ensures
        pow256(0) == 1,
        pow256(1) == 256,
        pow256(2) == 0x1_0000,
        pow256(4) == 0x1_0000_0000,
        pow256(8) == 0x1_0000_0000_0000_0000,
        pow256(16) == 0x1_0000_0000_0000_0000_0000_0000_0000_0000,
{
    reveal_with_fuel(pow256, 17);
}

proof fn lemma_le_step(s: Seq<u8>, i: int, size: int)
    requires
        0 < i <= size <= s.len(),
    ensures
        le_value(s.subrange(i - 1, size)) == s[i - 1] + 256 * le_value(s.subrange(i, size)),
{
    assert(s.subrange(i - 1, size).drop_first() =~= s.subrange(i, size));
}

proof fn lemma_mul_bound(v: nat, p: nat, b: nat)
    requires
        v < p,
        b < 256,
    ensures
        b + 256 * v < 256 * p,
{
    assert(b + 256 * v < 256 * p) by (nonlinear_arith)
        requires
            v < p,
            b < 256,
    ;
}

/// Reads the little-endian unsigned value of the first `size_for_k(k)` bytes.
pub fn read_unsigned_ne(buf: &[u8], k: u8) -> (r: u128)
    requires
        read_needs(buf@, k),
    ensures
        r == spec_read_unsigned(buf@, k),
{
    let size = size_for_k(k);
    proof {
        lemma_pow256_values();
    }
    if size == 1 {
        if buf.len() == 0 {
            0
        } else {
            buf[0] as u128
        }
    } else if size == 2 || size == 4 || size == 8 || size == 16 {
        let mut v: u128 = 0;
        let mut i: usize = size;
        assert(buf@.subrange(size as int, size as int) =~= Seq::<u8>::empty());
        while i > 0
            invariant
                size == 2 || size == 4 || size == 8 || size == 16,
                size == spec_size_for_k(k),
                i <= size <= buf@.len(),
                v == le_value(buf@.subrange(i as int, size as int)),
                v < pow256((size - i) as nat),
                pow256(16) == 0x1_0000_0000_0000_0000_0000_0000_0000_0000,
            decreases i,
        {
            proof {
                lemma_le_step(buf@, i as int, size as int);
                lemma_mul_bound(v as nat, pow256((size - i) as nat), buf@[i - 1] as nat);
                assert(pow256((size - i + 1) as nat) == 256 * pow256((size - i) as nat));
                assert(pow256((size - i + 1) as nat) <= pow256(16)) by {
                    lemma_pow256_mono((size - i + 1) as nat, 16);
                }
            }
            v = buf[i - 1] as u128 + 256 * v;
            i = i - 1;
        }
        assert(buf@.subrange(0, size as int) == buf@.subrange(i as int, size as int));
        v
    } else {
        0
    }
}

/// Reads the little-endian unsigned value of `buf[off..off + size]`.
pub fn read_le_at(buf: &[u8], off: usize, size: usize) -> (r: u64)
    requires
        size <= 8,
        off + size <= buf@.len(),
    ensures
        r == le_value(buf@.subrange(off as int, off + size)),
{
    proof {
        lemma_pow256_values();
    }
    let blen = buf.len();
    let mut v: u64 = 0;
    let mut i: usize = size;
    let ghost end = off + size;
    assert(buf@.subrange(end as int, end as int) =~= Seq::<u8>::empty());
    while i > 0
        invariant
            size <= 8,
            i <= size,
            end == off + size <= buf@.len() == blen,
            v == le_value(buf@.subrange(off + i, end as int)),
            v < pow256((size - i) as nat),
            pow256(8) == 0x1_0000_0000_0000_0000,
        decreases i,
    {
        proof {
            lemma_le_step(buf@, off + i, end as int);
            lemma_mul_bound(v as nat, pow256((size - i) as nat), buf@[off + i - 1] as nat);
            assert(pow256((size - i + 1) as nat) == 256 * pow256((size - i) as nat));
            lemma_pow256_mono((size - i + 1) as nat, 8);
        }
        v = buf[off + (i - 1)] as u64 + 256 * v;
        i = i - 1;
    }
    v
}

pub proof fn lemma_pow256_mono(a: nat, b: nat)
    requires
        a <= b,
    ensures
        pow256(a) <= pow256(b),
    decreases b,
{
    if a < b {
        lemma_pow256_mono(a, (b - 1) as nat);
    }
}

pub proof fn lemma_le_bound(s: Seq<u8>)
    ensures
        le_value(s) < pow256(s.len()),
    decreases s.len(),
{
    if s.len() > 0 {
        lemma_le_bound(s.drop_first());
        lemma_mul_bound(le_value(s.drop_first()), pow256(s.drop_first().len()), s[0] as nat);
    }
}

/// Reads the two's-complement signed value of the first `size_for_k(k)` bytes.
pub fn read_signed_ne(buf: &[u8], k: u8) -> (r: i128)
    requires
        read_needs(buf@, k),
    ensures
        r == spec_read_signed(buf@, k),
{
    let size = size_for_k(k);
    let u = read_unsigned_ne(buf, k);
    proof {
        lemma_pow256_values();
        if size == 2 || size == 4 || size == 8 || size == 16 {
            lemma_le_bound(buf@.subrange(0, size as int));
        }
    }
    if size == 1 {
        if u >= 128 {
            (u as i128) - 256
        } else {
            u as i128
        }
    } else if size == 2 {
        if u >= 0x8000 {
            (u as i128) - 0x1_0000
        } else {
            u as i128
        }
    } else if size == 4 {
        if u >= 0x8000_0000 {
            (u as i128) - 0x1_0000_0000
        } else {
            u as i128
        }
    } else if size == 8 {
        if u >= 0x8000_0000_0000_0000 {
            (u as i128) - 0x1_0000_0000_0000_0000
        } else {
            u as i128
        }
    } else if size == 16 {
        if u >= 0x8000_0000_0000_0000_0000_0000_0000_0000 {
            ((u - 0x8000_0000_0000_0000_0000_0000_0000_0000) as i128) + i128::MIN
        } else {
            u as i128
        }
    } else {
        0
    }
}

/// The `size` low bytes of `v`, least significant first.
pub open spec fn le_bytes(v: nat, size: nat) -> Seq<u8>
    decreases size,
{
    if size == 0 {
        Seq::empty()
    } else {
        seq![(v % 256) as u8] + le_bytes(v / 256, (size - 1) as nat)
    }
}

/// The two's-complement bit pattern of `v` over `size` bytes, as an unsigned number.
pub open spec fn twos(v: int, size: nat) -> nat {
    if v < 0 {
        (v + pow256(size)) as nat
    } else {
        v as nat
    }
}

/// The `size`-byte little-endian two's-complement encoding of `v`.
pub open spec fn int_encoding(v: int, size: nat) -> Seq<u8> {
    le_bytes(twos(v, size), size)
}

/// Writes the `size` low bytes of `v`, least significant first, at `buf[start..]`.
pub fn write_le(buf: &mut [u8], start: usize, v: u128, size: usize)
    requires
        start + size <= old(buf)@.len(),
    ensures
        final(buf)@ == old(buf)@.subrange(0, start as int) + le_bytes(v as nat, size as nat)
            + old(buf)@.subrange(start + size, old(buf)@.len() as int),
    decreases size,
{
    if size > 0 {
        buf[start] = (v % 256) as u8;
        let ghost mid = buf@;
        write_le(buf, start + 1, v / 256, size - 1);
        assert(final(buf)@ =~= old(buf)@.subrange(0, start as int) + le_bytes(v as nat, size as nat)
            + old(buf)@.subrange(start + size, old(buf)@.len() as int));
    } else {
        assert(final(buf)@ =~= old(buf)@.subrange(0, start as int) + le_bytes(v as nat, size as nat)
            + old(buf)@.subrange(start + size, old(buf)@.len() as int));
    }
}

pub proof fn lemma_le_bytes_len(v: nat, size: nat)
    ensures
        le_bytes(v, size).len() == size,
    decreases size,
{
    if size > 0 {
        lemma_le_bytes_len(v / 256, (size - 1) as nat);
    }
}

/// Reading back `n` little-endian bytes of `v` gives `v` modulo `256^n`.
pub proof fn lemma_le_roundtrip(v: nat, n: nat)
    ensures
        le_value(le_bytes(v, n)) == v % pow256(n),
    decreases n,
{
    lemma_le_bytes_len(v, n);
    if n > 0 {
        lemma_le_roundtrip(v / 256, (n - 1) as nat);
        let s = le_bytes(v, n);
        assert(s.drop_first() =~= le_bytes(v / 256, (n - 1) as nat));
        assert(pow256(n) == 256 * pow256((n - 1) as nat));
        assert(pow256((n - 1) as nat) > 0) by {
            lemma_pow256_mono(0, (n - 1) as nat);
            lemma_pow256_values();
        }
        vstd::arithmetic::div_mod::lemma_mod_breakdown(v as int, 256, pow256((n - 1) as nat) as int);
    } else {
        lemma_pow256_values();
    }
}

} // verus!
