use vstd::prelude::*;

verus! {

/// One unit of rendered output: a byte of UTF-8 text, or a floating-point value
/// (by its IEEE 754 bits) whose decimal rendering is left to the caller.
#[derive(Debug, Clone, Copy, PartialEq, Eq, Structural)]
pub enum Token {
    Byte(u8),
    F32(u32),
    F64(u64),
}

/// The tokens of the text whose bytes are `s`.
pub open spec fn text(s: Seq<u8>) -> Seq<Token> {
    s.map_values(|b: u8| Token::Byte(b))
}

pub broadcast proof fn lemma_text_add(a: Seq<u8>, b: Seq<u8>)
    ensures
        #[trigger] text(a + b) == text(a) + text(b),
{
    assert(text(a + b) =~= text(a) + text(b));
}

pub broadcast proof fn lemma_text_push(a: Seq<u8>, b: u8)
    ensures
        #[trigger] text(a.push(b)) == text(a).push(Token::Byte(b)),
{
    assert(text(a.push(b)) =~= text(a).push(Token::Byte(b)));
}

/// Decimal digits of `n`, most significant first, without leading zeros.
pub open spec fn dec_digits(n: nat) -> Seq<u8>
    decreases n,
{
    if n < 10 {
        seq![(48 + n) as u8]
    } else {
        dec_digits(n / 10).push((48 + n % 10) as u8)
    }
}

/// Decimal rendering of an integer: a `-` sign for negatives, then the digits.
pub open spec fn dec_int(i: int) -> Seq<u8> {
    if i < 0 {
        seq![45u8] + dec_digits((-i) as nat)
    } else {
        dec_digits(i as nat)
    }
}

/// Decimal digits of `n`, left-padded with `0` to at least `width` characters.
pub open spec fn dec_padded(n: nat, width: nat) -> Seq<u8>
    decreases width,
{
    if dec_digits(n).len() >= width {
        dec_digits(n)
    } else {
        seq![48u8] + dec_padded(n, (width - 1) as nat)
    }
}

/// Appends the bytes of `bytes` to `out` as text.
pub fn push_bytes(out: &mut Vec<Token>, bytes: &[u8])
    ensures
        final(out)@ == old(out)@ + text(bytes@),
{
    let mut i: usize = 0;
    while i < bytes.len()
        invariant
            i <= bytes@.len(),
            out@ == old(out)@ + text(bytes@.subrange(0, i as int)),
        decreases bytes.len() - i,
    {
        proof {
            assert(bytes@.subrange(0, i + 1) =~= bytes@.subrange(0, i as int).push(bytes@[i as int]));
            lemma_text_push(bytes@.subrange(0, i as int), bytes@[i as int]);
        }
        out.push(Token::Byte(bytes[i]));
        i = i + 1;
    }
    assert(bytes@.subrange(0, i as int) =~= bytes@);
}

/// Appends the decimal digits of `n`.
pub fn push_dec_u64(out: &mut Vec<Token>, n: u64)
    ensures
        final(out)@ == old(out)@ + text(dec_digits(n as nat)),
    decreases n,
{
    if n >= 10 {
        push_dec_u64(out, n / 10);
    }
    proof {
        if n >= 10 {
            lemma_text_push(dec_digits((n / 10) as nat), (48 + n % 10) as u8);
        }
    }
    out.push(Token::Byte((48 + n % 10) as u8));
    proof {
        if n < 10 {
            assert(text(dec_digits(n as nat)) =~= seq![Token::Byte((48 + n) as u8)]);
        }
    }
}

/// Appends the decimal rendering of `v`, with a `-` sign when negative.
pub fn push_dec_i64(out: &mut Vec<Token>, v: i64)
    ensures
        final(out)@ == old(out)@ + text(dec_int(v as int)),
{
    if v < 0 {
        out.push(Token::Byte(45));
        let mag: u64 = (0i128 - v as i128) as u64;
        push_dec_u64(out, mag);
        proof {
            lemma_text_add(seq![45u8], dec_digits(mag as nat));
            assert(text(seq![45u8]) =~= seq![Token::Byte(45)]);
        }
    } else {
        push_dec_u64(out, v as u64);
    }
}

/// Appends the decimal digits of `n`.
pub fn push_dec_u128(out: &mut Vec<Token>, n: u128)
    ensures
        final(out)@ == old(out)@ + text(dec_digits(n as nat)),
    decreases n,
{
    if n >= 10 {
        push_dec_u128(out, n / 10);
    }
    proof {
        if n >= 10 {
            lemma_text_push(dec_digits((n / 10) as nat), (48 + n % 10) as u8);
        }
    }
    out.push(Token::Byte((48 + n % 10) as u8));
    proof {
        if n < 10 {
            assert(text(dec_digits(n as nat)) =~= seq![Token::Byte((48 + n) as u8)]);
        }
    }
}

/// Appends the decimal rendering of `v`, with a `-` sign when negative.
pub fn push_dec_i128(out: &mut Vec<Token>, v: i128)
    ensures
        final(out)@ == old(out)@ + text(dec_int(v as int)),
{
    if v < 0 {
        out.push(Token::Byte(45));
        let mag: u128 = ((0 - (v + 1)) as u128) + 1;
        push_dec_u128(out, mag);
        proof {
            lemma_text_add(seq![45u8], dec_digits(mag as nat));
            assert(text(seq![45u8]) =~= seq![Token::Byte(45)]);
        }
    } else {
        push_dec_u128(out, v as u128);
    }
}

pub proof fn lemma_dec_digits_len(n: nat)
    ensures
        dec_digits(n).len() >= 1,
        n < 10 ==> dec_digits(n).len() == 1,
        n >= 10 ==> dec_digits(n).len() == dec_digits(n / 10).len() + 1,
    decreases n,
{
    if n >= 10 {
        lemma_dec_digits_len(n / 10);
    }
}

/// Appends the decimal digits of `n`, left-padded with zeros to `width` characters.
pub fn push_dec_padded(out: &mut Vec<Token>, n: u64, width: usize)
    ensures
        final(out)@ == old(out)@ + text(dec_padded(n as nat, width as nat)),
    decreases width,
{
    let len = dec_len(n);
    if len >= width {
        push_dec_u64(out, n);
    } else {
        out.push(Token::Byte(48));
        proof {
            assert(width >= 1);
        }
        push_dec_padded(out, n, width - 1);
        proof {
            lemma_text_add(seq![48u8], dec_padded(n as nat, (width - 1) as nat));
            assert(text(seq![48u8]) =~= seq![Token::Byte(48)]);
        }
    }
}

/// The number of decimal digits of `n`.
pub fn dec_len(n: u64) -> (r: usize)
    ensures
        r == dec_digits(n as nat).len(),
    decreases n,
{
    proof {
        lemma_dec_digits_len(n as nat);
    }
    if n < 10 {
        1
    } else {
        let r = dec_len(n / 10);
        proof {
            lemma_dec_digits_len((n / 10) as nat);
            lemma_dec_len_bound((n / 10) as nat);
        }
        r + 1
    }
}

pub open spec fn pow10(m: nat) -> nat
    decreases m,
{
    if m == 0 {
        1
    } else {
        10 * pow10((m - 1) as nat)
    }
}

proof fn lemma_dec_len_le(n: nat, m: nat)
    requires
        n < pow10(m),
        m >= 1,
    ensures
        dec_digits(n).len() <= m,
    decreases m,
{
    lemma_dec_digits_len(n);
    if n >= 10 {
        if m == 1 {
            assert(pow10(1) == 10) by {
                reveal_with_fuel(pow10, 2);
            }
        } else {
            let p = pow10((m - 1) as nat);
            assert(n / 10 < p) by (nonlinear_arith)
                requires
                    n < 10 * p,
            ;
            lemma_dec_len_le(n / 10, (m - 1) as nat);
        }
    }
}

proof fn lemma_dec_len_bound(n: nat)
    requires
        n < 0x1_0000_0000_0000_0000,
    ensures
        dec_digits(n).len() <= 20,
{
    assert(pow10(20) == 100_000_000_000_000_000_000) by {
        reveal_with_fuel(pow10, 21);
    }
    lemma_dec_len_le(n, 20);
}

} // verus!
