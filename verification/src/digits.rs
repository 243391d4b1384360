//! Conversions of integers into fixed blocks of ASCII digits.
use vstd::prelude::*;
use crate::decimal::{
    decimal, digit_char, lemma_decimal_len, lemma_padded_split, lemma_pow10_pos, padded, pow10,
};

verus! {

/// The eight decimal digits of `v` (below `10^8`), zero-padded on the left.
pub fn convert_eight(v: u32) -> (out: Vec<u8>)
    requires
        v < 100000000,
    ensures
        out@ == padded(v as nat, 8),
{
    let mut out: Vec<u8> = Vec::new();
    let mut j: usize = 0;
    while j < 8
        invariant
            j <= 8,
            out@.len() == j,
        decreases 8 - j,
    {
        out.push(48u8);
        j = j + 1;
    }
    let mut rest: u32 = v;
    let mut i: usize = 8;
    proof {
        assert(pow10(0) == 1);
        assert(v as nat / 1 == v as nat);
        assert(out@.subrange(8, 8) =~= padded(v as nat, 0));
    }
    while i > 0
        invariant
            i <= 8,
            out@.len() == 8,
            rest as nat == v as nat / pow10((8 - i) as nat),
            out@.subrange(i as int, 8) =~= padded(v as nat, (8 - i) as nat),
        decreases i,
    {
        let ghost m: nat = (8 - i) as nat;
        let ghost before = out@;
        i = i - 1;
        let d: u8 = (rest % 10) as u8;
        out[i] = d + 48;
        proof {
            lemma_pow10_pos(m);
            lemma_padded_split(v as nat, 1, m);
            assert(padded(rest as nat / 10, 0) =~= Seq::<u8>::empty());
            assert(padded(v as nat / pow10(m), 1) =~= seq![digit_char(rest as nat % 10)]);
            assert(out@.subrange(i as int, 8) =~= seq![out@[i as int]] + before.subrange(
                i + 1,
                8,
            ));
            vstd::arithmetic::div_mod::lemma_div_denominator(v as int, pow10(m) as int, 10);
            assert(pow10(m + 1) == 10 * pow10(m));
            vstd::arithmetic::mul::lemma_mul_is_commutative(pow10(m) as int, 10);
            assert((1 + m) as nat == (8 - i) as nat);
        }
        rest = rest / 10;
    }
    proof {
        assert(out@.subrange(0, 8) =~= out@);
    }
    out
}

/// The number of leading `'0'` characters of `digits`, counting no further
/// than `limit`.
pub fn leading_zeros(digits: &Vec<u8>, limit: usize) -> (c: usize)
    requires
        limit <= digits@.len(),
    ensures
        c <= limit,
        forall|i: int| 0 <= i < c ==> digits@[i] == 48u8,
        c < limit ==> digits@[c as int] != 48u8,
{
    let mut c: usize = 0;
    while c < limit && digits[c] == 48u8
        invariant
            c <= limit,
            limit <= digits@.len(),
            forall|i: int| 0 <= i < c ==> digits@[i] == 48u8,
        decreases limit - c,
    {
        c = c + 1;
    }
    c
}

/// The digits of `digits` from position `digit` on.
pub fn shift_digits(digits: &Vec<u8>, digit: usize) -> (out: Vec<u8>)
    requires
        digit <= digits@.len(),
    ensures
        out@ == digits@.subrange(digit as int, digits@.len() as int),
{
    let mut out: Vec<u8> = Vec::new();
    let mut i: usize = digit;
    while i < digits.len()
        invariant
            digit <= i <= digits@.len(),
            out@ =~= digits@.subrange(digit as int, i as int),
        decreases digits@.len() - i,
    {
        out.push(digits[i]);
        i = i + 1;
    }
    out
}

/// The decimal text of `v`, built right to left in a buffer of `width`
/// characters that is wide enough for it.
pub fn short_decimal(v: u64, width: usize) -> (out: Vec<u8>)
    requires
        width >= 1,
        decimal(v as nat).len() <= width,
    ensures
        out@ == decimal(v as nat),
{
    let mut buf: Vec<u8> = Vec::new();
    let mut j: usize = 0;
    while j < width
        invariant
            j <= width,
            buf@.len() == j,
        decreases width - j,
    {
        buf.push(48u8);
        j = j + 1;
    }
    let mut rest: u64 = v;
    let mut offset: usize = width - 1;
    buf[offset] = (rest % 10) as u8 + 48;
    proof {
        assert(buf@.subrange(offset + 1, width as int) =~= Seq::<u8>::empty());
        assert(decimal(v as nat) =~= decimal(rest as nat) + buf@.subrange(offset + 1, width as int));
    }
    while rest >= 10
        invariant
            offset < width,
            buf@.len() == width,
            decimal(v as nat).len() <= width,
            buf@[offset as int] == digit_char(rest as nat % 10),
            decimal(v as nat) =~= decimal(rest as nat) + buf@.subrange(offset + 1, width as int),
        decreases rest,
    {
        let ghost before = buf@;
        let ghost old_rest = rest as nat;
        proof {
            lemma_decimal_len(rest as nat / 10);
            assert(decimal(old_rest) =~= decimal(old_rest / 10).push(before[offset as int]));
            assert(decimal(v as nat).len() == decimal(old_rest).len() + (width - offset - 1));
        }
        rest = rest / 10;
        offset = offset - 1;
        buf[offset] = (rest % 10) as u8 + 48;
        proof {
            assert(buf@.subrange(offset + 1, width as int) =~= seq![before[offset + 1]]
                + before.subrange(offset + 2, width as int));
        }
    }
    proof {
        assert(decimal(rest as nat) =~= seq![buf@[offset as int]]);
    }
    shift_digits(&buf, offset)
}

} // verus!
