//! The decimal text of an integer, as a sequence of ASCII bytes.
use vstd::prelude::*;

verus! {

/// `10` raised to the power `k`.
pub open spec fn pow10(k: nat) -> nat
    decreases k,
{
    if k == 0 {
        1
    } else {
        10 * pow10((k - 1) as nat)
    }
}

/// The ASCII character of the decimal digit `d` (for `d < 10`).
pub open spec fn digit_char(d: nat) -> u8 {
    (d + 48) as u8
}

/// Whether `c` is one of the ASCII characters `'0'..='9'`.
pub open spec fn is_digit_char(c: u8) -> bool {
    48 <= c <= 57
}

/// The canonical decimal text of `n`: its digits, most significant first,
/// with no leading zero (zero itself is the single character `'0'`).
pub open spec fn decimal(n: nat) -> Seq<u8>
    decreases n,
{
    if n < 10 {
        seq![digit_char(n)]
    } else {
        decimal(n / 10).push(digit_char(n % 10))
    }
}


/// The last `k` decimal digits of `n`, as exactly `k` characters: leading
/// positions that `n` does not reach are filled with `'0'`.
pub open spec fn padded(n: nat, k: nat) -> Seq<u8>
    decreases k,
{
    if k == 0 {
        Seq::empty()
    } else {
        padded(n / 10, (k - 1) as nat).push(digit_char(n % 10))
    }
}

/// `k` copies of the character `'0'`.
pub open spec fn zeros(k: nat) -> Seq<u8> {
    Seq::new(k, |i: int| 48u8)
}

/// The decimal text of a signed integer: a `'-'` before the digits of its
/// magnitude when it is negative.
pub open spec fn signed_decimal(i: int) -> Seq<u8> {
    if i < 0 {
        seq![45u8] + decimal((-i) as nat)
    } else {
        decimal(i as nat)
    }
}

/// The number that a string of decimal digits denotes.
pub open spec fn digits_value(s: Seq<u8>) -> nat
    decreases s.len(),
{
    if s.len() == 0 {
        0
    } else {
        10 * digits_value(s.drop_last()) + (s.last() - 48) as nat
    }
}

/// The number that an optionally signed decimal text denotes.
pub open spec fn signed_value(s: Seq<u8>) -> int {
    if s.len() > 0 && s[0] == 45u8 {
        -(digits_value(s.drop_first()) as int)
    } else {
        digits_value(s) as int
    }
}

/// The decimal text of any number is a non-empty string of digit characters
/// that starts with `'0'` only when the number is zero.
pub proof fn lemma_decimal_is_canonical(n: nat)
    ensures
        decimal(n).len() >= 1,
        forall|i: int| 0 <= i < decimal(n).len() ==> #[trigger] is_digit_char(decimal(n)[i]),
        decimal(n)[0] == 48u8 <==> n == 0,
    decreases n,
{
    if n >= 10 {
        lemma_decimal_is_canonical(n / 10);
    }
}

/// Reading the decimal text of `n` back gives `n`.
pub proof fn lemma_decimal_roundtrip(n: nat)
    ensures
        digits_value(decimal(n)) == n,
    decreases n,
{
    if n < 10 {
        assert(decimal(n).drop_last() =~= Seq::<u8>::empty());
        assert(digits_value(Seq::<u8>::empty()) == 0);
    } else {
        lemma_decimal_roundtrip(n / 10);
        assert(decimal(n).drop_last() =~= decimal(n / 10));
    }
}

/// Reading the signed decimal text of `i` back gives `i`.
pub proof fn lemma_signed_decimal_roundtrip(i: int)
    ensures
        signed_value(signed_decimal(i)) == i,
        signed_decimal(i)[0] == 45u8 <==> i < 0,
{
    if i < 0 {
        lemma_decimal_roundtrip((-i) as nat);
        assert((seq![45u8] + decimal((-i) as nat)).drop_first() =~= decimal((-i) as nat));
    } else {
        lemma_decimal_roundtrip(i as nat);
        lemma_decimal_is_canonical(i as nat);
        assert(is_digit_char(decimal(i as nat)[0]));
    }
}

/// The number of characters of the decimal text of `n` is the number of its
/// digits: `n` lies below `10^len`, and at or above `10^(len - 1)` unless it
/// is zero.
pub proof fn lemma_decimal_len(n: nat)
    ensures
        n < pow10(decimal(n).len()),
        n >= 1 ==> pow10((decimal(n).len() - 1) as nat) <= n,
        decimal(n).len() >= 1,
    decreases n,
{
    assert(pow10(1) == 10) by {
        reveal_with_fuel(pow10, 2);
    }
    if n >= 10 {
        lemma_decimal_len(n / 10);
        let l = decimal(n / 10).len();
        assert(decimal(n).len() == l + 1);
        assert(pow10(l + 1) == 10 * pow10(l));
        assert(pow10((l + 1 - 1) as nat) == pow10(l));
        if n / 10 >= 1 {
            assert(pow10((l - 1) as nat) <= n / 10);
        }
    }
}


/// Powers of ten are positive.
pub proof fn lemma_pow10_pos(k: nat)
    ensures
        pow10(k) >= 1,
    decreases k,
{
    if k > 0 {
        lemma_pow10_pos((k - 1) as nat);
    }
}

/// Dividing by `10` and then by `10^(k - 1)` is dividing by `10^k`.
proof fn lemma_div_pow10_step(n: nat, k: nat)
    requires
        k >= 1,
    ensures
        (n / 10) / pow10((k - 1) as nat) == n / pow10(k),
{
    lemma_pow10_pos((k - 1) as nat);
    vstd::arithmetic::div_mod::lemma_div_denominator(n as int, 10, pow10((k - 1) as nat) as int);
}

/// The `k` padded digits of `0` are `k` zeros.
pub proof fn lemma_padded_zero(k: nat)
    ensures
        padded(0, k) =~= zeros(k),
    decreases k,
{
    if k > 0 {
        lemma_padded_zero((k - 1) as nat);
    }
}

/// `padded(n, k)` has exactly `k` characters, all of them digits.
pub proof fn lemma_padded_digits(n: nat, k: nat)
    ensures
        padded(n, k).len() == k,
        forall|i: int| 0 <= i < k ==> #[trigger] is_digit_char(padded(n, k)[i]),
    decreases k,
{
    if k > 0 {
        lemma_padded_digits(n / 10, (k - 1) as nat);
    }
}

/// The decimal text of a number with more than `k` digits is the text of its
/// leading part followed by its last `k` digits.
pub proof fn lemma_decimal_split(n: nat, k: nat)
    requires
        n >= pow10(k),
    ensures
        decimal(n) =~= decimal(n / pow10(k)) + padded(n, k),
    decreases k,
{
    if k == 0 {
        assert(pow10(0) == 1);
        assert(n / 1 == n);
    } else {
        lemma_pow10_pos((k - 1) as nat);
        assert(n >= 10);
        assert(n / 10 >= pow10((k - 1) as nat));
        lemma_decimal_split(n / 10, (k - 1) as nat);
        lemma_div_pow10_step(n, k);
    }
}

/// The last `k` digits of `n` only depend on `n % 10^k`.
pub proof fn lemma_padded_mod(n: nat, k: nat)
    ensures
        padded(n % pow10(k), k) == padded(n, k),
    decreases k,
{
    if k > 0 {
        let p = pow10((k - 1) as nat);
        lemma_pow10_pos((k - 1) as nat);
        vstd::arithmetic::div_mod::lemma_mod_breakdown(n as int, 10, p as int);
        let m = n % pow10(k);
        assert(m == 10 * ((n / 10) % p) + n % 10);
        assert(m / 10 == (n / 10) % p);
        assert(m % 10 == n % 10);
        lemma_padded_mod(n / 10, (k - 1) as nat);
    }
}

/// The last `j + k` digits of `n` are the last `j` digits of `n / 10^k`
/// followed by the last `k` digits of `n`.
pub proof fn lemma_padded_split(n: nat, j: nat, k: nat)
    ensures
        padded(n, j + k) =~= padded(n / pow10(k), j) + padded(n, k),
    decreases k,
{
    if k == 0 {
        assert(pow10(0) == 1);
        assert(n / 1 == n);
    } else {
        lemma_padded_split(n / 10, j, (k - 1) as nat);
        lemma_div_pow10_step(n, k);
        assert(padded(n, j + k) == padded(n / 10, (j + k - 1) as nat).push(digit_char(n % 10)));
        assert((j + k - 1) as nat == j + (k - 1) as nat);
    }
}

/// A number below `10^k` written with `k` padded digits is its decimal
/// text after as many zeros as it lacks digits.
pub proof fn lemma_padded_leading_zeros(n: nat, k: nat)
    requires
        k >= 1,
        n < pow10(k),
    ensures
        decimal(n).len() <= k,
        padded(n, k) =~= zeros((k - decimal(n).len()) as nat) + decimal(n),
    decreases k,
{
    if k == 1 {
        assert(pow10(1) == 10) by {
            reveal_with_fuel(pow10, 2);
        }
        assert(padded(0, 0) =~= Seq::<u8>::empty());
    } else if n < 10 {
        lemma_padded_zero((k - 1) as nat);
    } else {
        lemma_pow10_pos((k - 1) as nat);
        assert(n / 10 < pow10((k - 1) as nat));
        lemma_padded_leading_zeros(n / 10, (k - 1) as nat);
    }
}


/// The powers of ten that bound the integer widths.
pub proof fn lemma_pow10_values()
    ensures
        pow10(1) == 10,
        pow10(2) == 100,
        pow10(3) == 1000,
        pow10(4) == 10000,
        pow10(5) == 100000,
        pow10(8) == 100000000,
        pow10(10) == 10000000000,
        pow10(16) == 10000000000000000,
        pow10(20) == 100000000000000000000,
{
    reveal_with_fuel(pow10, 21);
}

/// A number below `10^k` has at most `k` digits.
pub proof fn lemma_decimal_len_bound(n: nat, k: nat)
    requires
        k >= 1,
        n < pow10(k),
    ensures
        decimal(n).len() <= k,
{
    lemma_padded_leading_zeros(n, k);
}

/// Skipping the leading zeros of the `k` padded digits of a number below
/// `10^k`, keeping at least the last digit, leaves its decimal text.
pub proof fn lemma_strip_leading_zeros(n: nat, k: nat, s: Seq<u8>, c: int)
    requires
        k >= 1,
        n < pow10(k),
        s == padded(n, k),
        0 <= c <= k - 1,
        forall|i: int| 0 <= i < c ==> s[i] == 48u8,
        c < k - 1 ==> s[c] != 48u8,
    ensures
        s.subrange(c, k as int) =~= decimal(n),
{
    lemma_padded_leading_zeros(n, k);
    lemma_decimal_is_canonical(n);
    let l = decimal(n).len();
    let z = (k - l) as int;
    assert(s[z] == decimal(n)[0]);
    if n == 0 {
        assert(l == 1);
        assert(c == k - 1) by {
            if c < k - 1 {
                assert(s[c] == 48u8);
            }
        }
    } else {
        assert(c == z) by {
            if c < z {
                assert(s[c] == 48u8);
            } else if c > z {
                assert(s[z] == 48u8);
            }
        }
    }
}


/// Different numbers have different decimal texts.
pub proof fn lemma_decimal_injective(m: nat, n: nat)
    requires
        decimal(m) == decimal(n),
    ensures
        m == n,
{
    lemma_decimal_roundtrip(m);
    lemma_decimal_roundtrip(n);
}

/// Different signed numbers have different signed decimal texts.
pub proof fn lemma_signed_decimal_injective(i: int, j: int)
    requires
        signed_decimal(i) == signed_decimal(j),
    ensures
        i == j,
{
    lemma_signed_decimal_roundtrip(i);
    lemma_signed_decimal_roundtrip(j);
}

/// A number that is not negative has the same text signed as unsigned.
pub proof fn lemma_signed_decimal_nonnegative(i: int)
    requires
        i >= 0,
    ensures
        signed_decimal(i) == decimal(i as nat),
{
}

} // verus!
