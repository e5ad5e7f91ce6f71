//! Decimal rendering of the payload byte count carried by the completion
//! trailer.

use crate::headers::is_header_value;
use vstd::prelude::*;

verus! {

/// The ASCII digit for `d`, which is below ten.
pub open spec fn ascii_digit(d: nat) -> u8 {
    (48 + d) as u8
}

/// Whether `b` is one of the ASCII digits `0` to `9`.
pub open spec fn is_ascii_digit(b: u8) -> bool {
    48 <= b <= 57
}

/// The decimal representation of `n` in ASCII, most significant digit first,
/// without leading zeros.
pub open spec fn decimal(n: nat) -> Seq<u8>
    decreases n,
{
    if n < 10 {
        seq![ascii_digit(n)]
    } else {
        decimal(n / 10).push(ascii_digit(n % 10))
    }
}

/// The number that a string of ASCII digits denotes.
pub open spec fn digits_value(s: Seq<u8>) -> nat
    decreases s.len(),
{
    if s.len() == 0 {
        0
    } else {
        digits_value(s.drop_last()) * 10 + (s.last() - 48) as nat
    }
}

/// Renders `n` in decimal ASCII, as `u64`'s `Display` writes it.
pub fn decimal_digits(n: u64) -> (digits: Vec<u8>)
    ensures
        digits@ == decimal(n as nat),
    decreases n,
{
    if n < 10 {
        let mut digits: Vec<u8> = Vec::new();
        digits.push(48u8 + n as u8);
        digits
    } else {
        let mut digits = decimal_digits(n / 10);
        digits.push(48u8 + (n % 10) as u8);
        digits
    }
}

/// Every decimal rendering is a non-empty string of ASCII digits that starts
/// with a non-zero digit unless the number is zero.
pub proof fn lemma_decimal_shape(n: nat)
    ensures
        decimal(n).len() >= 1,
        forall|i: int| 0 <= i < decimal(n).len() ==> #[trigger] is_ascii_digit(decimal(n)[i]),
        n > 0 ==> decimal(n)[0] != 48u8,
    decreases n,
{
    if n >= 10 {
        lemma_decimal_shape(n / 10);
        assert forall|i: int| 0 <= i < decimal(n).len() implies #[trigger] is_ascii_digit(
            decimal(n)[i],
        ) by {
            if i < decimal(n / 10).len() {
                assert(decimal(n)[i] == decimal(n / 10)[i]);
            }
        }
        assert(decimal(n)[0] == decimal(n / 10)[0]);
    }
}

/// Reading a decimal rendering back gives the number that was rendered: the
/// completion trailer reports the count exactly.
pub proof fn lemma_decimal_roundtrip(n: nat)
    ensures
        digits_value(decimal(n)) == n,
    decreases n,
{
    if n < 10 {
        assert(decimal(n).drop_last() =~= Seq::<u8>::empty());
        assert(ascii_digit(n) == 48 + n);
        assert(digits_value(decimal(n)) == digits_value(Seq::<u8>::empty()) * 10 + n);
    } else {
        lemma_decimal_roundtrip(n / 10);
        assert(decimal(n).drop_last() =~= decimal(n / 10));
        assert(decimal(n).last() == ascii_digit(n % 10));
        assert(ascii_digit(n % 10) == 48 + n % 10);
        assert(n == (n / 10) * 10 + n % 10);
        assert(digits_value(decimal(n)) == digits_value(decimal(n / 10)) * 10 + (n % 10));
    }
}

/// Distinct numbers have distinct renderings.
pub proof fn lemma_decimal_injective(m: nat, n: nat)
    requires
        decimal(m) == decimal(n),
    ensures
        m == n,
{
    lemma_decimal_roundtrip(m);
    lemma_decimal_roundtrip(n);
}

/// A decimal rendering is a valid header value.
pub proof fn lemma_decimal_is_header_value(n: nat)
    ensures
        is_header_value(decimal(n)),
{
    lemma_decimal_shape(n);
    assert forall|i: int| 0 <= i < decimal(n).len() implies #[trigger] crate::headers::is_header_value_byte(
        decimal(n)[i],
    ) by {
        assert(is_ascii_digit(decimal(n)[i]));
    }
}

} // verus!
