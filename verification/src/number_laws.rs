//! What numbers as text are for: a number is read as it was written, and nothing else is read
//! as a number.

use crate::number;
use vstd::arithmetic::power::pow;
use vstd::prelude::*;

verus! {

/// Whether a text is one or more decimal digits.
pub open spec fn are_digits(s: Seq<char>) -> bool {
    s.len() > 0 && forall|i: int| 0 <= i < s.len() ==> '0' <= #[trigger] s[i] <= '9'
}

/// The value of a text of digits: one more digit makes ten times as much, and the digit.
pub proof fn law_digits_in_place_value(s: Seq<char>, d: int)
    requires
        0 <= d < 10,
    ensures
        number::digits_value(Seq::empty()) == 0,
        number::digits_value(s.push((48 + d) as char)) == 10 * number::digits_value(s) + d,
{
    assert(s.push((48 + d) as char).drop_last() =~= s);
}

/// A text is a number exactly where it is decimal digits, with one plus sign before them or
/// none, whose value is not too large; and then it is that value.
pub proof fn law_what_is_a_number(s: Seq<char>, max: nat)
    ensures
        are_digits(s) && number::digits_value(s) <= max ==> number::number_of(s, max) == Some(
            number::digits_value(s),
        ) && number::number_of(seq!['+'] + s, max) == Some(number::digits_value(s)),
        are_digits(s) && number::digits_value(s) > max ==> number::number_of(s, max) is None
            && number::number_of(seq!['+'] + s, max) is None,
        !are_digits(s) ==> number::number_of(seq!['+'] + s, max) is None,
        !are_digits(s) && !(s.len() > 0 && s[0] == '+') ==> number::number_of(s, max) is None,
{
    let signed = seq!['+'] + s;
    assert(signed.drop_first() =~= s);
    if are_digits(s) {
        assert('0' <= s[0] <= '9');
        assert forall|i: int| 0 <= i < s.len() implies number::is_digit(#[trigger] s[i]) by {}
    } else if s.len() > 0 {
        let i = choose|i: int| 0 <= i < s.len() && !('0' <= #[trigger] s[i] <= '9');
        assert(!number::is_digit(s[i]));
    }
}

/// A number is written in decimal digits, without a leading zero, and they have its value.
pub proof fn law_decimal_form(n: nat)
    ensures
        are_digits(number::decimal_text(n)),
        number::digits_value(number::decimal_text(n)) == n,
        n > 0 ==> number::decimal_text(n)[0] != '0',
        number::decimal_text(0) == seq!['0'],
    decreases n,
{
    number::lemma_decimal(n);
    let s = number::decimal_text(n);
    assert forall|i: int| 0 <= i < s.len() implies '0' <= #[trigger] s[i] <= '9' by {
        assert(number::is_digit(s[i]));
    }
    if n >= 10 {
        law_decimal_form(n / 10);
    }
}

/// Two numbers that are written in the same way are the same.
pub proof fn law_decimal_tells_numbers_apart(a: nat, b: nat)
    requires
        number::decimal_text(a) == number::decimal_text(b),
    ensures
        a == b,
{
    number::lemma_decimal(a);
    number::lemma_decimal(b);
}

/// The value of a hexadecimal digit in lower case.
pub open spec fn hex_digit_value(c: char) -> int {
    if '0' <= c <= '9' {
        c as int - 48
    } else {
        c as int - 87
    }
}

/// The value of a text of hexadecimal digits.
pub open spec fn hex_value(s: Seq<char>) -> int
    decreases s.len(),
{
    if s.len() == 0 {
        0
    } else {
        16 * hex_value(s.drop_last()) + hex_digit_value(s.last())
    }
}

/// A number that is not too large for some hexadecimal digits reads back from them.
pub proof fn law_hex_reads_back(n: nat, width: nat)
    requires
        n < pow(16, width),
    ensures
        number::hex_text(n, width).len() == width,
        hex_value(number::hex_text(n, width)) == n,
    decreases width,
{
    reveal(pow);
    if width > 0 {
        let less = (width - 1) as nat;
        let s = number::hex_text(n, width);
        assert(pow(16, width) == 16 * pow(16, less));
        law_hex_reads_back(n / 16, less);
        assert(s.drop_last() =~= number::hex_text(n / 16, less));
        assert(s.last() == number::digit_char((n % 16) as int));
        assert(hex_digit_value(s.last()) == n % 16);
    }
}

} // verus!
