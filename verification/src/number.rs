//! Numbers as text: decimal and hexadecimal digits, and the decimal numbers that are
//! accepted as input.

use crate::text;
use vstd::prelude::*;

verus! {

/// The digit with value `d`, in lower case above nine.
pub open spec fn digit_char(d: int) -> char {
    if d < 10 {
        (48 + d) as char
    } else {
        (87 + d) as char
    }
}

/// The decimal digits of a number, without leading zeros.
pub open spec fn decimal_text(n: nat) -> Seq<char>
    decreases n,
{
    if n < 10 {
        seq![digit_char(n as int)]
    } else {
        decimal_text(n / 10).push(digit_char((n % 10) as int))
    }
}

/// The lowest `width` hexadecimal digits of a number.
pub open spec fn hex_text(n: nat, width: nat) -> Seq<char>
    decreases width,
{
    if width == 0 {
        Seq::empty()
    } else {
        hex_text(n / 16, (width - 1) as nat).push(digit_char((n % 16) as int))
    }
}

/// A digit as a string.
fn digit(d: u8) -> (s: &'static str)
    requires
        d < 16,
    ensures
        s@ == seq![digit_char(d as int)],
{
    proof {
        reveal_strlit("0");
        reveal_strlit("1");
        reveal_strlit("2");
        reveal_strlit("3");
        reveal_strlit("4");
        reveal_strlit("5");
        reveal_strlit("6");
        reveal_strlit("7");
        reveal_strlit("8");
        reveal_strlit("9");
        reveal_strlit("a");
        reveal_strlit("b");
        reveal_strlit("c");
        reveal_strlit("d");
        reveal_strlit("e");
        reveal_strlit("f");
    }
    let s = match d {
        0 => "0",
        1 => "1",
        2 => "2",
        3 => "3",
        4 => "4",
        5 => "5",
        6 => "6",
        7 => "7",
        8 => "8",
        9 => "9",
        10 => "a",
        11 => "b",
        12 => "c",
        13 => "d",
        14 => "e",
        _ => "f",
    };
    proof {
        assert(s@ =~= seq![digit_char(d as int)]);
    }
    s
}

/// Writes a number in decimal.
pub fn decimal(n: u128) -> (s: String)
    ensures
        s@ == decimal_text(n as nat),
    decreases n,
{
    if n < 10 {
        let mut s = String::new();
        s.append(digit(n as u8));
        proof {
            assert(s@ =~= decimal_text(n as nat));
        }
        s
    } else {
        let mut s = decimal(n / 10);
        s.append(digit((n % 10) as u8));
        proof {
            assert(s@ =~= decimal_text(n as nat));
        }
        s
    }
}

/// Writes the lowest `width` hexadecimal digits of a number.
pub fn hex(n: u64, width: u8) -> (s: String)
    ensures
        s@ == hex_text(n as nat, width as nat),
    decreases width,
{
    if width == 0 {
        String::new()
    } else {
        let mut s = hex(n / 16, width - 1);
        s.append(digit((n % 16) as u8));
        proof {
            assert(s@ =~= hex_text(n as nat, width as nat));
        }
        s
    }
}

/// Whether a character is a decimal digit.
pub open spec fn is_digit(c: char) -> bool {
    '0' <= c <= '9'
}

/// The value of a text of decimal digits.
pub open spec fn digits_value(s: Seq<char>) -> nat
    decreases s.len(),
{
    if s.len() == 0 {
        0
    } else {
        digits_value(s.drop_last()) * 10 + (s.last() as nat - 48) as nat
    }
}

/// A text without one plus sign at its start.
pub open spec fn without_plus(s: Seq<char>) -> Seq<char> {
    if s.len() > 0 && s[0] == '+' {
        s.drop_first()
    } else {
        s
    }
}

/// The number that a text stands for: one or more decimal digits, with a plus sign before
/// them or none, whose value is at most `max`.
pub open spec fn number_of(s: Seq<char>, max: nat) -> Option<nat> {
    let digits = without_plus(s);
    if digits.len() > 0 && (forall|i: int| 0 <= i < digits.len() ==> is_digit(#[trigger] digits[i]))
        && digits_value(digits) <= max {
        Some(digits_value(digits))
    } else {
        None
    }
}

/// Reads a decimal number that is at most `max`.
pub fn parse_number(s: &str, max: u64) -> (r: Option<u64>)
    ensures
        match r {
            Some(n) => number_of(s@, max as nat) == Some(n as nat),
            None => number_of(s@, max as nat) is None,
        },
{
    let chars = text::chars_of(s);
    let start: usize = if chars.len() > 0 && chars[0] == '+' {
        1
    } else {
        0
    };
    let ghost digits = without_plus(s@);
    proof {
        assert(digits =~= s@.skip(start as int));
        assert(digits.take(0) =~= Seq::<char>::empty());
    }
    if chars.len() == start {
        return None;
    }
    let mut i: usize = start;
    let mut value: u64 = 0;
    let mut too_large: bool = false;
    while i < chars.len()
        invariant
            chars@ == s@,
            start <= i <= chars@.len(),
            digits == s@.skip(start as int),
            digits == without_plus(s@),
            digits.len() > 0,
            forall|k: int| 0 <= k < i - start ==> is_digit(#[trigger] digits[k]),
            !too_large ==> value == digits_value(digits.take(i - start)) && value <= max,
            too_large ==> digits_value(digits.take(i - start)) > max,
        decreases chars@.len() - i,
    {
        let c = chars[i];
        proof {
            assert(digits[i - start] == c);
            assert(digits.take(i - start + 1).drop_last() =~= digits.take(i - start));
            assert(digits.take(i - start + 1).last() == c);
        }
        if c < '0' || '9' < c {
            return None;
        }
        let d: u64 = (c as u32 - 48) as u64;
        if !too_large {
            if value > (u64::MAX - d) / 10 {
                too_large = true;
            } else {
                value = value * 10 + d;
                if value > max {
                    too_large = true;
                }
            }
        }
        i += 1;
    }
    proof {
        assert(digits.take(digits.len() as int) =~= digits);
    }
    if too_large {
        None
    } else {
        Some(value)
    }
}

/// A number written in decimal is made of digits and reads back as the same number.
pub proof fn law_decimal_reads_back(n: nat, max: nat)
    requires
        n <= max,
    ensures
        number_of(decimal_text(n), max) == Some(n),
{
    lemma_decimal(n);
    let s = decimal_text(n);
    assert(is_digit(s[0]));
    assert(without_plus(s) == s);
}

/// The decimal digits of a number and their value.
pub proof fn lemma_decimal(n: nat)
    ensures
        decimal_text(n).len() > 0,
        forall|i: int| 0 <= i < decimal_text(n).len() ==> is_digit(#[trigger] decimal_text(n)[i]),
        digits_value(decimal_text(n)) == n,
    decreases n,
{
    let s = decimal_text(n);
    if n < 10 {
        assert(s.drop_last() =~= Seq::<char>::empty());
        assert(digits_value(s.drop_last()) == 0);
    } else {
        lemma_decimal(n / 10);
        assert(s.drop_last() =~= decimal_text(n / 10));
        assert(s.last() == digit_char((n % 10) as int));
    }
}

/// Whether a character is a hexadecimal digit in lower case.
pub open spec fn is_hex_digit(c: char) -> bool {
    '0' <= c <= '9' || 'a' <= c <= 'f'
}

/// Hexadecimal text has the width asked for and is made of hexadecimal digits.
pub proof fn lemma_hex(n: nat, width: nat)
    ensures
        hex_text(n, width).len() == width,
        forall|i: int| 0 <= i < width ==> is_hex_digit(#[trigger] hex_text(n, width)[i]),
    decreases width,
{
    if width > 0 {
        lemma_hex(n / 16, (width - 1) as nat);
    }
}

} // verus!
