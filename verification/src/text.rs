//! Operations on text, stated over the characters of a string.

use crate::ascii;
use vstd::prelude::*;
use vstd::utf8::*;

verus! {

/// What a computation gives, as a mathematical value: its result, or the text of its error.
pub open spec fn outcome<T: View>(r: Result<T, String>) -> Result<T::V, Seq<char>> {
    match r {
        Ok(value) => Ok(value@),
        Err(message) => Err(message@),
    }
}

/// The texts before and after the first `c` in `s`, where there is one.
pub open spec fn split_at_first(s: Seq<char>, c: char) -> Option<(Seq<char>, Seq<char>)> {
    match s.index_of_first(c) {
        Some(i) => Some((s.take(i), s.skip(i + 1))),
        None => None,
    }
}

/// A text made of `before`, `c` and `after`, with no `c` in `before`, is split there.
pub proof fn lemma_split_at_first(s: Seq<char>, c: char, before: Seq<char>, after: Seq<char>)
    requires
        s == before + seq![c] + after,
        !before.contains(c),
    ensures
        split_at_first(s, c) == Some((before, after)),
{
    s.index_of_first_ensures(c);
    let n = before.len() as int;
    assert(s[n] == c);
    let i = s.index_of_first(c).unwrap();
    if i < n {
        assert(before[i] == c);
    }
    assert(s.take(n) =~= before);
    assert(s.skip(n + 1) =~= after);
}

/// The parts of a split text, and that the first holds no delimiter.
pub proof fn lemma_split_parts(s: Seq<char>, c: char)
    ensures
        match split_at_first(s, c) {
            Some((before, after)) => s == before + seq![c] + after && !before.contains(c)
                && after.len() < s.len() && s.contains(c),
            None => !s.contains(c),
        },
{
    s.index_of_first_ensures(c);
    match s.index_of_first(c) {
        Some(i) => {
            assert(s =~= s.take(i) + seq![c] + s.skip(i + 1));
            assert forall|j: int| 0 <= j < i implies #[trigger] s.take(i)[j] != c by {
                assert(s[j] != c);
            }
        },
        None => {},
    }
}

/// Whether two strings hold the same characters.
pub fn str_eq(a: &str, b: &str) -> (equal: bool)
    ensures
        equal == (a@ == b@),
{
    let x = a.as_bytes();
    let y = b.as_bytes();
    if x.len() != y.len() {
        return false;
    }
    let mut i: usize = 0;
    while i < x.len()
        invariant
            i <= x@.len(),
            x@.len() == y@.len(),
            x@ == encode_utf8(a@),
            y@ == encode_utf8(b@),
            forall|j: int| 0 <= j < i ==> x@[j] == y@[j],
        decreases x@.len() - i,
    {
        if x[i] != y[i] {
            return false;
        }
        i += 1;
    }
    proof {
        assert(x@ =~= y@);
        ascii::lemma_encode_injective(a@, b@);
    }
    true
}

/// A string without its last character, which is an ASCII character.
pub fn drop_last_char(s: &str) -> (r: &str)
    requires
        s@.len() > 0,
        (s@.last() as u32) < 0x80,
    ensures
        r@ == s@.drop_last(),
{
    let ghost last = s@.last();
    proof {
        assert(s@ =~= s@.drop_last() + seq![last]);
        ascii::lemma_encode_concat(s@.drop_last(), seq![last]);
        ascii::lemma_encode_one(last);
        ascii::lemma_boundary_at_ascii(s@, encode_utf8(s@).len() - 1);
    }
    let n = s.as_bytes().len();
    let (r, _) = s.split_at(n - 1);
    proof {
        assert(encode_utf8(r@) =~= encode_utf8(s@.drop_last()));
        ascii::lemma_encode_injective(r@, s@.drop_last());
    }
    r
}

/// A string without its first character, which is an ASCII character.
pub fn drop_first_char(s: &str) -> (r: &str)
    requires
        s@.len() > 0,
        (s@[0] as u32) < 0x80,
    ensures
        r@ == s@.drop_first(),
{
    let ghost first = s@[0];
    proof {
        assert(s@ =~= seq![first] + s@.drop_first());
        ascii::lemma_encode_concat(seq![first], s@.drop_first());
        ascii::lemma_encode_one(first);
        encode_utf8_valid_utf8(s@);
        reveal_with_fuel(is_char_boundary, 2);
    }
    let (_, r) = s.split_at(1);
    proof {
        assert(encode_utf8(r@) =~= encode_utf8(s@.drop_first()));
        ascii::lemma_encode_injective(r@, s@.drop_first());
    }
    r
}

/// Splits a string at the first occurrence of an ASCII delimiter.
pub fn split_once(s: &str, delimiter: u8) -> (r: Option<(&str, &str)>)
    requires
        delimiter < 0x80,
    ensures
        match r {
            Some((before, after)) => split_at_first(s@, delimiter as char) == Some(
                (before@, after@),
            ),
            None => split_at_first(s@, delimiter as char) is None,
        },
{
    let bytes = s.as_bytes();
    let ghost c = delimiter as char;
    let mut i: usize = 0;
    while i < bytes.len()
        invariant
            i <= bytes@.len(),
            bytes@ == encode_utf8(s@),
            delimiter < 0x80,
            c == delimiter as char,
            forall|j: int| 0 <= j < i ==> bytes@[j] != delimiter,
        decreases bytes@.len() - i,
    {
        if bytes[i] == delimiter {
            proof {
                ascii::lemma_boundary_at_ascii(s@, i as int);
            }
            let (before, rest) = s.split_at(i);
            proof {
                ascii::lemma_encode_first(rest@, c);
            }
            let after = drop_first_char(rest);
            proof {
                ascii::lemma_encode_concat(before@, rest@);
                assert(encode_utf8(before@ + rest@) =~= encode_utf8(s@));
                ascii::lemma_encode_injective(before@ + rest@, s@);
                assert(rest@ =~= seq![c] + after@);
                assert(s@ =~= before@ + seq![c] + after@);
                ascii::lemma_encode_contains(before@, c);
                assert(!encode_utf8(before@).contains(delimiter));
                lemma_split_at_first(s@, c, before@, after@);
            }
            return Some((before, after));
        }
        i += 1;
    }
    proof {
        assert(!bytes@.contains(delimiter));
        ascii::lemma_encode_contains(s@, c);
        lemma_split_parts(s@, c);
    }
    None
}

/// A line without one carriage return at its end.
pub open spec fn without_carriage_return(line: Seq<char>) -> Seq<char> {
    if line.len() > 0 && line.last() == '\r' {
        line.drop_last()
    } else {
        line
    }
}

/// Removes one carriage return from the end of a line.
pub fn strip_carriage_return(line: &str) -> (r: &str)
    ensures
        r@ == without_carriage_return(line@),
{
    if ends_with_byte(line, 13) {
        drop_last_char(line)
    } else {
        line
    }
}

/// Whether the last character of a string is a given ASCII character.
pub fn ends_with_byte(s: &str, byte: u8) -> (r: bool)
    requires
        byte < 0x80,
    ensures
        r == (s@.len() > 0 && s@.last() == byte as char),
{
    let bytes = s.as_bytes();
    let n = bytes.len();
    proof {
        if s@.len() > 0 {
            ascii::lemma_encode_last(s@, byte as char);
        }
    }
    n > 0 && bytes[n - 1] == byte
}

/// A line without the carriage returns and line feeds at its end.
pub open spec fn without_line_end(line: Seq<char>) -> Seq<char>
    decreases line.len(),
{
    if line.len() > 0 && (line.last() == '\r' || line.last() == '\n') {
        without_line_end(line.drop_last())
    } else {
        line
    }
}

/// Removes every carriage return and line feed from the end of a line.
pub fn trim_line_end(line: &str) -> (r: &str)
    ensures
        r@ == without_line_end(line@),
{
    let mut r = line;
    while ends_with_byte(r, 13) || ends_with_byte(r, 10)
        invariant
            without_line_end(r@) == without_line_end(line@),
        decreases r@.len(),
    {
        r = drop_last_char(r);
    }
    r
}

/// The lines of a text. A line ends at a line feed, or at a carriage return and a line
/// feed; what follows the last line feed is a line of its own unless it is empty.
pub open spec fn lines_of(text: Seq<char>) -> Seq<Seq<char>>
    decreases text.len(),
    via lines_of_decreases
{
    if text.len() == 0 {
        Seq::empty()
    } else {
        match split_at_first(text, '\n') {
            Some((line, rest)) => seq![without_carriage_return(line)] + lines_of(rest),
            None => seq![text],
        }
    }
}

#[via_fn]
proof fn lines_of_decreases(text: Seq<char>) {
    lemma_split_parts(text, '\n');
}

/// Takes the first line off a text.
pub fn next_line(text: &str) -> (r: (&str, &str))
    requires
        text@.len() > 0,
    ensures
        lines_of(text@) == seq![r.0@] + lines_of(r.1@),
        r.1@.len() < text@.len(),
{
    proof {
        lemma_split_parts(text@, '\n');
    }
    match split_once(text, 10) {
        Some((line, rest)) => (strip_carriage_return(line), rest),
        None => {
            proof {
                reveal_strlit("");
                assert(lines_of(text@) =~= seq![text@] + lines_of(""@));
            }
            (text, "")
        },
    }
}

/// The characters of a string.
pub fn chars_of(s: &str) -> (chars: Vec<char>)
    ensures
        chars@ == s@,
{
    let mut chars: Vec<char> = Vec::new();
    for c in iter: s.chars()
        invariant
            iter.seq() == s@,
            chars@ == s@.take(iter.index() as int),
    {
        chars.push(c);
        proof {
            assert(s@.take(iter.index() + 1) =~= s@.take(iter.index() as int).push(c));
        }
    }
    proof {
        assert(s@.take(s@.len() as int) =~= s@);
    }
    chars
}

/// The characters with the Unicode property White_Space.
pub open spec fn is_white_space(c: char) -> bool {
    ||| '\u{9}' <= c <= '\u{d}'
    ||| c == '\u{20}'
    ||| c == '\u{85}'
    ||| c == '\u{a0}'
    ||| c == '\u{1680}'
    ||| '\u{2000}' <= c <= '\u{200a}'
    ||| c == '\u{2028}'
    ||| c == '\u{2029}'
    ||| c == '\u{202f}'
    ||| c == '\u{205f}'
    ||| c == '\u{3000}'
}

/// Whether a character is white space.
pub fn is_whitespace(c: char) -> (r: bool)
    ensures
        r == is_white_space(c),
{
    ('\u{9}' <= c && c <= '\u{d}') || c == '\u{20}' || c == '\u{85}' || c == '\u{a0}' || c
        == '\u{1680}' || ('\u{2000}' <= c && c <= '\u{200a}') || c == '\u{2028}' || c == '\u{2029}'
        || c == '\u{202f}' || c == '\u{205f}' || c == '\u{3000}'
}

/// A text without the white space at its start and end.
pub open spec fn without_outer_space(s: Seq<char>) -> Seq<char>
    decreases s.len(),
{
    if s.len() > 0 && is_white_space(s[0]) {
        without_outer_space(s.drop_first())
    } else if s.len() > 0 && is_white_space(s.last()) {
        without_outer_space(s.drop_last())
    } else {
        s
    }
}

/// Removes the white space at the start and the end of a string.
pub fn trim(s: &str) -> (r: &str)
    ensures
        r@ == without_outer_space(s@),
{
    let chars = chars_of(s);
    let mut from: usize = 0;
    let mut to: usize = chars.len();
    proof {
        assert(s@.subrange(0, s@.len() as int) =~= s@);
    }
    while from < to && is_whitespace(chars[from])
        invariant
            chars@ == s@,
            from <= to,
            to == chars@.len(),
            without_outer_space(s@.subrange(from as int, to as int)) == without_outer_space(s@),
        decreases to - from,
    {
        proof {
            let part = s@.subrange(from as int, to as int);
            assert(part[0] == s@[from as int]);
            assert(part.drop_first() =~= s@.subrange(from + 1, to as int));
        }
        from += 1;
    }
    while from < to && is_whitespace(chars[to - 1])
        invariant
            chars@ == s@,
            from <= to <= chars@.len(),
            from < to ==> !is_white_space(s@[from as int]),
            without_outer_space(s@.subrange(from as int, to as int)) == without_outer_space(s@),
        decreases to - from,
    {
        proof {
            let part = s@.subrange(from as int, to as int);
            assert(part[0] == s@[from as int]);
            assert(part.last() == s@[to - 1]);
            assert(part.drop_last() =~= s@.subrange(from as int, to - 1));
        }
        to -= 1;
    }
    s.substring_char(from, to)
}

/// Whether `needle` stands somewhere in `haystack`.
pub open spec fn has_part(haystack: Seq<char>, needle: Seq<char>) -> bool {
    exists|i: int| #[trigger] is_part_at(haystack, needle, i)
}

/// Whether `needle` stands in `haystack` at position `i`.
pub open spec fn is_part_at(haystack: Seq<char>, needle: Seq<char>, i: int) -> bool {
    0 <= i && i + needle.len() <= haystack.len() && haystack.subrange(i, i + needle.len())
        == needle
}

/// Whether a string stands in another at a given position.
fn part_at(haystack: &Vec<char>, needle: &Vec<char>, i: usize) -> (r: bool)
    requires
        i + needle@.len() <= haystack@.len(),
    ensures
        r == is_part_at(haystack@, needle@, i as int),
{
    let mut j: usize = 0;
    let end: usize = haystack.len();
    while j < needle.len()
        invariant
            j <= needle@.len(),
            i + needle@.len() <= haystack@.len() == end,
            forall|k: int| 0 <= k < j ==> haystack@[i + k] == needle@[k],
        decreases needle@.len() - j,
    {
        if haystack[i + j] != needle[j] {
            proof {
                assert(haystack@.subrange(i as int, i + needle@.len())[j as int] == haystack@[i
                    + j]);
            }
            return false;
        }
        j += 1;
    }
    proof {
        assert(haystack@.subrange(i as int, i + needle@.len()) =~= needle@);
    }
    true
}

/// Whether a string holds another one.
pub fn contains(haystack: &str, needle: &str) -> (r: bool)
    ensures
        r == has_part(haystack@, needle@),
{
    let h = chars_of(haystack);
    let n = chars_of(needle);
    if n.len() > h.len() {
        return false;
    }
    let mut i: usize = 0;
    while i <= h.len() - n.len()
        invariant
            h@ == haystack@,
            n@ == needle@,
            n@.len() <= h@.len(),
            i <= h@.len() - n@.len() + 1,
            forall|k: int| 0 <= k < i ==> !is_part_at(haystack@, needle@, k),
        decreases h@.len() - n@.len() + 1 - i,
    {
        if part_at(&h, &n, i) {
            return true;
        }
        if i == h.len() - n.len() {
            return false;
        }
        i += 1;
    }
    false
}

/// Whether a string holds at least one of the given ones.
pub fn contains_any(haystack: &str, needles: &[&str]) -> (r: bool)
    ensures
        r == exists|i: int| 0 <= i < needles@.len() && #[trigger] has_part(haystack@, needles@[i]@),
{
    let mut i: usize = 0;
    while i < needles.len()
        invariant
            i <= needles@.len(),
            forall|k: int| 0 <= k < i ==> !(#[trigger] has_part(haystack@, needles@[k]@)),
        decreases needles@.len() - i,
    {
        if contains(haystack, needles[i]) {
            return true;
        }
        i += 1;
    }
    false
}

} // verus!
