//! What the operations on text are for: what goes into a text comes out of it again.

use crate::text;
use vstd::prelude::*;

verus! {

/// Whether a text is white space throughout.
pub open spec fn is_blank(s: Seq<char>) -> bool {
    forall|i: int| 0 <= i < s.len() ==> text::is_white_space(#[trigger] s[i])
}

/// Whether a text neither begins nor ends with white space.
pub open spec fn is_trimmed(s: Seq<char>) -> bool {
    s.len() > 0 ==> !text::is_white_space(s[0]) && !text::is_white_space(s.last())
}

/// Trimming takes off the white space around a text, all of it and nothing else.
pub proof fn law_trim_takes_off_what_was_put_around(
    before: Seq<char>,
    s: Seq<char>,
    after: Seq<char>,
)
    requires
        is_blank(before),
        is_trimmed(s),
        is_blank(after),
    ensures
        text::without_outer_space(before + s + after) == s,
    decreases before.len() + after.len(),
{
    let all = before + s + after;
    if before.len() > 0 {
        assert(text::is_white_space(before[0]));
        assert(all[0] == before[0]);
        let rest = before.drop_first();
        assert forall|i: int| 0 <= i < rest.len() implies text::is_white_space(
            #[trigger] rest[i],
        ) by {
            assert(rest[i] == before[i + 1]);
        }
        assert(all.drop_first() =~= rest + s + after);
        law_trim_takes_off_what_was_put_around(rest, s, after);
    } else if after.len() > 0 {
        let rest = after.drop_last();
        assert(text::is_white_space(after.last()));
        assert forall|i: int| 0 <= i < rest.len() implies text::is_white_space(
            #[trigger] rest[i],
        ) by {
            assert(rest[i] == after[i]);
        }
        if s.len() == 0 {
            let next = after.drop_first();
            assert(text::is_white_space(after[0]));
            assert(all[0] == after[0]);
            assert forall|i: int| 0 <= i < next.len() implies text::is_white_space(
                #[trigger] next[i],
            ) by {
                assert(next[i] == after[i + 1]);
            }
            assert(all.drop_first() =~= before + s + next);
            law_trim_takes_off_what_was_put_around(before, s, next);
        } else {
            assert(all[0] == s[0]);
            assert(all.last() == after.last());
            assert(all.drop_last() =~= before + s + rest);
            law_trim_takes_off_what_was_put_around(before, s, rest);
        }
    } else {
        assert(all =~= s);
    }
}

/// Every text is a trimmed text with white space around it, and trimming gives that text.
pub proof fn law_trimmed_text(s: Seq<char>)
    ensures
        is_trimmed(text::without_outer_space(s)),
        exists|before: Seq<char>, after: Seq<char>|
            #![trigger is_blank(before), is_blank(after)]
            is_blank(before) && is_blank(after) && s == before + text::without_outer_space(s)
                + after,
    decreases s.len(),
{
    let r = text::without_outer_space(s);
    let none = Seq::<char>::empty();
    if s.len() > 0 && text::is_white_space(s[0]) {
        law_trimmed_text(s.drop_first());
        let (a, b) = choose|before: Seq<char>, after: Seq<char>|
            #![trigger is_blank(before), is_blank(after)]
            is_blank(before) && is_blank(after) && s.drop_first() == before + r + after;
        let c = seq![s[0]] + a;
        assert forall|i: int| 0 <= i < c.len() implies text::is_white_space(#[trigger] c[i]) by {
            if i > 0 {
                assert(c[i] == a[i - 1]);
            }
        }
        assert(is_blank(c) && is_blank(b));
        assert(s =~= seq![s[0]] + s.drop_first());
        assert(s =~= c + r + b);
    } else if s.len() > 0 && text::is_white_space(s.last()) {
        law_trimmed_text(s.drop_last());
        let (a, b) = choose|before: Seq<char>, after: Seq<char>|
            #![trigger is_blank(before), is_blank(after)]
            is_blank(before) && is_blank(after) && s.drop_last() == before + r + after;
        let c = b.push(s.last());
        assert forall|i: int| 0 <= i < c.len() implies text::is_white_space(#[trigger] c[i]) by {
            if i < b.len() {
                assert(c[i] == b[i]);
            }
        }
        assert(is_blank(a) && is_blank(c));
        assert(s =~= s.drop_last().push(s.last()));
        assert(s =~= a + r + c);
    } else {
        assert(is_blank(none));
        assert(s =~= none + r + none);
    }
}

/// Among the ASCII characters, white space is the space, and what stands from the tab to the
/// carriage return. Letters, digits and signs are not white space.
pub proof fn law_ascii_white_space(c: char)
    requires
        (c as u32) < 0x80,
    ensures
        text::is_white_space(c) <==> c as u32 == 32 || 9 <= c as u32 <= 13,
{
}

/// Whether a text is made of line ends.
pub open spec fn is_line_end(s: Seq<char>) -> bool {
    forall|i: int| 0 <= i < s.len() ==> #[trigger] s[i] == '\r' || s[i] == '\n'
}

/// A line keeps all of its text, and loses the whole of its line end.
pub proof fn law_line_end_is_taken_off(line: Seq<char>, end: Seq<char>)
    requires
        line.len() > 0 ==> line.last() != '\r' && line.last() != '\n',
        is_line_end(end),
    ensures
        text::without_line_end(line + end) == line,
    decreases end.len(),
{
    if end.len() == 0 {
        assert(line + end =~= line);
    } else {
        assert(end[end.len() - 1] == end.last());
        assert((line + end).drop_last() =~= line + end.drop_last());
        law_line_end_is_taken_off(line, end.drop_last());
    }
}

/// A text falls into its lines: the first line is what stands before the first line feed,
/// without one carriage return, and the others are the lines of what follows. A last line
/// needs no line feed, and an empty text has no lines.
pub proof fn law_lines_of_text(line: Seq<char>, rest: Seq<char>)
    requires
        !line.contains('\n'),
    ensures
        line.len() == 0 || line.last() != '\r' ==> text::lines_of(line + seq!['\n'] + rest)
            == seq![line] + text::lines_of(rest),
        text::lines_of(line + seq!['\r', '\n'] + rest) == seq![line] + text::lines_of(rest),
        line.len() > 0 ==> text::lines_of(line) == seq![line],
        text::lines_of(Seq::empty()) == Seq::<Seq<char>>::empty(),
{
    text::lemma_split_at_first(line + seq!['\n'] + rest, '\n', line, rest);
    let long = line.push('\r');
    assert forall|i: int| 0 <= i < long.len() implies long[i] != '\n' by {
        if i < line.len() {
            assert(long[i] == line[i]);
        }
    }
    assert(line + seq!['\r', '\n'] + rest =~= long + seq!['\n'] + rest);
    text::lemma_split_at_first(long + seq!['\n'] + rest, '\n', long, rest);
    assert(long.drop_last() =~= line);
    text::lemma_split_parts(line, '\n');
}

/// A text is found wherever it stands in another.
pub proof fn law_part_of_text(before: Seq<char>, part: Seq<char>, after: Seq<char>)
    ensures
        text::has_part(before + part + after, part),
{
    let all = before + part + after;
    assert(all.subrange(before.len() as int, before.len() as int + part.len()) =~= part);
    assert(text::is_part_at(all, part, before.len() as int));
}

/// A text that has a part is that part with some text before and some after it.
pub proof fn law_text_around_part(s: Seq<char>, part: Seq<char>)
    requires
        text::has_part(s, part),
    ensures
        exists|before: Seq<char>, after: Seq<char>| s == #[trigger] (before + part + after),
{
    let i = choose|i: int| #[trigger] text::is_part_at(s, part, i);
    let before = s.take(i);
    let after = s.skip(i + part.len());
    assert(s =~= before + part + after);
}

/// What a part of a text has as its part, the text has too.
pub proof fn law_part_of_part(s: Seq<char>, part: Seq<char>, inner: Seq<char>)
    requires
        text::has_part(s, part),
        text::has_part(part, inner),
    ensures
        text::has_part(s, inner),
{
    let i = choose|i: int| #[trigger] text::is_part_at(s, part, i);
    let j = choose|j: int| #[trigger] text::is_part_at(part, inner, j);
    assert(s.subrange(i + j, i + j + inner.len()) =~= part.subrange(j, j + inner.len()));
    assert(text::is_part_at(s, inner, i + j));
}

/// What a computation gives is known from its result: the value of a success, the text of an
/// error.
pub proof fn law_outcome<T: View>(value: T, message: String)
    ensures
        text::outcome(Ok::<T, String>(value)) == Ok::<T::V, Seq<char>>(value@),
        text::outcome(Err::<T, String>(message)) == Err::<T::V, Seq<char>>(message@),
{
}

} // verus!
