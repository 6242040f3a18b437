//! What holds between the two ways of reading a frame: as a whole, and from a stream.

use crate::ascii;
use crate::clipboard;
use crate::clipboard::Item;
use crate::exchange_laws;
use crate::frame;
use crate::header;
use crate::header::{Fields, Header, MAGIC};
use crate::laws;
use crate::number;
use crate::stream;
use crate::stream::{Action, State};
use crate::text;
use vstd::prelude::*;
use vstd::utf8::*;

verus! {

spec fn stripped_text(s: Option<Seq<char>>) -> Option<Seq<char>> {
    match s {
        Some(s) => Some(text::without_line_end(s)),
        None => None,
    }
}

/// Header fields as a stream gives them, which takes every carriage return at the end of a
/// line for part of the line end.
spec fn stripped(fields: Fields) -> Fields {
    Fields {
        mime: stripped_text(fields.mime),
        hash: stripped_text(fields.hash),
        ..fields
    }
}

/// A line end is taken off what follows a text that does not end with one.
proof fn lemma_line_end_of_value(before: Seq<char>, value: Seq<char>)
    requires
        before.len() > 0,
        before.last() != '\r',
        before.last() != '\n',
    ensures
        text::without_line_end(before + value) == before + text::without_line_end(value),
    decreases value.len(),
{
    let all = before + value;
    if value.len() == 0 {
        assert(all =~= before);
        assert(before + text::without_line_end(value) =~= before);
    } else {
        assert(all.last() == value.last());
        if value.last() == '\r' || value.last() == '\n' {
            assert(all.drop_last() =~= before + value.drop_last());
            lemma_line_end_of_value(before, value.drop_last());
        }
    }
}

/// A number does not end with a line end.
proof fn lemma_number_has_no_line_end(value: Seq<char>, max: nat)
    requires
        number::number_of(value, max) is Some,
    ensures
        text::without_line_end(value) == value,
{
    let digits = number::without_plus(value);
    assert(number::is_digit(digits[digits.len() - 1]));
    assert(digits.last() == value.last());
}

/// The name of a kind does not end with a line end.
proof fn lemma_kind_has_no_line_end(value: Seq<char>)
    requires
        clipboard::kind_of(value) is Ok,
    ensures
        text::without_line_end(value) == value,
{
    reveal_strlit("text");
    reveal_strlit("image");
}

/// A header line that is accepted as it is, is accepted without its line end too.
proof fn lemma_stripped_line(fields: Fields, line: Seq<char>, next: Fields)
    requires
        header::fields_after_line(fields, line) == Ok::<Fields, Seq<char>>(next),
    ensures
        text::without_line_end(line).len() > 0,
        header::fields_after_line(stripped(fields), text::without_line_end(line)) == Ok::<
            Fields,
            Seq<char>,
        >(stripped(next)),
{
    text::lemma_split_parts(line, ':');
    let (key, value) = text::split_at_first(line, ':').unwrap();
    let short = text::without_line_end(value);
    lemma_line_end_of_value(key + seq![':'], value);
    text::lemma_split_at_first(text::without_line_end(line), ':', key, short);
    if key == "kind"@ {
        lemma_kind_has_no_line_end(value);
    } else if key == "bytes"@ && key != "mime"@ && key != "hash"@ {
        lemma_number_has_no_line_end(value, usize::MAX as nat);
    }
}

/// A reader takes in the lines of a text one by one.
proof fn lemma_read_lines(fields: Fields, text: Seq<char>, after: Fields, tail: Seq<u8>)
    requires
        text.len() > 0,
        text.last() != '\n',
        header::fields_after_lines(fields, text::lines_of(text)) == Ok::<Fields, Seq<char>>(after),
    ensures
        stream::read_from(State::Header(stripped(fields)), encode_utf8(text) + seq![10u8] + tail)
            == stream::read_from(State::Header(stripped(after)), tail),
    decreases text.len(),
{
    let lines = text::lines_of(text);
    let all = encode_utf8(text) + seq![10u8] + tail;
    text::lemma_split_parts(text, '\n');
    match text::split_at_first(text, '\n') {
        Some((raw, rest)) => {
            let line = text::without_carriage_return(raw);
            let left = encode_utf8(rest) + seq![10u8] + tail;
            assert(text == raw + seq!['\n'] + rest);
            if rest.len() == 0 {
                assert(text.last() == text[raw.len() as int]);
            }
            assert(text.last() == rest.last());
            assert(lines[0] == line);
            assert(lines.drop_first() =~= text::lines_of(rest));
            let next = header::fields_after_line(fields, line)->Ok_0;
            laws::lemma_encode_line(raw, rest);
            assert(all =~= encode_utf8(raw) + seq![10u8] + left);
            laws::lemma_read_any_line(raw, left);
            assert(text::without_line_end(raw) == text::without_line_end(line));
            lemma_stripped_line(fields, line, next);
            lemma_read_lines(next, rest, after, tail);
        },
        None => {
            assert(lines[0] == text);
            assert(lines.drop_first() =~= Seq::<Seq<char>>::empty());
            let next = header::fields_after_line(fields, text)->Ok_0;
            assert(header::fields_after_lines(next, lines.drop_first()) == Ok::<
                Fields,
                Seq<char>,
            >(next));
            laws::lemma_read_any_line(text, tail);
            lemma_stripped_line(fields, text, next);
        },
    }
}

/// A stream that begins with the header of a frame that can be read as a whole is read up to
/// the payload.
proof fn lemma_read_header_text(text: Seq<char>, after: Fields, left: Seq<u8>)
    requires
        text.len() > 0,
        text.last() != '\n',
        text::lines_of(text)[0] == MAGIC@,
        header::fields_after_lines(header::no_fields(), text::lines_of(text).drop_first()) == Ok::<
            Fields,
            Seq<char>,
        >(after),
        header::header_of(after) is Ok,
    ensures
        stream::read_from(State::Start, encode_utf8(text) + seq![10u8, 10u8] + left)
            == stream::read_from(
            State::Payload(header::header_of(stripped(after))->Ok_0),
            left,
        ),
{
    let lines = text::lines_of(text);
    let blank = seq![10u8] + left;
    let all = encode_utf8(text) + seq![10u8, 10u8] + left;
    reveal_strlit("ZYNC1");
    assert(text::without_line_end(MAGIC@) == MAGIC@);
    text::lemma_split_parts(text, '\n');
    match text::split_at_first(text, '\n') {
        Some((raw, rest)) => {
            let tail = encode_utf8(rest) + seq![10u8] + blank;
            assert(text == raw + seq!['\n'] + rest);
            if rest.len() == 0 {
                assert(text.last() == text[raw.len() as int]);
            }
            assert(text.last() == rest.last());
            assert(lines.drop_first() =~= text::lines_of(rest));
            laws::lemma_encode_line(raw, rest);
            assert(all =~= encode_utf8(raw) + seq![10u8] + tail);
            laws::lemma_read_any_line(raw, tail);
            assert(text::without_line_end(raw) == MAGIC@);
            assert(stripped(header::no_fields()) == header::no_fields());
            assert(stream::read_from(State::Start, all) == stream::read_from(
                State::Header(header::no_fields()),
                tail,
            ));
            lemma_read_lines(header::no_fields(), rest, after, blank);
            let empty = Seq::<char>::empty();
            assert(encode_utf8(empty) + seq![10u8] + left =~= blank);
            laws::lemma_read_any_line(empty, left);
        },
        None => {
            assert(lines.drop_first() =~= Seq::<Seq<char>>::empty());
            assert(after == header::no_fields());
        },
    }
}

/// Both ways of reading agree: a frame that is accepted as a whole is read from a stream as
/// the same content, and what follows it is left to be read. Only a media type that ends with
/// a carriage return is left out, which a stream takes for part of the line end.
pub proof fn law_whole_frame_reads_as_stream(input: Seq<u8>, rest: Seq<u8>)
    ensures
        frame::decoded(input) matches Ok(item) ==> !(item.mime.len() > 0 && item.mime.last()
            == '\r') ==> stream::read_from(State::Start, input + rest) == (
            Ok::<Option<Item>, Seq<char>>(Some(item)),
            rest,
        ),
{
    match frame::decoded(input) {
        Ok(item) => {
            if !(item.mime.len() > 0 && item.mime.last() == '\r') {
                let end = choose|i: int| frame::header_ends_at(input, i);
                assert(frame::header_ends_at(input, end));
                let head = input.take(end);
                let text = decode_utf8(head);
                let payload = input.skip(end + 2);
                let lines = text::lines_of(text);
                let after = header::fields_after_lines(
                    header::no_fields(),
                    lines.drop_first(),
                )->Ok_0;
                let header = header::header_of(after)->Ok_0;
                decode_utf8_encode_utf8(head);
                assert(text.last() != '\n') by {
                    ascii::lemma_encode_last(text, '\n');
                    if text.last() == '\n' {
                        assert(input[end - 1] == head.last());
                        assert(frame::blank_line_at(input, end - 1));
                    }
                }
                lemma_read_header_text(text, after, payload + rest);
                assert(input + rest =~= head + seq![10u8, 10u8] + (payload + rest));
                exchange_laws::lemma_decoded_mime(input);
                if item.mime.len() > 0 && item.mime.last() == '\n' {
                    assert(item.mime.contains('\n'));
                }
                assert(text::without_line_end(item.mime) == item.mime);
                laws::law_fingerprint_form(
                    clipboard::kind_text(item.kind),
                    item.mime,
                    item.bytes,
                );
                assert(number::is_hex_digit(item.hash[15]));
                assert(text::without_line_end(item.hash) == item.hash);
                assert(header::header_of(stripped(after)) == header::header_of(after));
                laws::lemma_read_payload(header, payload, rest);
            }
        },
        Err(_) => {},
    }
}

/// Lines, each with the given line end.
pub open spec fn ended(lines: Seq<Seq<char>>, end: Seq<char>) -> Seq<char>
    decreases lines.len(),
{
    if lines.len() == 0 {
        Seq::empty()
    } else {
        lines[0] + end + ended(lines.drop_first(), end)
    }
}

/// Lines that are joined, with one more line feed, are lines that each end with one.
proof fn lemma_joined_is_ended(lines: Seq<Seq<char>>)
    requires
        lines.len() > 0,
    ensures
        laws::joined(lines) + seq!['\n'] == ended(lines, seq!['\n']),
    decreases lines.len(),
{
    let rest = lines.drop_first();
    if lines.len() == 1 {
        assert(ended(rest, seq!['\n']) =~= Seq::empty());
        assert(laws::joined(lines) + seq!['\n'] =~= ended(lines, seq!['\n']));
    } else {
        lemma_joined_is_ended(rest);
        assert(laws::joined(lines) + seq!['\n'] =~= lines[0] + seq!['\n'] + (laws::joined(rest)
            + seq!['\n']));
    }
}

/// A frame, as lines that each end with a line feed, an empty line and the payload.
pub proof fn lemma_frame_with(lines: Seq<Seq<char>>, payload: Seq<u8>)
    ensures
        laws::frame_with(lines, payload) == encode_utf8(MAGIC@) + seq![10u8] + (encode_utf8(
            ended(lines, seq!['\n']),
        ) + seq![10u8] + payload),
{
    let all = seq![MAGIC@] + lines;
    assert(all.drop_first() =~= lines);
    lemma_joined_is_ended(all);
    laws::lemma_encode_line(laws::joined(all), Seq::empty());
    assert(laws::joined(all) + seq!['\n'] + Seq::<char>::empty() =~= ended(all, seq!['\n']));
    laws::lemma_encode_line(MAGIC@, ended(lines, seq!['\n']));
    assert(encode_utf8(laws::joined(all)) + seq![10u8] =~= encode_utf8(MAGIC@) + seq![10u8]
        + encode_utf8(ended(lines, seq!['\n'])));
    assert(laws::frame_with(lines, payload) =~= encode_utf8(laws::joined(all)) + seq![10u8] + (seq![
        10u8,
    ] + payload));
    assert(laws::frame_with(lines, payload) =~= encode_utf8(MAGIC@) + seq![10u8] + (encode_utf8(
        ended(lines, seq!['\n']),
    ) + seq![10u8] + payload));
}

/// Whether no carriage return stands at the end of a line.
pub open spec fn ends_lines_plainly(head: Seq<u8>) -> bool {
    forall|i: int|
        0 <= i < head.len() && #[trigger] head[i] == 13 ==> i + 1 < head.len() && head[i + 1] != 10
}

/// The content and the rest that come of a stream fit into it.
proof fn lemma_read_fits(state: State, stream: Seq<u8>)
    ensures
        stream::read_from(state, stream).0 matches Ok(Some(item)) ==> item.bytes.len()
            + stream::read_from(state, stream).1.len() <= stream.len(),
    decreases stream::stages_left(state), stream.len(),
{
    stream::lemma_line_len(stream);
    let (read, taken) = stream::served(state, stream);
    match stream::action_on(state, read) {
        Action::Continue(next) => {
            lemma_read_fits(next, stream.skip(taken));
        },
        _ => {},
    }
}

/// The first line of a stream where no carriage return stands at the end of a line: either a
/// plain or an empty line with its line feed, or all that is left.
proof fn lemma_first_line(stream: Seq<u8>, n: int)
    requires
        0 < stream::line_len(stream) <= n <= stream.len(),
        ends_lines_plainly(stream.take(n)),
    ensures
        ({
            let k = stream::line_len(stream);
            stream::line_text(stream.take(k)) matches Ok(line) ==> {
                ||| k == stream.len() && line.len() > 0
                ||| {
                    &&& stream.take(k) == encode_utf8(line) + seq![10u8]
                    &&& line.len() > 0 ==> laws::is_plain_line(line)
                }
            }
        }),
{
    let k = stream::line_len(stream);
    let bytes = stream.take(k);
    let head = stream.take(n);
    stream.index_of_first_ensures(10);
    if valid_utf8(bytes) {
        let s = decode_utf8(bytes);
        decode_utf8_encode_utf8(bytes);
        assert(bytes.last() == stream[k - 1]);
        assert(head[k - 1] == stream[k - 1]);
        assert(s.len() > 0);
        ascii::lemma_encode_last(s, '\n');
        ascii::lemma_encode_last(s, '\r');
        if stream[k - 1] == 10 {
            let line = s.drop_last();
            assert(s =~= line + seq!['\n']);
            ascii::lemma_encode_concat(line, seq!['\n']);
            ascii::lemma_encode_one('\n');
            assert(encode_utf8(line) =~= bytes.take(k - 1));
            ascii::lemma_encode_contains(line, '\n');
            assert(!encode_utf8(line).contains(10)) by {
                if encode_utf8(line).contains(10) {
                    let j = encode_utf8(line).index_of(10);
                    assert(stream[j] == 10);
                }
            }
            if line.len() > 0 {
                ascii::lemma_encode_last(line, '\r');
                ascii::lemma_encode_last(line, '\n');
                assert(encode_utf8(line).last() == head[k - 2]);
                assert(head[k - 2 + 1] == 10);
                if line.last() == '\n' {
                    assert(line.contains('\n'));
                }
            }
            assert(text::without_line_end(line) == line);
            assert(text::without_line_end(s) == line);
        } else {
            assert(k == stream.len());
            assert(text::without_line_end(s) == s);
        }
    }
}

/// The header lines that a reader took in before it delivered a content.
proof fn lemma_lines_taken(fields: Fields, stream: Seq<u8>, item: Item, rest: Seq<u8>) -> (r: (
    Seq<Seq<char>>,
    Fields,
    Header,
))
    requires
        stream::read_from(State::Header(fields), stream) == (
            Ok::<Option<Item>, Seq<char>>(Some(item)),
            rest,
        ),
        ends_lines_plainly(stream.take(stream.len() - rest.len() - item.bytes.len())),
    ensures
        laws::are_plain_lines(r.0),
        header::fields_after_lines(fields, r.0) == Ok::<Fields, Seq<char>>(r.1),
        header::header_of(r.1) == Ok::<Header, Seq<char>>(r.2),
        r.2.bytes_len == item.bytes.len(),
        header::item_of(r.2, item.bytes) == Ok::<Item, Seq<char>>(item),
        stream == encode_utf8(ended(r.0, seq!['\n'])) + seq![10u8] + item.bytes + rest,
    decreases stream.len(),
{
    let n = stream.len() - rest.len() - item.bytes.len();
    let head = stream.take(n);
    let k = stream::line_len(stream);
    let bytes = stream.take(k);
    let left = stream.skip(k);
    stream::lemma_line_len(stream);
    let line = stream::line_text(bytes)->Ok_0;
    if line.len() == 0 {
        let header = header::header_of(fields)->Ok_0;
        assert(stream::read_from(State::Payload(header), left) == (
            Ok::<Option<Item>, Seq<char>>(Some(item)),
            rest,
        ));
        lemma_read_fits(State::Payload(header), left);
        lemma_first_line(stream, n);
        let none = Seq::<Seq<char>>::empty();
        assert(encode_utf8(line) =~= Seq::<u8>::empty());
        assert(bytes =~= seq![10u8]);
        assert(left =~= item.bytes + rest);
        assert(stream =~= bytes + left);
        assert(stream =~= encode_utf8(ended(none, seq!['\n'])) + seq![10u8] + item.bytes + rest);
        (none, fields, header)
    } else {
        let next = header::fields_after_line(fields, line)->Ok_0;
        assert(stream::read_from(State::Header(next), left) == (
            Ok::<Option<Item>, Seq<char>>(Some(item)),
            rest,
        ));
        lemma_read_fits(State::Header(next), left);
        lemma_first_line(stream, n);
        if k == stream.len() {
            laws::lemma_header_breaks_off(next);
            assert(left =~= Seq::<u8>::empty());
        }
        let after = left.take(left.len() - rest.len() - item.bytes.len());
        assert forall|i: int| 0 <= i < after.len() && #[trigger] after[i] == 13 implies i + 1
            < after.len() && after[i + 1] != 10 by {
            assert(head[k + i] == 13);
            assert(head[k + i + 1] == after[i + 1]);
        }
        let (lines, all, header) = lemma_lines_taken(next, left, item, rest);
        let r = seq![line] + lines;
        assert forall|i: int| 0 <= i < r.len() implies laws::is_plain_line(#[trigger] r[i]) by {
            if i > 0 {
                assert(r[i] == lines[i - 1]);
            }
        }
        assert(r.drop_first() =~= lines);
        laws::lemma_encode_line(line, ended(lines, seq!['\n']));
        assert(stream =~= bytes + left);
        assert(stream =~= encode_utf8(ended(r, seq!['\n'])) + seq![10u8] + item.bytes + rest);
        (r, all, header)
    }
}

/// Both ways of reading agree, the other way round: what is taken off a stream as a content is
/// a frame that is accepted as a whole and holds the same content. No carriage return stands
/// at the end of a line of its header, where only a stream takes it for part of the line end.
pub proof fn law_stream_reads_whole_frames(stream: Seq<u8>, item: Item, rest: Seq<u8>)
    requires
        stream::read_from(State::Start, stream) == (
            Ok::<Option<Item>, Seq<char>>(Some(item)),
            rest,
        ),
        ends_lines_plainly(stream.take(stream.len() - rest.len() - item.bytes.len())),
    ensures
        rest.len() <= stream.len(),
        stream == stream.take(stream.len() - rest.len()) + rest,
        frame::decoded(stream.take(stream.len() - rest.len())) == Ok::<Item, Seq<char>>(item),
{
    let n = stream.len() - rest.len() - item.bytes.len();
    let head = stream.take(n);
    let k = stream::line_len(stream);
    let bytes = stream.take(k);
    let left = stream.skip(k);
    let none = header::no_fields();
    stream::lemma_line_len(stream);
    assert(stream::read_from(State::Header(none), left) == (
        Ok::<Option<Item>, Seq<char>>(Some(item)),
        rest,
    ));
    lemma_read_fits(State::Header(none), left);
    lemma_first_line(stream, n);
    if k == stream.len() {
        laws::lemma_header_breaks_off(none);
        assert(left =~= Seq::<u8>::empty());
    }
    let after = left.take(left.len() - rest.len() - item.bytes.len());
    assert forall|i: int| 0 <= i < after.len() && #[trigger] after[i] == 13 implies i + 1
        < after.len() && after[i + 1] != 10 by {
        assert(head[k + i] == 13);
        assert(head[k + i + 1] == after[i + 1]);
    }
    let (lines, _, _) = lemma_lines_taken(none, left, item, rest);
    let frame = laws::frame_with(lines, item.bytes);
    lemma_frame_with(lines, item.bytes);
    assert(stream =~= bytes + left);
    assert(bytes == encode_utf8(MAGIC@) + seq![10u8]);
    assert(stream =~= frame + rest);
    assert(stream.take(stream.len() - rest.len()) =~= frame);
    laws::lemma_decoded_lines(lines, item.bytes);
}

/// A carriage return before the line feed makes no difference to a reader.
proof fn lemma_crlf(state: State, lines: Seq<Seq<char>>, left: Seq<u8>)
    requires
        state is Payload ==> lines.len() == 0,
        forall|i: int| 0 <= i < lines.len() ==> !(#[trigger] lines[i]).contains('\n'),
        forall|i: int|
            0 <= i < lines.len() - 1 ==> text::without_line_end(#[trigger] lines[i]).len() > 0,
    ensures
        ({
            let a = stream::read_from(state, encode_utf8(ended(lines, seq!['\r', '\n'])) + left);
            let b = stream::read_from(state, encode_utf8(ended(lines, seq!['\n'])) + left);
            &&& a.0 == b.0
            &&& a.0 is Ok ==> a.1 == b.1
        }),
    decreases lines.len(),
{
    if lines.len() > 0 {
        let line = lines[0];
        let rest = lines.drop_first();
        let long = line + seq!['\r'];
        let a = encode_utf8(ended(rest, seq!['\r', '\n'])) + left;
        let b = encode_utf8(ended(rest, seq!['\n'])) + left;
        assert(!line.contains('\n'));
        assert forall|i: int| 0 <= i < long.len() implies long[i] != '\n' by {
            if i < line.len() {
                assert(long[i] == line[i]);
            }
        }
        assert(long.drop_last() =~= line);
        assert(text::without_line_end(long) == text::without_line_end(line));
        laws::lemma_read_any_line(long, a);
        laws::lemma_read_any_line(line, b);
        laws::lemma_encode_line(long, ended(rest, seq!['\r', '\n']));
        laws::lemma_encode_line(line, ended(rest, seq!['\n']));
        assert(ended(lines, seq!['\r', '\n']) =~= long + seq!['\n'] + ended(
            rest,
            seq!['\r', '\n'],
        ));
        assert(encode_utf8(ended(lines, seq!['\r', '\n'])) + left =~= encode_utf8(long) + seq![
            10u8,
        ] + a);
        assert(encode_utf8(ended(lines, seq!['\n'])) + left =~= encode_utf8(line) + seq![10u8] + b);
        assert forall|i: int| 0 <= i < rest.len() implies !(#[trigger] rest[i]).contains(
            '\n',
        ) by {
            assert(rest[i] == lines[i + 1]);
        }
        assert forall|i: int| 0 <= i < rest.len() - 1 implies text::without_line_end(
            #[trigger] rest[i],
        ).len() > 0 by {
            assert(rest[i] == lines[i + 1]);
        }
        let read = stream::served(state, encode_utf8(line) + seq![10u8] + b).0;
        match stream::action_on(state, read) {
            Action::Continue(next) => {
                lemma_crlf(next, rest, left);
            },
            _ => {},
        }
    }
}

/// A stream may end the lines of a header with a carriage return and a line feed: it gives the
/// same content or message as one that ends them with a line feed alone. The lines are those
/// of one header, of which only the last may be empty.
pub proof fn law_crlf_reads_like_lf(lines: Seq<Seq<char>>, left: Seq<u8>)
    requires
        forall|i: int| 0 <= i < lines.len() ==> !(#[trigger] lines[i]).contains('\n'),
        forall|i: int|
            0 <= i < lines.len() - 1 ==> text::without_line_end(#[trigger] lines[i]).len() > 0,
    ensures
        ({
            let a = stream::read_from(
                State::Start,
                encode_utf8(ended(lines, seq!['\r', '\n'])) + left,
            );
            let b = stream::read_from(State::Start, encode_utf8(ended(lines, seq!['\n'])) + left);
            &&& a.0 == b.0
            &&& a.0 is Ok ==> a.1 == b.1
        }),
{
    lemma_crlf(State::Start, lines, left);
}

} // verus!
