//! What comes over the wire means: how bytes fall into a header and a payload, as a whole and
//! in a stream, and what each of them that is wrong is refused with.

use crate::ascii;
use crate::clipboard::Item;
use crate::frame;
use crate::header;
use crate::header::{Fields, Header};
use crate::laws;
use crate::number;
use crate::order_laws;
use crate::stream;
use crate::stream::{Action, State};
use crate::text;
use crate::text_laws;
use crate::utf8;
use vstd::prelude::*;
use vstd::utf8::*;

verus! {

/// Whether two line feeds stand side by side somewhere.
pub open spec fn has_empty_line(bytes: Seq<u8>) -> bool {
    exists|i: int| 0 <= i < bytes.len() - 1 && #[trigger] bytes[i] == 10 && bytes[i + 1] == 10
}

/// A whole frame without an empty line is refused.
pub proof fn law_header_must_end(input: Seq<u8>)
    requires
        !has_empty_line(input),
    ensures
        frame::decoded(input) == Err::<Item, Seq<char>>(
            "invalid frame: missing header terminator"@,
        ),
{
    assert forall|i: int| !frame::header_ends_at(input, i) by {
        if frame::blank_line_at(input, i) {
            assert(input[i] == 10);
        }
    }
}

/// A whole frame is the header up to the first empty line, and all that follows is the
/// payload. The header must be text, its first line the name of the format, and its other
/// lines must make it complete; the payload must have the length that it names.
pub proof fn law_whole_frame(head: Seq<u8>, payload: Seq<u8>)
    requires
        !has_empty_line(head),
        head.len() > 0 ==> head.last() != 10,
    ensures
        ({
            let read = frame::decoded(head + seq![10u8, 10u8] + payload);
            let lines = text::lines_of(decode_utf8(head));
            let fields = header::fields_after_lines(header::no_fields(), lines.drop_first());
            if !valid_utf8(head) {
                read == Err::<Item, Seq<char>>(
                    "invalid frame header encoding: "@ + utf8::utf8_error_text(head),
                )
            } else if lines.len() == 0 || lines[0] != "ZYNC1"@ {
                read == Err::<Item, Seq<char>>("invalid frame: bad magic"@)
            } else if fields is Err {
                read == Err::<Item, Seq<char>>(fields->Err_0)
            } else if header::header_of(fields->Ok_0) is Err {
                read == Err::<Item, Seq<char>>(header::header_of(fields->Ok_0)->Err_0)
            } else {
                let header = header::header_of(fields->Ok_0)->Ok_0;
                &&& header.bytes_len == payload.len() ==> read == header::item_of(header, payload)
                &&& header.bytes_len != payload.len() ==> read == Err::<Item, Seq<char>>(
                    "invalid frame: expected "@ + number::decimal_text(header.bytes_len)
                        + " payload bytes, got "@ + number::decimal_text(payload.len()),
                )
            }
        }),
{
    let input = head + seq![10u8, 10u8] + payload;
    let end = head.len() as int;
    assert(frame::blank_line_at(input, end));
    assert forall|j: int| 0 <= j < end implies !frame::blank_line_at(input, j) by {
        if frame::blank_line_at(input, j) {
            assert(head[j] == 10);
            if j + 1 < end {
                assert(head[j + 1] == 10);
            }
        }
    }
    assert(frame::header_ends_at(input, end));
    let chosen = choose|i: int| frame::header_ends_at(input, i);
    assert(chosen == end) by {
        assert(frame::header_ends_at(input, chosen));
    }
    assert(input.take(end) =~= head);
    assert(input.skip(end + 2) =~= payload);
}

/// A line of a stream goes up to its line feed, and the last one up to the end.
pub proof fn law_line_of_stream(line: Seq<u8>, rest: Seq<u8>)
    requires
        !line.contains(10),
    ensures
        stream::line_len(line + seq![10u8] + rest) == line.len() + 1,
        stream::line_len(line) == line.len(),
{
    let all = line + seq![10u8] + rest;
    all.index_of_first_ensures(10);
    line.index_of_first_ensures(10);
    assert(all[line.len() as int] == 10);
    let found = all.index_of_first(10).unwrap();
    if found < line.len() {
        assert(line[found] == 10);
    }
}

/// What a reader does about the line that it asked for. Nothing is the end of the stream
/// between two frames, and a fault inside a header. A line counts without its line end: the
/// first must name the format, an empty one ends the header, and any other says one thing.
pub proof fn law_reader_on_lines(fields: Fields, line: Seq<char>, end: Seq<char>)
    requires
        line.len() > 0 ==> line.last() != '\r' && line.last() != '\n',
        text_laws::is_line_end(end),
        line.len() + end.len() > 0,
    ensures
        ({
            let read = Ok::<Seq<u8>, Seq<char>>(encode_utf8(line + end));
            let nothing = Ok::<Seq<u8>, Seq<char>>(Seq::empty());
            &&& stream::action_on(State::Start, nothing) == Action::End
            &&& stream::action_on(State::Header(fields), nothing) == Action::Refuse(
                "invalid frame: unexpected end of header"@,
            )
            &&& line == "ZYNC1"@ ==> stream::action_on(State::Start, read) == Action::Continue(
                State::Header(Fields { kind: None, mime: None, hash: None, bytes_len: None }),
            )
            &&& line != "ZYNC1"@ ==> stream::action_on(State::Start, read) == Action::Refuse(
                "invalid frame: bad magic"@,
            )
            &&& line.len() == 0 ==> stream::action_on(State::Header(fields), read)
                == match header::header_of(fields) {
                Ok(header) => Action::Continue(State::Payload(header)),
                Err(message) => Action::Refuse(message),
            }
            &&& line.len() > 0 ==> stream::action_on(State::Header(fields), read)
                == match header::fields_after_line(fields, line) {
                Ok(next) => Action::Continue(State::Header(next)),
                Err(message) => Action::Refuse(message),
            }
        }),
{
    let s = line + end;
    encode_utf8_valid_utf8(s);
    encode_utf8_decode_utf8(s);
    text_laws::law_line_end_is_taken_off(line, end);
    assert(encode_utf8(s).len() > 0) by {
        if encode_utf8(s).len() == 0 {
            assert(encode_utf8(Seq::<char>::empty()) =~= encode_utf8(s));
            ascii::lemma_encode_injective(s, Seq::empty());
        }
    }
}

/// A read that fails, and a line that is not text, refuse the stream with a message that says
/// where; a payload is taken under its header.
pub proof fn law_reader_on_faults(fields: Fields, header: Header, bytes: Seq<u8>, error: Seq<char>)
    ensures
        ({
            let failed = Err::<Seq<u8>, Seq<char>>(error);
            let read = Ok::<Seq<u8>, Seq<char>>(bytes);
            let at_header = Action::Refuse("failed to read frame header: "@ + error);
            let no_text = Action::Refuse(
                "failed to read frame header: stream did not contain valid UTF-8"@,
            );
            &&& stream::action_on(State::Start, failed) == at_header
            &&& stream::action_on(State::Header(fields), failed) == at_header
            &&& stream::action_on(State::Payload(header), failed) == Action::Refuse(
                "failed to read frame payload: "@ + error,
            )
            &&& !valid_utf8(bytes) ==> stream::action_on(State::Start, read) == no_text
                && stream::action_on(State::Header(fields), read) == no_text
            &&& stream::action_on(State::Payload(header), read) == match header::item_of(
                header,
                bytes,
            ) {
                Ok(item) => Action::Deliver(item),
                Err(message) => Action::Refuse(message),
            }
        }),
{
    if !valid_utf8(bytes) {
        assert(bytes.len() > 0) by {
            if bytes.len() == 0 {
                encode_utf8_valid_utf8(Seq::empty());
                assert(bytes =~= encode_utf8(Seq::empty()));
            }
        }
    }
}

/// A stream that begins with a line other than the name of the format is refused, whatever
/// follows.
pub proof fn law_stream_must_name_the_format(line: Seq<char>, rest: Seq<u8>)
    requires
        !line.contains('\n'),
        text::without_line_end(line) != "ZYNC1"@,
    ensures
        stream::read_from(State::Start, encode_utf8(line) + seq![10u8] + rest) == (
            Err::<Option<Item>, Seq<char>>("invalid frame: bad magic"@),
            rest,
        ),
{
    laws::lemma_read_any_line(line, rest);
}

/// An empty line ends a header.
proof fn lemma_header_ends(fields: Fields, left: Seq<u8>)
    ensures
        stream::read_from(State::Header(fields), seq![10u8] + left) == match header::header_of(
            fields,
        ) {
            Ok(header) => stream::read_from(State::Payload(header), left),
            Err(message) => (Err::<Option<Item>, Seq<char>>(message), left),
        },
{
    let empty = Seq::<char>::empty();
    assert(encode_utf8(empty) + seq![10u8] + left =~= seq![10u8] + left);
    laws::lemma_read_any_line(empty, left);
    assert(text::without_line_end(empty) == empty);
}

/// A payload is as long as its header says.
proof fn lemma_payload_taken(header: Header, left: Seq<u8>)
    ensures
        ({
            let read = stream::read_from(State::Payload(header), left);
            let n = header.bytes_len as int;
            &&& n > left.len() ==> read.0 == Err::<Option<Item>, Seq<char>>(
                "failed to read frame payload: failed to fill whole buffer"@,
            )
            &&& n <= left.len() ==> read.1 == left.skip(n) && read.0 == match header::item_of(
                header,
                left.take(n),
            ) {
                Ok(item) => Ok::<Option<Item>, Seq<char>>(Some(item)),
                Err(message) => Err::<Option<Item>, Seq<char>>(message),
            }
        }),
{
    let n = header.bytes_len as int;
    if n <= left.len() {
        laws::lemma_read_payload(header, left.take(n), left.skip(n));
        assert(left =~= left.take(n) + left.skip(n));
    } else {
        reveal_strlit("failed to read frame payload: ");
        reveal_strlit("failed to fill whole buffer");
        reveal_strlit("failed to read frame payload: failed to fill whole buffer");
        assert("failed to read frame payload: "@ + "failed to fill whole buffer"@
            =~= "failed to read frame payload: failed to fill whole buffer"@);
    }
}

/// A stream is read line by line up to the first empty line, and then as many bytes as the
/// header names: header lines that are refused, a header that is not complete and a payload
/// that breaks off refuse the stream; otherwise the payload is taken under its header, for
/// either kind and any length, and what follows is left.
pub proof fn law_frame_in_stream(lines: Seq<Seq<char>>, left: Seq<u8>)
    requires
        laws::are_plain_lines(lines),
    ensures
        ({
            let read = stream::read_from(State::Start, laws::frame_with(lines, left));
            let fields = header::fields_after_lines(header::no_fields(), lines);
            if fields is Err {
                read.0 == Err::<Option<Item>, Seq<char>>(fields->Err_0)
            } else if header::header_of(fields->Ok_0) is Err {
                read.0 == Err::<Option<Item>, Seq<char>>(header::header_of(fields->Ok_0)->Err_0)
            } else {
                let header = header::header_of(fields->Ok_0)->Ok_0;
                let n = header.bytes_len as int;
                &&& n > left.len() ==> read.0 == Err::<Option<Item>, Seq<char>>(
                    "failed to read frame payload: failed to fill whole buffer"@,
                )
                &&& n <= left.len() ==> read.1 == left.skip(n) && read.0 == match header::item_of(
                    header,
                    left.take(n),
                ) {
                    Ok(item) => Ok::<Option<Item>, Seq<char>>(Some(item)),
                    Err(message) => Err::<Option<Item>, Seq<char>>(message),
                }
            }
        }),
{
    let none = Seq::<u8>::empty();
    let fields = header::fields_after_lines(header::no_fields(), lines);
    order_laws::lemma_read_frame_with(lines, left, none);
    assert(laws::frame_with(lines, left) + none =~= laws::frame_with(lines, left));
    assert(seq![10u8] + left + none =~= seq![10u8] + left);
    if fields is Ok {
        lemma_header_ends(fields->Ok_0, left);
        if header::header_of(fields->Ok_0) is Ok {
            lemma_payload_taken(header::header_of(fields->Ok_0)->Ok_0, left);
        }
    }
}

/// A reader that asks for a payload gets just the bytes that it asked for, from the front of
/// the stream, and where there are not enough of them it gets none.
pub proof fn law_payload_from_stream(header: Header, payload: Seq<u8>, rest: Seq<u8>)
    ensures
        header.bytes_len == payload.len() ==> stream::served(
            State::Payload(header),
            payload + rest,
        ) == (Ok::<Seq<u8>, Seq<char>>(payload), payload.len() as int),
        header.bytes_len > payload.len() ==> stream::served(State::Payload(header), payload) == (
            Err::<Seq<u8>, Seq<char>>("failed to fill whole buffer"@),
            payload.len() as int,
        ),
{
    assert((payload + rest).take(payload.len() as int) =~= payload);
}

} // verus!
