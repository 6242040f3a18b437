//! What holds of frames, streams and fingerprints as a whole.

use crate::ascii;
use crate::clipboard;
use crate::clipboard::{ClipboardKind, Item};
use crate::frame;
use crate::header;
use crate::header::{Fields, Header, MAGIC};
use crate::number;
use crate::stream;
use crate::stream::State;
use crate::text;
use vstd::prelude::*;
use vstd::utf8::*;

verus! {

/// Whether a content carries its own fingerprint and a media type that fits on one line:
/// without a line feed, and with no carriage return at its end, where a reader would take
/// it for part of the line end.
pub open spec fn fits_frame(item: Item) -> bool {
    &&& item.hash == item.fingerprint()
    &&& !item.mime.contains('\n')
    &&& !(item.mime.len() > 0 && item.mime.last() == '\r')
    &&& item.bytes.len() <= usize::MAX
}

/// Whether a text can stand on a line of its own in a header.
pub open spec fn is_line(line: Seq<char>) -> bool {
    line.len() > 0 && !line.contains('\n')
}

/// Whether each of some texts can stand on a line of its own in a header.
pub open spec fn are_lines(lines: Seq<Seq<char>>) -> bool {
    forall|i: int| 0 <= i < lines.len() ==> is_line(#[trigger] lines[i])
}

/// Whether a text is a line that a reader gives back as it is.
pub open spec fn is_plain_line(line: Seq<char>) -> bool {
    is_line(line) && line.last() != '\r'
}

/// Whether each of some texts is a line that a reader gives back as it is.
pub open spec fn are_plain_lines(lines: Seq<Seq<char>>) -> bool {
    forall|i: int| 0 <= i < lines.len() ==> is_plain_line(#[trigger] lines[i])
}

/// Lines with a line feed between each two.
pub open spec fn joined(lines: Seq<Seq<char>>) -> Seq<char>
    decreases lines.len(),
{
    if lines.len() == 0 {
        Seq::empty()
    } else if lines.len() == 1 {
        lines[0]
    } else {
        lines[0] + seq!['\n'] + joined(lines.drop_first())
    }
}

/// The lines of the header of a frame after the first.
spec fn field_lines(item: Item) -> Seq<Seq<char>> {
    seq![
        "kind:"@ + clipboard::kind_text(item.kind),
        "mime:"@ + item.mime,
        "hash:"@ + item.hash,
        "bytes:"@ + number::decimal_text(item.bytes.len()),
    ]
}

spec fn header_lines(item: Item) -> Seq<Seq<char>> {
    seq![MAGIC@] + field_lines(item)
}

spec fn fields_of(item: Item) -> Fields {
    Fields {
        kind: Some(item.kind),
        mime: Some(item.mime),
        hash: Some(item.hash),
        bytes_len: Some(item.bytes.len()),
    }
}

/// The word for a kind reads back as that kind.
pub proof fn law_kind_reads_back(kind: ClipboardKind)
    ensures
        clipboard::kind_of(clipboard::kind_text(kind)) == Ok::<ClipboardKind, Seq<char>>(kind),
{
    reveal_strlit("text");
    reveal_strlit("image");
    assert("text"@.len() != "image"@.len());
}

/// A fingerprint is sixteen hexadecimal digits in lower case.
pub proof fn law_fingerprint_form(kind: Seq<char>, mime: Seq<char>, bytes: Seq<u8>)
    ensures
        clipboard::fingerprint_text(kind, mime, bytes).len() == 16,
        forall|i: int|
            0 <= i < 16 ==> number::is_hex_digit(
                #[trigger] clipboard::fingerprint_text(kind, mime, bytes)[i],
            ),
{
    number::lemma_hex(
        clipboard::fnv1a(clipboard::fingerprint_input(kind, mime, bytes)) as nat,
        16,
    );
}

/// A header line made of a key and a value falls into these two.
proof fn lemma_field(key: Seq<char>, value: Seq<char>)
    requires
        !key.contains(':'),
    ensures
        text::split_at_first(key + seq![':'] + value, ':') == Some((key, value)),
{
    text::lemma_split_at_first(key + seq![':'] + value, ':', key, value);
}

/// The header lines of a content say what it is.
proof fn lemma_field_lines(item: Item)
    requires
        item.bytes.len() <= usize::MAX,
    ensures
        header::fields_after_lines(header::no_fields(), field_lines(item)) == Ok::<
            Fields,
            Seq<char>,
        >(fields_of(item)),
{
    reveal_strlit("kind");
    reveal_strlit("kind:");
    reveal_strlit("mime");
    reveal_strlit("mime:");
    reveal_strlit("hash");
    reveal_strlit("hash:");
    reveal_strlit("bytes");
    reveal_strlit("bytes:");
    let lines = field_lines(item);
    let kind = clipboard::kind_text(item.kind);
    let len = number::decimal_text(item.bytes.len());
    assert("kind:"@ =~= "kind"@ + seq![':']);
    assert("mime:"@ =~= "mime"@ + seq![':']);
    assert("hash:"@ =~= "hash"@ + seq![':']);
    assert("bytes:"@ =~= "bytes"@ + seq![':']);
    assert("kind"@[0] != "mime"@[0]);
    assert("kind"@[0] != "hash"@[0]);
    assert("mime"@[0] != "hash"@[0]);
    assert("bytes"@.len() == 5);
    lemma_field("kind"@, kind);
    lemma_field("mime"@, item.mime);
    lemma_field("hash"@, item.hash);
    lemma_field("bytes"@, len);
    law_kind_reads_back(item.kind);
    number::law_decimal_reads_back(item.bytes.len(), usize::MAX as nat);
    let f0 = header::no_fields();
    let f1 = Fields { kind: Some(item.kind), ..f0 };
    let f2 = Fields { mime: Some(item.mime), ..f1 };
    let f3 = Fields { hash: Some(item.hash), ..f2 };
    let f4 = Fields { bytes_len: Some(item.bytes.len()), ..f3 };
    assert(header::fields_after_line(f0, lines[0]) == Ok::<Fields, Seq<char>>(f1));
    assert(header::fields_after_line(f1, lines[1]) == Ok::<Fields, Seq<char>>(f2));
    assert(header::fields_after_line(f2, lines[2]) == Ok::<Fields, Seq<char>>(f3));
    assert(header::fields_after_line(f3, lines[3]) == Ok::<Fields, Seq<char>>(f4));
    let l1 = lines.drop_first();
    let l2 = l1.drop_first();
    let l3 = l2.drop_first();
    let l4 = l3.drop_first();
    assert(header::fields_after_lines(f4, l4) == Ok::<Fields, Seq<char>>(f4));
    assert(header::fields_after_lines(f3, l3) == Ok::<Fields, Seq<char>>(f4));
    assert(header::fields_after_lines(f2, l2) == Ok::<Fields, Seq<char>>(f4));
    assert(header::fields_after_lines(f1, l1) == Ok::<Fields, Seq<char>>(f4));
}

/// The first line of a frame is plain.
proof fn lemma_magic_is_plain()
    ensures
        is_plain_line(MAGIC@),
{
    reveal_strlit("ZYNC1");
}

/// The header lines of a content that fits are plain.
proof fn lemma_header_lines_plain(item: Item)
    requires
        fits_frame(item),
    ensures
        are_plain_lines(header_lines(item)),
        are_plain_lines(field_lines(item)),
{
    reveal_strlit("ZYNC1");
    reveal_strlit("kind:");
    reveal_strlit("mime:");
    reveal_strlit("hash:");
    reveal_strlit("bytes:");
    reveal_strlit("text");
    reveal_strlit("image");
    law_fingerprint_form(clipboard::kind_text(item.kind), item.mime, item.bytes);
    number::lemma_decimal(item.bytes.len());
    let lines = header_lines(item);
    let l0 = lines[0];
    let l1 = lines[1];
    let l2 = lines[2];
    let l3 = lines[3];
    let l4 = lines[4];
    assert(is_plain_line(l0));
    assert(is_plain_line(l1));
    assert(is_plain_line(l2)) by {
        assert forall|i: int| 0 <= i < l2.len() implies l2[i] != '\n' by {
            if i >= 5 {
                assert(l2[i] == item.mime[i - 5]);
            }
        }
    }
    assert(is_plain_line(l3)) by {
        assert forall|i: int| 0 <= i < l3.len() implies l3[i] != '\n' && l3[i] != '\r' by {
            if i >= 5 {
                assert(l3[i] == item.hash[i - 5]);
                assert(number::is_hex_digit(item.hash[i - 5]));
            }
        }
    }
    assert(is_plain_line(l4)) by {
        let len = number::decimal_text(item.bytes.len());
        assert forall|i: int| 0 <= i < l4.len() implies l4[i] != '\n' && l4[i] != '\r' by {
            if i >= 6 {
                assert(l4[i] == len[i - 6]);
                assert(number::is_digit(len[i - 6]));
            }
        }
    }
    assert(lines.drop_first() =~= field_lines(item));
    assert forall|i: int| 0 <= i < field_lines(item).len() implies is_plain_line(
        #[trigger] field_lines(item)[i],
    ) by {
        assert(field_lines(item)[i] == lines[i + 1]);
    }
}

/// The header of a frame is its lines and an empty one.
proof fn lemma_header_text(item: Item)
    ensures
        frame::header_text(item) == joined(header_lines(item)) + seq!['\n', '\n'],
        frame::header_text(item) == MAGIC@ + seq!['\n'] + joined(field_lines(item)) + seq![
            '\n',
            '\n',
        ],
{
    reveal_strlit("kind:");
    reveal_strlit("mime:");
    reveal_strlit("hash:");
    reveal_strlit("bytes:");
    reveal_strlit("\nkind:");
    reveal_strlit("\nmime:");
    reveal_strlit("\nhash:");
    reveal_strlit("\nbytes:");
    reveal_strlit("\n\n");
    assert("\nkind:"@ =~= seq!['\n'] + "kind:"@);
    assert("\nmime:"@ =~= seq!['\n'] + "mime:"@);
    assert("\nhash:"@ =~= seq!['\n'] + "hash:"@);
    assert("\nbytes:"@ =~= seq!['\n'] + "bytes:"@);
    assert("\n\n"@ =~= seq!['\n', '\n']);
    let lines = field_lines(item);
    let l1 = lines.drop_first();
    let l2 = l1.drop_first();
    let l3 = l2.drop_first();
    assert(joined(l3) == lines[3]);
    assert(joined(l2) == lines[2] + seq!['\n'] + lines[3]);
    assert(joined(l1) == lines[1] + seq!['\n'] + (lines[2] + seq!['\n'] + lines[3]));
    assert(joined(lines) == lines[0] + seq!['\n'] + (lines[1] + seq!['\n'] + (lines[2] + seq!['\n']
        + lines[3])));
    assert(frame::header_text(item) =~= MAGIC@ + seq!['\n'] + joined(lines) + seq!['\n', '\n']);
    assert(header_lines(item).drop_first() =~= lines);
    assert(joined(header_lines(item)) == MAGIC@ + seq!['\n'] + joined(lines));
}

/// Plain lines are lines.
proof fn lemma_plain_are_lines(lines: Seq<Seq<char>>)
    requires
        are_plain_lines(lines),
    ensures
        are_lines(lines),
{
    assert forall|i: int| 0 <= i < lines.len() implies is_line(#[trigger] lines[i]) by {
        assert(is_plain_line(lines[i]));
    }
}

/// Plain lines that were joined fall into the same lines.
proof fn lemma_lines_of_joined(lines: Seq<Seq<char>>)
    requires
        are_plain_lines(lines),
    ensures
        text::lines_of(joined(lines)) == lines,
    decreases lines.len(),
{
    if lines.len() == 0 {
    } else if lines.len() == 1 {
        let line = lines[0];
        text::lemma_split_parts(line, '\n');
        assert(text::lines_of(line) =~= lines);
    } else {
        let line = lines[0];
        let rest = lines.drop_first();
        assert(is_plain_line(line));
        assert forall|i: int| 0 <= i < rest.len() implies is_plain_line(#[trigger] rest[i]) by {
            assert(rest[i] == lines[i + 1]);
        }
        lemma_lines_of_joined(rest);
        text::lemma_split_at_first(joined(lines), '\n', line, joined(rest));
        assert(text::lines_of(joined(lines)) =~= seq![line] + rest);
        assert(seq![line] + rest =~= lines);
    }
}

/// The bytes of a line hold no line feed.
proof fn lemma_line_bytes(line: Seq<char>)
    requires
        is_line(line),
    ensures
        encode_utf8(line).len() > 0,
        forall|i: int| 0 <= i < encode_utf8(line).len() ==> #[trigger] encode_utf8(line)[i] != 10,
{
    ascii::lemma_encode_contains(line, '\n');
    ascii::lemma_encode_last(line, '\n');
    assert forall|i: int| 0 <= i < encode_utf8(line).len() implies #[trigger] encode_utf8(line)[i]
        != 10 by {
        if encode_utf8(line)[i] == 10 {
            assert(encode_utf8(line).contains(10));
        }
    }
}

/// The bytes of a line, a line feed and what follows.
pub proof fn lemma_encode_line(line: Seq<char>, rest: Seq<char>)
    ensures
        encode_utf8(line + seq!['\n'] + rest) == encode_utf8(line) + seq![10u8] + encode_utf8(rest),
{
    ascii::lemma_encode_concat(line + seq!['\n'], rest);
    ascii::lemma_encode_concat(line, seq!['\n']);
    ascii::lemma_encode_one('\n');
}

/// Joined lines hold no empty line, and neither begin nor end with a line feed.
proof fn lemma_joined_bytes(lines: Seq<Seq<char>>)
    requires
        are_lines(lines),
        lines.len() > 0,
    ensures
        encode_utf8(joined(lines)).len() > 0,
        encode_utf8(joined(lines))[0] != 10,
        encode_utf8(joined(lines)).last() != 10,
        forall|i: int| !frame::blank_line_at(encode_utf8(joined(lines)), i),
    decreases lines.len(),
{
    let line = lines[0];
    assert(is_line(line));
    lemma_line_bytes(line);
    if lines.len() > 1 {
        let rest = lines.drop_first();
        assert forall|i: int| 0 <= i < rest.len() implies is_line(#[trigger] rest[i]) by {
            assert(rest[i] == lines[i + 1]);
        }
        lemma_joined_bytes(rest);
        lemma_encode_line(line, joined(rest));
        let bytes = encode_utf8(joined(lines));
        let n = encode_utf8(line).len() as int;
        let tail = encode_utf8(joined(rest));
        assert(bytes == encode_utf8(line) + seq![10u8] + tail);
        assert(bytes.last() == tail.last());
        assert forall|i: int| !frame::blank_line_at(bytes, i) by {
            if frame::blank_line_at(bytes, i) {
                if i < n {
                    assert(bytes[i] == encode_utf8(line)[i]);
                } else if i == n {
                    assert(bytes[i + 1] == tail[0]);
                } else {
                    assert(bytes[i] == tail[i - n - 1]);
                    assert(bytes[i + 1] == tail[i - n]);
                    assert(frame::blank_line_at(tail, i - n - 1));
                }
            }
        }
    }
}

/// The two line feeds that end a header, as bytes.
proof fn lemma_encode_header_end(text: Seq<char>)
    ensures
        encode_utf8(text + seq!['\n', '\n']) == encode_utf8(text) + seq![10u8, 10u8],
{
    lemma_encode_line(text, seq!['\n']);
    ascii::lemma_encode_one('\n');
    assert(text + seq!['\n', '\n'] =~= text + seq!['\n'] + seq!['\n']);
    assert(encode_utf8(text) + seq![10u8] + seq![10u8] =~= encode_utf8(text) + seq![10u8, 10u8]);
}

/// A header made of lines ends before the two line feeds that close it, whatever follows.
proof fn lemma_header_end(lines: Seq<Seq<char>>, payload: Seq<u8>)
    requires
        are_lines(lines),
        lines.len() > 0,
    ensures
        ({
            let head = encode_utf8(joined(lines));
            let input = head + seq![10u8, 10u8] + payload;
            &&& frame::header_ends_at(input, head.len() as int)
            &&& forall|i: int| 0 <= i < head.len() ==> !frame::blank_line_at(input, i)
            &&& input.take(head.len() as int) == head
            &&& input.skip(head.len() as int + 2) == payload
        }),
{
    let head = encode_utf8(joined(lines));
    let input = head + seq![10u8, 10u8] + payload;
    lemma_joined_bytes(lines);
    let end = head.len() as int;
    assert(frame::blank_line_at(input, end));
    assert forall|j: int| 0 <= j < end implies !frame::blank_line_at(input, j) by {
        if frame::blank_line_at(input, j) {
            assert(input[j] == head[j]);
            if j + 1 < end {
                assert(input[j + 1] == head[j + 1]);
                assert(frame::blank_line_at(head, j));
            } else {
                assert(head.last() == 10);
            }
        }
    }
    assert(input.take(end) =~= head);
    assert(input.skip(end + 2) =~= payload);
}

/// The header of a frame, as bytes: its lines and two line feeds.
proof fn lemma_header_bytes(item: Item)
    ensures
        encode_utf8(frame::header_text(item)) == encode_utf8(joined(header_lines(item))) + seq![
            10u8,
            10u8,
        ],
{
    lemma_header_text(item);
    lemma_encode_header_end(joined(header_lines(item)));
}

/// The bytes of a frame with the given header lines after the first, and a payload.
pub open spec fn frame_with(lines: Seq<Seq<char>>, payload: Seq<u8>) -> Seq<u8> {
    encode_utf8(joined(seq![MAGIC@] + lines)) + seq![10u8, 10u8] + payload
}

/// What a frame with plain header lines and some payload decodes to.
pub proof fn lemma_decoded_lines(lines: Seq<Seq<char>>, payload: Seq<u8>)
    requires
        are_plain_lines(lines),
    ensures
        frame::decoded(frame_with(lines, payload)) == match header::fields_after_lines(
            header::no_fields(),
            lines,
        ) {
            Err(message) => Err(message),
            Ok(fields) => match header::header_of(fields) {
                Err(message) => Err(message),
                Ok(header) => if payload.len() != header.bytes_len {
                    Err(
                        "invalid frame: expected "@ + number::decimal_text(header.bytes_len)
                            + " payload bytes, got "@ + number::decimal_text(payload.len()),
                    )
                } else {
                    header::item_of(header, payload)
                },
            },
        },
{
    let all = seq![MAGIC@] + lines;
    let text = joined(all);
    let head = encode_utf8(text);
    let input = frame_with(lines, payload);
    let end = head.len() as int;
    lemma_magic_is_plain();
    assert forall|i: int| 0 <= i < all.len() implies is_plain_line(#[trigger] all[i]) by {
        if i > 0 {
            assert(all[i] == lines[i - 1]);
        }
    }
    lemma_plain_are_lines(all);
    lemma_header_end(all, payload);
    let chosen = choose|i: int| frame::header_ends_at(input, i);
    assert(chosen == end) by {
        assert(frame::header_ends_at(input, chosen));
    }
    encode_utf8_valid_utf8(text);
    encode_utf8_decode_utf8(text);
    lemma_lines_of_joined(all);
    assert(all[0] == MAGIC@);
    assert(all.drop_first() =~= lines);
}

/// What the header of a content and some payload decode to.
proof fn lemma_decoded_with_payload(item: Item, payload: Seq<u8>)
    requires
        fits_frame(item),
    ensures
        frame::decoded(encode_utf8(frame::header_text(item)) + payload) == if payload.len()
            != item.bytes.len() {
            Err(
                "invalid frame: expected "@ + number::decimal_text(item.bytes.len())
                    + " payload bytes, got "@ + number::decimal_text(payload.len()),
            )
        } else {
            header::item_of(
                Header {
                    kind: item.kind,
                    mime: item.mime,
                    hash: item.hash,
                    bytes_len: item.bytes.len(),
                },
                payload,
            )
        },
{
    lemma_header_bytes(item);
    lemma_header_lines_plain(item);
    lemma_field_lines(item);
    lemma_decoded_lines(field_lines(item), payload);
}

/// What a frame says decodes to the content that was written.
pub proof fn law_frame_round_trip(item: Item)
    requires
        fits_frame(item),
    ensures
        frame::decoded(frame::frame_of(item)) == Ok::<Item, Seq<char>>(item),
{
    lemma_decoded_with_payload(item, item.bytes);
}

/// A line read from a stream comes back without its line end.
pub proof fn lemma_read_any_line(line: Seq<char>, tail: Seq<u8>)
    requires
        !line.contains('\n'),
    ensures
        ({
            let all = encode_utf8(line) + seq![10u8] + tail;
            let n = stream::line_len(all);
            &&& n == encode_utf8(line).len() + 1
            &&& stream::line_text(all.take(n)) == Ok::<Seq<char>, Seq<char>>(
                text::without_line_end(line),
            )
            &&& all.skip(n) == tail
        }),
{
    let bytes = encode_utf8(line);
    let all = bytes + seq![10u8] + tail;
    all.index_of_first_ensures(10);
    let n = bytes.len() as int;
    ascii::lemma_encode_contains(line, '\n');
    assert(all[n] == 10);
    let found = all.index_of_first(10).unwrap();
    if found < n {
        assert(all[found] == bytes[found]);
        assert(bytes.contains(10));
    }
    assert(found == n);
    let ended = line + seq!['\n'];
    lemma_encode_line(line, Seq::empty());
    assert(line + seq!['\n'] + Seq::<char>::empty() =~= ended);
    assert(all.take(n + 1) =~= encode_utf8(ended));
    assert(all.skip(n + 1) =~= tail);
    encode_utf8_valid_utf8(ended);
    encode_utf8_decode_utf8(ended);
    assert(ended.drop_last() =~= line);
    assert(text::without_line_end(ended) == text::without_line_end(line));
}

/// A plain line read from a stream comes back without its line feed.
proof fn lemma_read_line(line: Seq<char>, tail: Seq<u8>)
    requires
        line.len() > 0 ==> is_plain_line(line),
    ensures
        ({
            let all = encode_utf8(line) + seq![10u8] + tail;
            let n = stream::line_len(all);
            &&& n == encode_utf8(line).len() + 1
            &&& stream::line_text(all.take(n)) == Ok::<Seq<char>, Seq<char>>(line)
            &&& all.skip(n) == tail
        }),
{
    lemma_read_any_line(line, tail);
    if line.len() > 0 && line.last() == '\n' {
        assert(line.contains('\n'));
    }
    assert(text::without_line_end(line) == line);
}

/// A reader takes in joined plain lines one by one and stands before the empty line.
proof fn lemma_read_joined(
    fields: Fields,
    lines: Seq<Seq<char>>,
    after: Fields,
    tail: Seq<u8>,
)
    requires
        are_plain_lines(lines),
        lines.len() > 0,
        header::fields_after_lines(fields, lines) == Ok::<Fields, Seq<char>>(after),
    ensures
        stream::read_from(State::Header(fields), encode_utf8(joined(lines)) + seq![10u8] + tail)
            == stream::read_from(State::Header(after), tail),
    decreases lines.len(),
{
    let line = lines[0];
    let rest = lines.drop_first();
    let all = encode_utf8(joined(lines)) + seq![10u8] + tail;
    assert(is_plain_line(line));
    lemma_line_bytes(line);
    assert(header::fields_after_line(fields, line) is Ok);
    let next = header::fields_after_line(fields, line)->Ok_0;
    if lines.len() == 1 {
        lemma_read_line(line, tail);
        assert(header::fields_after_lines(next, rest) == Ok::<Fields, Seq<char>>(next));
    } else {
        assert forall|i: int| 0 <= i < rest.len() implies is_plain_line(#[trigger] rest[i]) by {
            assert(rest[i] == lines[i + 1]);
        }
        let left = encode_utf8(joined(rest)) + seq![10u8] + tail;
        lemma_encode_line(line, joined(rest));
        assert(all =~= encode_utf8(line) + seq![10u8] + left);
        lemma_read_line(line, left);
        lemma_read_joined(next, rest, after, tail);
    }
}

/// A stream that begins with the first line of a frame, plain header lines that make a
/// header, and an empty line is read up to the payload.
proof fn lemma_read_header(
    lines: Seq<Seq<char>>,
    after: Fields,
    header: Header,
    left: Seq<u8>,
)
    requires
        are_plain_lines(lines),
        lines.len() > 0,
        header::fields_after_lines(header::no_fields(), lines) == Ok::<Fields, Seq<char>>(after),
        header::header_of(after) == Ok::<Header, Seq<char>>(header),
    ensures
        stream::read_from(
            State::Start,
            encode_utf8(MAGIC@ + seq!['\n'] + joined(lines)) + seq![10u8, 10u8] + left,
        ) == stream::read_from(State::Payload(header), left),
{
    let all = encode_utf8(MAGIC@ + seq!['\n'] + joined(lines)) + seq![10u8, 10u8] + left;
    let blank = seq![10u8] + left;
    let s1 = encode_utf8(joined(lines)) + seq![10u8] + blank;
    lemma_magic_is_plain();
    lemma_encode_line(MAGIC@, joined(lines));
    assert(all =~= encode_utf8(MAGIC@) + seq![10u8] + s1);
    lemma_line_bytes(MAGIC@);
    lemma_read_line(MAGIC@, s1);
    assert(stream::read_from(State::Start, all) == stream::read_from(
        State::Header(header::no_fields()),
        s1,
    ));
    lemma_read_joined(header::no_fields(), lines, after, blank);
    let empty = Seq::<char>::empty();
    assert(encode_utf8(empty) + seq![10u8] + left =~= blank);
    lemma_read_line(empty, left);
    assert(stream::read_from(State::Header(after), blank) == stream::read_from(
        State::Payload(header),
        left,
    ));
}

/// A payload of the length that the header names is taken off a stream.
pub proof fn lemma_read_payload(header: Header, payload: Seq<u8>, rest: Seq<u8>)
    requires
        payload.len() == header.bytes_len,
    ensures
        stream::read_from(State::Payload(header), payload + rest) == match header::item_of(
            header,
            payload,
        ) {
            Ok(item) => (Ok::<Option<Item>, Seq<char>>(Some(item)), rest),
            Err(message) => (Err::<Option<Item>, Seq<char>>(message), rest),
        },
{
    let left = payload + rest;
    assert(left.take(payload.len() as int) =~= payload);
    assert(left.skip(payload.len() as int) =~= rest);
    assert(stream::served(State::Payload(header), left).0 == Ok::<Seq<u8>, Seq<char>>(payload));
}

/// What a stream gives that begins with the header of a content and a payload of the length
/// that it names.
pub proof fn lemma_read_with_payload(item: Item, payload: Seq<u8>, rest: Seq<u8>)
    requires
        fits_frame(item),
        payload.len() == item.bytes.len(),
    ensures
        stream::read_from(
            State::Start,
            encode_utf8(frame::header_text(item)) + payload + rest,
        ) == match header::item_of(
            Header {
                kind: item.kind,
                mime: item.mime,
                hash: item.hash,
                bytes_len: item.bytes.len(),
            },
            payload,
        ) {
            Ok(item) => (Ok::<Option<Item>, Seq<char>>(Some(item)), rest),
            Err(message) => (Err::<Option<Item>, Seq<char>>(message), rest),
        },
{
    let header = Header {
        kind: item.kind,
        mime: item.mime,
        hash: item.hash,
        bytes_len: item.bytes.len(),
    };
    lemma_header_lines_plain(item);
    lemma_header_text(item);
    lemma_encode_header_end(MAGIC@ + seq!['\n'] + joined(field_lines(item)));
    lemma_field_lines(item);
    lemma_read_header(field_lines(item), fields_of(item), header, payload + rest);
    lemma_read_payload(header, payload, rest);
    assert(encode_utf8(frame::header_text(item)) + payload + rest =~= encode_utf8(
        MAGIC@ + seq!['\n'] + joined(field_lines(item)),
    ) + seq![10u8, 10u8] + (payload + rest));
}

/// A stream that begins with the frame of a content gives that content, and what follows
/// the frame is left to be read.
pub proof fn law_stream_round_trip(item: Item, rest: Seq<u8>)
    requires
        fits_frame(item),
    ensures
        stream::read_from(State::Start, frame::frame_of(item) + rest) == (
            Ok::<Option<Item>, Seq<char>>(Some(item)),
            rest,
        ),
{
    lemma_read_with_payload(item, item.bytes, rest);
}

/// Lines that were joined are the only ones that give the same text.
proof fn lemma_joined_injective(a: Seq<Seq<char>>, b: Seq<Seq<char>>)
    requires
        are_lines(a),
        are_lines(b),
        a.len() > 0,
        b.len() > 0,
        joined(a) == joined(b),
    ensures
        a == b,
    decreases a.len(),
{
    let x = a.drop_first();
    let y = b.drop_first();
    assert(is_line(a[0]) && is_line(b[0]));
    text::lemma_split_parts(a[0], '\n');
    text::lemma_split_parts(b[0], '\n');
    if a.len() > 1 {
        text::lemma_split_at_first(joined(a), '\n', a[0], joined(x));
    }
    if b.len() > 1 {
        text::lemma_split_at_first(joined(b), '\n', b[0], joined(y));
    }
    if a.len() > 1 {
        assert forall|i: int| 0 <= i < x.len() implies is_line(#[trigger] x[i]) by {
            assert(x[i] == a[i + 1]);
        }
        assert forall|i: int| 0 <= i < y.len() implies is_line(#[trigger] y[i]) by {
            assert(y[i] == b[i + 1]);
        }
        lemma_joined_injective(x, y);
    }
    assert(seq![a[0]] + x =~= a);
    assert(seq![b[0]] + y =~= b);
}

/// The header of a content whose media type and hash hold no line feed is made of lines.
proof fn lemma_header_lines_are_lines(item: Item)
    requires
        !item.mime.contains('\n'),
        !item.hash.contains('\n'),
    ensures
        are_lines(header_lines(item)),
{
    reveal_strlit("ZYNC1");
    reveal_strlit("kind:");
    reveal_strlit("mime:");
    reveal_strlit("hash:");
    reveal_strlit("bytes:");
    reveal_strlit("text");
    reveal_strlit("image");
    number::lemma_decimal(item.bytes.len());
    let lines = header_lines(item);
    let len = number::decimal_text(item.bytes.len());
    assert(is_line(lines[0]));
    assert(is_line(lines[1]));
    assert forall|i: int| 0 <= i < lines[2].len() implies lines[2][i] != '\n' by {
        if i >= 5 {
            assert(lines[2][i] == item.mime[i - 5]);
        }
    }
    assert forall|i: int| 0 <= i < lines[3].len() implies lines[3][i] != '\n' by {
        if i >= 5 {
            assert(lines[3][i] == item.hash[i - 5]);
        }
    }
    assert forall|i: int| 0 <= i < lines[4].len() implies lines[4][i] != '\n' by {
        if i >= 6 {
            assert(lines[4][i] == len[i - 6]);
            assert(number::is_digit(len[i - 6]));
        }
    }
}

/// A text that follows the same text is the same.
proof fn lemma_same_after(before: Seq<char>, a: Seq<char>, b: Seq<char>)
    requires
        before + a == before + b,
    ensures
        a == b,
{
    let n = before.len() as int;
    assert((before + a).skip(n) =~= a);
    assert((before + b).skip(n) =~= b);
}

/// No frame begins another: two contents of which one has a frame that begins the frame of
/// the other are the same content. Their media types and hashes hold no line feed.
pub proof fn law_frame_tells_contents_apart(a: Item, b: Item)
    requires
        !a.mime.contains('\n'),
        !a.hash.contains('\n'),
        !b.mime.contains('\n'),
        !b.hash.contains('\n'),
        frame::frame_of(a).is_prefix_of(frame::frame_of(b)),
    ensures
        a == b,
{
    let f = frame::frame_of(a);
    let g = frame::frame_of(b);
    let x = header_lines(a);
    let y = header_lines(b);
    let m = encode_utf8(joined(x)).len() as int;
    let n = encode_utf8(joined(y)).len() as int;
    lemma_header_bytes(a);
    lemma_header_bytes(b);
    lemma_header_lines_are_lines(a);
    lemma_header_lines_are_lines(b);
    lemma_header_end(x, a.bytes);
    lemma_header_end(y, b.bytes);
    assert forall|i: int| 0 <= i < f.len() implies f[i] == g[i] by {
        assert(g.subrange(0, f.len() as int)[i] == g[i]);
    }
    assert(frame::blank_line_at(f, m));
    assert(frame::blank_line_at(g, m));
    if n < m {
        assert(frame::blank_line_at(g, n));
        assert(frame::blank_line_at(f, n));
    }
    assert(m == n);
    assert(f.take(m) =~= g.take(m));
    ascii::lemma_encode_injective(joined(x), joined(y));
    lemma_joined_injective(x, y);
    assert(x[1] == y[1] && x[2] == y[2] && x[3] == y[3] && x[4] == y[4]);
    lemma_same_after("kind:"@, clipboard::kind_text(a.kind), clipboard::kind_text(b.kind));
    lemma_same_after("mime:"@, a.mime, b.mime);
    lemma_same_after("hash:"@, a.hash, b.hash);
    lemma_same_after(
        "bytes:"@,
        number::decimal_text(a.bytes.len()),
        number::decimal_text(b.bytes.len()),
    );
    law_kind_reads_back(a.kind);
    law_kind_reads_back(b.kind);
    number::lemma_decimal(a.bytes.len());
    number::lemma_decimal(b.bytes.len());
    assert(f.len() == g.len());
    assert(f =~= g);
    assert(a.bytes =~= f.skip(m + 2));
    assert(b.bytes =~= g.skip(m + 2));
}

/// A reader never goes back, and takes something of a stream that has not ended.
pub proof fn lemma_read_moves_on(state: State, stream: Seq<u8>)
    ensures
        stream::read_from(state, stream).1.len() <= stream.len(),
        stream.len() > 0 && state is Start ==> stream::read_from(state, stream).1.len()
            < stream.len(),
    decreases stream::stages_left(state), stream.len(),
{
    stream::lemma_line_len(stream);
    let (read, taken) = stream::served(state, stream);
    let rest = stream.skip(taken);
    match stream::action_on(state, read) {
        stream::Action::Continue(next) => {
            lemma_read_moves_on(next, rest);
        },
        _ => {},
    }
}

/// The contents that a stream delivers, one after another, and how it ends: well, or with the
/// message that refuses the rest.
pub open spec fn deliveries(stream: Seq<u8>) -> (Seq<Item>, Result<(), Seq<char>>)
    decreases stream.len(),
    via deliveries_decreases
{
    if stream.len() == 0 {
        (Seq::empty(), Ok(()))
    } else {
        match stream::read_from(State::Start, stream) {
            (Ok(Some(item)), rest) => {
                let (items, end) = deliveries(rest);
                (seq![item] + items, end)
            },
            (Ok(None), _) => (Seq::empty(), Ok(())),
            (Err(message), _) => (Seq::empty(), Err(message)),
        }
    }
}

#[via_fn]
proof fn deliveries_decreases(stream: Seq<u8>) {
    lemma_read_moves_on(State::Start, stream);
}

/// The frames of a list of contents, one after another.
pub open spec fn frames_of(items: Seq<Item>) -> Seq<u8>
    decreases items.len(),
{
    if items.len() == 0 {
        Seq::empty()
    } else {
        frame::frame_of(items[0]) + frames_of(items.drop_first())
    }
}

/// A reader that is inside a frame does not take the end of the stream for a good one.
proof fn lemma_ends_between_frames(state: State, stream: Seq<u8>)
    requires
        !(state is Start),
    ensures
        stream::read_from(state, stream).0 != Ok::<Option<Item>, Seq<char>>(None),
    decreases stream::stages_left(state), stream.len(),
{
    stream::lemma_line_len(stream);
    let (read, taken) = stream::served(state, stream);
    match stream::action_on(state, read) {
        stream::Action::Continue(next) => {
            lemma_ends_between_frames(next, stream.skip(taken));
        },
        _ => {},
    }
}

/// An empty stream has ended, and nothing is left of it. Any other stream gives a content or
/// is refused.
pub proof fn law_empty_stream_has_ended(stream: Seq<u8>)
    ensures
        stream.len() == 0 ==> stream::read_from(State::Start, stream) == (
            Ok::<Option<Item>, Seq<char>>(None),
            Seq::<u8>::empty(),
        ),
        stream.len() > 0 ==> stream::read_from(State::Start, stream).0 != Ok::<
            Option<Item>,
            Seq<char>,
        >(None),
{
    stream::lemma_line_len(stream);
    let (read, taken) = stream::served(State::Start, stream);
    if stream.len() == 0 {
        assert(stream.skip(0) =~= Seq::<u8>::empty());
    } else {
        match stream::action_on(State::Start, read) {
            stream::Action::Continue(next) => {
                lemma_ends_between_frames(next, stream.skip(taken));
            },
            _ => {},
        }
    }
}

/// The frame of a content, line by line: the first line names the format, the next four say
/// what the content is, in this order, and after an empty line comes the content itself.
pub proof fn law_frame_form(item: Item)
    ensures
        MAGIC@ == "ZYNC1"@,
        frame::frame_of(item) == frame_with(
            seq![
                "kind:"@ + clipboard::kind_text(item.kind),
                "mime:"@ + item.mime,
                "hash:"@ + item.hash,
                "bytes:"@ + number::decimal_text(item.bytes.len()),
            ],
            item.bytes,
        ),
{
    lemma_header_bytes(item);
}

/// The frame of a content is not empty.
pub proof fn lemma_frame_not_empty(item: Item)
    ensures
        frame::frame_of(item).len() > 0,
{
    lemma_header_bytes(item);
}

/// Contents whose frames are sent one after another arrive all, in the order in which they
/// were sent, whatever follows them: a stream that is refused later has still delivered them.
pub proof fn law_stream_of_frames(items: Seq<Item>, tail: Seq<u8>)
    requires
        forall|i: int| 0 <= i < items.len() ==> fits_frame(#[trigger] items[i]),
    ensures
        deliveries(frames_of(items) + tail) == (items + deliveries(tail).0, deliveries(tail).1),
        deliveries(frames_of(items)) == (items, Ok::<(), Seq<char>>(())),
    decreases items.len(),
{
    assert(frames_of(items) + Seq::<u8>::empty() =~= frames_of(items));
    if items.len() == 0 {
        assert(frames_of(items) + tail =~= tail);
        assert(items + deliveries(tail).0 =~= deliveries(tail).0);
        assert(items =~= Seq::empty());
    } else {
        let rest = items.drop_first();
        assert forall|i: int| 0 <= i < rest.len() implies fits_frame(#[trigger] rest[i]) by {
            assert(rest[i] == items[i + 1]);
        }
        law_stream_of_frames(rest, tail);
        assert(fits_frame(items[0]));
        lemma_frame_not_empty(items[0]);
        law_stream_round_trip(items[0], frames_of(rest) + tail);
        assert(frames_of(items) + tail =~= frame::frame_of(items[0]) + (frames_of(rest) + tail));
        assert(seq![items[0]] + (rest + deliveries(tail).0) =~= items + deliveries(tail).0);
        law_stream_round_trip(items[0], frames_of(rest));
        assert(seq![items[0]] + rest =~= items);
    }
}

/// A frame is accepted only where its payload has the length and the fingerprint that its
/// header names; a payload of another length is refused, and so is one whose fingerprint
/// differs.
pub proof fn law_payload_is_checked(item: Item, payload: Seq<u8>)
    requires
        fits_frame(item),
    ensures
        frame::decoded(encode_utf8(frame::header_text(item)) + payload) == if payload.len()
            != item.bytes.len() {
            Err(
                "invalid frame: expected "@ + number::decimal_text(item.bytes.len())
                    + " payload bytes, got "@ + number::decimal_text(payload.len()),
            )
        } else {
            let actual = clipboard::fingerprint_text(
                clipboard::kind_text(item.kind),
                item.mime,
                payload,
            );
            if actual == item.hash {
                Ok(Item { bytes: payload, ..item })
            } else {
                Err(
                    "invalid frame: hash mismatch, expected "@ + item.hash + ", got "@ + actual,
                )
            }
        },
{
    lemma_decoded_with_payload(item, payload);
}

/// Text that does not begin with a line end is not taken away with it.
proof fn lemma_line_end_leaves(s: Seq<char>)
    requires
        s.len() > 0,
        s[0] != '\r',
        s[0] != '\n',
    ensures
        text::without_line_end(s).len() > 0,
    decreases s.len(),
{
    if s.last() == '\r' || s.last() == '\n' {
        lemma_line_end_leaves(s.drop_last());
    }
}

/// A stream that has no line feed is one line.
proof fn lemma_last_line(stream: Seq<u8>)
    requires
        !stream.contains(10),
    ensures
        stream::line_len(stream) == stream.len(),
        stream.take(stream.len() as int) == stream,
        stream.skip(stream.len() as int) == Seq::<u8>::empty(),
{
    stream.index_of_first_ensures(10);
    assert(stream.take(stream.len() as int) =~= stream);
    assert(stream.skip(stream.len() as int) =~= Seq::<u8>::empty());
}

/// A header that breaks off is refused.
pub proof fn lemma_header_breaks_off(fields: Fields)
    ensures
        stream::read_from(State::Header(fields), Seq::empty()).0 is Err,
{
    stream::lemma_line_len(Seq::empty());
}

/// The first part of a header, cut anywhere before the end of its empty line, is refused.
proof fn lemma_cut_header(fields: Fields, lines: Seq<Seq<char>>, cut: int)
    requires
        are_plain_lines(lines),
        lines.len() > 0,
        forall|i: int| 0 <= i < lines.len() ==> (#[trigger] lines[i])[0] != '\r',
        0 <= cut < encode_utf8(joined(lines)).len() + 2,
    ensures
        stream::read_from(
            State::Header(fields),
            (encode_utf8(joined(lines)) + seq![10u8, 10u8]).take(cut),
        ).0 is Err,
    decreases lines.len(),
{
    let line = lines[0];
    let rest = lines.drop_first();
    let bytes = encode_utf8(line);
    let all = encode_utf8(joined(lines)) + seq![10u8, 10u8];
    let part = all.take(cut);
    let n = bytes.len() as int;
    assert(is_plain_line(line));
    lemma_line_bytes(line);
    let tail = if lines.len() == 1 {
        seq![10u8]
    } else {
        encode_utf8(joined(rest)) + seq![10u8, 10u8]
    };
    assert(all =~= bytes + seq![10u8] + tail) by {
        if lines.len() > 1 {
            lemma_encode_line(line, joined(rest));
        }
    }
    if cut <= n {
        assert(part =~= bytes.take(cut));
        assert(!part.contains(10));
        lemma_last_line(part);
        if cut == 0 {
            lemma_header_breaks_off(fields);
            assert(part =~= Seq::<u8>::empty());
        } else if valid_utf8(part) {
            let shown = decode_utf8(part);
            decode_utf8_encode_utf8(part);
            assert(shown.len() > 0);
            assert(part[0] == bytes[0]);
            ascii::lemma_encode_char(line[0]);
            if shown[0] == '\r' || shown[0] == '\n' {
                ascii::lemma_encode_char(shown[0]);
                assert(part[0] == shown[0] as u8);
                ascii::lemma_encode_first(line, shown[0]);
                assert(line[0] == shown[0]);
                assert(line.contains('\n') || line[0] == '\r');
            }
            lemma_line_end_leaves(shown);
            match header::fields_after_line(fields, text::without_line_end(shown)) {
                Ok(next) => {
                    lemma_header_breaks_off(next);
                },
                Err(_) => {},
            }
        }
    } else {
        let left = tail.take(cut - n - 1);
        assert(part =~= bytes + seq![10u8] + left);
        lemma_read_line(line, left);
        match header::fields_after_line(fields, line) {
            Ok(next) => {
                if lines.len() == 1 {
                    assert(left =~= Seq::<u8>::empty());
                    lemma_header_breaks_off(next);
                } else {
                    assert forall|i: int| 0 <= i < rest.len() implies is_plain_line(
                        #[trigger] rest[i],
                    ) && rest[i][0] != '\r' by {
                        assert(rest[i] == lines[i + 1]);
                    }
                    lemma_cut_header(next, rest, cut - n - 1);
                }
                assert(stream::read_from(State::Header(fields), part) == stream::read_from(
                    State::Header(next),
                    left,
                ));
            },
            Err(_) => {},
        }
    }
}

/// The first line and header of a frame, cut anywhere before the payload, are refused.
proof fn lemma_cut_before_payload(item: Item, cut: int)
    requires
        fits_frame(item),
        0 < cut < encode_utf8(frame::header_text(item)).len(),
    ensures
        stream::read_from(State::Start, encode_utf8(frame::header_text(item)).take(cut)).0 is Err,
{
    let lines = field_lines(item);
    let all = encode_utf8(frame::header_text(item));
    let part = all.take(cut);
    let magic = encode_utf8(MAGIC@);
    let tail = encode_utf8(joined(lines)) + seq![10u8, 10u8];
    let n = magic.len() as int;
    lemma_header_lines_plain(item);
    lemma_header_text(item);
    lemma_encode_header_end(MAGIC@ + seq!['\n'] + joined(lines));
    lemma_encode_line(MAGIC@, joined(lines));
    lemma_magic_is_plain();
    lemma_line_bytes(MAGIC@);
    assert(all =~= magic + seq![10u8] + tail);
    if cut <= n {
        assert(part =~= magic.take(cut));
        assert(!part.contains(10));
        lemma_last_line(part);
        lemma_header_breaks_off(header::no_fields());
    } else {
        let left = tail.take(cut - n - 1);
        assert(part =~= magic + seq![10u8] + left);
        lemma_read_line(MAGIC@, left);
        assert(stream::read_from(State::Start, part) == stream::read_from(
            State::Header(header::no_fields()),
            left,
        ));
        reveal_strlit("kind:");
        reveal_strlit("mime:");
        reveal_strlit("hash:");
        reveal_strlit("bytes:");
        lemma_cut_header(header::no_fields(), lines, cut - n - 1);
    }
}

/// A frame that breaks off is never delivered: a stream that ends inside a frame is refused.
pub proof fn law_cut_stream_is_refused(item: Item, cut: int)
    requires
        fits_frame(item),
        0 < cut < frame::frame_of(item).len(),
    ensures
        stream::read_from(State::Start, frame::frame_of(item).take(cut)).0 is Err,
{
    let start = encode_utf8(frame::header_text(item));
    let part = frame::frame_of(item).take(cut);
    if cut < start.len() {
        assert(part =~= start.take(cut));
        lemma_cut_before_payload(item, cut);
    } else {
        let payload = item.bytes.take(cut - start.len());
        let header = Header {
            kind: item.kind,
            mime: item.mime,
            hash: item.hash,
            bytes_len: item.bytes.len(),
        };
        lemma_header_lines_plain(item);
        lemma_header_text(item);
        lemma_encode_header_end(MAGIC@ + seq!['\n'] + joined(field_lines(item)));
        lemma_field_lines(item);
        assert(part =~= start + payload);
        lemma_read_header(field_lines(item), fields_of(item), header, payload);
    }
}

/// A frame that is cut short is refused as a whole.
pub proof fn law_cut_frame_is_refused(item: Item, cut: int)
    requires
        fits_frame(item),
        0 <= cut < frame::frame_of(item).len(),
    ensures
        frame::decoded(frame::frame_of(item).take(cut)) is Err,
{
    let input = frame::frame_of(item);
    let part = input.take(cut);
    let head = encode_utf8(joined(header_lines(item)));
    let start = encode_utf8(frame::header_text(item));
    lemma_header_bytes(item);
    lemma_header_lines_plain(item);
    lemma_plain_are_lines(header_lines(item));
    lemma_header_end(header_lines(item), item.bytes);
    if cut < start.len() {
        assert(input == head + seq![10u8, 10u8] + item.bytes);
        assert forall|i: int| !frame::header_ends_at(part, i) by {
            if frame::blank_line_at(part, i) {
                assert(frame::blank_line_at(input, i));
                assert(i < head.len());
            }
        }
    } else {
        let payload = item.bytes.take(cut - start.len());
        assert(part =~= start + payload);
        lemma_decoded_with_payload(item, payload);
    }
}

} // verus!
