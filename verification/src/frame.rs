//! Frames: one clipboard content as bytes. A frame is a header of text lines, an empty
//! line, and the content itself.

use crate::clipboard;
use crate::clipboard::{ClipboardItem, Item};
use crate::header;
use crate::header::{HeaderFields, MAGIC};
use crate::number;
use crate::text;
use crate::utf8;
use vstd::prelude::*;
use vstd::slice::{slice_subrange, slice_to_vec};
use vstd::utf8::*;

verus! {

/// The header of the frame of a content, with the empty line that ends it.
pub open spec fn header_text(item: Item) -> Seq<char> {
    MAGIC@ + "\nkind:"@ + clipboard::kind_text(item.kind) + "\nmime:"@ + item.mime + "\nhash:"@
        + item.hash + "\nbytes:"@ + number::decimal_text(item.bytes.len()) + "\n\n"@
}

/// The frame of a content.
pub open spec fn frame_of(item: Item) -> Seq<u8> {
    encode_utf8(header_text(item)) + item.bytes
}

/// Writes a clipboard content as a frame.
pub fn encode_frame(item: &ClipboardItem) -> (frame: Vec<u8>)
    ensures
        frame@ == frame_of(item@),
{
    let len = number::decimal(item.bytes.len() as u128);
    let header = String::from_str(MAGIC).concat("\nkind:").concat(item.kind.as_str()).concat(
        "\nmime:",
    ).concat(item.mime.as_str()).concat("\nhash:").concat(item.hash.as_str()).concat(
        "\nbytes:",
    ).concat(len.as_str()).concat("\n\n");
    let mut frame = header.as_str().as_bytes_vec();
    frame.extend_from_slice(item.bytes.as_slice());
    proof {
        assert(frame@ =~= frame_of(item@));
    }
    frame
}

/// Whether two line feeds stand side by side at position `i`.
pub open spec fn blank_line_at(input: Seq<u8>, i: int) -> bool {
    0 <= i && i + 1 < input.len() && input[i] == 10 && input[i + 1] == 10
}

/// Whether the header of a frame ends at position `i`: at the first empty line.
pub open spec fn header_ends_at(input: Seq<u8>, i: int) -> bool {
    blank_line_at(input, i) && forall|j: int| 0 <= j < i ==> !blank_line_at(input, j)
}

/// The content of a frame with the given header and payload, or the message that refuses it.
pub open spec fn content_of(header: Seq<char>, payload: Seq<u8>) -> Result<Item, Seq<char>> {
    let lines = text::lines_of(header);
    if lines.len() == 0 || lines[0] != MAGIC@ {
        Err("invalid frame: bad magic"@)
    } else {
        match header::fields_after_lines(header::no_fields(), lines.drop_first()) {
            Err(message) => Err(message),
            Ok(fields) => match header::header_of(fields) {
                Err(message) => Err(message),
                Ok(header) => if payload.len() != header.bytes_len {
                    Err(
                        "invalid frame: expected "@ + number::decimal_text(header.bytes_len)
                            + " payload bytes, got "@ + number::decimal_text(payload.len()),
                    )
                } else {
                    header::item_of(header, payload)
                },
            },
        }
    }
}

/// The content of a frame, or the message that refuses it.
pub open spec fn decoded(input: Seq<u8>) -> Result<Item, Seq<char>> {
    if exists|i: int| header_ends_at(input, i) {
        let end = choose|i: int| header_ends_at(input, i);
        let header = input.take(end);
        if valid_utf8(header) {
            content_of(decode_utf8(header), input.skip(end + 2))
        } else {
            Err("invalid frame header encoding: "@ + utf8::utf8_error_text(header))
        }
    } else {
        Err("invalid frame: missing header terminator"@)
    }
}

/// Finds the end of a frame header.
fn find_header_end(input: &[u8]) -> (r: Option<usize>)
    ensures
        match r {
            Some(i) => header_ends_at(input@, i as int),
            None => forall|i: int| !header_ends_at(input@, i),
        },
{
    let n = input.len();
    if n < 2 {
        return None;
    }
    let mut i: usize = 0;
    while i < n - 1
        invariant
            n == input@.len(),
            2 <= n,
            i <= n - 1,
            forall|j: int| 0 <= j < i ==> !blank_line_at(input@, j),
        decreases n - i,
    {
        if input[i] == 10 && input[i + 1] == 10 {
            return Some(i);
        }
        i += 1;
    }
    None
}

/// Reads the content of a frame from its header and its payload.
pub fn decode_parts(header: &str, payload: &[u8]) -> (r: Result<ClipboardItem, String>)
    ensures
        text::outcome(r) == content_of(header@, payload@),
{
    if header.is_empty() {
        return Err(String::from_str("invalid frame: bad magic"));
    }
    let ghost lines = text::lines_of(header@);
    let (magic, tail) = text::next_line(header);
    proof {
        assert(lines[0] == magic@);
        assert(lines.drop_first() =~= text::lines_of(tail@));
    }
    if !text::str_eq(magic, MAGIC) {
        return Err(String::from_str("invalid frame: bad magic"));
    }
    let mut fields = HeaderFields::new();
    let mut rest = tail;
    while !rest.is_empty()
        invariant
            header::fields_after_lines(fields@, text::lines_of(rest@))
                == header::fields_after_lines(header::no_fields(), lines.drop_first()),
            lines == text::lines_of(header@),
            lines.len() > 0,
            lines[0] == MAGIC@,
        decreases rest@.len(),
    {
        let (line, after) = text::next_line(rest);
        proof {
            let left = text::lines_of(rest@);
            assert(left[0] == line@);
            assert(left.drop_first() =~= text::lines_of(after@));
        }
        match fields.accept(line) {
            Ok(next) => {
                fields = next;
            },
            Err(message) => {
                return Err(message);
            },
        }
        rest = after;
    }
    let header = match fields.complete() {
        Ok(header) => header,
        Err(message) => {
            return Err(message);
        },
    };
    if payload.len() != header.bytes_len {
        let expected = number::decimal(header.bytes_len as u128);
        let got = number::decimal(payload.len() as u128);
        return Err(
            String::from_str("invalid frame: expected ").concat(expected.as_str()).concat(
                " payload bytes, got ",
            ).concat(got.as_str()),
        );
    }
    header.with_payload(slice_to_vec(payload))
}

/// Reads a clipboard content from a frame.
pub fn decode_frame(input: &[u8]) -> (r: Result<ClipboardItem, String>)
    ensures
        text::outcome(r) == decoded(input@),
{
    let end: usize = match find_header_end(input) {
        Some(end) => end,
        None => {
            return Err(String::from_str("invalid frame: missing header terminator"));
        },
    };
    proof {
        let chosen = choose|i: int| header_ends_at(input@, i);
        assert(chosen == end);
    }
    let n = input.len();
    let header = slice_subrange(input, 0, end);
    let payload = slice_subrange(input, end + 2, n);
    match utf8::from_utf8(header) {
        Ok(header) => decode_parts(header, payload),
        Err(message) => Err(
            String::from_str("invalid frame header encoding: ").concat(message.as_str()),
        ),
    }
}

} // verus!
