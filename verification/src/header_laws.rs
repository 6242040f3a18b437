//! What headers are for: each line says one thing of the content, and a header that is
//! complete says all of it.

use crate::clipboard;
use crate::clipboard::{ClipboardKind, Item};
use crate::header;
use crate::header::{Fields, Header};
use crate::number;
use crate::text;
use vstd::prelude::*;

verus! {

/// Two words stand for the two kinds, and any other is refused by name.
pub proof fn law_kind_words(word: Seq<char>)
    ensures
        clipboard::kind_text(ClipboardKind::Text) == "text"@,
        clipboard::kind_text(ClipboardKind::Image) == "image"@,
        clipboard::kind_of("text"@) == Ok::<ClipboardKind, Seq<char>>(ClipboardKind::Text),
        clipboard::kind_of("image"@) == Ok::<ClipboardKind, Seq<char>>(ClipboardKind::Image),
        word != "text"@ && word != "image"@ ==> clipboard::kind_of(word) == Err::<
            ClipboardKind,
            Seq<char>,
        >("unsupported clipboard kind: "@ + word),
{
    reveal_strlit("text");
    reveal_strlit("image");
    assert("text"@.len() != "image"@.len());
}

/// Each header line says one thing and leaves the rest alone, whatever was said before: the
/// media type and the fingerprint are all that follows the first colon, the kind is a word for
/// it, and the number of bytes is a number.
pub proof fn law_line_says_one_thing(fields: Fields, value: Seq<char>)
    ensures
        header::fields_after_line(fields, "mime:"@ + value) == Ok::<Fields, Seq<char>>(
            Fields { mime: Some(value), ..fields },
        ),
        header::fields_after_line(fields, "hash:"@ + value) == Ok::<Fields, Seq<char>>(
            Fields { hash: Some(value), ..fields },
        ),
        header::fields_after_line(fields, "kind:"@ + value) == match clipboard::kind_of(value) {
            Ok(kind) => Ok::<Fields, Seq<char>>(Fields { kind: Some(kind), ..fields }),
            Err(message) => Err::<Fields, Seq<char>>(message),
        },
        header::fields_after_line(fields, "bytes:"@ + value) == match number::number_of(
            value,
            usize::MAX as nat,
        ) {
            Some(n) => Ok::<Fields, Seq<char>>(Fields { bytes_len: Some(n), ..fields }),
            None => Err::<Fields, Seq<char>>("invalid frame byte length"@),
        },
{
    reveal_strlit("kind");
    reveal_strlit("kind:");
    reveal_strlit("mime");
    reveal_strlit("mime:");
    reveal_strlit("hash");
    reveal_strlit("hash:");
    reveal_strlit("bytes");
    reveal_strlit("bytes:");
    assert("kind"@[0] == 'k' && "mime"@[0] == 'm' && "hash"@[0] == 'h' && "bytes"@[0] == 'b');
    assert("kind:"@ + value =~= "kind"@ + seq![':'] + value);
    assert("mime:"@ + value =~= "mime"@ + seq![':'] + value);
    assert("hash:"@ + value =~= "hash"@ + seq![':'] + value);
    assert("bytes:"@ + value =~= "bytes"@ + seq![':'] + value);
    text::lemma_split_at_first("kind:"@ + value, ':', "kind"@, value);
    text::lemma_split_at_first("mime:"@ + value, ':', "mime"@, value);
    text::lemma_split_at_first("hash:"@ + value, ':', "hash"@, value);
    text::lemma_split_at_first("bytes:"@ + value, ':', "bytes"@, value);
}

/// A line with another key is refused by its key, and one without a colon as a whole, whatever
/// was said before.
pub proof fn law_other_lines_are_refused(fields: Fields, key: Seq<char>, value: Seq<char>)
    requires
        !key.contains(':'),
    ensures
        key != "kind"@ && key != "mime"@ && key != "hash"@ && key != "bytes"@
            ==> header::fields_after_line(fields, key + seq![':'] + value) == Err::<
            Fields,
            Seq<char>,
        >("unknown frame header: "@ + key),
        header::fields_after_line(fields, key) == Err::<Fields, Seq<char>>(
            "invalid frame header line: "@ + key,
        ),
{
    text::lemma_split_at_first(key + seq![':'] + value, ':', key, value);
    text::lemma_split_parts(key, ':');
}

/// Header lines are taken in one after another, and the first that is refused decides.
pub proof fn law_lines_one_after_another(
    fields: Fields,
    first: Seq<Seq<char>>,
    second: Seq<Seq<char>>,
)
    ensures
        header::fields_after_lines(fields, first + second) == match header::fields_after_lines(
            fields,
            first,
        ) {
            Ok(next) => header::fields_after_lines(next, second),
            Err(message) => Err(message),
        },
        header::fields_after_lines(fields, Seq::empty()) == Ok::<Fields, Seq<char>>(fields),
        first.len() == 1 ==> header::fields_after_lines(fields, first)
            == header::fields_after_line(fields, first[0]),
    decreases first.len(),
{
    if first.len() == 0 {
        assert(first + second =~= second);
    } else {
        let rest = first.drop_first();
        assert((first + second)[0] == first[0]);
        assert((first + second).drop_first() =~= rest + second);
        match header::fields_after_line(fields, first[0]) {
            Ok(next) => {
                law_lines_one_after_another(next, rest, second);
            },
            Err(_) => {},
        }
    }
}

/// A header is complete exactly where all four things have been said, and then it says just
/// these. What is missing is reported: the kind before the media type, that before the
/// fingerprint, and that before the number of bytes.
pub proof fn law_header_is_complete(fields: Fields)
    ensures
        header::header_of(fields) is Ok <==> fields.kind is Some && fields.mime is Some
            && fields.hash is Some && fields.bytes_len is Some,
        header::header_of(fields) matches Ok(header) ==> {
            &&& fields.kind == Some(header.kind)
            &&& fields.mime == Some(header.mime)
            &&& fields.hash == Some(header.hash)
            &&& fields.bytes_len == Some(header.bytes_len)
        },
        fields.kind is None ==> header::header_of(fields) == Err::<Header, Seq<char>>(
            "invalid frame: missing kind"@,
        ),
        fields.kind is Some && fields.mime is None ==> header::header_of(fields) == Err::<
            Header,
            Seq<char>,
        >("invalid frame: missing mime"@),
        fields.kind is Some && fields.mime is Some && fields.hash is None ==> header::header_of(
            fields,
        ) == Err::<Header, Seq<char>>("invalid frame: missing hash"@),
        fields.kind is Some && fields.mime is Some && fields.hash is Some && fields.bytes_len is None
            ==> header::header_of(fields) == Err::<Header, Seq<char>>(
            "invalid frame: missing bytes"@,
        ),
{
}

/// A payload is accepted exactly where its fingerprint is the one that the header names, for
/// either kind. The content is then the payload as it is, under what the header says of it;
/// otherwise the message names both fingerprints.
pub proof fn law_payload_under_header(header: Header, payload: Seq<u8>)
    ensures
        ({
            let word = if header.kind == ClipboardKind::Text {
                "text"@
            } else {
                "image"@
            };
            let actual = clipboard::fingerprint_text(word, header.mime, payload);
            &&& header::item_of(header, payload) is Ok <==> actual == header.hash
            &&& header::item_of(header, payload) matches Ok(item) ==> {
                &&& item.kind == header.kind
                &&& item.mime == header.mime
                &&& item.bytes == payload
                &&& item.hash == header.hash
            }
            &&& actual != header.hash ==> header::item_of(header, payload) == Err::<
                Item,
                Seq<char>,
            >("invalid frame: hash mismatch, expected "@ + header.hash + ", got "@ + actual)
        }),
{
}

} // verus!
