//! What holds between the sides of a session: of what is read, delivered, kept and sent on.

use crate::ascii;
use crate::cli;
use crate::clipboard;
use crate::clipboard::{ClipboardKind, Item};
use crate::frame;
use crate::header;
use crate::header::Fields;
use crate::laws;
use crate::number;
use crate::pasteboard;
use crate::pasteboard::PasteboardForm;
use crate::session;
use crate::session::{ClipboardStep, MarkerStep, Side};
use crate::stream;
use crate::stream::{Action, State};
use crate::text;
use vstd::prelude::*;
use vstd::utf8::*;

verus! {

/// Whether a media type fits on one line of a header.
spec fn mime_fits(mime: Seq<char>) -> bool {
    !mime.contains('\n') && !(mime.len() > 0 && mime.last() == '\r')
}

spec fn fields_fit(fields: Fields) -> bool {
    &&& fields.mime matches Some(mime) ==> mime_fits(mime)
    &&& fields.bytes_len matches Some(n) ==> n <= usize::MAX
}

spec fn state_fits(state: State) -> bool {
    match state {
        State::Start => true,
        State::Header(fields) => fields_fit(fields),
        State::Payload(header) => mime_fits(header.mime) && header.bytes_len <= usize::MAX,
    }
}

/// A line without its line end is the first part of the line and does not end with one.
proof fn lemma_without_line_end(s: Seq<char>)
    ensures
        ({
            let r = text::without_line_end(s);
            &&& r.len() <= s.len()
            &&& r == s.take(r.len() as int)
            &&& r.len() > 0 ==> r.last() != '\r' && r.last() != '\n'
        }),
    decreases s.len(),
{
    let r = text::without_line_end(s);
    if s.len() > 0 && (s.last() == '\r' || s.last() == '\n') {
        lemma_without_line_end(s.drop_last());
        assert(s.drop_last().take(r.len() as int) =~= s.take(r.len() as int));
    } else {
        assert(s.take(s.len() as int) =~= s);
    }
}

/// A line that was read holds no line feed and does not end with a carriage return.
proof fn lemma_line_is_plain(stream: Seq<u8>)
    ensures
        stream::line_text(stream.take(stream::line_len(stream))) matches Ok(line) ==> {
            &&& !line.contains('\n')
            &&& line.len() > 0 ==> line.last() != '\r'
        },
{
    let n = stream::line_len(stream);
    let bytes = stream.take(n);
    stream::lemma_line_len(stream);
    stream.index_of_first_ensures(10);
    if valid_utf8(bytes) {
        let s = decode_utf8(bytes);
        let r = text::without_line_end(s);
        decode_utf8_encode_utf8(bytes);
        lemma_without_line_end(s);
        if r.contains('\n') {
            let i = r.index_of('\n');
            assert(r[i] == s[i]);
            assert(i < s.len() - 1);
            let front = s.drop_last();
            assert(front[i] == '\n');
            assert(front.contains('\n'));
            ascii::lemma_encode_contains(front, '\n');
            ascii::lemma_encode_concat(front, seq![s.last()]);
            ascii::lemma_encode_one(s.last());
            ascii::lemma_encode_char(s.last());
            assert(front + seq![s.last()] =~= s);
            let j = encode_utf8(front).index_of(10);
            assert(bytes[j] == 10);
            assert(stream[j] == 10);
            assert(j < n - 1);
        }
    }
}

/// A header line that fits leaves fields that fit.
proof fn lemma_fields_fit(fields: Fields, line: Seq<char>)
    requires
        fields_fit(fields),
        !line.contains('\n'),
        line.len() > 0 ==> line.last() != '\r',
    ensures
        header::fields_after_line(fields, line) matches Ok(next) ==> fields_fit(next),
{
    text::lemma_split_parts(line, ':');
    match text::split_at_first(line, ':') {
        Some((key, value)) => {
            let k = key.len() as int + 1;
            assert forall|i: int| 0 <= i < value.len() implies value[i] != '\n' by {
                assert(line[k + i] == value[i]);
            }
            if value.len() > 0 {
                assert(value.last() == line.last());
            }
            assert(mime_fits(value));
        },
        None => {},
    }
}

/// Reading from a state that fits gives a content that fits.
proof fn lemma_delivered_fits(state: State, stream: Seq<u8>)
    requires
        state_fits(state),
    ensures
        stream::read_from(state, stream).0 matches Ok(Some(item)) ==> laws::fits_frame(item),
    decreases stream::stages_left(state), stream.len(),
{
    let (read, taken) = stream::served(state, stream);
    let rest = stream.skip(taken);
    stream::lemma_line_len(stream);
    lemma_line_is_plain(stream);
    match stream::action_on(state, read) {
        Action::Continue(next) => {
            match state {
                State::Header(fields) => {
                    let line = stream::line_text(read->Ok_0)->Ok_0;
                    lemma_fields_fit(fields, line);
                },
                _ => {},
            }
            assert(state_fits(next));
            lemma_delivered_fits(next, rest);
        },
        _ => {},
    }
}

/// What arrives can be sent on: a content that a stream delivers carries its own
/// fingerprint, fits a frame, and arrives again when it is sent once more.
pub proof fn law_delivered_can_be_sent_on(stream: Seq<u8>, rest: Seq<u8>)
    ensures
        stream::read_from(State::Start, stream).0 matches Ok(Some(item)) ==> {
            &&& item.hash == item.fingerprint()
            &&& laws::fits_frame(item)
            &&& stream::read_from(State::Start, frame::frame_of(item) + rest) == (
                Ok::<Option<Item>, Seq<char>>(Some(item)),
                rest,
            )
        },
{
    lemma_delivered_fits(State::Start, stream);
    match stream::read_from(State::Start, stream).0 {
        Ok(Some(item)) => {
            laws::law_stream_round_trip(item, rest);
        },
        _ => {},
    }
}

/// No line of a text holds a line feed.
proof fn lemma_lines_hold_no_line_feed(text: Seq<char>)
    ensures
        forall|i: int|
            0 <= i < text::lines_of(text).len() ==> !(#[trigger] text::lines_of(text)[i]).contains(
                '\n',
            ),
    decreases text.len(),
{
    if text.len() > 0 {
        text::lemma_split_parts(text, '\n');
        match text::split_at_first(text, '\n') {
            Some((line, rest)) => {
                lemma_lines_hold_no_line_feed(rest);
                let lines = text::lines_of(text);
                let first = text::without_carriage_return(line);
                assert(lines == seq![first] + text::lines_of(rest));
                assert forall|i: int| 0 <= i < lines.len() implies !(
                #[trigger] lines[i]).contains('\n') by {
                    if i == 0 {
                        assert forall|k: int| 0 <= k < first.len() implies first[k] != '\n' by {
                            assert(line[k] == first[k]);
                        }
                    } else {
                        assert(lines[i] == text::lines_of(rest)[i - 1]);
                    }
                }
            },
            None => {},
        }
    }
}

spec fn mime_on_one_line(fields: Fields) -> bool {
    &&& fields.mime matches Some(mime) ==> !mime.contains('\n')
    &&& fields.bytes_len matches Some(n) ==> n <= usize::MAX
}

/// Header lines without a line feed leave a media type without one.
proof fn lemma_mime_on_one_line(fields: Fields, lines: Seq<Seq<char>>)
    requires
        mime_on_one_line(fields),
        forall|i: int| 0 <= i < lines.len() ==> !(#[trigger] lines[i]).contains('\n'),
    ensures
        header::fields_after_lines(fields, lines) matches Ok(after) ==> mime_on_one_line(after),
    decreases lines.len(),
{
    if lines.len() > 0 {
        let line = lines[0];
        assert(!line.contains('\n'));
        text::lemma_split_parts(line, ':');
        match header::fields_after_line(fields, line) {
            Ok(next) => {
                let (key, value) = text::split_at_first(line, ':').unwrap();
                let k = key.len() as int + 1;
                assert forall|i: int| 0 <= i < value.len() implies value[i] != '\n' by {
                    assert(line[k + i] == value[i]);
                }
                let rest = lines.drop_first();
                assert forall|i: int| 0 <= i < rest.len() implies !(#[trigger] rest[i]).contains(
                    '\n',
                ) by {
                    assert(rest[i] == lines[i + 1]);
                }
                lemma_mime_on_one_line(next, rest);
            },
            Err(_) => {},
        }
    }
}

/// The media type of an accepted frame holds no line feed.
pub proof fn lemma_decoded_mime(input: Seq<u8>)
    ensures
        frame::decoded(input) matches Ok(item) ==> !item.mime.contains('\n')
            && item.bytes.len() <= usize::MAX,
{
    match frame::decoded(input) {
        Ok(item) => {
            let end = choose|i: int| frame::header_ends_at(input, i);
            let header = decode_utf8(input.take(end));
            let lines = text::lines_of(header);
            let rest = lines.drop_first();
            lemma_lines_hold_no_line_feed(header);
            assert forall|i: int| 0 <= i < rest.len() implies !(#[trigger] rest[i]).contains(
                '\n',
            ) by {
                assert(rest[i] == lines[i + 1]);
            }
            lemma_mime_on_one_line(header::no_fields(), rest);
        },
        Err(_) => {},
    }
}

/// A frame that is accepted holds a content with its own fingerprint, and its payload is the
/// content. Unless the media type ends with a carriage return, writing the content again
/// gives a frame that decodes to the same content.
pub proof fn law_decoded_can_be_sent_on(input: Seq<u8>)
    ensures
        frame::decoded(input) matches Ok(item) ==> {
            &&& item.hash == item.fingerprint()
            &&& item.bytes.len() <= input.len()
            &&& item.bytes == input.skip(input.len() - item.bytes.len())
            &&& !(item.mime.len() > 0 && item.mime.last() == '\r') ==> frame::decoded(
                frame::frame_of(item),
            ) == Ok::<Item, Seq<char>>(item)
        },
{
    match frame::decoded(input) {
        Ok(item) => {
            let end = choose|i: int| frame::header_ends_at(input, i);
            assert(frame::header_ends_at(input, end));
            assert(item.bytes == input.skip(end + 2));
            lemma_decoded_mime(input);
            if !(item.mime.len() > 0 && item.mime.last() == '\r') {
                laws::law_frame_round_trip(item);
            }
        },
        Err(_) => {},
    }
}

/// A fingerprint has no white space, so that a marker that holds it names it and no other.
proof fn lemma_fingerprint_is_its_own_marker(item: Item)
    requires
        item.hash == item.fingerprint(),
    ensures
        text::without_outer_space(item.hash) == item.hash,
{
    laws::law_fingerprint_form(clipboard::kind_text(item.kind), item.mime, item.bytes);
    let hash = item.hash;
    assert(number::is_hex_digit(hash[0]));
    assert(number::is_hex_digit(hash[15]));
}

/// A content that arrived is not sent back: its receipt leaves a marker by which the side that
/// then finds it on its clipboard accepts it, and from then on that side waits.
pub proof fn law_received_is_not_sent_back(side: Side, item: Item, sender: Option<Seq<char>>)
    requires
        item.hash == item.fingerprint(),
    ensures
        ({
            let marker = session::receipt_of(item, sender).marker;
            &&& session::marker_names(Some(marker), item.hash)
            &&& session::marker_step(side, item, Ok(Some(marker))) is AcceptRemote
            &&& session::clipboard_step(session::having_seen(side, item), Ok(Some(item)))
                == ClipboardStep::Wait
        }),
{
    lemma_fingerprint_is_its_own_marker(item);
}

/// The marker of one content keeps no other from being sent.
pub proof fn law_own_content_is_sent(
    side: Side,
    item: Item,
    received: Item,
    sender: Option<Seq<char>>,
)
    requires
        received.hash == received.fingerprint(),
        item.hash != received.hash,
        side.last_seen_hash != Some(item.hash),
    ensures
        session::clipboard_step(side, Ok(Some(item))) == ClipboardStep::ReadMarker,
        session::marker_step(side, item, Ok(Some(session::receipt_of(received, sender).marker)))
            == MarkerStep::Send(frame::frame_of(item)),
        session::marker_step(side, item, Ok(None)) == MarkerStep::Send(frame::frame_of(item)),
{
    lemma_fingerprint_is_its_own_marker(received);
}

/// The content that is read from the pasteboard in a given form.
pub open spec fn content_read(form: PasteboardForm, bytes: Seq<u8>) -> Item {
    match form {
        PasteboardForm::Text => pasteboard::item_with(
            ClipboardKind::Text,
            pasteboard::TEXT_MIME@,
            bytes,
        ),
        PasteboardForm::Image(format) => pasteboard::item_with(
            ClipboardKind::Image,
            pasteboard::image_mime(format),
            bytes,
        ),
    }
}

/// The media type of a form has no line end.
proof fn lemma_pasteboard_mime_fits(form: PasteboardForm, bytes: Seq<u8>)
    requires
        bytes.len() <= usize::MAX,
    ensures
        laws::fits_frame(content_read(form, bytes)),
{
    let mime = content_read(form, bytes).mime;
    match form {
        PasteboardForm::Text => {
            reveal_strlit("text/plain; charset=utf-8");
        },
        PasteboardForm::Image(format) => {
            reveal_strlit("image/png");
            reveal_strlit("image/jpeg");
            reveal_strlit("image/tiff");
        },
    }
    assert(mime_fits(mime));
}

/// Whatever is read from the pasteboard of one side, text or image, arrives at the other as
/// the same content, both in a frame of its own and in a stream, and is written to the
/// pasteboard there in the form in which it was read.
pub proof fn law_pasteboard_content_arrives(form: PasteboardForm, bytes: Seq<u8>, rest: Seq<u8>)
    requires
        bytes.len() <= usize::MAX,
    ensures
        ({
            let item = content_read(form, bytes);
            &&& frame::decoded(frame::frame_of(item)) == Ok::<Item, Seq<char>>(item)
            &&& stream::read_from(State::Start, frame::frame_of(item) + rest) == (
                Ok::<Option<Item>, Seq<char>>(Some(item)),
                rest,
            )
            &&& pasteboard::form_to_write(item) == Ok::<PasteboardForm, Seq<char>>(form)
        }),
{
    let item = content_read(form, bytes);
    lemma_pasteboard_mime_fits(form, bytes);
    laws::law_frame_round_trip(item);
    laws::law_stream_round_trip(item, rest);
    reveal_strlit("image/png");
    reveal_strlit("image/jpeg");
    reveal_strlit("image/tiff");
    assert("image/jpeg"@.len() == 10);
    assert("image/tiff"@[6] == 't');
    assert("image/jpeg"@[6] == 'j');
    assert("image/png"@.len() == 9);
}

/// `connect` with the peer before its options means the same as `serve` with the peer given
/// as an option.
pub proof fn law_connect_names_the_peer_first(peer: Seq<char>, options: Seq<Seq<char>>)
    requires
        peer.len() == 0 || peer[0] != '-',
    ensures
        cli::connect_config(seq![peer] + options) == cli::serve_config(
            seq!["--peer"@, peer] + options,
        ),
{
    let args = seq![peer] + options;
    assert(args[0] == peer);
    assert(seq!["--peer"@] + args =~= seq!["--peer"@, peer] + options);
}

/// A peer alone is enough: everything else has a default.
pub proof fn law_peer_alone_suffices(peer: Seq<char>)
    ensures
        cli::serve_config(seq!["--peer"@, peer]) == Ok::<cli::Config, Seq<char>>(
            cli::Config {
                peer,
                remote_bin: "zync"@,
                ssh_bin: "ssh"@,
                interval_ms: 750,
            },
        ),
{
    let args = seq!["--peer"@, peer];
    let after = cli::Options { peer: Some(peer), ..cli::default_options() };
    assert(cli::options_after_one(cli::default_options(), args[0], args[1]) == Ok::<
        cli::Options,
        Seq<char>,
    >(after));
    assert(args.skip(2) =~= Seq::empty());
    assert(cli::options_after(after, args.skip(2)) == Ok::<cli::Options, Seq<char>>(after));
}

} // verus!
