//! What the decisions of a side are for: what is on the clipboard is what the peer gets, and
//! nothing comes back that came from there.

use crate::ascii;
use crate::clipboard;
use crate::clipboard::Item;
use crate::frame;
use crate::laws;
use crate::session;
use crate::session::{ClipboardStep, Delivery, MarkerStep, Side};
use crate::stream;
use crate::stream::State;
use crate::text_laws;
use vstd::prelude::*;
use vstd::utf8::*;

verus! {

/// A single sending succeeds exactly where a content was read, of either kind, and what it
/// sends decodes to that very content, as a frame and in a stream. An empty clipboard has a
/// message of its own, and a failed look keeps its message.
pub proof fn law_single_sending(item: Item, message: Seq<char>, rest: Seq<u8>)
    ensures
        session::frame_to_send(Ok(Some(item))) is Ok,
        laws::fits_frame(item) ==> (session::frame_to_send(Ok(Some(item))) matches Ok(sent) && {
            &&& frame::decoded(sent) == Ok::<Item, Seq<char>>(item)
            &&& stream::read_from(State::Start, sent + rest) == (
                Ok::<Option<Item>, Seq<char>>(Some(item)),
                rest,
            )
        }),
        session::frame_to_send(Ok(None)) == Err::<Seq<u8>, Seq<char>>(
            "clipboard is empty or unsupported"@,
        ),
        session::frame_to_send(Err(message)) == Err::<Seq<u8>, Seq<char>>(message),
{
    if laws::fits_frame(item) {
        laws::law_frame_round_trip(item);
        laws::law_stream_round_trip(item, rest);
    }
}

/// A single sending sends what polling would send of the same content.
pub proof fn law_single_sending_is_like_polling(side: Side, item: Item)
    ensures
        session::marker_step(side, item, Ok(None)) matches MarkerStep::Send(sent) && Ok::<
            Seq<u8>,
            Seq<char>,
        >(sent) == session::frame_to_send(Ok(Some(item))),
{
}

/// A look at the clipboard asks for more exactly where it finds a content that was not there
/// at the last look, of whatever kind. A look that fails is reported with its message.
pub proof fn law_look(side: Side, item: Item, error: Seq<char>)
    ensures
        session::clipboard_step(side, Ok(Some(item))) == ClipboardStep::ReadMarker
            <==> side.last_seen_hash != Some(item.hash),
        session::clipboard_step(side, Ok(Some(item))) == ClipboardStep::Wait
            <==> side.last_seen_hash == Some(item.hash),
        session::clipboard_step(side, Ok(None)) == ClipboardStep::Wait,
        session::clipboard_step(side, Err(error)) == ClipboardStep::Report(
            "zync: clipboard read failed: "@ + error,
        ),
{
}

/// A marker names the fingerprint that stands in it, with white space around it or none, and
/// no other. Where there is no marker, nothing is named.
pub proof fn law_marker_names_what_stands_in_it(
    before: Seq<char>,
    hash: Seq<char>,
    after: Seq<char>,
    other: Seq<char>,
)
    requires
        text_laws::is_blank(before),
        text_laws::is_trimmed(hash),
        text_laws::is_blank(after),
    ensures
        session::marker_names(Some(before + hash + after), other) <==> other == hash,
        !session::marker_names(None, other),
{
    text_laws::law_trim_takes_off_what_was_put_around(before, hash, after);
}

/// What is done about a new content, of whatever kind: where the marker names it, it came from
/// the peer and is accepted; where it does not, the peer gets a frame that decodes to just
/// this content; and where the marker cannot be read, the session ends with that message.
pub proof fn law_new_content(
    side: Side,
    item: Item,
    marker: Option<Seq<char>>,
    message: Seq<char>,
)
    requires
        laws::fits_frame(item),
    ensures
        session::marker_names(marker, item.hash) ==> session::marker_step(side, item, Ok(marker))
            == MarkerStep::AcceptRemote(
            "zync: accepted "@ + side.label + " clipboard "@ + item.hash,
        ),
        !session::marker_names(marker, item.hash) ==> (session::marker_step(
            side,
            item,
            Ok(marker),
        ) matches MarkerStep::Send(sent) && frame::decoded(sent) == Ok::<Item, Seq<char>>(item)),
        session::marker_step(side, item, Err(message)) == MarkerStep::End(message),
{
    laws::law_frame_round_trip(item);
}

/// What comes of a sending: one that succeeded is reported with the kind and the fingerprint
/// of the content; one that failed is reported with the fingerprint and the error where it
/// was made by a command, and ends the session where it was made over a stream.
pub proof fn law_sending(side: Side, item: Item, error: Seq<char>)
    ensures
        session::sending_result(side, item, Ok(())) == Ok::<Seq<char>, Seq<char>>(
            "zync: sent "@ + clipboard::kind_text(item.kind) + " clipboard "@ + item.hash,
        ),
        side.delivery == Delivery::Command ==> session::sending_result(side, item, Err(error))
            == Ok::<Seq<char>, Seq<char>>(
            "zync: send failed for "@ + item.hash + ": "@ + error,
        ),
        side.delivery == Delivery::Stream ==> session::sending_result(side, item, Err(error))
            == Err::<Seq<char>, Seq<char>>("failed to write clipboard frame: "@ + error),
{
}

/// A side remembers the content that it saw last and nothing else: it stays as it is
/// otherwise, and an earlier content is forgotten.
pub proof fn law_side_remembers_the_last(side: Side, earlier: Item, item: Item)
    ensures
        session::having_seen(side, item).last_seen_hash == Some(item.hash),
        session::having_seen(side, item).delivery == side.delivery,
        session::having_seen(side, item).label == side.label,
        session::having_seen(session::having_seen(side, earlier), item) == session::having_seen(
            side,
            item,
        ),
{
}

/// A content that arrived leaves its fingerprint in the marker, and is reported with the name
/// of the sender, where it has one, the kind and the fingerprint.
pub proof fn law_receipt(item: Item, sender: Seq<char>)
    ensures
        session::receipt_of(item, Some(sender)).marker == item.hash,
        session::receipt_of(item, None).marker == item.hash,
        session::receipt_of(item, Some(sender)).message == "zync: received "@ + sender + " "@
            + clipboard::kind_text(item.kind) + " clipboard "@ + item.hash,
        session::receipt_of(item, None).message == "zync: received "@ + clipboard::kind_text(
            item.kind,
        ) + " clipboard "@ + item.hash,
{
}

/// A name below a path comes after the whole path, with one separator between them: none is
/// put where the path ends with one, or where it is empty.
pub proof fn law_path_below(path: Seq<u8>, name: Seq<u8>)
    ensures
        path.len() > 0 && path.last() != 47 ==> session::path_below(path, name) == path + seq![47u8]
            + name,
        session::path_below(path + seq![47u8], name) == path + seq![47u8] + name,
        session::path_below(Seq::empty(), name) == name,
{
    assert((path + seq![47u8]).last() == 47);
    assert(Seq::<u8>::empty() + name =~= name);
}

/// The state is kept below the home directory in `.zync`, whatever the home directory is.
pub proof fn law_state_directory(home: Seq<u8>)
    ensures
        session::state_path(Some(home)) == Ok::<Seq<u8>, Seq<char>>(
            session::path_below(home, encode_utf8(".zync"@)),
        ),
{
}

/// The state is kept below the home directory: in `.zync`, and there the marker in
/// `last-received`. Without a home directory there is nowhere to keep it.
pub proof fn law_state_is_below_home(home: Seq<u8>)
    requires
        home.len() > 0,
        home.last() != 47,
    ensures
        session::state_path(Some(home)) matches Ok(dir) && {
            &&& dir == home + encode_utf8("/.zync"@)
            &&& session::path_below(dir, encode_utf8("last-received"@)) == home + encode_utf8(
                "/.zync/last-received"@,
            )
        },
        session::state_path(Some(home + seq![47u8])) == session::state_path(Some(home)),
        session::state_path(None) == Err::<Seq<u8>, Seq<char>>("HOME is not set"@),
{
    reveal_strlit("/.zync");
    reveal_strlit(".zync");
    reveal_strlit("last-received");
    reveal_strlit("/.zync/last-received");
    let slash = seq!['/'];
    ascii::lemma_encode_one('/');
    assert("/.zync"@ =~= slash + ".zync"@);
    ascii::lemma_encode_concat(slash, ".zync"@);
    assert("/.zync/last-received"@ =~= "/.zync"@ + (slash + "last-received"@));
    ascii::lemma_encode_concat("/.zync"@, slash + "last-received"@);
    ascii::lemma_encode_concat(slash, "last-received"@);
    let dir = session::state_path(Some(home))->Ok_0;
    assert(dir =~= home + encode_utf8("/.zync"@));
    ascii::lemma_encode_last(".zync"@, '/');
    ascii::lemma_encode_last("/.zync"@, '/');
    assert(dir.last() == encode_utf8("/.zync"@).last());
    assert(session::path_below(dir, encode_utf8("last-received"@)) =~= home + encode_utf8(
        "/.zync/last-received"@,
    ));
    assert((home + seq![47u8]).last() == 47);
}

} // verus!
