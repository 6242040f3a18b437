//! What a side of a session does over a whole run: what it sends over a sequence of looks at
//! its clipboard, and what it does with a stream of contents that arrive.

use crate::clipboard::Item;
use crate::frame;
use crate::laws;
use crate::pasteboard;
use crate::pasteboard::PasteboardForm;
use crate::session;
use crate::session::{ClipboardStep, Delivery, MarkerStep, Side};
use crate::stream;
use crate::stream::State;
use vstd::prelude::*;

verus! {

/// What a side finds outside in one look: on the clipboard, in the marker should it ask for
/// it, and of the sending should it send.
#[verifier::ext_equal]
pub struct Look {
    pub read: Result<Option<Item>, Seq<char>>,
    pub marker: Result<Option<Seq<char>>, Seq<char>>,
    pub sent: Result<(), Seq<char>>,
}

/// A run of looks: where the side stands, the fingerprints for which it has asked for the
/// marker, the frames that it has handed over for sending, and the message that has ended the
/// session, if one has.
#[verifier::ext_equal]
pub struct Run {
    pub side: Side,
    pub asked: Seq<Seq<char>>,
    pub frames: Seq<Seq<u8>>,
    pub ended: Option<Seq<char>>,
}

/// A run after the marker was asked for because of a new content.
pub open spec fn after_new_content(run: Run, item: Item, look: Look) -> Run {
    let run = Run { asked: run.asked.push(item.hash), ..run };
    match session::marker_step(run.side, item, look.marker) {
        MarkerStep::End(message) => Run { ended: Some(message), ..run },
        MarkerStep::AcceptRemote(_) => Run { side: session::having_seen(run.side, item), ..run },
        MarkerStep::Send(frame) => {
            let run = Run { frames: run.frames.push(frame), ..run };
            match session::sending_result(run.side, item, look.sent) {
                Ok(_) => Run { side: session::having_seen(run.side, item), ..run },
                Err(message) => Run { ended: Some(message), ..run },
            }
        },
    }
}

/// A run after one more look. A session that has ended looks no more.
pub open spec fn after_look(run: Run, look: Look) -> Run {
    if run.ended is Some {
        run
    } else {
        match session::clipboard_step(run.side, look.read) {
            ClipboardStep::ReadMarker => after_new_content(run, look.read->Ok_0->Some_0, look),
            _ => run,
        }
    }
}

/// The run of a side over a sequence of looks.
pub open spec fn run_of(side: Side, looks: Seq<Look>) -> Run
    decreases looks.len(),
{
    if looks.len() == 0 {
        Run { side, asked: Seq::empty(), frames: Seq::empty(), ended: None }
    } else {
        after_look(run_of(side, looks.drop_last()), looks.last())
    }
}

/// A look that found a content.
#[verifier::ext_equal]
pub struct Reading {
    pub item: Item,
    pub marker: Result<Option<Seq<char>>, Seq<char>>,
    pub sent: Result<(), Seq<char>>,
}

/// The looks that found a content, in order: those at an empty clipboard, and those that
/// failed, are left out.
pub open spec fn readings(looks: Seq<Look>) -> Seq<Reading>
    decreases looks.len(),
{
    if looks.len() == 0 {
        Seq::empty()
    } else {
        let front = readings(looks.drop_last());
        let look = looks.last();
        match look.read {
            Ok(Some(item)) => front.push(Reading { item, marker: look.marker, sent: look.sent }),
            _ => front,
        }
    }
}

/// Whether a reading differs in its fingerprint from the one before it, or, where it is the
/// first, from what was seen before.
pub open spec fn is_new(last: Option<Seq<char>>, reads: Seq<Reading>, i: int) -> bool {
    if i == 0 {
        last != Some(reads[i].item.hash)
    } else {
        reads[i].item.hash != reads[i - 1].item.hash
    }
}

/// Whether the marker of a reading was read and does not name it.
pub open spec fn is_own(read: Reading) -> bool {
    read.marker matches Ok(marker) && !session::marker_names(marker, read.item.hash)
}

/// The fingerprints of the new readings, in order.
pub open spec fn hashes_new(last: Option<Seq<char>>, reads: Seq<Reading>) -> Seq<Seq<char>>
    decreases reads.len(),
{
    if reads.len() == 0 {
        Seq::empty()
    } else {
        let front = hashes_new(last, reads.drop_last());
        if is_new(last, reads, reads.len() - 1) {
            front.push(reads.last().item.hash)
        } else {
            front
        }
    }
}

/// The frames of the new readings that are a side's own, in order.
pub open spec fn frames_due(last: Option<Seq<char>>, reads: Seq<Reading>) -> Seq<Seq<u8>>
    decreases reads.len(),
{
    if reads.len() == 0 {
        Seq::empty()
    } else {
        let front = frames_due(last, reads.drop_last());
        if is_new(last, reads, reads.len() - 1) && is_own(reads.last()) {
            front.push(frame::frame_of(reads.last().item))
        } else {
            front
        }
    }
}

/// Whether a session goes on after a reading: nothing that it did about it failed, but for
/// the sending by a command, which may fail.
pub open spec fn goes_on(side: Side, reads: Seq<Reading>, i: int) -> bool {
    is_new(side.last_seen_hash, reads, i) ==> {
        &&& reads[i].marker is Ok
        &&& is_own(reads[i]) && side.delivery == Delivery::Stream ==> reads[i].sent is Ok
    }
}

/// The fingerprint seen last after some readings.
pub open spec fn seen_last(last: Option<Seq<char>>, reads: Seq<Reading>) -> Option<Seq<char>> {
    if reads.len() == 0 {
        last
    } else {
        Some(reads.last().item.hash)
    }
}

/// What a side does over a run of looks, however it sends. It asks for the marker exactly
/// where the content differs from the one found before, and sends exactly the frames of those
/// contents that the marker does not name, in order. Looks at an empty clipboard, and looks
/// that fail, send nothing and forget nothing. The session goes on exactly as long as every
/// marker asked for can be read and, over a stream, every sending succeeds.
pub proof fn law_run_of_looks(side: Side, looks: Seq<Look>)
    ensures
        ({
            let run = run_of(side, looks);
            let reads = readings(looks);
            let last = side.last_seen_hash;
            &&& run.ended is None <==> forall|i: int|
                0 <= i < reads.len() ==> #[trigger] goes_on(side, reads, i)
            &&& run.ended is None ==> {
                &&& run.asked == hashes_new(last, reads)
                &&& run.frames == frames_due(last, reads)
                &&& run.side == Side { last_seen_hash: seen_last(last, reads), ..side }
            }
        }),
    decreases looks.len(),
{
    if looks.len() > 0 {
        let front = looks.drop_last();
        let look = looks.last();
        let before = readings(front);
        let reads = readings(looks);
        law_run_of_looks(side, front);
        match look.read {
            Ok(Some(item)) => {
                let n = before.len() as int;
                assert(reads.drop_last() =~= before);
                assert forall|i: int| 0 <= i < n implies #[trigger] goes_on(side, reads, i)
                    == goes_on(side, before, i) by {
                    assert(reads[i] == before[i]);
                    if i > 0 {
                        assert(reads[i - 1] == before[i - 1]);
                    }
                }
                if run_of(side, front).ended is Some {
                    let i = choose|i: int| 0 <= i < n && !#[trigger] goes_on(side, before, i);
                    assert(!goes_on(side, reads, i));
                } else {
                    assert forall|i: int| 0 <= i < n implies goes_on(side, reads, i) by {
                        assert(goes_on(side, before, i));
                    }
                    assert(reads[n].item == item);
                    if n > 0 {
                        assert(reads[n - 1] == before.last());
                    }
                    assert(goes_on(side, reads, n) == (run_of(side, looks).ended is None));
                }
            },
            _ => {},
        }
    }
}

/// Whether a run ends at look `k` with the given message: because the marker could not be
/// read, or because a stream failed.
pub open spec fn ends_at(side: Side, looks: Seq<Look>, k: int, message: Seq<char>) -> bool {
    &&& 0 <= k < looks.len()
    &&& run_of(side, looks.take(k)).ended is None
    &&& run_of(side, looks.take(k + 1)) == run_of(side, looks)
    &&& {
        ||| looks[k].marker == Err::<Option<Seq<char>>, Seq<char>>(message)
        ||| side.delivery == Delivery::Stream && (looks[k].sent matches Err(error) && message
            == "failed to write clipboard frame: "@ + error)
    }
}

/// A session ends with a message only: at a look whose marker cannot be read, or, over a
/// stream, whose sending fails. After that it does nothing more.
pub proof fn law_what_ends_a_session(side: Side, looks: Seq<Look>)
    ensures
        run_of(side, looks).ended matches Some(message) ==> exists|k: int|
            #[trigger] ends_at(side, looks, k, message),
    decreases looks.len(),
{
    if looks.len() > 0 {
        let front = looks.drop_last();
        let n = front.len() as int;
        assert(looks.take(n) =~= front);
        assert(looks.take(n + 1) =~= looks);
        law_run_of_looks(side, front);
        law_what_ends_a_session(side, front);
        match run_of(side, looks).ended {
            Some(message) => {
                if run_of(side, front).ended is Some {
                    let k = choose|k: int| #[trigger] ends_at(side, front, k, message);
                    assert(front.take(k) =~= looks.take(k));
                    assert(front.take(k + 1) =~= looks.take(k + 1));
                    assert(ends_at(side, looks, k, message));
                } else {
                    assert(ends_at(side, looks, n, message));
                }
            },
            None => {},
        }
    }
}

/// The fingerprint of every content found in some looks.
pub open spec fn finds_only(looks: Seq<Look>, hash: Seq<char>) -> bool {
    forall|i: int|
        0 <= i < looks.len() ==> ((#[trigger] looks[i]).read matches Ok(Some(item)) ==> item.hash
            == hash)
}

/// While a side finds nothing but the content that it saw last, it does nothing.
proof fn lemma_run_of_same(side: Side, before: Seq<Look>, later: Seq<Look>, hash: Seq<char>)
    requires
        run_of(side, before).ended is None,
        run_of(side, before).side.last_seen_hash == Some(hash),
        finds_only(later, hash),
    ensures
        run_of(side, before + later) == run_of(side, before),
    decreases later.len(),
{
    if later.len() == 0 {
        assert(before + later =~= before);
    } else {
        let front = later.drop_last();
        assert forall|i: int| 0 <= i < front.len() implies ((#[trigger] front[i]).read matches Ok(
            Some(item),
        ) ==> item.hash == hash) by {
            assert(front[i] == later[i]);
        }
        lemma_run_of_same(side, before, front, hash);
        assert((before + later).drop_last() =~= before + front);
        assert((before + later).last() == later[later.len() - 1]);
    }
}

/// A content is sent once: after a look that found it, and that did not end the session, a
/// side does nothing as long as it finds no other content.
pub proof fn law_content_is_not_sent_again(
    side: Side,
    before: Seq<Look>,
    look: Look,
    item: Item,
    later: Seq<Look>,
)
    requires
        look.read == Ok::<Option<Item>, Seq<char>>(Some(item)),
        run_of(side, before.push(look)).ended is None,
        finds_only(later, item.hash),
    ensures
        run_of(side, before.push(look) + later) == run_of(side, before.push(look)),
{
    law_run_of_looks(side, before.push(look));
    assert(before.push(look).drop_last() =~= before);
    lemma_run_of_same(side, before.push(look), later, item.hash);
}

/// A sending by command that fails is not tried again: the session goes on, and sends nothing
/// until it finds another content.
pub proof fn law_failed_command_is_not_retried(
    side: Side,
    before: Seq<Look>,
    look: Look,
    item: Item,
    later: Seq<Look>,
)
    requires
        side.delivery == Delivery::Command,
        run_of(side, before).ended is None,
        look.read == Ok::<Option<Item>, Seq<char>>(Some(item)),
        look.marker is Ok,
        look.sent is Err,
        finds_only(later, item.hash),
    ensures
        run_of(side, before.push(look)).ended is None,
        run_of(side, before.push(look) + later) == run_of(side, before.push(look)),
{
    law_run_of_looks(side, before);
    assert(before.push(look).drop_last() =~= before);
    law_content_is_not_sent_again(side, before, look, item, later);
}

/// Only a marker that cannot be read ends a session that sends by commands.
pub proof fn law_only_the_marker_ends_commands(side: Side, looks: Seq<Look>)
    requires
        side.delivery == Delivery::Command,
    ensures
        run_of(side, looks).ended matches Some(message) ==> exists|k: int|
            0 <= k < looks.len() && (#[trigger] looks[k]).marker == Err::<
                Option<Seq<char>>,
                Seq<char>,
            >(message),
{
    law_what_ends_a_session(side, looks);
    match run_of(side, looks).ended {
        Some(message) => {
            let k = choose|k: int| #[trigger] ends_at(side, looks, k, message);
            assert(looks[k].marker == Err::<Option<Seq<char>>, Seq<char>>(message));
        },
        None => {},
    }
}

/// What a side writes because of a content that arrived.
pub enum Write {
    /// Bytes to the pasteboard, in the given form.
    Clipboard(PasteboardForm, Seq<u8>),
    /// The marker of the last received content.
    Marker(Seq<char>),
}

/// What is written because of one content: first the content, then its marker.
pub open spec fn writes_for(item: Item, form: PasteboardForm, sender: Option<Seq<char>>) -> Seq<
    Write,
> {
    seq![
        Write::Clipboard(form, item.bytes),
        Write::Marker(session::receipt_of(item, sender).marker),
    ]
}

/// What a side writes of a stream of contents, where every write succeeds, and how the stream
/// ends: well, or with the message that refuses a content or the rest of the stream.
pub open spec fn received(stream: Seq<u8>, sender: Option<Seq<char>>) -> (
    Seq<Write>,
    Result<(), Seq<char>>,
)
    decreases stream.len(),
    via received_decreases
{
    if stream.len() == 0 {
        (Seq::empty(), Ok(()))
    } else {
        match stream::read_from(State::Start, stream) {
            (Ok(Some(item)), rest) => match pasteboard::form_to_write(item) {
                Ok(form) => {
                    let (writes, end) = received(rest, sender);
                    (writes_for(item, form, sender) + writes, end)
                },
                Err(message) => (Seq::empty(), Err(message)),
            },
            (Ok(None), _) => (Seq::empty(), Ok(())),
            (Err(message), _) => (Seq::empty(), Err(message)),
        }
    }
}

#[via_fn]
proof fn received_decreases(stream: Seq<u8>, sender: Option<Seq<char>>) {
    laws::lemma_read_moves_on(State::Start, stream);
}

/// What is written because of some contents that can all be written, in order.
pub open spec fn writes_of(items: Seq<Item>, sender: Option<Seq<char>>) -> Seq<Write>
    decreases items.len(),
{
    if items.len() == 0 {
        Seq::empty()
    } else {
        writes_for(items[0], pasteboard::form_to_write(items[0])->Ok_0, sender) + writes_of(
            items.drop_first(),
            sender,
        )
    }
}

/// Contents that come over a stream are written in order, once each, and each is followed by
/// its marker, whatever follows them in the stream.
proof fn lemma_received(items: Seq<Item>, tail: Seq<u8>, sender: Option<Seq<char>>)
    requires
        forall|i: int|
            0 <= i < items.len() ==> laws::fits_frame(#[trigger] items[i])
                && pasteboard::form_to_write(items[i]) is Ok,
    ensures
        received(laws::frames_of(items) + tail, sender) == (
            writes_of(items, sender) + received(tail, sender).0,
            received(tail, sender).1,
        ),
    decreases items.len(),
{
    let (after, _) = received(tail, sender);
    if items.len() == 0 {
        assert(laws::frames_of(items) + tail =~= tail);
        assert(writes_of(items, sender) + after =~= after);
    } else {
        let item = items[0];
        let rest = items.drop_first();
        assert forall|i: int| 0 <= i < rest.len() implies laws::fits_frame(#[trigger] rest[i])
            && pasteboard::form_to_write(rest[i]) is Ok by {
            assert(rest[i] == items[i + 1]);
        }
        lemma_received(rest, tail, sender);
        assert(laws::fits_frame(item));
        laws::lemma_frame_not_empty(item);
        laws::law_stream_round_trip(item, laws::frames_of(rest) + tail);
        assert(laws::frames_of(items) + tail =~= frame::frame_of(item) + (laws::frames_of(rest)
            + tail));
        let first = writes_for(item, pasteboard::form_to_write(item)->Ok_0, sender);
        assert(first + (writes_of(rest, sender) + after) =~= writes_of(items, sender) + after);
    }
}

/// Contents that come over a stream are written to the clipboard in order, once each, and each
/// is followed by its fingerprint as the marker. Nothing is written of a tail that gives no
/// content: the stream ends well where the tail is empty, and with the message that refuses
/// the tail otherwise.
pub proof fn law_received_in_order(items: Seq<Item>, tail: Seq<u8>, sender: Option<Seq<char>>)
    requires
        forall|i: int|
            0 <= i < items.len() ==> laws::fits_frame(#[trigger] items[i])
                && pasteboard::form_to_write(items[i]) is Ok,
    ensures
        received(laws::frames_of(items) + tail, sender) == (
            writes_of(items, sender) + received(tail, sender).0,
            received(tail, sender).1,
        ),
        match stream::read_from(State::Start, tail).0 {
            Ok(Some(_)) => true,
            Ok(None) => tail.len() == 0 && received(laws::frames_of(items) + tail, sender) == (
                writes_of(items, sender),
                Ok::<(), Seq<char>>(()),
            ),
            Err(message) => received(laws::frames_of(items) + tail, sender) == (
                writes_of(items, sender),
                Err::<(), Seq<char>>(message),
            ),
        },
{
    lemma_received(items, tail, sender);
    laws::law_empty_stream_has_ended(tail);
    let writes = writes_of(items, sender);
    assert(writes + Seq::<Write>::empty() =~= writes);
}

/// The contents that a stream delivers are what a side writes, where it can write them all.
pub proof fn law_deliveries_are_written(stream: Seq<u8>, sender: Option<Seq<char>>)
    requires
        forall|i: int|
            0 <= i < laws::deliveries(stream).0.len() ==> pasteboard::form_to_write(
                #[trigger] laws::deliveries(stream).0[i],
            ) is Ok,
    ensures
        received(stream, sender) == (
            writes_of(laws::deliveries(stream).0, sender),
            laws::deliveries(stream).1,
        ),
    decreases stream.len(),
{
    if stream.len() > 0 {
        laws::lemma_read_moves_on(State::Start, stream);
        match stream::read_from(State::Start, stream) {
            (Ok(Some(item)), rest) => {
                let items = laws::deliveries(stream).0;
                let later = laws::deliveries(rest).0;
                assert(items == seq![item] + later);
                assert(items[0] == item);
                assert(items.drop_first() =~= later);
                assert forall|i: int| 0 <= i < later.len() implies pasteboard::form_to_write(
                    #[trigger] later[i],
                ) is Ok by {
                    assert(later[i] == items[i + 1]);
                }
                law_deliveries_are_written(rest, sender);
            },
            _ => {},
        }
    }
}

} // verus!
