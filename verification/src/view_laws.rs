//! What the mathematical values stand for: nothing of a value is left out of its view.

use crate::cli;
use crate::cli::{Command, Request, ServeConfig};
use crate::clipboard::{ClipboardItem, Item};
use crate::header;
use crate::header::{FrameHeader, HeaderFields};
use crate::pasteboard;
use crate::pasteboard::PasteboardForm;
use crate::session;
use crate::session::{
    ClipboardAction, ClipboardStep, MarkerAction, MarkerStep, Receipt, Session,
};
use crate::stream;
use crate::stream::{Action, ReadAction, ReadState, State};
use vstd::prelude::*;

verus! {

/// A content is told by its kind, media type, bytes and fingerprint.
pub proof fn law_item_view(item: ClipboardItem)
    ensures
        item@.kind == item.kind,
        item@.mime == item.mime@,
        item@.bytes == item.bytes@,
        item@.hash == item.hash@,
{
}

/// Header fields and headers are told by each of their fields.
pub proof fn law_header_view(fields: HeaderFields, header: FrameHeader)
    ensures
        fields@.kind == fields.kind,
        fields@.mime is Some <==> fields.mime is Some,
        fields.mime matches Some(mime) ==> fields@.mime == Some(mime@),
        fields@.hash is Some <==> fields.hash is Some,
        fields.hash matches Some(hash) ==> fields@.hash == Some(hash@),
        fields@.bytes_len is Some <==> fields.bytes_len is Some,
        fields.bytes_len matches Some(n) ==> fields@.bytes_len == Some(n as nat),
        header@.kind == header.kind,
        header@.mime == header.mime@,
        header@.hash == header.hash@,
        header@.bytes_len == header.bytes_len,
{
}

/// States and actions of a reader are told by what they are and by what they hold.
pub proof fn law_reader_view(
    fields: HeaderFields,
    header: FrameHeader,
    state: ReadState,
    item: ClipboardItem,
    message: String,
)
    ensures
        ReadState::Start@ == State::Start,
        ReadState::Header(fields)@ == State::Header(fields@),
        ReadState::Payload(header)@ == State::Payload(header@),
        ReadAction::Continue(state)@ == Action::Continue(state@),
        ReadAction::End@ == Action::End,
        ReadAction::Deliver(item)@ == Action::Deliver(item@),
        ReadAction::Refuse(message)@ == Action::Refuse(message@),
        stream::read_outcome(Ok(Some(item))) == Ok::<Option<Item>, Seq<char>>(Some(item@)),
        stream::read_outcome(Ok(None)) == Ok::<Option<Item>, Seq<char>>(None),
        stream::read_outcome(Err(message)) == Err::<Option<Item>, Seq<char>>(message@),
{
}

/// Configurations and commands are told by each of their parts.
pub proof fn law_command_view(config: ServeConfig)
    ensures
        config@.peer == config.peer@,
        config@.remote_bin == config.remote_bin@,
        config@.ssh_bin == config.ssh_bin@,
        config@.interval_ms == config.interval_ms,
        Command::Connect(config)@ == Request::Connect(config@),
        Command::Agent@ == Request::Agent,
        Command::Serve(config)@ == Request::Serve(config@),
        Command::SendOnce(config)@ == Request::SendOnce(config@),
        Command::Receive@ == Request::Receive,
        Command::Usage@ == Request::Usage,
{
}

/// A side and its actions are told by each of their parts.
pub proof fn law_session_view(
    session: Session,
    message: String,
    frame: Vec<u8>,
    receipt: Receipt,
)
    ensures
        session@.delivery == session.delivery,
        session@.label == session.label@,
        session@.last_seen_hash is Some <==> session.last_seen_hash is Some,
        session.last_seen_hash matches Some(hash) ==> session@.last_seen_hash == Some(hash@),
        ClipboardAction::Wait@ == ClipboardStep::Wait,
        ClipboardAction::Report(message)@ == ClipboardStep::Report(message@),
        ClipboardAction::ReadMarker@ == ClipboardStep::ReadMarker,
        MarkerAction::AcceptRemote(message)@ == MarkerStep::AcceptRemote(message@),
        MarkerAction::Send(frame)@ == MarkerStep::Send(frame@),
        MarkerAction::End(message)@ == MarkerStep::End(message@),
        receipt@.marker == receipt.marker@,
        receipt@.message == receipt.message@,
{
}

/// A form is its own view, and so is nothing that is missing.
pub proof fn law_optional_views(s: String, form: PasteboardForm)
    ensures
        form@ == form,
        header::optional_text(Some(s)) == Some(s@),
        header::optional_text(None) is None,
        session::marker_read(Ok(Some(s))) == Ok::<Option<Seq<char>>, Seq<char>>(Some(s@)),
        session::marker_read(Ok(None)) == Ok::<Option<Seq<char>>, Seq<char>>(None),
        session::marker_read(Err(s)) == Err::<Option<Seq<char>>, Seq<char>>(s@),
        session::given_text(None) is None,
        session::path_bytes(None) is None,
{
}

/// A text and a path that are given are told by all that they hold.
pub proof fn law_given_views(text: &str, path: &[u8])
    ensures
        session::given_text(Some(text)) == Some(text@),
        session::path_bytes(Some(path)) == Some(path@),
{
}

/// A list of strings is told by each of them, in order.
pub proof fn law_list_views(list: Seq<String>)
    ensures
        cli::texts(list).len() == list.len(),
        pasteboard::line_texts(list).len() == list.len(),
        forall|i: int| 0 <= i < list.len() ==> #[trigger] cli::texts(list)[i] == list[i]@,
        forall|i: int|
            0 <= i < list.len() ==> #[trigger] pasteboard::line_texts(list)[i] == list[i]@,
{
}

} // verus!
