//! The decisions of a side of a session: whether a content on the clipboard goes to the
//! peer, and where the marker of the last received content is kept.

use crate::cli;
use crate::cli::{Config, ServeConfig};
use crate::clipboard;
use crate::clipboard::{ClipboardItem, Item};
use crate::frame;
use crate::header;
use crate::stream;
use crate::text;
use vstd::prelude::*;
use vstd::utf8::*;

verus! {

/// How contents go to the peer.
#[derive(Clone, Copy, Debug, PartialEq, Eq, Structural)]
pub enum Delivery {
    /// Each by a command of its own. One that fails is reported, and the next may succeed.
    Command,
    /// All over one stream, which a failure ends.
    Stream,
}

/// One side of a session: how it sends, what it calls the contents that it accepts, and the
/// fingerprint of the content that it saw last.
#[derive(Debug, PartialEq, Eq)]
pub struct Session {
    pub delivery: Delivery,
    pub label: String,
    pub last_seen_hash: Option<String>,
}

/// A side of a session as a mathematical value.
#[verifier::ext_equal]
pub struct Side {
    pub delivery: Delivery,
    pub label: Seq<char>,
    pub last_seen_hash: Option<Seq<char>>,
}

impl View for Session {
    type V = Side;

    open spec fn view(&self) -> Side {
        Side {
            delivery: self.delivery,
            label: self.label@,
            last_seen_hash: header::optional_text(self.last_seen_hash),
        }
    }
}

/// What to do after a look at the clipboard.
#[derive(Debug, PartialEq, Eq)]
pub enum ClipboardAction {
    /// Wait for the next look.
    Wait,
    /// Report a message and wait for the next look.
    Report(String),
    /// There is a new content: read the marker of the last received content.
    ReadMarker,
}

/// The action after a look at the clipboard, as a mathematical value.
pub enum ClipboardStep {
    Wait,
    Report(Seq<char>),
    ReadMarker,
}

impl View for ClipboardAction {
    type V = ClipboardStep;

    open spec fn view(&self) -> ClipboardStep {
        match self {
            ClipboardAction::Wait => ClipboardStep::Wait,
            ClipboardAction::Report(message) => ClipboardStep::Report(message@),
            ClipboardAction::ReadMarker => ClipboardStep::ReadMarker,
        }
    }
}

/// What to do about a new content once the marker is known.
#[derive(Debug, PartialEq, Eq)]
pub enum MarkerAction {
    /// The content came from the peer: remove the marker and report a message.
    AcceptRemote(String),
    /// The content is this side's own: send its frame to the peer.
    Send(Vec<u8>),
    /// The marker cannot be read, which ends the session with this message.
    End(String),
}

/// The action on a new content, as a mathematical value.
pub enum MarkerStep {
    AcceptRemote(Seq<char>),
    Send(Seq<u8>),
    End(Seq<char>),
}

impl View for MarkerAction {
    type V = MarkerStep;

    open spec fn view(&self) -> MarkerStep {
        match self {
            MarkerAction::AcceptRemote(message) => MarkerStep::AcceptRemote(message@),
            MarkerAction::Send(frame) => MarkerStep::Send(frame@),
            MarkerAction::End(message) => MarkerStep::End(message@),
        }
    }
}

/// What came of sending a content.
pub open spec fn sending_result(side: Side, item: Item, sent: Result<(), Seq<char>>) -> Result<
    Seq<char>,
    Seq<char>,
> {
    match sent {
        Ok(()) => Ok(
            "zync: sent "@ + clipboard::kind_text(item.kind) + " clipboard "@ + item.hash,
        ),
        Err(error) => match side.delivery {
            Delivery::Command => Ok("zync: send failed for "@ + item.hash + ": "@ + error),
            Delivery::Stream => Err("failed to write clipboard frame: "@ + error),
        },
    }
}

/// The action after a look at the clipboard.
pub open spec fn clipboard_step(side: Side, read: Result<Option<Item>, Seq<char>>) -> ClipboardStep {
    match read {
        Err(error) => ClipboardStep::Report("zync: clipboard read failed: "@ + error),
        Ok(None) => ClipboardStep::Wait,
        Ok(Some(item)) => if side.last_seen_hash == Some(item.hash) {
            ClipboardStep::Wait
        } else {
            ClipboardStep::ReadMarker
        },
    }
}

/// Whether the marker of the last received content names the given fingerprint.
pub open spec fn marker_names(marker: Option<Seq<char>>, hash: Seq<char>) -> bool {
    match marker {
        Some(marker) => text::without_outer_space(marker) == hash,
        None => false,
    }
}

/// The action on a new content once the marker has been read, or could not be.
pub open spec fn marker_step(
    side: Side,
    item: Item,
    marker: Result<Option<Seq<char>>, Seq<char>>,
) -> MarkerStep {
    match marker {
        Err(message) => MarkerStep::End(message),
        Ok(marker) => if marker_names(marker, item.hash) {
            MarkerStep::AcceptRemote("zync: accepted "@ + side.label + " clipboard "@ + item.hash)
        } else {
            MarkerStep::Send(frame::frame_of(item))
        },
    }
}

/// What reading the marker gave, as a mathematical value.
pub open spec fn marker_read(read: Result<Option<String>, String>) -> Result<
    Option<Seq<char>>,
    Seq<char>,
> {
    match read {
        Ok(marker) => Ok(header::optional_text(marker)),
        Err(message) => Err(message@),
    }
}

/// A side that has seen a content.
pub open spec fn having_seen(side: Side, item: Item) -> Side {
    Side { last_seen_hash: Some(item.hash), ..side }
}

/// The characters of a text that may be missing.
pub open spec fn given_text(text: Option<&str>) -> Option<Seq<char>> {
    match text {
        Some(text) => Some(text@),
        None => None,
    }
}

/// Whether a content is kept from being sent, because it is the one received last. There is
/// no marker where none has been written.
pub fn should_suppress_send(marker: Option<&str>, hash: &str) -> (r: bool)
    ensures
        r == marker_names(given_text(marker), hash@),
{
    match marker {
        Some(marker) => text::str_eq(text::trim(marker), hash),
        None => false,
    }
}

impl Session {
    /// A side that has not seen any content yet.
    pub fn new(delivery: Delivery, label: &str) -> (session: Self)
        ensures
            session@ == (Side { delivery, label: label@, last_seen_hash: None }),
    {
        Session { delivery, label: String::from_str(label), last_seen_hash: None }
    }

    /// Decides on what a look at the clipboard gave.
    pub fn on_clipboard(&self, read: &Result<Option<ClipboardItem>, String>) -> (action:
        ClipboardAction)
        ensures
            action@ == clipboard_step(self@, stream::read_outcome(*read)),
    {
        match read {
            Err(error) => ClipboardAction::Report(
                String::from_str("zync: clipboard read failed: ").concat(error.as_str()),
            ),
            Ok(None) => ClipboardAction::Wait,
            Ok(Some(item)) => match &self.last_seen_hash {
                Some(last) => if text::str_eq(last.as_str(), item.hash.as_str()) {
                    ClipboardAction::Wait
                } else {
                    ClipboardAction::ReadMarker
                },
                None => ClipboardAction::ReadMarker,
            },
        }
    }

    /// Decides on a new content once the marker has been read, or could not be. A content
    /// that came from the peer has then been seen.
    pub fn on_marker(&mut self, item: &ClipboardItem, marker: Result<Option<String>, String>) -> (
    action: MarkerAction)
        ensures
            action@ == marker_step(old(self)@, item@, marker_read(marker)),
            final(self)@ == if action@ is AcceptRemote {
                having_seen(old(self)@, item@)
            } else {
                old(self)@
            },
    {
        let suppressed = match marker {
            Err(message) => {
                return MarkerAction::End(message);
            },
            Ok(Some(marker)) => should_suppress_send(Some(marker.as_str()), item.hash.as_str()),
            Ok(None) => should_suppress_send(None, item.hash.as_str()),
        };
        if suppressed {
            self.last_seen_hash = Some(item.hash.clone());
            MarkerAction::AcceptRemote(
                String::from_str("zync: accepted ").concat(self.label.as_str()).concat(
                    " clipboard ",
                ).concat(item.hash.as_str()),
            )
        } else {
            MarkerAction::Send(frame::encode_frame(item))
        }
    }

    /// Takes in what came of sending a content: the message to report, or the one that ends
    /// the session. Unless the session ends, the content has then been seen.
    pub fn on_sent(&mut self, item: &ClipboardItem, sent: Result<(), String>) -> (r: Result<
        String,
        String,
    >)
        ensures
            text::outcome(r) == sending_result(old(self)@, item@, text::outcome(sent)),
            final(self)@ == if r is Ok {
                having_seen(old(self)@, item@)
            } else {
                old(self)@
            },
    {
        let message = match sent {
            Ok(()) => String::from_str("zync: sent ").concat(item.kind.as_str()).concat(
                " clipboard ",
            ).concat(item.hash.as_str()),
            Err(error) => match self.delivery {
                Delivery::Command => String::from_str("zync: send failed for ").concat(
                    item.hash.as_str(),
                ).concat(": ").concat(error.as_str()),
                Delivery::Stream => {
                    return Err(
                        String::from_str("failed to write clipboard frame: ").concat(
                            error.as_str(),
                        ),
                    );
                },
            },
        };
        self.last_seen_hash = Some(item.hash.clone());
        Ok(message)
    }
}

/// What is left to do about a content that arrived, once it is on the clipboard.
#[derive(Debug, PartialEq, Eq)]
pub struct Receipt {
    /// What the marker is to hold.
    pub marker: String,
    /// The message to report.
    pub message: String,
}

/// What is left to do about a content that arrived, as a mathematical value.
#[verifier::ext_equal]
pub struct ReceiptText {
    pub marker: Seq<char>,
    pub message: Seq<char>,
}

impl View for Receipt {
    type V = ReceiptText;

    open spec fn view(&self) -> ReceiptText {
        ReceiptText { marker: self.marker@, message: self.message@ }
    }
}

/// What is left to do about a content that arrived: its fingerprint goes into the marker, and
/// the message names the sender where there is a word for it.
pub open spec fn receipt_of(item: Item, sender: Option<Seq<char>>) -> ReceiptText {
    let named = match sender {
        Some(sender) => "zync: received "@ + sender + " "@,
        None => "zync: received "@,
    };
    ReceiptText {
        marker: item.hash,
        message: named + clipboard::kind_text(item.kind) + " clipboard "@ + item.hash,
    }
}

/// Decides what is left to do about a content that arrived, once it is on the clipboard.
pub fn on_received(item: &ClipboardItem, sender: Option<&str>) -> (receipt: Receipt)
    ensures
        receipt@ == receipt_of(item@, given_text(sender)),
{
    let named = match sender {
        Some(sender) => String::from_str("zync: received ").concat(sender).concat(" "),
        None => String::from_str("zync: received "),
    };
    Receipt {
        marker: item.hash.clone(),
        message: named.concat(item.kind.as_str()).concat(" clipboard ").concat(
            item.hash.as_str(),
        ),
    }
}

/// What a single sending gives for what was read from the clipboard: the frame that goes to
/// the peer, or a message.
pub open spec fn frame_to_send(read: Result<Option<Item>, Seq<char>>) -> Result<
    Seq<u8>,
    Seq<char>,
> {
    match read {
        Err(message) => Err(message),
        Ok(None) => Err("clipboard is empty or unsupported"@),
        Ok(Some(item)) => Ok(frame::frame_of(item)),
    }
}

/// Makes the frame of a single sending of what was read from the clipboard.
pub fn send_once(read: Result<Option<ClipboardItem>, String>) -> (r: Result<Vec<u8>, String>)
    ensures
        text::outcome(r) == frame_to_send(stream::read_outcome(read)),
{
    match read {
        Err(message) => Err(message),
        Ok(None) => Err(String::from_str("clipboard is empty or unsupported")),
        Ok(Some(item)) => Ok(frame::encode_frame(&item)),
    }
}

/// The arguments of the program that runs a command on the peer.
pub open spec fn peer_args(config: Config, command: Seq<char>) -> Seq<Seq<char>> {
    seq![config.peer, config.remote_bin, command]
}

/// Makes the arguments of the program that runs a command on the peer.
fn ssh_args(config: &ServeConfig, command: &str) -> (args: Vec<String>)
    ensures
        cli::texts(args@) == peer_args(config@, command@),
{
    let mut args: Vec<String> = Vec::new();
    args.push(config.peer.clone());
    args.push(config.remote_bin.clone());
    args.push(String::from_str(command));
    proof {
        assert(cli::texts(args@) =~= peer_args(config@, command@));
    }
    args
}

/// Makes the arguments of the program that connects to the peer: the agent runs there.
pub fn connect_args(config: &ServeConfig) -> (args: Vec<String>)
    ensures
        cli::texts(args@) == peer_args(config@, "agent"@),
{
    ssh_args(config, "agent")
}

/// Makes the arguments of the program that sends one content to the peer: it is received
/// there.
pub fn send_args(config: &ServeConfig) -> (args: Vec<String>)
    ensures
        cli::texts(args@) == peer_args(config@, "receive"@),
{
    ssh_args(config, "receive")
}

/// A path and a name below it, with one separator between them. Nothing goes between an
/// empty path and the name.
pub open spec fn path_below(path: Seq<u8>, name: Seq<u8>) -> Seq<u8> {
    if path.len() == 0 || path.last() == 47 {
        path + name
    } else {
        path + seq![47u8] + name
    }
}

/// Puts a name below a path.
fn join_path(path: &[u8], name: &str) -> (r: Vec<u8>)
    ensures
        r@ == path_below(path@, encode_utf8(name@)),
{
    let n = path.len();
    let mut r: Vec<u8> = Vec::new();
    r.extend_from_slice(path);
    if n > 0 && path[n - 1] != 47 {
        r.push(47);
    }
    r.extend_from_slice(name.as_bytes());
    proof {
        assert(r@ =~= path_below(path@, encode_utf8(name@)));
    }
    r
}

/// The bytes of a path that may be missing.
pub open spec fn path_bytes(path: Option<&[u8]>) -> Option<Seq<u8>> {
    match path {
        Some(path) => Some(path@),
        None => None,
    }
}

/// The directory that holds the state, below the home directory.
pub open spec fn state_path(home: Option<Seq<u8>>) -> Result<Seq<u8>, Seq<char>> {
    match home {
        Some(home) => Ok(path_below(home, encode_utf8(".zync"@))),
        None => Err("HOME is not set"@),
    }
}

/// The directory that holds the state, below the home directory.
pub fn state_dir(home: Option<&[u8]>) -> (r: Result<Vec<u8>, String>)
    ensures
        text::outcome(r) == state_path(path_bytes(home)),
{
    match home {
        Some(home) => Ok(join_path(home, ".zync")),
        None => Err(String::from_str("HOME is not set")),
    }
}

/// The file that holds the marker of the last received content.
pub fn received_marker_path(home: Option<&[u8]>) -> (r: Result<Vec<u8>, String>)
    ensures
        text::outcome(r) == match state_path(path_bytes(home)) {
            Ok(dir) => Ok(path_below(dir, encode_utf8("last-received"@))),
            Err(message) => Err(message),
        },
{
    match state_dir(home) {
        Ok(dir) => Ok(join_path(dir.as_slice(), "last-received")),
        Err(message) => Err(message),
    }
}

} // verus!
