//! Reading frames one after another from a stream of bytes. [`ReadState::advance`] decides
//! what each piece of the stream means and what to read next; whoever owns the stream does
//! the reading. [`read_frame_from`] reads from bytes in memory.

use crate::clipboard::{ClipboardItem, Item};
use crate::header;
use crate::header::{Fields, FrameHeader, Header, HeaderFields, MAGIC};
use crate::text;
use crate::utf8;
use vstd::prelude::*;
use vstd::slice::{slice_subrange, slice_to_vec};
use vstd::utf8::*;

verus! {

/// How far the reading of a frame has come.
#[derive(Debug, PartialEq, Eq)]
pub enum ReadState {
    /// Nothing of the frame has been read.
    Start,
    /// The first line and some header lines have been read.
    Header(HeaderFields),
    /// The header has been read; the payload comes next.
    Payload(FrameHeader),
}

/// The state of a reader as a mathematical value.
pub enum State {
    Start,
    Header(Fields),
    Payload(Header),
}

impl View for ReadState {
    type V = State;

    open spec fn view(&self) -> State {
        match self {
            ReadState::Start => State::Start,
            ReadState::Header(fields) => State::Header(fields@),
            ReadState::Payload(header) => State::Payload(header@),
        }
    }
}

/// What is to be read next.
#[derive(Clone, Copy, Debug, PartialEq, Eq)]
pub enum ReadRequest {
    /// A line, with the line feed that ends it; nothing at the end of the stream.
    Line,
    /// A given number of bytes.
    Exact(usize),
}

/// What follows from a read.
#[derive(Debug, PartialEq, Eq)]
pub enum ReadAction {
    /// Go on in this state.
    Continue(ReadState),
    /// The stream ends here, between two frames.
    End,
    /// A frame is complete.
    Deliver(ClipboardItem),
    /// The stream is refused.
    Refuse(String),
}

/// A reader's action as a mathematical value.
pub enum Action {
    Continue(State),
    End,
    Deliver(Item),
    Refuse(Seq<char>),
}

impl View for ReadAction {
    type V = Action;

    open spec fn view(&self) -> Action {
        match self {
            ReadAction::Continue(state) => Action::Continue(state@),
            ReadAction::End => Action::End,
            ReadAction::Deliver(item) => Action::Deliver(item@),
            ReadAction::Refuse(message) => Action::Refuse(message@),
        }
    }
}

/// The text of a line as it was read, without its line end, or the message that refuses it.
pub open spec fn line_text(bytes: Seq<u8>) -> Result<Seq<char>, Seq<char>> {
    if valid_utf8(bytes) {
        Ok(text::without_line_end(decode_utf8(bytes)))
    } else {
        Err("failed to read frame header: stream did not contain valid UTF-8"@)
    }
}

/// The action on the first line of a frame.
pub open spec fn action_at_start(line: Seq<u8>) -> Action {
    if line.len() == 0 {
        Action::End
    } else {
        match line_text(line) {
            Err(message) => Action::Refuse(message),
            Ok(line) => if line == MAGIC@ {
                Action::Continue(State::Header(header::no_fields()))
            } else {
                Action::Refuse("invalid frame: bad magic"@)
            },
        }
    }
}

/// The action on a later line of a header. An empty line ends the header.
pub open spec fn action_in_header(fields: Fields, line: Seq<u8>) -> Action {
    if line.len() == 0 {
        Action::Refuse("invalid frame: unexpected end of header"@)
    } else {
        match line_text(line) {
            Err(message) => Action::Refuse(message),
            Ok(line) => if line.len() == 0 {
                match header::header_of(fields) {
                    Err(message) => Action::Refuse(message),
                    Ok(header) => Action::Continue(State::Payload(header)),
                }
            } else {
                match header::fields_after_line(fields, line) {
                    Err(message) => Action::Refuse(message),
                    Ok(fields) => Action::Continue(State::Header(fields)),
                }
            },
        }
    }
}

/// The action on the payload of a frame.
pub open spec fn action_on_payload(header: Header, payload: Seq<u8>) -> Action {
    match header::item_of(header, payload) {
        Err(message) => Action::Refuse(message),
        Ok(item) => Action::Deliver(item),
    }
}

/// The action on what came of the read that a state asks for: bytes, or the text of an
/// error.
pub open spec fn action_on(state: State, read: Result<Seq<u8>, Seq<char>>) -> Action {
    match read {
        Err(error) => if state is Payload {
            Action::Refuse("failed to read frame payload: "@ + error)
        } else {
            Action::Refuse("failed to read frame header: "@ + error)
        },
        Ok(bytes) => match state {
            State::Start => action_at_start(bytes),
            State::Header(fields) => action_in_header(fields, bytes),
            State::Payload(header) => action_on_payload(header, bytes),
        },
    }
}

/// The text of a line as it was read, without its line end.
fn read_line_text(bytes: &[u8]) -> (r: Result<&str, String>)
    ensures
        match r {
            Ok(line) => line_text(bytes@) == Ok::<Seq<char>, Seq<char>>(line@),
            Err(message) => line_text(bytes@) == Err::<Seq<char>, Seq<char>>(message@),
        },
{
    match utf8::from_utf8(bytes) {
        Ok(line) => Ok(text::trim_line_end(line)),
        Err(_) => Err(
            String::from_str("failed to read frame header: stream did not contain valid UTF-8"),
        ),
    }
}

impl ReadState {
    /// What this state asks to be read.
    pub fn request(&self) -> (r: ReadRequest)
        ensures
            r == match *self {
                ReadState::Payload(header) => ReadRequest::Exact(header.bytes_len),
                _ => ReadRequest::Line,
            },
    {
        match self {
            ReadState::Payload(header) => ReadRequest::Exact(header.bytes_len),
            _ => ReadRequest::Line,
        }
    }

    /// Decides on what came of the read that this state asked for: the bytes, or the text
    /// of the error.
    pub fn advance(self, read: Result<Vec<u8>, String>) -> (action: ReadAction)
        ensures
            action@ == action_on(self@, text::outcome(read)),
    {
        match self {
            ReadState::Start => match read {
                Err(error) => ReadAction::Refuse(
                    String::from_str("failed to read frame header: ").concat(error.as_str()),
                ),
                Ok(bytes) => {
                    if bytes.is_empty() {
                        return ReadAction::End;
                    }
                    match read_line_text(bytes.as_slice()) {
                        Err(message) => ReadAction::Refuse(message),
                        Ok(line) => if text::str_eq(line, MAGIC) {
                            ReadAction::Continue(ReadState::Header(HeaderFields::new()))
                        } else {
                            ReadAction::Refuse(String::from_str("invalid frame: bad magic"))
                        },
                    }
                },
            },
            ReadState::Header(fields) => match read {
                Err(error) => ReadAction::Refuse(
                    String::from_str("failed to read frame header: ").concat(error.as_str()),
                ),
                Ok(bytes) => {
                    if bytes.is_empty() {
                        return ReadAction::Refuse(
                            String::from_str("invalid frame: unexpected end of header"),
                        );
                    }
                    let line = match read_line_text(bytes.as_slice()) {
                        Err(message) => {
                            return ReadAction::Refuse(message);
                        },
                        Ok(line) => line,
                    };
                    if line.is_empty() {
                        match fields.complete() {
                            Err(message) => ReadAction::Refuse(message),
                            Ok(header) => ReadAction::Continue(ReadState::Payload(header)),
                        }
                    } else {
                        match fields.accept(line) {
                            Err(message) => ReadAction::Refuse(message),
                            Ok(fields) => ReadAction::Continue(ReadState::Header(fields)),
                        }
                    }
                },
            },
            ReadState::Payload(header) => match read {
                Err(error) => ReadAction::Refuse(
                    String::from_str("failed to read frame payload: ").concat(error.as_str()),
                ),
                Ok(bytes) => match header.with_payload(bytes) {
                    Err(message) => ReadAction::Refuse(message),
                    Ok(item) => ReadAction::Deliver(item),
                },
            },
        }
    }
}

/// The length of the first line of a stream, with its line feed.
pub open spec fn line_len(stream: Seq<u8>) -> int {
    match stream.index_of_first(10) {
        Some(i) => i + 1,
        None => stream.len() as int,
    }
}

/// What the read that a state asks for gives on a stream in memory, and how many bytes it
/// takes.
pub open spec fn served(state: State, stream: Seq<u8>) -> (Result<Seq<u8>, Seq<char>>, int) {
    match state {
        State::Payload(header) => if header.bytes_len <= stream.len() {
            (Ok(stream.take(header.bytes_len as int)), header.bytes_len as int)
        } else {
            (Err("failed to fill whole buffer"@), stream.len() as int)
        },
        _ => (Ok(stream.take(line_len(stream))), line_len(stream)),
    }
}

/// The stages of a frame that are still to come.
pub open spec fn stages_left(state: State) -> nat {
    match state {
        State::Start => 2,
        State::Header(_) => 1,
        State::Payload(_) => 0,
    }
}

/// What reading a stream from a state on gives: a content, the end of the stream or the
/// message that refuses it, and the bytes that are left.
pub open spec fn read_from(state: State, stream: Seq<u8>) -> (
    Result<Option<Item>, Seq<char>>,
    Seq<u8>,
)
    decreases stages_left(state), stream.len(),
    via read_from_decreases
{
    let (read, taken) = served(state, stream);
    let rest = stream.skip(taken);
    match action_on(state, read) {
        Action::Continue(next) => read_from(next, rest),
        Action::End => (Ok(None), rest),
        Action::Deliver(item) => (Ok(Some(item)), rest),
        Action::Refuse(message) => (Err(message), rest),
    }
}

/// A line is no longer than the stream, and empty only at its end.
pub proof fn lemma_line_len(stream: Seq<u8>)
    ensures
        0 <= line_len(stream) <= stream.len(),
        line_len(stream) == 0 <==> stream.len() == 0,
{
    stream.index_of_first_ensures(10);
}

#[via_fn]
proof fn read_from_decreases(state: State, stream: Seq<u8>) {
    lemma_line_len(stream);
}

/// A reader that goes on has come nearer to the end of the frame.
proof fn lemma_progress(state: State, stream: Seq<u8>)
    ensures
        0 <= served(state, stream).1 <= stream.len(),
        match action_on(state, served(state, stream).0) {
            Action::Continue(next) => {
                ||| stages_left(next) < stages_left(state)
                ||| stages_left(next) == stages_left(state) && served(state, stream).1 > 0
            },
            _ => true,
        },
{
    lemma_line_len(stream);
}

/// The length of the first line of a stream, with its line feed.
fn first_line_len(stream: &[u8]) -> (r: usize)
    ensures
        r == line_len(stream@),
{
    proof {
        stream@.index_of_first_ensures(10);
    }
    let n = stream.len();
    let mut i: usize = 0;
    while i < n
        invariant
            n == stream@.len(),
            i <= n,
            forall|j: int| 0 <= j < i ==> stream@[j] != 10,
            match stream@.index_of_first(10) {
                Some(index) => 0 <= index < n && stream@[index] == 10 && forall|j: int|
                    0 <= j < index ==> stream@[j] != 10,
                None => !stream@.contains(10),
            },
        decreases n - i,
    {
        if stream[i] == 10 {
            return i + 1;
        }
        i += 1;
    }
    n
}

/// The content that a read gives, as a mathematical value.
pub open spec fn read_outcome(r: Result<Option<ClipboardItem>, String>) -> Result<
    Option<Item>,
    Seq<char>,
> {
    match r {
        Ok(Some(item)) => Ok(Some(item@)),
        Ok(None) => Ok(None),
        Err(message) => Err(message@),
    }
}

/// Does the read that a state asks for on bytes in memory.
fn read_in_memory(state: &ReadState, stream: &[u8]) -> (r: (Result<Vec<u8>, String>, usize))
    ensures
        (text::outcome(r.0), r.1 as int) == served(state@, stream@),
{
    proof {
        lemma_line_len(stream@);
    }
    let n = stream.len();
    match state.request() {
        ReadRequest::Line => {
            let end = first_line_len(stream);
            (Ok(slice_to_vec(slice_subrange(stream, 0, end))), end)
        },
        ReadRequest::Exact(len) => if len <= n {
            (Ok(slice_to_vec(slice_subrange(stream, 0, len))), len)
        } else {
            (Err(String::from_str("failed to fill whole buffer")), n)
        },
    }
}

/// Reads the next frame from bytes in memory and moves past it.
pub fn read_frame_from(reader: &mut &[u8]) -> (r: Result<Option<ClipboardItem>, String>)
    ensures
        (read_outcome(r), final(reader)@) == read_from(State::Start, old(reader)@),
{
    let ghost stream = reader@;
    let mut state = ReadState::Start;
    loop
        invariant
            read_from(state@, reader@) == read_from(State::Start, stream),
            stream == old(reader)@,
        decreases stages_left(state@), reader@.len(),
    {
        let bytes = *reader;
        proof {
            lemma_progress(state@, bytes@);
        }
        let (read, taken) = read_in_memory(&state, bytes);
        *reader = slice_subrange(bytes, taken, bytes.len());
        proof {
            assert(reader@ =~= bytes@.skip(taken as int));
        }
        match state.advance(read) {
            ReadAction::Continue(next) => {
                state = next;
            },
            ReadAction::End => {
                return Ok(None);
            },
            ReadAction::Deliver(item) => {
                return Ok(Some(item));
            },
            ReadAction::Refuse(message) => {
                return Err(message);
            },
        }
    }
}

} // verus!
