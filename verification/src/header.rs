//! The header of a frame: lines of the form `key:value` that describe the payload.

use crate::clipboard;
use crate::clipboard::{ClipboardItem, ClipboardKind, Item};
use crate::number;
use crate::text;
use vstd::prelude::*;

verus! {

/// The word that a frame begins with.
pub const MAGIC: &'static str = "ZYNC1";

/// What the header lines read so far have said.
#[derive(Debug, PartialEq, Eq)]
pub struct HeaderFields {
    pub kind: Option<ClipboardKind>,
    pub mime: Option<String>,
    pub hash: Option<String>,
    pub bytes_len: Option<usize>,
}

/// Header fields as a mathematical value.
#[verifier::ext_equal]
pub struct Fields {
    pub kind: Option<ClipboardKind>,
    pub mime: Option<Seq<char>>,
    pub hash: Option<Seq<char>>,
    pub bytes_len: Option<nat>,
}

/// The characters of a string that may be missing.
pub open spec fn optional_text(s: Option<String>) -> Option<Seq<char>> {
    match s {
        Some(s) => Some(s@),
        None => None,
    }
}

impl View for HeaderFields {
    type V = Fields;

    open spec fn view(&self) -> Fields {
        Fields {
            kind: self.kind,
            mime: optional_text(self.mime),
            hash: optional_text(self.hash),
            bytes_len: match self.bytes_len {
                Some(n) => Some(n as nat),
                None => None,
            },
        }
    }
}

/// The fields before any header line.
pub open spec fn no_fields() -> Fields {
    Fields { kind: None, mime: None, hash: None, bytes_len: None }
}

/// The fields after one more header line, or the message that refuses the line. A key that
/// comes again takes the place of its earlier value.
pub open spec fn fields_after_line(fields: Fields, line: Seq<char>) -> Result<Fields, Seq<char>> {
    match text::split_at_first(line, ':') {
        None => Err("invalid frame header line: "@ + line),
        Some((key, value)) => {
            if key == "kind"@ {
                match clipboard::kind_of(value) {
                    Ok(kind) => Ok(Fields { kind: Some(kind), ..fields }),
                    Err(message) => Err(message),
                }
            } else if key == "mime"@ {
                Ok(Fields { mime: Some(value), ..fields })
            } else if key == "hash"@ {
                Ok(Fields { hash: Some(value), ..fields })
            } else if key == "bytes"@ {
                match number::number_of(value, usize::MAX as nat) {
                    Some(n) => Ok(Fields { bytes_len: Some(n), ..fields }),
                    None => Err("invalid frame byte length"@),
                }
            } else {
                Err("unknown frame header: "@ + key)
            }
        },
    }
}

/// The fields after a sequence of header lines, or the message for the first line that is
/// refused.
pub open spec fn fields_after_lines(fields: Fields, lines: Seq<Seq<char>>) -> Result<
    Fields,
    Seq<char>,
>
    decreases lines.len(),
{
    if lines.len() == 0 {
        Ok(fields)
    } else {
        match fields_after_line(fields, lines[0]) {
            Ok(next) => fields_after_lines(next, lines.drop_first()),
            Err(message) => Err(message),
        }
    }
}

/// The header of a frame, complete.
#[derive(Debug, PartialEq, Eq)]
pub struct FrameHeader {
    pub kind: ClipboardKind,
    pub mime: String,
    pub hash: String,
    pub bytes_len: usize,
}

/// A frame header as a mathematical value.
#[verifier::ext_equal]
pub struct Header {
    pub kind: ClipboardKind,
    pub mime: Seq<char>,
    pub hash: Seq<char>,
    pub bytes_len: nat,
}

impl View for FrameHeader {
    type V = Header;

    open spec fn view(&self) -> Header {
        Header {
            kind: self.kind,
            mime: self.mime@,
            hash: self.hash@,
            bytes_len: self.bytes_len as nat,
        }
    }
}

/// The header that a full set of fields makes, or the message for the first field that is
/// missing.
pub open spec fn header_of(fields: Fields) -> Result<Header, Seq<char>> {
    match fields.kind {
        None => Err("invalid frame: missing kind"@),
        Some(kind) => match fields.mime {
            None => Err("invalid frame: missing mime"@),
            Some(mime) => match fields.hash {
                None => Err("invalid frame: missing hash"@),
                Some(hash) => match fields.bytes_len {
                    None => Err("invalid frame: missing bytes"@),
                    Some(bytes_len) => Ok(Header { kind, mime, hash, bytes_len }),
                },
            },
        },
    }
}

/// The content that a header and a payload make, or the message that refuses a payload
/// whose fingerprint is not the one that the header names.
pub open spec fn item_of(header: Header, payload: Seq<u8>) -> Result<Item, Seq<char>> {
    let actual = clipboard::fingerprint_text(
        clipboard::kind_text(header.kind),
        header.mime,
        payload,
    );
    if actual == header.hash {
        Ok(Item { kind: header.kind, mime: header.mime, bytes: payload, hash: header.hash })
    } else {
        Err(
            "invalid frame: hash mismatch, expected "@ + header.hash + ", got "@ + actual,
        )
    }
}

impl HeaderFields {
    /// No field read yet.
    pub fn new() -> (fields: Self)
        ensures
            fields@ == no_fields(),
    {
        HeaderFields { kind: None, mime: None, hash: None, bytes_len: None }
    }

    /// Takes in one header line.
    pub fn accept(self, line: &str) -> (r: Result<HeaderFields, String>)
        ensures
            text::outcome(r) == fields_after_line(self@, line@),
    {
        let (key, value) = match text::split_once(line, 58) {
            Some(parts) => parts,
            None => {
                return Err(String::from_str("invalid frame header line: ").concat(line));
            },
        };
        let mut fields = self;
        if text::str_eq(key, "kind") {
            match ClipboardKind::parse(value) {
                Ok(kind) => {
                    fields.kind = Some(kind);
                },
                Err(message) => {
                    return Err(message);
                },
            }
        } else if text::str_eq(key, "mime") {
            fields.mime = Some(String::from_str(value));
        } else if text::str_eq(key, "hash") {
            fields.hash = Some(String::from_str(value));
        } else if text::str_eq(key, "bytes") {
            match number::parse_number(value, usize::MAX as u64) {
                Some(n) => {
                    fields.bytes_len = Some(n as usize);
                },
                None => {
                    return Err(String::from_str("invalid frame byte length"));
                },
            }
        } else {
            return Err(String::from_str("unknown frame header: ").concat(key));
        }
        Ok(fields)
    }

    /// Makes a header of the fields, all of which must be there.
    pub fn complete(self) -> (r: Result<FrameHeader, String>)
        ensures
            text::outcome(r) == header_of(self@),
    {
        let kind = match self.kind {
            Some(kind) => kind,
            None => {
                return Err(String::from_str("invalid frame: missing kind"));
            },
        };
        let mime = match self.mime {
            Some(mime) => mime,
            None => {
                return Err(String::from_str("invalid frame: missing mime"));
            },
        };
        let hash = match self.hash {
            Some(hash) => hash,
            None => {
                return Err(String::from_str("invalid frame: missing hash"));
            },
        };
        let bytes_len: usize = match self.bytes_len {
            Some(bytes_len) => bytes_len,
            None => {
                return Err(String::from_str("invalid frame: missing bytes"));
            },
        };
        Ok(FrameHeader { kind, mime, hash, bytes_len })
    }
}

impl FrameHeader {
    /// Joins the header with its payload, whose fingerprint must be the one that the header
    /// names.
    pub fn with_payload(self, payload: Vec<u8>) -> (r: Result<ClipboardItem, String>)
        ensures
            text::outcome(r) == item_of(self@, payload@),
    {
        let actual = clipboard::fingerprint(
            self.kind.as_str(),
            self.mime.as_str(),
            payload.as_slice(),
        );
        if actual == self.hash {
            Ok(ClipboardItem { kind: self.kind, mime: self.mime, bytes: payload, hash: self.hash })
        } else {
            Err(
                String::from_str("invalid frame: hash mismatch, expected ").concat(
                    self.hash.as_str(),
                ).concat(", got ").concat(actual.as_str()),
            )
        }
    }
}

} // verus!
