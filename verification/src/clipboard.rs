//! What a clipboard holds, and the fingerprint by which two contents are told apart.

use crate::number;
use crate::text;
use vstd::prelude::*;
use vstd::utf8::*;

verus! {

/// The kinds of clipboard content.
#[derive(Clone, Copy, Debug, PartialEq, Eq, Structural)]
pub enum ClipboardKind {
    Text,
    Image,
}

impl View for ClipboardKind {
    type V = ClipboardKind;

    open spec fn view(&self) -> ClipboardKind {
        *self
    }
}

/// The word that stands for a kind in a frame.
pub open spec fn kind_text(kind: ClipboardKind) -> Seq<char> {
    match kind {
        ClipboardKind::Text => "text"@,
        ClipboardKind::Image => "image"@,
    }
}

/// The kind that a word stands for, or the message that refuses it.
pub open spec fn kind_of(word: Seq<char>) -> Result<ClipboardKind, Seq<char>> {
    if word == "text"@ {
        Ok(ClipboardKind::Text)
    } else if word == "image"@ {
        Ok(ClipboardKind::Image)
    } else {
        Err("unsupported clipboard kind: "@ + word)
    }
}

impl ClipboardKind {
    /// The word that stands for this kind in a frame.
    pub fn as_str(&self) -> (word: &'static str)
        ensures
            word@ == kind_text(*self),
    {
        match self {
            ClipboardKind::Text => "text",
            ClipboardKind::Image => "image",
        }
    }

    /// Reads the word that stands for a kind.
    pub fn parse(value: &str) -> (r: Result<Self, String>)
        ensures
            text::outcome(r) == kind_of(value@),
    {
        if text::str_eq(value, "text") {
            Ok(ClipboardKind::Text)
        } else if text::str_eq(value, "image") {
            Ok(ClipboardKind::Image)
        } else {
            Err(String::from_str("unsupported clipboard kind: ").concat(value))
        }
    }
}

/// One content of a clipboard, with its media type and fingerprint.
#[derive(Clone, Debug, PartialEq, Eq)]
pub struct ClipboardItem {
    pub kind: ClipboardKind,
    pub mime: String,
    pub bytes: Vec<u8>,
    pub hash: String,
}

/// A clipboard content as a mathematical value.
#[verifier::ext_equal]
pub struct Item {
    pub kind: ClipboardKind,
    pub mime: Seq<char>,
    pub bytes: Seq<u8>,
    pub hash: Seq<char>,
}

impl View for ClipboardItem {
    type V = Item;

    open spec fn view(&self) -> Item {
        Item { kind: self.kind, mime: self.mime@, bytes: self.bytes@, hash: self.hash@ }
    }
}

impl Item {
    /// The fingerprint that belongs to this content.
    pub open spec fn fingerprint(self) -> Seq<char> {
        fingerprint_text(kind_text(self.kind), self.mime, self.bytes)
    }
}

/// One step of the 64-bit FNV-1a hash.
pub open spec fn fnv1a_step(hash: u64, byte: u8) -> u64 {
    (((hash ^ (byte as u64)) as int * 0x100000001b3) % 0x1_0000_0000_0000_0000) as u64
}

/// The 64-bit FNV-1a hash.
pub open spec fn fnv1a(bytes: Seq<u8>) -> u64
    decreases bytes.len(),
{
    if bytes.len() == 0 {
        0xcbf29ce484222325
    } else {
        fnv1a_step(fnv1a(bytes.drop_last()), bytes.last())
    }
}

/// The bytes that a fingerprint is taken of: kind, media type and content, with a zero
/// byte between each two.
pub open spec fn fingerprint_input(kind: Seq<char>, mime: Seq<char>, bytes: Seq<u8>) -> Seq<u8> {
    encode_utf8(kind) + seq![0u8] + encode_utf8(mime) + seq![0u8] + bytes
}

/// The fingerprint of a content: sixteen hexadecimal digits.
pub open spec fn fingerprint_text(kind: Seq<char>, mime: Seq<char>, bytes: Seq<u8>) -> Seq<char> {
    number::hex_text(fnv1a(fingerprint_input(kind, mime, bytes)) as nat, 16)
}

/// Carries an FNV-1a hash on over more bytes.
fn fnv1a_over(hash: u64, seen: Ghost<Seq<u8>>, bytes: &[u8]) -> (r: u64)
    requires
        hash == fnv1a(seen@),
    ensures
        r == fnv1a(seen@ + bytes@),
{
    let mut h = hash;
    let mut i: usize = 0;
    proof {
        assert(seen@ + bytes@.take(0) =~= seen@);
    }
    while i < bytes.len()
        invariant
            i <= bytes@.len(),
            h == fnv1a(seen@ + bytes@.take(i as int)),
        decreases bytes@.len() - i,
    {
        proof {
            let next = seen@ + bytes@.take(i + 1);
            assert(next.drop_last() =~= seen@ + bytes@.take(i as int));
            assert(next.last() == bytes@[i as int]);
        }
        h = (h ^ (bytes[i] as u64)).wrapping_mul(0x100000001b3);
        i += 1;
    }
    proof {
        assert(bytes@.take(bytes@.len() as int) =~= bytes@);
    }
    h
}

/// The fingerprint of a content of a given kind and media type.
pub fn fingerprint(kind: &str, mime: &str, bytes: &[u8]) -> (hash: String)
    ensures
        hash@ == fingerprint_text(kind@, mime@, bytes@),
{
    let zero: [u8; 1] = [0];
    let ghost empty = Seq::<u8>::empty();
    let ghost a = encode_utf8(kind@);
    let ghost c = encode_utf8(mime@);
    let h = fnv1a_over(0xcbf29ce484222325, Ghost(empty), kind.as_bytes());
    let h = fnv1a_over(h, Ghost(empty + a), &zero);
    let h = fnv1a_over(h, Ghost(empty + a + zero@), mime.as_bytes());
    let h = fnv1a_over(h, Ghost(empty + a + zero@ + c), &zero);
    let h = fnv1a_over(h, Ghost(empty + a + zero@ + c + zero@), bytes);
    proof {
        assert(zero@ =~= seq![0u8]);
        assert(empty + a + zero@ + c + zero@ + bytes@ =~= fingerprint_input(kind@, mime@, bytes@));
    }
    number::hex(h, 16)
}

} // verus!
