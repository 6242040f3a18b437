//! What holds of fingerprints: a content that is changed in one byte gets another one.

use crate::ascii;
use crate::clipboard;
use crate::clipboard::{ClipboardKind, Item};
use crate::frame;
use crate::laws;
use crate::number;
use crate::number_laws;
use crate::stream;
use crate::stream::State;
use vstd::arithmetic::power::pow;
use vstd::prelude::*;
use vstd::utf8::*;

verus! {

/// Multiplication by the FNV prime can be undone modulo 2^64.
proof fn lemma_prime_inverse(x: int)
    requires
        0 <= x < 0x1_0000_0000_0000_0000,
    ensures
        ((x * 0x100000001b3) % 0x1_0000_0000_0000_0000 * 0xce965057aff6957b) % 0x1_0000_0000_0000_0000 == x,
{
    let m: int = 0x1_0000_0000_0000_0000;
    let p: int = 0x100000001b3;
    let q: int = 0xce965057aff6957b;
    let k: int = 0xce9650590f;
    let d = (x * p) / m;
    let r = (x * p) % m;
    assert(p * q == k * m + 1);
    assert(r == x * p - d * m);
    assert(r * q == (x * k - d * q) * m + x) by (nonlinear_arith)
        requires
            r == x * p - d * m,
            p * q == k * m + 1,
    ;
    vstd::arithmetic::div_mod::lemma_fundamental_div_mod_converse(
        r * q,
        m,
        x * k - d * q,
        x,
    );
}

/// A step of the hash tells hashes apart.
proof fn lemma_step_tells_hashes_apart(h: u64, g: u64, byte: u8)
    requires
        clipboard::fnv1a_step(h, byte) == clipboard::fnv1a_step(g, byte),
    ensures
        h == g,
{
    let b = byte as u64;
    lemma_prime_inverse((h ^ b) as int);
    lemma_prime_inverse((g ^ b) as int);
    assert(h ^ b == g ^ b ==> h == g) by (bit_vector);
}

/// A step of the hash tells bytes apart.
proof fn lemma_step_tells_bytes_apart(h: u64, x: u8, y: u8)
    requires
        clipboard::fnv1a_step(h, x) == clipboard::fnv1a_step(h, y),
    ensures
        x == y,
{
    let a = x as u64;
    let b = y as u64;
    lemma_prime_inverse((h ^ a) as int);
    lemma_prime_inverse((h ^ b) as int);
    assert(h ^ a == h ^ b ==> a == b) by (bit_vector);
}

/// Bytes that differ in one place have different hashes.
proof fn lemma_one_byte_changes_hash(bytes: Seq<u8>, i: int, byte: u8)
    requires
        0 <= i < bytes.len(),
        byte != bytes[i],
    ensures
        clipboard::fnv1a(bytes.update(i, byte)) != clipboard::fnv1a(bytes),
    decreases bytes.len(),
{
    let changed = bytes.update(i, byte);
    let h = clipboard::fnv1a(bytes.drop_last());
    let g = clipboard::fnv1a(changed.drop_last());
    if clipboard::fnv1a(changed) == clipboard::fnv1a(bytes) {
        if i == bytes.len() - 1 {
            assert(changed.drop_last() =~= bytes.drop_last());
            lemma_step_tells_bytes_apart(h, bytes.last(), byte);
        } else {
            assert(changed.drop_last() =~= bytes.drop_last().update(i, byte));
            lemma_one_byte_changes_hash(bytes.drop_last(), i, byte);
            lemma_step_tells_hashes_apart(h, g, bytes.last());
        }
    }
}

/// Digits tell their values apart.
proof fn lemma_digit_tells_values_apart(a: int, b: int)
    requires
        0 <= a < 16,
        0 <= b < 16,
        number::digit_char(a) == number::digit_char(b),
    ensures
        a == b,
{
}

/// Hexadecimal text tells numbers apart that are not too large for it.
proof fn lemma_hex_tells_numbers_apart(a: nat, b: nat, width: nat)
    requires
        a < pow(16, width),
        b < pow(16, width),
        number::hex_text(a, width) == number::hex_text(b, width),
    ensures
        a == b,
    decreases width,
{
    reveal(pow);
    if width > 0 {
        let less = (width - 1) as nat;
        let x = number::hex_text(a, width);
        let y = number::hex_text(b, width);
        assert(x.drop_last() =~= number::hex_text(a / 16, less));
        assert(y.drop_last() =~= number::hex_text(b / 16, less));
        assert(x.last() == number::digit_char((a % 16) as int));
        lemma_digit_tells_values_apart((a % 16) as int, (b % 16) as int);
        assert(pow(16, width) == 16 * pow(16, less));
        lemma_hex_tells_numbers_apart(a / 16, b / 16, less);
    }
}

/// A content that is changed in one byte has another fingerprint.
pub proof fn law_changed_byte_changes_fingerprint(
    kind: Seq<char>,
    mime: Seq<char>,
    bytes: Seq<u8>,
    i: int,
    byte: u8,
)
    requires
        0 <= i < bytes.len(),
        byte != bytes[i],
    ensures
        clipboard::fingerprint_text(kind, mime, bytes.update(i, byte))
            != clipboard::fingerprint_text(kind, mime, bytes),
{
    let before = encode_utf8(kind) + seq![0u8] + encode_utf8(mime) + seq![0u8];
    let input = clipboard::fingerprint_input(kind, mime, bytes);
    let n = before.len() as int;
    assert(input == before + bytes);
    assert(clipboard::fingerprint_input(kind, mime, bytes.update(i, byte)) =~= input.update(
        n + i,
        byte,
    ));
    lemma_one_byte_changes_hash(input, n + i, byte);
    assert(pow(16, 16) == 0x1_0000_0000_0000_0000) by {
        reveal_with_fuel(pow, 17);
    }
    if clipboard::fingerprint_text(kind, mime, bytes.update(i, byte))
        == clipboard::fingerprint_text(kind, mime, bytes) {
        lemma_hex_tells_numbers_apart(
            clipboard::fnv1a(input.update(n + i, byte)) as nat,
            clipboard::fnv1a(input) as nat,
            16,
        );
    }
}

/// A frame whose payload was changed in one byte is always refused, as a whole and in a
/// stream, and the message names both fingerprints.
pub proof fn law_changed_byte_is_refused(item: Item, i: int, byte: u8, rest: Seq<u8>)
    requires
        laws::fits_frame(item),
        0 <= i < item.bytes.len(),
        byte != item.bytes[i],
    ensures
        ({
            let payload = item.bytes.update(i, byte);
            let changed = encode_utf8(frame::header_text(item)) + payload;
            let message = "invalid frame: hash mismatch, expected "@ + item.hash + ", got "@
                + clipboard::fingerprint_text(
                clipboard::kind_text(item.kind),
                item.mime,
                payload,
            );
            &&& frame::decoded(changed) == Err::<Item, Seq<char>>(message)
            &&& stream::read_from(State::Start, changed + rest) == (
                Err::<Option<Item>, Seq<char>>(message),
                rest,
            )
        }),
{
    let payload = item.bytes.update(i, byte);
    law_changed_byte_changes_fingerprint(
        clipboard::kind_text(item.kind),
        item.mime,
        item.bytes,
        i,
        byte,
    );
    laws::law_payload_is_checked(item, payload);
    laws::lemma_read_with_payload(item, payload, rest);
}

/// The hash begins with its basis, and each byte is mixed in and multiplied with the prime,
/// modulo 2^64.
pub proof fn law_fnv1a(bytes: Seq<u8>, byte: u8)
    ensures
        clipboard::fnv1a(Seq::empty()) == 0xcbf29ce484222325,
        clipboard::fnv1a(bytes.push(byte)) as int == ((clipboard::fnv1a(bytes) ^ (byte as u64)) as int
            * 0x100000001b3) % 0x1_0000_0000_0000_0000,
{
    assert(bytes.push(byte).drop_last() =~= bytes);
}

/// A fingerprint is the hash of the kind, the media type and the content, with a zero byte
/// after each of the first two, as a number in sixteen hexadecimal digits.
pub proof fn law_fingerprint_is_the_hash(kind: Seq<char>, mime: Seq<char>, bytes: Seq<u8>)
    ensures
        clipboard::fingerprint_text(kind, mime, bytes).len() == 16,
        number_laws::hex_value(clipboard::fingerprint_text(kind, mime, bytes)) == clipboard::fnv1a(
            encode_utf8(kind) + seq![0u8] + encode_utf8(mime) + seq![0u8] + bytes,
        ),
{
    assert(pow(16, 16) == 0x1_0000_0000_0000_0000) by {
        reveal_with_fuel(pow, 17);
    }
    number_laws::law_hex_reads_back(
        clipboard::fnv1a(clipboard::fingerprint_input(kind, mime, bytes)) as nat,
        16,
    );
}

/// The fingerprint of a content is taken of its kind, its media type and all of its bytes.
pub proof fn law_fingerprint_of_item(item: Item)
    ensures
        item.fingerprint() == clipboard::fingerprint_text(
            if item.kind == ClipboardKind::Text {
                "text"@
            } else {
                "image"@
            },
            item.mime,
            item.bytes,
        ),
{
}

/// What stands before the first zero byte is told by what stands there.
proof fn lemma_before_zero(a: Seq<u8>, x: Seq<u8>, b: Seq<u8>, y: Seq<u8>)
    requires
        !a.contains(0),
        !b.contains(0),
        a + seq![0u8] + x == b + seq![0u8] + y,
    ensures
        a == b,
        x == y,
{
    let s = a + seq![0u8] + x;
    assert(s[a.len() as int] == 0);
    assert(s[b.len() as int] == 0);
    if a.len() < b.len() {
        assert(s[a.len() as int] == b[a.len() as int]);
    }
    if b.len() < a.len() {
        assert(s[b.len() as int] == a[b.len() as int]);
    }
    assert(a =~= s.take(a.len() as int));
    assert(b =~= s.take(a.len() as int));
    assert(x =~= s.skip(a.len() as int + 1));
    assert(y =~= s.skip(a.len() as int + 1));
}

/// What a fingerprint is taken of tells contents apart: two that differ in kind, media type or
/// bytes are not mixed up, as long as kind and media type hold no zero character.
pub proof fn law_fingerprint_input_tells_apart(
    kind: Seq<char>,
    mime: Seq<char>,
    bytes: Seq<u8>,
    other_kind: Seq<char>,
    other_mime: Seq<char>,
    other: Seq<u8>,
)
    requires
        !kind.contains('\0'),
        !mime.contains('\0'),
        !other_kind.contains('\0'),
        !other_mime.contains('\0'),
        clipboard::fingerprint_input(kind, mime, bytes) == clipboard::fingerprint_input(
            other_kind,
            other_mime,
            other,
        ),
    ensures
        kind == other_kind,
        mime == other_mime,
        bytes == other,
{
    let a = encode_utf8(kind);
    let b = encode_utf8(mime);
    let c = encode_utf8(other_kind);
    let d = encode_utf8(other_mime);
    ascii::lemma_encode_contains(kind, '\0');
    ascii::lemma_encode_contains(mime, '\0');
    ascii::lemma_encode_contains(other_kind, '\0');
    ascii::lemma_encode_contains(other_mime, '\0');
    let x = b + seq![0u8] + bytes;
    let y = d + seq![0u8] + other;
    assert(clipboard::fingerprint_input(kind, mime, bytes) =~= a + seq![0u8] + x);
    assert(clipboard::fingerprint_input(other_kind, other_mime, other) =~= c + seq![0u8] + y);
    lemma_before_zero(a, x, c, y);
    lemma_before_zero(b, bytes, d, other);
    ascii::lemma_encode_injective(kind, other_kind);
    ascii::lemma_encode_injective(mime, other_mime);
}

} // verus!
