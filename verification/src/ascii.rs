//! ASCII characters inside UTF-8 text: where a byte below 0x80 stands in the encoding of
//! a string, a whole character stands there.

use vstd::prelude::*;
use vstd::utf8::*;

verus! {

/// The encoding of a concatenation is the concatenation of the encodings.
pub proof fn lemma_encode_concat(a: Seq<char>, b: Seq<char>)
    ensures
        encode_utf8(a + b) == encode_utf8(a) + encode_utf8(b),
    decreases a.len(),
{
    if a.len() == 0 {
        assert(a + b =~= b);
        assert(encode_utf8(a) + encode_utf8(b) =~= encode_utf8(b));
    } else {
        lemma_encode_concat(a.drop_first(), b);
        assert((a + b).drop_first() =~= a.drop_first() + b);
        assert(encode_utf8(a + b) =~= encode_utf8(a) + encode_utf8(b));
    }
}

/// Two texts with the same encoding are the same text.
pub proof fn lemma_encode_injective(a: Seq<char>, b: Seq<char>)
    requires
        encode_utf8(a) == encode_utf8(b),
    ensures
        a == b,
{
    encode_utf8_decode_utf8(a);
    encode_utf8_decode_utf8(b);
}

/// The encoding of one character: an ASCII character is its own byte, any other is made of
/// bytes from 0x80 on.
pub proof fn lemma_encode_char(c: char)
    ensures
        (c as u32) < 0x80 ==> encode_scalar(c as u32) == seq![c as u8] && (c as u8) < 0x80,
        (c as u32) >= 0x80 ==> forall|i: int|
            0 <= i < encode_scalar(c as u32).len() ==> #[trigger] encode_scalar(c as u32)[i]
                >= 0x80,
        encode_scalar(c as u32).len() > 0,
{
    let v = c as u32;
    assert(v < 0x80 ==> (v & 0x7f) as u8 == v as u8) by (bit_vector);
    assert(0xC0u8 | ((v >> 6) & 0x1F) as u8 >= 0x80) by (bit_vector);
    assert(0xE0u8 | ((v >> 12) & 0x0F) as u8 >= 0x80) by (bit_vector);
    assert(0xF0u8 | ((v >> 18) & 0x7) as u8 >= 0x80) by (bit_vector);
    assert(0x80u8 | (v & 0x3F) as u8 >= 0x80) by (bit_vector);
    assert(0x80u8 | ((v >> 6) & 0x3F) as u8 >= 0x80) by (bit_vector);
    assert(0x80u8 | ((v >> 12) & 0x3F) as u8 >= 0x80) by (bit_vector);
    if v < 0x80 {
        assert(encode_scalar(v) =~= seq![c as u8]);
    }
}

/// ASCII characters with the same byte are the same.
proof fn lemma_same_ascii(a: char, b: char)
    requires
        (a as u32) < 0x80,
        (b as u32) < 0x80,
        a as u8 == b as u8,
    ensures
        a == b,
{
}

/// An ASCII byte stands in the encoding of a text exactly when its character stands in
/// the text.
pub proof fn lemma_encode_contains(s: Seq<char>, c: char)
    requires
        (c as u32) < 0x80,
    ensures
        encode_utf8(s).contains(c as u8) <==> s.contains(c),
    decreases s.len(),
{
    if s.len() > 0 {
        let head = encode_scalar(s[0] as u32);
        let tail = s.drop_first();
        lemma_encode_char(s[0]);
        lemma_encode_contains(tail, c);
        let b = encode_utf8(s);
        assert(b == head + encode_utf8(tail));
        if s.contains(c) {
            let i = s.index_of(c);
            if s[0] == c {
                assert(b[0] == c as u8);
            } else {
                assert(tail[i - 1] == c);
                assert(encode_utf8(tail).contains(c as u8));
                let j = encode_utf8(tail).index_of(c as u8);
                assert(b[head.len() + j] == c as u8);
            }
        }
        if b.contains(c as u8) {
            let j = b.index_of(c as u8);
            if j < head.len() {
                assert(head[j] == c as u8);
                assert((s[0] as u32) < 0x80);
                lemma_same_ascii(s[0], c);
            } else {
                assert(encode_utf8(tail)[j - head.len()] == c as u8);
                assert(tail.contains(c));
                let i = tail.index_of(c);
                assert(s[i + 1] == c);
            }
        }
    }
}

/// The encoding of a text of one character.
pub proof fn lemma_encode_one(c: char)
    ensures
        encode_utf8(seq![c]) == encode_scalar(c as u32),
        (c as u32) < 0x80 ==> encode_utf8(seq![c]) == seq![c as u8] && (c as u8) < 0x80,
{
    lemma_encode_char(c);
    let s = seq![c];
    assert(s.drop_first() =~= Seq::<char>::empty());
    assert(encode_utf8(s.drop_first()) =~= Seq::<u8>::empty());
    assert(s[0] == c);
    assert(encode_utf8(s) =~= encode_scalar(c as u32));
}

/// A text whose encoding begins with an ASCII byte begins with that character.
pub proof fn lemma_encode_first(s: Seq<char>, c: char)
    requires
        (c as u32) < 0x80,
        encode_utf8(s).len() > 0,
        encode_utf8(s)[0] == c as u8,
    ensures
        s.len() > 0,
        s[0] == c,
{
    lemma_encode_char(s[0]);
    lemma_same_ascii(s[0], c);
}

/// A text whose encoding ends with an ASCII byte ends with that character.
pub proof fn lemma_encode_last(s: Seq<char>, c: char)
    requires
        (c as u32) < 0x80,
        s.len() > 0,
    ensures
        encode_utf8(s).len() > 0,
        encode_utf8(s).last() == c as u8 <==> s.last() == c,
{
    lemma_encode_concat(s.drop_last(), seq![s.last()]);
    assert(s.drop_last() + seq![s.last()] =~= s);
    let one = seq![s.last()];
    lemma_encode_one(s.last());
    lemma_encode_char(s.last());
    if encode_utf8(s).last() == c as u8 {
        assert(encode_utf8(one).last() == c as u8);
        lemma_same_ascii(s.last(), c);
    }
}

/// A text cut at an ASCII byte of its encoding falls into the two texts around it.
pub proof fn lemma_boundary_at_ascii(s: Seq<char>, i: int)
    requires
        0 <= i < encode_utf8(s).len(),
        encode_utf8(s)[i] < 0x80,
    ensures
        is_char_boundary(encode_utf8(s), i),
{
    encode_utf8_valid_utf8(s);
    is_char_boundary_iff_not_is_continuation_byte(encode_utf8(s), i);
}

} // verus!
