//! How character positions in a string relate to byte offsets in its UTF-8
//! encoding. The cursor of the line parser keeps a byte offset; its contracts
//! speak of characters.

use vstd::prelude::*;
use vstd::utf8::*;

verus! {

/// The number of bytes that the UTF-8 encoding of `s` occupies.
pub open spec fn byte_len(s: Seq<char>) -> nat {
    encode_utf8(s).len()
}

/// The number of whole characters encoded in the first `m` bytes of the
/// encoding of `s`. Meaningful where `m` falls on a character boundary.
pub open spec fn char_offset(s: Seq<char>, m: int) -> nat {
    decode_utf8(encode_utf8(s).subrange(0, m)).len()
}

/// Encoding distributes over concatenation.
pub proof fn lemma_encode_concat(a: Seq<char>, b: Seq<char>)
    ensures
        encode_utf8(a + b) == encode_utf8(a) + encode_utf8(b),
    decreases a.len(),
{
    if a.len() == 0 {
        assert(a + b =~= b);
        assert(encode_utf8(a) + encode_utf8(b) =~= encode_utf8(b));
    } else {
        assert((a + b).drop_first() =~= a.drop_first() + b);
        lemma_encode_concat(a.drop_first(), b);
        assert(encode_utf8(a + b) =~= encode_utf8(a) + encode_utf8(b));
    }
}

/// A single character encodes to its scalar encoding.
pub proof fn lemma_encode_single(c: char)
    ensures
        encode_utf8(seq![c]) == encode_scalar(c as u32),
{
    let one = seq![c];
    assert(one.drop_first() =~= Seq::<char>::empty());
    assert(encode_utf8(one.drop_first()) =~= Seq::<u8>::empty());
    assert(encode_utf8(one) =~= encode_scalar(c as u32));
}

/// Only the empty sequence has an empty encoding.
pub proof fn lemma_empty_encoding(s: Seq<char>)
    ensures
        byte_len(s) == 0 <==> s.len() == 0,
{
}

/// Two character sequences with the same encoding are the same sequence.
pub proof fn lemma_encode_injective(a: Seq<char>, b: Seq<char>)
    requires
        encode_utf8(a) == encode_utf8(b),
    ensures
        a == b,
{
    encode_utf8_decode_utf8(a);
    encode_utf8_decode_utf8(b);
}

/// Splitting `s` after `k` characters splits its encoding after
/// `byte_len(s.take(k))` bytes.
pub proof fn lemma_encode_split(s: Seq<char>, k: int)
    requires
        0 <= k <= s.len(),
    ensures
        byte_len(s.take(k)) + byte_len(s.skip(k)) == byte_len(s),
        encode_utf8(s).subrange(0, byte_len(s.take(k)) as int) == encode_utf8(s.take(k)),
        encode_utf8(s).subrange(byte_len(s.take(k)) as int, byte_len(s) as int) == encode_utf8(
            s.skip(k),
        ),
{
    assert(s =~= s.take(k) + s.skip(k));
    lemma_encode_concat(s.take(k), s.skip(k));
    let front = encode_utf8(s.take(k));
    let back = encode_utf8(s.skip(k));
    assert((front + back).subrange(0, front.len() as int) =~= front);
    assert((front + back).subrange(front.len() as int, (front + back).len() as int) =~= back);
}

/// The byte offset that follows the first `k` characters of `s` is a
/// character boundary of the encoding of `s`.
pub proof fn lemma_prefix_ends_on_boundary(s: Seq<char>, k: int)
    requires
        0 <= k <= s.len(),
    ensures
        is_char_boundary(encode_utf8(s), byte_len(s.take(k)) as int),
    decreases k,
{
    encode_utf8_valid_utf8(s);
    if k == 0 {
        assert(s.take(0) =~= Seq::<char>::empty());
    } else {
        let bytes = encode_utf8(s);
        let tail = s.drop_first();
        encode_utf8_first_scalar(s);
        lemma_encode_split(s, k);
        assert(s.take(k) =~= seq![s[0]] + tail.take(k - 1));
        lemma_encode_concat(seq![s[0]], tail.take(k - 1));
        lemma_encode_single(s[0]);
        assert(pop_first_scalar(bytes) =~= encode_utf8(tail));
        lemma_prefix_ends_on_boundary(tail, k - 1);
    }
}

/// A character boundary `m` of the encoding of `s` is the end of the first
/// `char_offset(s, m)` characters of `s`.
pub proof fn lemma_boundary_ends_prefix(s: Seq<char>, m: int)
    requires
        is_char_boundary(encode_utf8(s), m),
    ensures
        0 <= m <= byte_len(s),
        char_offset(s, m) <= s.len(),
        byte_len(s.take(char_offset(s, m) as int)) == m,
{
    let bytes = encode_utf8(s);
    encode_utf8_valid_utf8(s);
    encode_utf8_decode_utf8(s);
    valid_utf8_split(bytes, m);
    decode_utf8_split(bytes, m);
    let front = bytes.subrange(0, m);
    let back = bytes.subrange(m, bytes.len() as int);
    decode_utf8_encode_utf8(front);
    assert(s.take(decode_utf8(front).len() as int) =~= decode_utf8(front));
}

/// The first `k` characters of `s` are what the bytes before
/// `byte_len(s.take(k))` decode to.
pub proof fn lemma_char_offset_of_prefix(s: Seq<char>, k: int)
    requires
        0 <= k <= s.len(),
    ensures
        char_offset(s, byte_len(s.take(k)) as int) == k,
{
    lemma_encode_split(s, k);
    encode_utf8_decode_utf8(s.take(k));
}

/// How the encoding of a non-empty `s` ends: with one byte below `0x80`, the
/// last character itself, where that character is ASCII; with a byte from
/// `0x80` on otherwise.
pub proof fn lemma_last_byte(s: Seq<char>)
    requires
        s.len() > 0,
    ensures
        byte_len(s.drop_last()) < byte_len(s),
        encode_utf8(s).subrange(0, byte_len(s.drop_last()) as int) == encode_utf8(s.drop_last()),
        (s.last() as u32) < 0x80 ==> encode_utf8(s).last() == s.last() as u32 && byte_len(
            s.drop_last(),
        ) + 1 == byte_len(s),
        (s.last() as u32) >= 0x80 ==> encode_utf8(s).last() >= 0x80,
{
    let c = s.last();
    let v = c as u32;
    let k = s.len() - 1;
    assert(s.take(k) =~= s.drop_last());
    assert(s.skip(k) =~= seq![c]);
    lemma_encode_split(s, k);
    lemma_encode_single(c);
    char_is_scalar(c);
    let tail = encode_scalar(v);
    assert(encode_utf8(s) =~= encode_utf8(s.drop_last()) + tail) by {
        assert(s =~= s.drop_last() + seq![c]);
        lemma_encode_concat(s.drop_last(), seq![c]);
    }
    assert(encode_utf8(s).last() == tail.last());
    if v < 0x80 {
        assert((v & 0x7F) as u8 == v) by (bit_vector)
            requires
                v < 0x80,
        ;
    } else {
        assert((0x80u8 | (v & 0x3F) as u8) >= 0x80) by (bit_vector);
    }
}

/// The width in bytes of the UTF-8 encoding of one character.
pub fn char_width(c: char) -> (w: usize)
    ensures
        w == encode_scalar(c as u32).len(),
        1 <= w <= 4,
{
    let v: u32 = c as u32;
    if v < 0x80 {
        1
    } else if v < 0x800 {
        2
    } else if v < 0x10000 {
        3
    } else {
        4
    }
}

} // verus!
