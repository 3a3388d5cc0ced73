//! Line terminators. Lines arrive and leave with a carriage return and a
//! line feed behind them; a line that arrives without that pair is not
//! complete.

use crate::encoding::{
    byte_len, lemma_encode_injective, lemma_encode_split, lemma_last_byte,
    lemma_prefix_ends_on_boundary,
};
use vstd::prelude::*;
use vstd::slice::*;
use vstd::string::*;
use vstd::utf8::*;

verus! {

/// Whether `raw` ends with a carriage return that is followed by a line
/// feed.
pub open spec fn is_terminated(raw: Seq<char>) -> bool {
    raw.len() >= 2 && raw[raw.len() - 2] == '\r' && raw[raw.len() - 1] == '\n'
}

/// The line that `raw` holds: `raw` without its terminator. A `raw` that
/// does not end with the terminator holds no line.
pub open spec fn line_body(raw: Seq<char>) -> Option<Seq<char>> {
    if is_terminated(raw) {
        Some(raw.take(raw.len() - 2))
    } else {
        None
    }
}

/// `text` with the terminator behind it.
pub open spec fn framed(text: Seq<char>) -> Seq<char> {
    text + "\r\n"@
}

/// Takes the terminator off a line as it was read. Returns `None` where
/// the line does not end with a carriage return and a line feed, be it that
/// the line feed stands alone or that the input ended first.
pub fn strip_terminator(raw: &str) -> (body: Option<&str>)
    ensures
        body.deep_view() == line_body(raw@),
{
    let bytes = raw.as_bytes();
    let n = bytes.len();
    proof {
        lemma_last_two_bytes(raw@);
    }
    if n >= 2 && bytes[n - 1] == 0x0A && bytes[n - 2] == 0x0D {
        proof {
            let s = raw@;
            lemma_prefix_ends_on_boundary(s, s.len() - 2);
            lemma_encode_split(s, s.len() - 2);
        }
        let (body, _) = raw.split_at(n - 2);
        proof {
            lemma_encode_injective(body@, raw@.take(raw@.len() - 2));
        }
        Some(body)
    } else {
        None
    }
}

/// A line ends with the terminator exactly where its encoding ends with the
/// bytes `0x0D` and `0x0A`; the line without the terminator is then two
/// bytes shorter.
proof fn lemma_last_two_bytes(s: Seq<char>)
    ensures
        is_terminated(s) <==> byte_len(s) >= 2 && encode_utf8(s)[byte_len(s) - 2] == 0x0D
            && encode_utf8(s)[byte_len(s) - 1] == 0x0A,
        is_terminated(s) ==> byte_len(s.take(s.len() - 2)) + 2 == byte_len(s),
{
    let bytes = encode_utf8(s);
    let n = bytes.len() as int;
    if s.len() == 0 {
        assert(n == 0);
    } else {
        lemma_last_byte(s);
        let front = s.drop_last();
        let m = byte_len(front) as int;
        assert(bytes.last() == bytes[n - 1]);
        let last = s.last();
        char_u32_cast(last, last as u32);
        assert(last == '\n' <==> last as u32 == 0x0A);
        if front.len() == 0 {
            assert(front =~= Seq::<char>::empty());
            assert(m == 0);
        } else if (last as u32) < 0x80 {
            lemma_last_byte(front);
            assert(front.drop_last() =~= s.take(s.len() - 2));
            assert(front.last() == s[s.len() - 2]);
            let before = front.last();
            char_u32_cast(before, before as u32);
            assert(before == '\r' <==> before as u32 == 0x0D);
            assert(m == n - 1);
            assert(encode_utf8(front).last() == bytes.subrange(0, m)[m - 1]);
            assert(encode_utf8(front).last() == bytes[n - 2]);
        }
    }
}

/// Puts the terminator behind `text`.
pub fn frame_line(text: &str) -> (line: String)
    ensures
        line@ == framed(text@),
{
    let mut line = text.to_owned();
    line.append("\r\n");
    line
}

} // verus!
