//! A cursor over one line, and the scanning steps that the message parser is
//! built from.

use crate::encoding::{
    byte_len, char_offset, char_width, lemma_boundary_ends_prefix, lemma_char_offset_of_prefix,
    lemma_empty_encoding, lemma_encode_concat, lemma_encode_injective, lemma_encode_single,
    lemma_encode_split, lemma_prefix_ends_on_boundary,
};
use crate::grammar::{
    after_parameters, after_word, first_word, is_ascii_whitespace, leading_run,
    lemma_parameters_skip_whitespace, lemma_parameters_unfold, lemma_trim_start_idempotent,
    marked_word, parameters, plain_word, trim_start, whitespace_run, word_run,
};
use vstd::prelude::*;
use vstd::string::*;
use vstd::utf8::*;

verus! {

/// `s` without its first character.
fn after_first_char<'a>(s: &'a str) -> (tail: &'a str)
    requires
        s@.len() > 0,
    ensures
        tail@ == s@.drop_first(),
{
    let width = char_width(s.get_char(0));
    proof {
        assert(s@.take(1) =~= seq![s@[0]]);
        lemma_encode_single(s@[0]);
        lemma_prefix_ends_on_boundary(s@, 1);
        lemma_encode_split(s@, 1);
    }
    let (_, tail) = s.split_at(width);
    proof {
        lemma_encode_injective(tail@, s@.drop_first());
    }
    tail
}

/// A cursor over a line of input.
///
/// The parser borrows the line and keeps one bookmark: the byte offset of the
/// first character that has not been read yet. Its contracts speak of the
/// line as a sequence of characters and of the part that is still unread.
pub struct IrcParser<'a> {
    input: &'a str,
    marker: usize,
}

impl<'a> IrcParser<'a> {
    /// The whole line that the parser was made for.
    pub closed spec fn input(&self) -> Seq<char> {
        self.input@
    }

    /// The number of characters read so far.
    pub closed spec fn offset(&self) -> nat {
        char_offset(self.input@, self.marker as int)
    }

    /// The bookmark stands between two characters, never inside one.
    pub closed spec fn aligned(&self) -> bool {
        is_char_boundary(encode_utf8(self.input@), self.marker as int)
    }

    /// The parser's invariant: the bookmark is aligned and inside the line.
    pub open spec fn wf(&self) -> bool {
        self.aligned() && self.offset() <= self.input().len()
    }

    /// The part of the line that has not been read yet.
    pub open spec fn remaining(&self) -> Seq<char> {
        self.input().skip(self.offset() as int)
    }

    /// `self` is `before` moved `n` characters forward over the same line.
    pub open spec fn advanced(&self, before: Self, n: nat) -> bool {
        &&& self.wf()
        &&& self.input() == before.input()
        &&& self.offset() == before.offset() + n
        &&& self.remaining() == before.remaining().skip(n as int)
    }

    proof fn lemma_marker(&self)
        requires
            self.wf(),
        ensures
            self.marker == byte_len(self.input@.take(self.offset() as int)),
            self.marker <= byte_len(self.input@),
            self.marker < byte_len(self.input@) <==> self.remaining().len() > 0,
    {
        lemma_boundary_ends_prefix(self.input@, self.marker as int);
        lemma_encode_split(self.input@, self.offset() as int);
        lemma_empty_encoding(self.remaining());
    }

    /// A parser at the start of `input`. The line is expected without its
    /// line terminator.
    pub fn new(input: &'a str) -> (parser: Self)
        ensures
            parser.wf(),
            parser.input() == input@,
            parser.offset() == 0,
            parser.remaining() == input@,
    {
        let parser = IrcParser { input, marker: 0 };
        proof {
            lemma_prefix_ends_on_boundary(input@, 0);
            lemma_char_offset_of_prefix(input@, 0);
            assert(input@.take(0) =~= Seq::<char>::empty());
            assert(input@.skip(0) =~= input@);
        }
        parser
    }

    /// The unread part of the line as a string slice.
    fn rest(&self) -> (rest: &'a str)
        requires
            self.wf(),
        ensures
            rest@ == self.remaining(),
    {
        proof {
            self.lemma_marker();
            lemma_encode_split(self.input@, self.offset() as int);
        }
        let (_, rest) = self.input.split_at(self.marker);
        proof {
            lemma_encode_injective(rest@, self.remaining());
        }
        rest
    }

    /// The next character, without reading it: the parser stays as it is.
    pub fn peek(&mut self) -> (next: Option<char>)
        requires
            old(self).wf(),
        ensures
            *final(self) == *old(self),
            next == if old(self).remaining().len() > 0 {
                Some(old(self).remaining()[0])
            } else {
                None::<char>
            },
    {
        let rest = self.rest();
        if rest.is_empty() {
            None
        } else {
            Some(rest.get_char(0))
        }
    }

    /// Reads one character; at the end of the line nothing changes.
    pub fn consume_char(&mut self)
        requires
            old(self).wf(),
        ensures
            final(self).advanced(
                *old(self),
                if old(self).remaining().len() > 0 {
                    1nat
                } else {
                    0nat
                },
            ),
    {
        let end = self.input.as_bytes().len();
        proof {
            self.lemma_marker();
            assert(self.remaining().skip(0) =~= self.remaining());
        }
        if self.marker < end {
            let c = self.rest().get_char(0);
            let width = char_width(c);
            proof {
                let s = self.input@;
                let k = self.offset() as int;
                assert(s.take(k + 1) =~= s.take(k) + seq![c]);
                lemma_encode_concat(s.take(k), seq![c]);
                lemma_encode_single(c);
                lemma_encode_split(s, k + 1);
                lemma_prefix_ends_on_boundary(s, k + 1);
                lemma_char_offset_of_prefix(s, k + 1);
                assert(s.skip(k + 1) =~= s.skip(k).skip(1));
            }
            self.marker = self.marker + width;
        }
    }

    /// Reads characters while they are whitespace (`space == true`) or while
    /// they are not (`space == false`).
    fn skip_run(&mut self, space: bool)
        requires
            old(self).wf(),
        ensures
            final(self).advanced(*old(self), leading_run(old(self).remaining(), space)),
    {
        proof {
            assert(self.remaining().skip(0) =~= self.remaining());
        }
        loop
            invariant
                self.wf(),
                self.input() == old(self).input(),
                old(self).offset() <= self.offset(),
                leading_run(old(self).remaining(), space) == (self.offset() - old(self).offset())
                    + leading_run(self.remaining(), space),
            ensures
                self.advanced(*old(self), leading_run(old(self).remaining(), space)),
            decreases self.input().len() - self.offset(),
        {
            proof {
                let from = old(self).offset() as int;
                let to = self.offset() as int;
                assert(self.input().skip(to) =~= self.input().skip(from).skip(to - from));
            }
            match self.peek() {
                Some(c) => {
                    if is_ascii_whitespace(c) != space {
                        break ;
                    }
                    self.consume_char();
                },
                None => {
                    break ;
                },
            }
        }
    }

    /// Skips whitespace: reads on until the next character is not ASCII
    /// whitespace or the line ends.
    pub fn skip_whitespace(&mut self)
        requires
            old(self).wf(),
        ensures
            final(self).advanced(*old(self), whitespace_run(old(self).remaining())),
    {
        self.skip_run(true);
    }

    /// Skips a word: reads on until the next character is ASCII whitespace or
    /// the line ends.
    pub fn skip_word(&mut self)
        requires
            old(self).wf(),
        ensures
            final(self).advanced(*old(self), word_run(old(self).remaining())),
    {
        self.skip_run(false);
    }

    /// The text between an earlier bookmark and the current one.
    fn text_since(&self, start: usize, Ghost(from): Ghost<nat>) -> (text: String)
        requires
            self.wf(),
            from <= self.offset(),
            start == byte_len(self.input@.take(from as int)),
        ensures
            text@ == self.input().subrange(from as int, self.offset() as int),
    {
        proof {
            let s = self.input@;
            let to = self.offset() as int;
            self.lemma_marker();
            lemma_encode_split(s, to);
            assert(s.take(to).take(from as int) =~= s.take(from as int));
            lemma_prefix_ends_on_boundary(s.take(to), from as int);
            lemma_encode_split(s.take(to), from as int);
        }
        let (head, _) = self.input.split_at(self.marker);
        proof {
            lemma_encode_injective(head@, self.input@.take(self.offset() as int));
        }
        let (_, text) = head.split_at(start);
        proof {
            let s = self.input@;
            let to = self.offset() as int;
            assert(s.take(to).skip(from as int) =~= s.subrange(from as int, to));
            lemma_encode_injective(text@, s.subrange(from as int, to));
        }
        text.to_owned()
    }

    /// Skips whitespace; if `start_char` follows, reads it and the word
    /// behind it, and returns that word without `start_char`. Otherwise
    /// nothing but the whitespace is read.
    pub fn parse_word_if_start_with(&mut self, start_char: char) -> (word: Option<String>)
        requires
            old(self).wf(),
        ensures
            final(self).wf(),
            final(self).input() == old(self).input(),
            word.deep_view() == marked_word(old(self).remaining(), start_char).0,
            final(self).remaining() == marked_word(old(self).remaining(), start_char).1,
    {
        self.skip_whitespace();
        match self.peek() {
            Some(c) => {
                if c == start_char {
                    self.consume_char();
                    let start = self.marker;
                    let ghost from = self.offset();
                    let ghost body = self.remaining();
                    proof {
                        self.lemma_marker();
                    }
                    self.skip_word();
                    let text = self.text_since(start, Ghost(from));
                    proof {
                        assert(text@ =~= body.take(word_run(body) as int));
                    }
                    Some(text)
                } else {
                    None
                }
            },
            None => None,
        }
    }

    /// Skips whitespace and reads the word that follows. Returns `None`
    /// where the line ends before a word starts.
    pub fn parse_word(&mut self) -> (word: Option<String>)
        requires
            old(self).wf(),
        ensures
            final(self).wf(),
            final(self).input() == old(self).input(),
            word.deep_view() == plain_word(old(self).remaining()).0,
            final(self).remaining() == plain_word(old(self).remaining()).1,
    {
        self.skip_whitespace();
        let start = self.marker;
        let ghost from = self.offset();
        let ghost body = self.remaining();
        proof {
            self.lemma_marker();
        }
        self.skip_word();
        let end = self.marker;
        if start != end {
            let text = self.text_since(start, Ghost(from));
            proof {
                self.lemma_marker();
                assert(text@ =~= body.take(word_run(body) as int));
            }
            Some(text)
        } else {
            proof {
                self.lemma_marker();
                assert(body.skip(0) =~= body);
            }
            None
        }
    }

    /// Reads the parameters: words separated by whitespace, up to the end of
    /// the line. A parameter that begins with `:` is the rest of the line
    /// behind the `:`, and the last one; the parser then stays in front of
    /// that `:`.
    pub fn parse_params(&mut self) -> (params: Vec<String>)
        requires
            old(self).wf(),
        ensures
            final(self).wf(),
            final(self).input() == old(self).input(),
            params.deep_view() == parameters(old(self).remaining()),
            final(self).remaining() == after_parameters(old(self).remaining()),
    {
        let mut params: Vec<String> = Vec::new();
        self.skip_whitespace();
        proof {
            lemma_trim_start_idempotent(old(self).remaining());
            lemma_parameters_skip_whitespace(old(self).remaining());
            assert(params.deep_view() =~= Seq::<Seq<char>>::empty());
            assert(params.deep_view() + parameters(self.remaining()) =~= parameters(
                self.remaining(),
            ));
        }
        loop
            invariant_except_break
                whitespace_run(self.remaining()) == 0,
                params.deep_view() + parameters(self.remaining()) == parameters(
                    old(self).remaining(),
                ),
                after_parameters(self.remaining()) == after_parameters(old(self).remaining()),
            invariant
                self.wf(),
                self.input() == old(self).input(),
            ensures
                params.deep_view() == parameters(old(self).remaining()),
                self.remaining() == after_parameters(old(self).remaining()),
            decreases self.remaining().len(),
        {
            let ghost before = self.remaining();
            let ghost read = params.deep_view();
            proof {
                lemma_parameters_unfold(before);
            }
            match self.peek() {
                Some(c) => {
                    if c == ':' {
                        let text = after_first_char(self.rest()).to_owned();
                        params.push(text);
                        proof {
                            assert(params.deep_view() =~= read + seq![before.drop_first()]);
                        }
                        break ;
                    }
                    let start = self.marker;
                    let ghost from = self.offset();
                    proof {
                        self.lemma_marker();
                    }
                    self.skip_word();
                    let text = self.text_since(start, Ghost(from));
                    params.push(text);
                    proof {
                        assert(text@ =~= first_word(before));
                        assert(params.deep_view() =~= read + seq![text@]);
                        lemma_trim_start_idempotent(after_word(before));
                        assert((read + seq![text@]) + parameters(trim_start(after_word(before)))
                            =~= read + (seq![text@] + parameters(
                            trim_start(after_word(before)),
                        )));
                    }
                    self.skip_whitespace();
                },
                None => {
                    proof {
                        assert(read + Seq::<Seq<char>>::empty() =~= read);
                    }
                    break ;
                },
            }
        }
        params
    }
}

} // verus!
