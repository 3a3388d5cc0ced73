//! The grammar of one protocol line, as functions on character sequences.
//!
//! A line is an optional `@tag`, an optional `:prefix`, a command word and
//! parameters; words are separated by ASCII whitespace, and a parameter that
//! begins with `:` runs to the end of the line. The parser's contracts are
//! stated over the functions of this module.

use vstd::prelude::*;

verus! {

/// The five characters that count as whitespace between words: space, tab,
/// line feed, form feed and carriage return.
pub open spec fn ascii_whitespace(c: char) -> bool {
    c == ' ' || c == '\t' || c == '\n' || c == '\x0C' || c == '\r'
}

/// Executable form of [`ascii_whitespace`].
pub fn is_ascii_whitespace(c: char) -> (b: bool)
    ensures
        b == ascii_whitespace(c),
{
    c == ' ' || c == '\t' || c == '\n' || c == '\x0C' || c == '\r'
}

/// The length of the longest prefix of `s` whose characters are all
/// whitespace (`space == true`) or all not whitespace (`space == false`).
pub open spec fn leading_run(s: Seq<char>, space: bool) -> nat
    decreases s.len(),
{
    if s.len() > 0 && ascii_whitespace(s[0]) == space {
        1 + leading_run(s.drop_first(), space)
    } else {
        0
    }
}

/// The number of whitespace characters that `s` starts with.
pub open spec fn whitespace_run(s: Seq<char>) -> nat {
    leading_run(s, true)
}

/// The length of the word that `s` starts with; 0 where `s` is empty or
/// starts with whitespace.
pub open spec fn word_run(s: Seq<char>) -> nat {
    leading_run(s, false)
}

/// `s` without its leading whitespace.
pub open spec fn trim_start(s: Seq<char>) -> Seq<char> {
    s.skip(whitespace_run(s) as int)
}

/// The word that `s` starts with.
pub open spec fn first_word(s: Seq<char>) -> Seq<char> {
    s.take(word_run(s) as int)
}

/// What follows the word that `s` starts with.
pub open spec fn after_word(s: Seq<char>) -> Seq<char> {
    s.skip(word_run(s) as int)
}

/// Reading an optional word introduced by `mark`: leading whitespace is
/// skipped; where `mark` follows, the word after it (possibly empty) is read.
/// The result is the word, if the mark was there, and what is left unread.
pub open spec fn marked_word(s: Seq<char>, mark: char) -> (Option<Seq<char>>, Seq<char>) {
    let t = trim_start(s);
    if t.len() > 0 && t[0] == mark {
        (Some(first_word(t.drop_first())), after_word(t.drop_first()))
    } else {
        (None, t)
    }
}

/// Reading a word: leading whitespace is skipped and the word that follows is
/// read. The result is the word, unless there is none, and what is left
/// unread.
pub open spec fn plain_word(s: Seq<char>) -> (Option<Seq<char>>, Seq<char>) {
    let t = trim_start(s);
    if word_run(t) > 0 {
        (Some(first_word(t)), after_word(t))
    } else {
        (None, t)
    }
}

/// The parameters that `s` holds: whitespace-separated words, but a
/// parameter that begins with `:` is the rest of `s` after the `:`,
/// whitespace included, and is the last one.
pub open spec fn parameters(s: Seq<char>) -> Seq<Seq<char>>
    decreases s.len(),
{
    let t = trim_start(s);
    if t.len() == 0 {
        Seq::empty()
    } else if t[0] == ':' {
        seq![t.drop_first()]
    } else {
        proof {
            lemma_word_shortens(s);
        }
        seq![first_word(t)] + parameters(after_word(t))
    }
}

/// What is left unread once the parameters of `s` are read: nothing, or the
/// last parameter with its `:`, which is read in place.
pub open spec fn after_parameters(s: Seq<char>) -> Seq<char>
    decreases s.len(),
{
    let t = trim_start(s);
    if t.len() == 0 || t[0] == ':' {
        t
    } else {
        proof {
            lemma_word_shortens(s);
        }
        after_parameters(after_word(t))
    }
}

/// Whether every character of `s` is whitespace (`space == true`) or none is
/// (`space == false`).
pub open spec fn uniform(s: Seq<char>, space: bool) -> bool {
    forall|i: int| 0 <= i < s.len() ==> ascii_whitespace(#[trigger] s[i]) == space
}

/// A word: a possibly empty sequence without whitespace.
pub open spec fn is_word(s: Seq<char>) -> bool {
    uniform(s, false)
}

/// A run stays inside the sequence, covers only characters of its kind, and
/// stops at the end or at the first character of the other kind.
pub proof fn lemma_leading_run(s: Seq<char>, space: bool)
    ensures
        leading_run(s, space) <= s.len(),
        uniform(s.take(leading_run(s, space) as int), space),
        leading_run(s, space) < s.len() ==> ascii_whitespace(s[leading_run(s, space) as int])
            != space,
    decreases s.len(),
{
    if s.len() > 0 && ascii_whitespace(s[0]) == space {
        let tail = s.drop_first();
        lemma_leading_run(tail, space);
        let n = leading_run(tail, space) as int;
        assert forall|i: int| 0 <= i < n + 1 implies ascii_whitespace(
            #[trigger] s.take(n + 1)[i],
        ) == space by {
            if i > 0 {
                assert(s.take(n + 1)[i] == tail.take(n)[i - 1]);
            }
        }
        if n + 1 < s.len() {
            assert(s[n + 1] == tail[n]);
        }
    }
}

/// The run is the only length of which [`lemma_leading_run`] holds.
pub proof fn lemma_leading_run_unique(s: Seq<char>, space: bool, n: int)
    requires
        0 <= n <= s.len(),
        uniform(s.take(n), space),
        n < s.len() ==> ascii_whitespace(s[n]) != space,
    ensures
        leading_run(s, space) == n,
    decreases n,
{
    if n == 0 {
    } else {
        let tail = s.drop_first();
        assert(s[0] == s.take(n)[0]);
        assert forall|i: int| 0 <= i < n - 1 implies ascii_whitespace(
            #[trigger] tail.take(n - 1)[i],
        ) == space by {
            assert(tail.take(n - 1)[i] == s.take(n)[i + 1]);
        }
        if n - 1 < tail.len() {
            assert(tail[n - 1] == s[n]);
        }
        lemma_leading_run_unique(tail, space, n - 1);
    }
}

/// Where something other than whitespace is left in `s`, reading a word
/// leaves less than `s`; and after the whitespace of `s` comes a character
/// that is not whitespace.
pub proof fn lemma_word_shortens(s: Seq<char>)
    requires
        trim_start(s).len() > 0,
    ensures
        !ascii_whitespace(trim_start(s)[0]),
        word_run(trim_start(s)) > 0,
        after_word(trim_start(s)).len() < trim_start(s).len() <= s.len(),
{
    lemma_leading_run(s, true);
    lemma_leading_run(trim_start(s), false);
}

/// After a run, the rest does not start with a further character of the
/// run's kind.
pub proof fn lemma_run_is_maximal(s: Seq<char>, space: bool)
    ensures
        leading_run(s.skip(leading_run(s, space) as int), space) == 0,
{
    lemma_leading_run(s, space);
}

/// Trimming twice is trimming once.
pub proof fn lemma_trim_start_idempotent(s: Seq<char>)
    ensures
        whitespace_run(trim_start(s)) == 0,
        trim_start(trim_start(s)) == trim_start(s),
{
    lemma_run_is_maximal(s, true);
    assert(trim_start(s).skip(0) =~= trim_start(s));
}

/// Whitespace in front of the parameters changes nothing.
pub proof fn lemma_parameters_skip_whitespace(s: Seq<char>)
    ensures
        parameters(trim_start(s)) == parameters(s),
        after_parameters(trim_start(s)) == after_parameters(s),
{
    lemma_trim_start_idempotent(s);
}

/// How the parameters of a trimmed `s` begin: with nothing, with the last
/// parameter, or with a word that is followed by further parameters.
pub proof fn lemma_parameters_unfold(s: Seq<char>)
    requires
        whitespace_run(s) == 0,
    ensures
        s.len() == 0 ==> parameters(s) == Seq::<Seq<char>>::empty() && after_parameters(s) == s,
        s.len() > 0 && s[0] == ':' ==> parameters(s) == seq![s.drop_first()] && after_parameters(s)
            == s,
        s.len() > 0 && s[0] != ':' ==> parameters(s) == seq![first_word(s)] + parameters(
            trim_start(after_word(s)),
        ) && after_parameters(s) == after_parameters(trim_start(after_word(s))) && word_run(s) > 0,
{
    assert(s.skip(0) =~= s);
    if s.len() > 0 && s[0] != ':' {
        lemma_word_shortens(s);
        lemma_parameters_skip_whitespace(after_word(s));
    }
}

/// A word that was read is not empty and holds no whitespace.
pub proof fn lemma_plain_word_is_word(s: Seq<char>)
    ensures
        plain_word(s).0 matches Some(word) ==> word.len() > 0 && is_word(word),
{
    lemma_leading_run(trim_start(s), false);
}

/// A word that was read behind a mark holds no whitespace; it may be empty.
pub proof fn lemma_marked_word_is_word(s: Seq<char>, mark: char)
    ensures
        marked_word(s, mark).0 matches Some(word) ==> is_word(word),
{
    let t = trim_start(s);
    if t.len() > 0 {
        lemma_leading_run(t.drop_first(), false);
    }
}

} // verus!
