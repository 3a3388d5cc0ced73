//! Writing a message out as a line, and the proof that the parser reads it
//! back: every message that can be written has a line that parses to it.

use crate::grammar::{
    after_word, ascii_whitespace, first_word, is_word, leading_run, lemma_leading_run,
    lemma_leading_run_unique, lemma_marked_word_is_word, lemma_plain_word_is_word,
    lemma_trim_start_idempotent, lemma_word_shortens, marked_word, parameters, plain_word,
    trim_start, uniform,
};
use crate::message::{parse_line, IrcError, MessageView};
use vstd::prelude::*;

verus! {

/// A parameter that can stand in the middle of a line: a word that is not
/// empty and does not begin with `:`.
pub open spec fn is_middle(word: Seq<char>) -> bool {
    word.len() > 0 && is_word(word) && word[0] != ':'
}

/// Whether `message` can be written out as a line. Its tag, prefix and
/// command are words, the command is not empty and cannot be taken for a
/// tag or a prefix that is not there, and every parameter but the last can
/// stand in the middle of a line. The last parameter may hold anything
/// where it is written behind a `:` (`colon == true`); without the `:` it
/// has to be fit for the middle of a line too.
pub open spec fn can_render(message: MessageView, colon: bool) -> bool {
    &&& message.tag matches Some(tag) ==> is_word(tag)
    &&& message.prefix matches Some(prefix) ==> is_word(prefix)
    &&& message.command.len() > 0
    &&& is_word(message.command)
    &&& message.prefix is None ==> message.command[0] != ':'
    &&& message.tag is None && message.prefix is None ==> message.command[0] != '@'
    &&& can_render_params(message.params, colon)
}

/// Whether `params` can be written out: every parameter but the last can
/// stand in the middle of a line, and so can the last one unless it is
/// written behind a `:`.
pub open spec fn can_render_params(params: Seq<Seq<char>>, colon: bool) -> bool {
    &&& forall|i: int| 0 <= i < params.len() - 1 ==> is_middle(#[trigger] params[i])
    &&& !colon && params.len() > 0 ==> is_middle(params.last())
}

/// `word` behind `mark` and in front of a space; nothing where there is no
/// word.
pub open spec fn render_marked(word: Option<Seq<char>>, mark: char) -> Seq<char> {
    match word {
        Some(word) => seq![mark] + word + seq![' '],
        None => Seq::empty(),
    }
}

/// The parameters, each behind a space; with `colon`, the last one behind a
/// space and a `:`.
pub open spec fn render_params(params: Seq<Seq<char>>, colon: bool) -> Seq<char>
    decreases params.len(),
{
    if params.len() == 0 {
        Seq::empty()
    } else if params.len() == 1 && colon {
        seq![' ', ':'] + params[0]
    } else {
        seq![' '] + params[0] + render_params(params.drop_first(), colon)
    }
}

/// `message` as a line: `@tag :prefix COMMAND one two :last` with `colon`,
/// `@tag :prefix COMMAND one two last` without, and in either case without
/// the parts that the message does not have.
pub open spec fn render(message: MessageView, colon: bool) -> Seq<char> {
    render_marked(message.tag, '@') + render_marked(message.prefix, ':') + message.command
        + render_params(message.params, colon)
}

/// A run of one kind that is followed by nothing, or by a character of the
/// other kind, is read whole and no further.
pub proof fn lemma_run_then_rest(run: Seq<char>, rest: Seq<char>, space: bool)
    requires
        uniform(run, space),
        rest.len() > 0 ==> ascii_whitespace(rest[0]) != space,
    ensures
        leading_run(run + rest, space) == run.len(),
        (run + rest).take(run.len() as int) == run,
        (run + rest).skip(run.len() as int) == rest,
{
    let s = run + rest;
    let n = run.len() as int;
    assert(s.take(n) =~= run);
    assert(s.skip(n) =~= rest);
    if n < s.len() {
        assert(s[n] == rest[0]);
    }
    lemma_leading_run_unique(s, space, n);
}

/// What begins with a character that is not whitespace is already trimmed.
pub proof fn lemma_trimmed(s: Seq<char>)
    requires
        s.len() > 0 ==> !ascii_whitespace(s[0]),
    ensures
        trim_start(s) == s,
{
    lemma_run_then_rest(Seq::empty(), s, true);
    assert(Seq::<char>::empty() + s =~= s);
}

/// Written parameters are empty or begin with a space.
pub proof fn lemma_render_params_starts_with_space(params: Seq<Seq<char>>, colon: bool)
    ensures
        render_params(params, colon).len() > 0 ==> render_params(params, colon)[0] == ' ',
        params.len() > 0 ==> render_params(params, colon).len() > 0,
{
}

/// The parameters that were written are the parameters that are read. With
/// `colon` the last one comes back as it is, whatever it holds.
pub proof fn lemma_parameters_of_rendered(params: Seq<Seq<char>>, colon: bool)
    requires
        can_render_params(params, colon),
    ensures
        parameters(render_params(params, colon)) == params,
    decreases params.len(),
{
    let line = render_params(params, colon);
    if params.len() == 0 {
        assert(trim_start(line) =~= Seq::<char>::empty()) by {
            lemma_trimmed(line);
        }
        assert(parameters(line) =~= params);
    } else if params.len() == 1 && colon {
        let last = seq![':'] + params[0];
        assert(line =~= seq![' '] + last);
        lemma_run_then_rest(seq![' '], last, true);
        assert(trim_start(line) == last);
        assert(last.drop_first() =~= params[0]);
        assert(parameters(line) =~= params);
    } else {
        let word = params[0];
        let others = render_params(params.drop_first(), colon);
        assert(is_middle(word));
        lemma_render_params_starts_with_space(params.drop_first(), colon);
        assert(line =~= seq![' '] + (word + others));
        assert((word + others)[0] == word[0]);
        lemma_run_then_rest(seq![' '], word + others, true);
        assert(trim_start(line) == word + others);
        lemma_run_then_rest(word, others, false);
        assert(first_word(word + others) == word);
        assert(after_word(word + others) == others);
        assert(can_render_params(params.drop_first(), colon)) by {
            assert forall|i: int| 0 <= i < params.drop_first().len() - 1 implies is_middle(
                #[trigger] params.drop_first()[i],
            ) by {
                assert(params.drop_first()[i] == params[i + 1]);
            }
            if params.len() > 1 {
                assert(params.drop_first().last() == params.last());
            }
        }
        lemma_parameters_of_rendered(params.drop_first(), colon);
        assert(parameters(line) == seq![word] + params.drop_first());
        assert(seq![word] + params.drop_first() =~= params);
    }
}

/// A parameter that begins with `:` is the rest of the line behind the `:`,
/// as it stands: whitespace and further `:` in it are kept. Whitespace in
/// front of the `:` is not part of it.
pub proof fn lemma_trailing_parameter(gap: Seq<char>, trailing: Seq<char>)
    requires
        uniform(gap, true),
    ensures
        parameters(gap + seq![':'] + trailing) == seq![trailing],
{
    let last = seq![':'] + trailing;
    assert(gap + seq![':'] + trailing =~= gap + last);
    lemma_run_then_rest(gap, last, true);
    assert(last.drop_first() =~= trailing);
}

/// A word that was written behind its mark is read back, and reading stops
/// in front of the space behind it. Where no word was written and `rest`
/// does not begin with the mark, nothing is read.
pub proof fn lemma_marked_word_of_rendered(
    gap: Seq<char>,
    word: Option<Seq<char>>,
    mark: char,
    rest: Seq<char>,
)
    requires
        uniform(gap, true),
        !ascii_whitespace(mark),
        word matches Some(text) ==> is_word(text),
        word is None ==> rest.len() > 0 && !ascii_whitespace(rest[0]) && rest[0] != mark,
    ensures
        marked_word(gap + render_marked(word, mark) + rest, mark).0 == word,
        word is Some ==> marked_word(gap + render_marked(word, mark) + rest, mark).1 == seq![' ']
            + rest,
        word is None ==> marked_word(gap + render_marked(word, mark) + rest, mark).1 == rest,
{
    let line = gap + render_marked(word, mark) + rest;
    match word {
        Some(text) => {
            let body = text + (seq![' '] + rest);
            let marked = seq![mark] + body;
            assert(line =~= gap + marked);
            lemma_run_then_rest(gap, marked, true);
            assert(trim_start(line) == marked);
            assert(marked.drop_first() =~= body);
            lemma_run_then_rest(text, seq![' '] + rest, false);
        },
        None => {
            assert(line =~= gap + rest);
            lemma_run_then_rest(gap, rest, true);
        },
    }
}

/// Parsing undoes writing: the line of a message that can be written parses
/// to that message.
pub proof fn lemma_parse_rendered(message: MessageView, colon: bool)
    requires
        can_render(message, colon),
    ensures
        parse_line(render(message, colon)) == Ok::<MessageView, IrcError>(message),
{
    let params = render_params(message.params, colon);
    let command = message.command + params;
    let prefix = render_marked(message.prefix, ':') + command;
    let line = render(message, colon);
    lemma_render_params_starts_with_space(message.params, colon);
    assert(command[0] == message.command[0]);

    // the tag
    assert(line =~= Seq::<char>::empty() + render_marked(message.tag, '@') + prefix);
    assert(prefix.len() > 0 && !ascii_whitespace(prefix[0]) && (message.tag is None ==> prefix[0]
        != '@')) by {
        if message.prefix is Some {
            assert(prefix[0] == ':');
        } else {
            assert(prefix =~= command);
        }
    }
    lemma_marked_word_of_rendered(Seq::empty(), message.tag, '@', prefix);
    let gap = if message.tag is Some {
        seq![' ']
    } else {
        Seq::<char>::empty()
    };
    let after_tag = marked_word(line, '@').1;
    assert(after_tag =~= gap + render_marked(message.prefix, ':') + command);

    // the prefix
    lemma_marked_word_of_rendered(gap, message.prefix, ':', command);
    let gap = if message.prefix is Some {
        seq![' ']
    } else {
        Seq::<char>::empty()
    };
    let after_prefix = marked_word(after_tag, ':').1;
    assert(after_prefix =~= gap + command);

    // the command
    lemma_run_then_rest(gap, command, true);
    assert(trim_start(after_prefix) == command);
    lemma_run_then_rest(message.command, params, false);

    // the parameters
    lemma_parameters_of_rendered(message.params, colon);
}

/// A run of whitespace and nothing else trims to nothing.
pub proof fn lemma_trim_blank(s: Seq<char>)
    requires
        uniform(s, true),
    ensures
        trim_start(s) == Seq::<char>::empty(),
{
    lemma_run_then_rest(s, Seq::empty(), true);
    assert(s + Seq::<char>::empty() =~= s);
}

/// A line has no command exactly where nothing but whitespace is left once
/// its tag and its prefix are read.
pub proof fn lemma_no_command(line: Seq<char>)
    ensures
        parse_line(line) is Err <==> trim_start(
            marked_word(marked_word(line, '@').1, ':').1,
        ).len() == 0,
        parse_line(line) is Err ==> parse_line(line) == Err::<MessageView, IrcError>(
            IrcError::NoCommand,
        ),
{
    let left = marked_word(marked_word(line, '@').1, ':').1;
    if trim_start(left).len() > 0 {
        lemma_word_shortens(left);
    }
}

/// A line of whitespace, or of nothing at all, has no command.
pub proof fn lemma_blank_line_has_no_command(line: Seq<char>)
    requires
        uniform(line, true),
    ensures
        parse_line(line) == Err::<MessageView, IrcError>(IrcError::NoCommand),
{
    lemma_trim_blank(line);
    let nothing = Seq::<char>::empty();
    assert(trim_start(nothing) =~= nothing);
}

/// A line that ends after its tag has no command, whether or not
/// whitespace stands around the tag.
pub proof fn lemma_tag_alone_has_no_command(lead: Seq<char>, tag: Seq<char>, trail: Seq<char>)
    requires
        uniform(lead, true),
        is_word(tag),
        uniform(trail, true),
    ensures
        parse_line(lead + seq!['@'] + tag + trail) == Err::<MessageView, IrcError>(
            IrcError::NoCommand,
        ),
{
    let line = lead + seq!['@'] + tag + trail;
    let marked = seq!['@'] + (tag + trail);
    assert(line =~= lead + marked);
    lemma_run_then_rest(lead, marked, true);
    assert(marked.drop_first() =~= tag + trail);
    lemma_run_then_rest(tag, trail, false);
    assert(marked_word(line, '@').1 == trail);
    lemma_trim_blank(trail);
    let nothing = Seq::<char>::empty();
    assert(trim_start(nothing) =~= nothing);
}

/// Every parameter that is read, but for the last, can stand in the middle
/// of a line.
pub proof fn lemma_parameters_but_last_are_middle(s: Seq<char>)
    ensures
        can_render_params(parameters(s), true),
    decreases s.len(),
{
    let t = trim_start(s);
    if t.len() > 0 && t[0] != ':' {
        lemma_word_shortens(s);
        lemma_leading_run(t, false);
        let others = parameters(after_word(t));
        lemma_parameters_but_last_are_middle(after_word(t));
        assert forall|i: int| 0 <= i < parameters(s).len() - 1 implies is_middle(
            #[trigger] parameters(s)[i],
        ) by {
            if i > 0 {
                assert(parameters(s)[i] == others[i - 1]);
            } else {
                assert(parameters(s)[0] == first_word(t));
                assert(first_word(t)[0] == t[0]);
            }
        }
    }
}

/// What the parser gives can be written out again, with the last parameter
/// behind a `:`. So a message that was parsed, written and parsed once more
/// is the message that was parsed first.
pub proof fn lemma_parsed_can_render(line: Seq<char>)
    ensures
        parse_line(line) matches Ok(message) ==> can_render(message, true) && parse_line(
            render(message, true),
        ) == Ok::<MessageView, IrcError>(message),
{
    if let Ok(message) = parse_line(line) {
        let after_tag = marked_word(line, '@').1;
        let after_prefix = marked_word(after_tag, ':').1;
        let after_command = plain_word(after_prefix).1;
        lemma_marked_word_is_word(line, '@');
        lemma_marked_word_is_word(after_tag, ':');
        lemma_plain_word_is_word(after_prefix);
        lemma_parameters_but_last_are_middle(after_command);
        // where no tag or prefix was read, the command is what stood in its place
        let command_at = trim_start(after_prefix);
        lemma_leading_run(command_at, false);
        assert(message.command[0] == command_at[0]);
        if message.prefix is None {
            lemma_trim_start_idempotent(after_tag);
            assert(command_at == trim_start(after_tag));
            if message.tag is None {
                lemma_trim_start_idempotent(line);
                assert(command_at == trim_start(line));
            }
        }
        lemma_parse_rendered(message, true);
    }
}

} // verus!
