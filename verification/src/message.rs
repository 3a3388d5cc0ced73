//! The parsed form of one protocol line.

use crate::grammar::{lemma_plain_word_is_word, marked_word, parameters, plain_word};
use crate::parser::IrcParser;
use vstd::prelude::*;

verus! {

/// Why a line could not be parsed.
#[derive(Debug, Clone, Copy, PartialEq, Eq)]
pub enum IrcError {
    /// The line holds no command: it is empty, all whitespace, or ends after
    /// its tag or prefix.
    NoCommand,
}

/// One parsed line. The strings are owned copies of parts of the line.
#[derive(Debug, Clone, PartialEq, Eq)]
pub struct IrcMessage {
    /// What followed a leading `@`, up to the next whitespace.
    pub tag: Option<String>,
    /// What followed a leading `:`, up to the next whitespace.
    pub prefix: Option<String>,
    /// The command word, in the case in which it was received. Never empty.
    pub command: String,
    /// The parameters, in the order in which they stood in the line.
    pub params: Vec<String>,
}

/// A message as a mathematical value: each string is a sequence of
/// characters.
pub struct MessageView {
    pub tag: Option<Seq<char>>,
    pub prefix: Option<Seq<char>>,
    pub command: Seq<char>,
    pub params: Seq<Seq<char>>,
}

impl View for IrcMessage {
    type V = MessageView;

    open spec fn view(&self) -> MessageView {
        MessageView {
            tag: self.tag.deep_view(),
            prefix: self.prefix.deep_view(),
            command: self.command@,
            params: self.params.deep_view(),
        }
    }
}

/// What a line parses to. The tag, the prefix, the command and the
/// parameters are read one after the other, each from what the one before
/// left unread; a line without a command word is an error.
pub open spec fn parse_line(line: Seq<char>) -> Result<MessageView, IrcError> {
    let (tag, after_tag) = marked_word(line, '@');
    let (prefix, after_prefix) = marked_word(after_tag, ':');
    let (command, after_command) = plain_word(after_prefix);
    match command {
        Some(name) => Ok(
            MessageView { tag, prefix, command: name, params: parameters(after_command) },
        ),
        None => Err(IrcError::NoCommand),
    }
}

/// The outcome of parsing as a mathematical value.
pub open spec fn outcome_view(outcome: Result<IrcMessage, IrcError>) -> Result<
    MessageView,
    IrcError,
> {
    match outcome {
        Ok(message) => Ok(message@),
        Err(error) => Err(error),
    }
}

impl IrcMessage {
    /// Parses one line, given without its line terminator.
    ///
    /// Fails with [`IrcError::NoCommand`] exactly where the line has no
    /// command word.
    pub fn new(input: &str) -> (outcome: Result<Self, IrcError>)
        ensures
            outcome_view(outcome) == parse_line(input@),
            outcome matches Ok(message) ==> message.command@.len() > 0,
    {
        let mut parser = IrcParser::new(input);
        let tag = parser.parse_word_if_start_with('@');
        let prefix = parser.parse_word_if_start_with(':');
        proof {
            lemma_plain_word_is_word(parser.remaining());
        }
        let command = match parser.parse_word() {
            Some(command) => command,
            None => {
                return Err(IrcError::NoCommand);
            },
        };
        let params = parser.parse_params();
        Ok(IrcMessage { tag, prefix, command, params })
    }
}

} // verus!
