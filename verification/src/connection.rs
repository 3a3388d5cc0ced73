//! The registration state machine of one client connection.
//!
//! A connection starts unregistered. `NICK` and `USER` fill in the client's
//! names; once the nickname, the user name and the real name are all known,
//! the server sends five numeric replies and the connection is registered,
//! for good. `PING` is answered at any time.

use crate::command::{command_kind, to_ascii_uppercase, CommandKind};
use crate::framing::{line_body, strip_terminator};
use crate::message::{parse_line, IrcMessage, MessageView};
use crate::reply::{pong, pong_line, registration_lines, registration_replies, ConfigView, ServerConfig};
use vstd::prelude::*;
use vstd::string::*;

verus! {

/// What the server knows of one client.
#[derive(Debug, Clone, PartialEq, Eq)]
pub struct ConnectionState {
    nickname: Option<String>,
    username: Option<String>,
    realname: Option<String>,
    registered: bool,
}

/// A [`ConnectionState`] as a mathematical value.
pub struct ConnectionView {
    pub nickname: Option<Seq<char>>,
    pub username: Option<Seq<char>>,
    pub realname: Option<Seq<char>>,
    pub registered: bool,
}

impl View for ConnectionState {
    type V = ConnectionView;

    closed spec fn view(&self) -> ConnectionView {
        ConnectionView {
            nickname: self.nickname.deep_view(),
            username: self.username.deep_view(),
            realname: self.realname.deep_view(),
            registered: self.registered,
        }
    }
}

/// What the server does in answer to one message.
#[derive(Debug, Clone, PartialEq, Eq)]
pub struct Reaction {
    /// The lines to send to the client, in this order, each in one write.
    pub replies: Vec<String>,
    /// Whether this message completed the registration.
    pub registered: bool,
}

/// What one line from the client led to.
#[derive(Debug, Clone, PartialEq, Eq)]
pub struct LineOutcome {
    /// The message that the line held; `None` where the line was dropped.
    pub message: Option<IrcMessage>,
    /// The lines to send to the client, in this order, each in one write.
    pub replies: Vec<String>,
    /// Whether this line completed the registration.
    pub registered: bool,
}

/// The state of a connection that has just been accepted.
pub open spec fn initial_state() -> ConnectionView {
    ConnectionView { nickname: None, username: None, realname: None, registered: false }
}

/// The parameter of `message` at `index`, if it has that many.
pub open spec fn parameter(message: MessageView, index: int) -> Option<Seq<char>> {
    if 0 <= index < message.params.len() {
        Some(message.params[index])
    } else {
        None
    }
}

/// The names that the server holds once it has taken note of `message`.
/// `NICK` sets the nickname to the first parameter, `USER` the user name to
/// the first and the real name to the fourth; a parameter that is missing
/// leaves its name unset.
pub open spec fn after_command(state: ConnectionView, message: MessageView) -> ConnectionView {
    match command_kind(message.command) {
        CommandKind::Nick => ConnectionView { nickname: parameter(message, 0), ..state },
        CommandKind::User => ConnectionView {
            username: parameter(message, 0),
            realname: parameter(message, 3),
            ..state
        },
        _ => state,
    }
}

/// Whether the registration of `state` is due: all three names are known
/// and the connection is not registered yet.
pub open spec fn registration_due(state: ConnectionView) -> bool {
    !state.registered && state.nickname is Some && state.username is Some && state.realname is Some
}

/// Whether `message` completes the registration of a connection in `state`.
pub open spec fn completes_registration(state: ConnectionView, message: MessageView) -> bool {
    registration_due(after_command(state, message))
}

/// The state of a connection after `message`.
pub open spec fn after_message(state: ConnectionView, message: MessageView) -> ConnectionView {
    if completes_registration(state, message) {
        ConnectionView { registered: true, ..after_command(state, message) }
    } else {
        after_command(state, message)
    }
}

/// The token that the answer to `message` echoes: its first parameter, or
/// nothing where it has none.
pub open spec fn ping_token(message: MessageView) -> Seq<char> {
    match parameter(message, 0) {
        Some(token) => token,
        None => Seq::empty(),
    }
}

/// The answer to `message` where it is a `PING`.
pub open spec fn ping_replies(message: MessageView) -> Seq<Seq<char>> {
    if command_kind(message.command) == CommandKind::Ping {
        seq![pong_line(ping_token(message))]
    } else {
        Seq::empty()
    }
}

/// The numeric replies that `message` sets off where it completes the
/// registration.
pub open spec fn completion_replies(
    state: ConnectionView,
    message: MessageView,
    config: ConfigView,
) -> Seq<Seq<char>> {
    if completes_registration(state, message) {
        let names = after_command(state, message);
        registration_lines(names.nickname->0, names.username->0, config)
    } else {
        Seq::empty()
    }
}

/// The lines that the server sends in answer to `message`.
pub open spec fn replies_to(state: ConnectionView, message: MessageView, config: ConfigView) -> Seq<
    Seq<char>,
> {
    ping_replies(message) + completion_replies(state, message, config)
}

/// The message that the line `raw`, as it was read, holds: none where the
/// line lacks its terminator, and none where it holds no command.
pub open spec fn message_in(raw: Seq<char>) -> Option<MessageView> {
    match line_body(raw) {
        Some(body) => match parse_line(body) {
            Ok(message) => Some(message),
            Err(_) => None,
        },
        None => None,
    }
}

/// The state of a connection after the line `raw`.
pub open spec fn after_line(state: ConnectionView, raw: Seq<char>) -> ConnectionView {
    match message_in(raw) {
        Some(message) => after_message(state, message),
        None => state,
    }
}

/// The lines that the server sends in answer to the line `raw`.
pub open spec fn replies_to_line(state: ConnectionView, raw: Seq<char>, config: ConfigView) -> Seq<
    Seq<char>,
> {
    match message_in(raw) {
        Some(message) => replies_to(state, message, config),
        None => Seq::empty(),
    }
}

/// Whether the line `raw` completes the registration of a connection in
/// `state`.
pub open spec fn line_completes_registration(state: ConnectionView, raw: Seq<char>) -> bool {
    match message_in(raw) {
        Some(message) => completes_registration(state, message),
        None => false,
    }
}

/// An optional message as a mathematical value.
pub open spec fn message_view(message: Option<IrcMessage>) -> Option<MessageView> {
    match message {
        Some(message) => Some(message@),
        None => None,
    }
}

/// A copy of the parameter of `message` at `index`, if it has that many.
fn parameter_of(message: &IrcMessage, index: usize) -> (value: Option<String>)
    ensures
        value.deep_view() == parameter(message@, index as int),
{
    if index < message.params.len() {
        Some(message.params[index].clone())
    } else {
        None
    }
}

impl ConnectionState {
    /// The state of a connection that has just been accepted: no name is
    /// known and the client is not registered.
    pub fn new() -> (state: Self)
        ensures
            state@ == initial_state(),
    {
        ConnectionState { nickname: None, username: None, realname: None, registered: false }
    }

    /// The nickname that the client gave last, if any.
    pub fn nickname(&self) -> (name: Option<&String>)
        ensures
            name.deep_view() == self@.nickname,
    {
        self.nickname.as_ref()
    }

    /// The user name that the client gave last, if any.
    pub fn username(&self) -> (name: Option<&String>)
        ensures
            name.deep_view() == self@.username,
    {
        self.username.as_ref()
    }

    /// The real name that the client gave last, if any.
    pub fn realname(&self) -> (name: Option<&String>)
        ensures
            name.deep_view() == self@.realname,
    {
        self.realname.as_ref()
    }

    /// Whether the registration has been completed.
    pub fn registered(&self) -> (done: bool)
        ensures
            done == self@.registered,
    {
        self.registered
    }

    /// Takes note of one message and says what to send in answer.
    ///
    /// The command is compared without regard to case. After any message,
    /// whatever its command, the registration is completed if it is due.
    pub fn handle_message(&mut self, message: &IrcMessage, config: &ServerConfig) -> (reaction:
        Reaction)
        ensures
            final(self)@ == after_message(old(self)@, message@),
            reaction.replies.deep_view() == replies_to(old(self)@, message@, config@),
            reaction.registered == completes_registration(old(self)@, message@),
    {
        let mut replies: Vec<String> = Vec::new();
        match CommandKind::of(message.command.as_str()) {
            CommandKind::Nick => {
                self.nickname = parameter_of(message, 0);
            },
            CommandKind::User => {
                self.username = parameter_of(message, 0);
                self.realname = parameter_of(message, 3);
            },
            CommandKind::Ping => {
                let line = match parameter_of(message, 0) {
                    Some(token) => pong(token.as_str()),
                    None => pong(""),
                };
                replies.push(line);
            },
            CommandKind::Other => {},
        }
        proof {
            reveal_strlit("");
            assert(""@ =~= Seq::<char>::empty());
            assert(replies.deep_view() =~= ping_replies(message@));
        }
        if self.registered {
            proof {
                assert(replies.deep_view() + Seq::<Seq<char>>::empty() =~= replies.deep_view());
            }
            return Reaction { replies, registered: false };
        }
        let mut registered = false;
        match (&self.nickname, &self.username, &self.realname) {
            (Some(nick), Some(user), Some(_)) => {
                let mut lines = registration_replies(nick.as_str(), user.as_str(), config);
                let ghost sent = replies.deep_view();
                let ghost welcome = lines.deep_view();
                replies.append(&mut lines);
                proof {
                    assert(replies.deep_view() =~= sent + welcome);
                }
                registered = true;
            },
            _ => {
                proof {
                    assert(replies.deep_view() + Seq::<Seq<char>>::empty() =~= replies.deep_view());
                }
            },
        }
        if registered {
            self.registered = true;
        }
        Reaction { replies, registered }
    }

    /// Takes one line as it was read from the client, terminator included,
    /// and says what to send in answer.
    ///
    /// A line that does not end with a carriage return and a line feed is
    /// dropped, and so is a line without a command: nothing is sent and
    /// nothing changes.
    pub fn receive_line(&mut self, raw: &str, config: &ServerConfig) -> (outcome: LineOutcome)
        ensures
            message_view(outcome.message) == message_in(raw@),
            final(self)@ == after_line(old(self)@, raw@),
            outcome.replies.deep_view() == replies_to_line(old(self)@, raw@, config@),
            outcome.registered == line_completes_registration(old(self)@, raw@),
    {
        let body = match strip_terminator(raw) {
            Some(body) => body,
            None => {
                let replies: Vec<String> = Vec::new();
                assert(replies.deep_view() =~= Seq::<Seq<char>>::empty());
                return LineOutcome { message: None, replies, registered: false };
            },
        };
        let message = match IrcMessage::new(body) {
            Ok(message) => message,
            Err(_) => {
                let replies: Vec<String> = Vec::new();
                assert(replies.deep_view() =~= Seq::<Seq<char>>::empty());
                return LineOutcome { message: None, replies, registered: false };
            },
        };
        let reaction = self.handle_message(&message, config);
        LineOutcome {
            message: Some(message),
            replies: reaction.replies,
            registered: reaction.registered,
        }
    }
}

/// The state of a connection after the lines `lines`, taken in order.
pub open spec fn after_lines(state: ConnectionView, lines: Seq<Seq<char>>) -> ConnectionView
    decreases lines.len(),
{
    if lines.len() == 0 {
        state
    } else {
        after_line(after_lines(state, lines.drop_last()), lines.last())
    }
}

/// How many of the lines `lines`, taken in order, complete the registration
/// of a connection that starts in `state`.
pub open spec fn completions(state: ConnectionView, lines: Seq<Seq<char>>) -> nat
    decreases lines.len(),
{
    if lines.len() == 0 {
        0
    } else {
        let earlier = completions(state, lines.drop_last());
        if line_completes_registration(after_lines(state, lines.drop_last()), lines.last()) {
            earlier + 1
        } else {
            earlier
        }
    }
}

/// The case of the command's letters makes no difference: two messages
/// whose commands differ in nothing else, and whose parameters are the
/// same, change the state in the same way and are answered alike.
pub proof fn lemma_command_case_is_ignored(
    state: ConnectionView,
    one: MessageView,
    other: MessageView,
    config: ConfigView,
)
    requires
        to_ascii_uppercase(one.command) == to_ascii_uppercase(other.command),
        one.params == other.params,
    ensures
        after_message(state, one) == after_message(state, other),
        replies_to(state, one, config) == replies_to(state, other, config),
{
}

/// A registered connection stays registered, and nothing completes its
/// registration again: no message sets off the numeric replies a second
/// time.
pub proof fn lemma_registered_for_good(
    state: ConnectionView,
    message: MessageView,
    config: ConfigView,
)
    requires
        state.registered,
    ensures
        after_message(state, message).registered,
        !completes_registration(state, message),
        replies_to(state, message, config) == ping_replies(message),
{
    assert(ping_replies(message) + Seq::<Seq<char>>::empty() =~= ping_replies(message));
}

/// A message completes the registration exactly where the connection goes
/// from unregistered to registered, and then the numeric replies are the
/// last five lines sent.
pub proof fn lemma_completion_registers(
    state: ConnectionView,
    message: MessageView,
    config: ConfigView,
)
    ensures
        completes_registration(state, message) <==> !state.registered && after_message(
            state,
            message,
        ).registered,
        completes_registration(state, message) ==> replies_to(state, message, config)
            == ping_replies(message) + registration_lines(
            after_message(state, message).nickname->0,
            after_message(state, message).username->0,
            config,
        ),
        !completes_registration(state, message) ==> replies_to(state, message, config)
            == ping_replies(message),
{
    assert(ping_replies(message) + Seq::<Seq<char>>::empty() =~= ping_replies(message));
}

/// Between two messages no registration is ever due: once the three names
/// are known, the message that made them so has completed it.
pub proof fn lemma_never_due_after_message(state: ConnectionView, message: MessageView)
    ensures
        !registration_due(after_message(state, message)),
{
}

/// The same holds of lines, and of the state that a connection starts in.
pub proof fn lemma_never_due_after_lines(lines: Seq<Seq<char>>)
    ensures
        !registration_due(after_lines(initial_state(), lines)),
    decreases lines.len(),
{
    if lines.len() > 0 {
        lemma_never_due_after_lines(lines.drop_last());
    }
}

/// Whatever the client sends, its registration is completed at most once:
/// exactly once where the lines take the connection from unregistered to
/// registered, and never otherwise.
pub proof fn lemma_registers_at_most_once(state: ConnectionView, lines: Seq<Seq<char>>)
    ensures
        completions(state, lines) <= 1,
        completions(state, lines) == 1 <==> !state.registered && after_lines(
            state,
            lines,
        ).registered,
        state.registered ==> after_lines(state, lines).registered,
    decreases lines.len(),
{
    if lines.len() > 0 {
        lemma_registers_at_most_once(state, lines.drop_last());
    }
}

/// `PING` is answered in every state, first of all, with a line that echoes
/// its token. Between two messages, where no registration is due, that line
/// is all that is sent, and the state stays as it is.
pub proof fn lemma_ping_is_answered(state: ConnectionView, message: MessageView, config: ConfigView)
    requires
        command_kind(message.command) == CommandKind::Ping,
    ensures
        replies_to(state, message, config).len() > 0,
        replies_to(state, message, config)[0] == pong_line(ping_token(message)),
        !registration_due(state) ==> replies_to(state, message, config) == seq![
            pong_line(ping_token(message)),
        ] && after_message(state, message) == state && !completes_registration(state, message),
{
    if !registration_due(state) {
        assert(replies_to(state, message, config) =~= seq![pong_line(ping_token(message))]);
    }
}

/// A line without its terminator is dropped: it holds no message, nothing
/// is sent and the state stays as it is.
pub proof fn lemma_unterminated_line_is_dropped(
    state: ConnectionView,
    raw: Seq<char>,
    config: ConfigView,
)
    requires
        !crate::framing::is_terminated(raw),
    ensures
        message_in(raw) is None,
        after_line(state, raw) == state,
        replies_to_line(state, raw, config) == Seq::<Seq<char>>::empty(),
        !line_completes_registration(state, raw),
{
}

} // verus!
