//! The lines that the server sends: the answer to `PING` and the five
//! numeric replies that complete a registration. Every line ends with a
//! carriage return and a line feed, and is meant to be written in one piece.

use vstd::prelude::*;
use vstd::string::*;

verus! {

/// The settings that all connections of one server share.
#[derive(Debug, Clone, PartialEq, Eq)]
pub struct ServerConfig {
    /// The address that the server names as its own in the replies.
    pub server: String,
    /// The version that the server reports for itself.
    pub programver: String,
    /// The port on which the server listens.
    pub port: usize,
}

/// A [`ServerConfig`] as a mathematical value.
pub struct ConfigView {
    pub server: Seq<char>,
    pub programver: Seq<char>,
    pub port: nat,
}

impl View for ServerConfig {
    type V = ConfigView;

    open spec fn view(&self) -> ConfigView {
        ConfigView { server: self.server@, programver: self.programver@, port: self.port as nat }
    }
}

impl ServerConfig {
    /// The settings of a server on `port`, with the address and version that
    /// this server always reports.
    pub fn new(port: usize) -> (config: Self)
        ensures
            config@ == (ConfigView {
                server: "127.0.0.1"@,
                programver: "fake-irc-server-v0.1.0"@,
                port: port as nat,
            }),
    {
        ServerConfig {
            server: "127.0.0.1".to_owned(),
            programver: "fake-irc-server-v0.1.0".to_owned(),
            port,
        }
    }
}

/// The character for a single decimal digit.
pub open spec fn digit_char(d: nat) -> char
    recommends
        d < 10,
{
    (('0' as u32) + d) as char
}

/// `n` written in decimal, without leading zeros.
pub open spec fn decimal(n: nat) -> Seq<char>
    decreases n,
{
    if n < 10 {
        seq![digit_char(n)]
    } else {
        decimal(n / 10).push(digit_char(n % 10))
    }
}

/// The text of one decimal digit.
fn digit_text(d: usize) -> (text: &'static str)
    requires
        d < 10,
    ensures
        text@ == seq![digit_char(d as nat)],
{
    proof {
        reveal_strlit("0");
        reveal_strlit("1");
        reveal_strlit("2");
        reveal_strlit("3");
        reveal_strlit("4");
        reveal_strlit("5");
        reveal_strlit("6");
        reveal_strlit("7");
        reveal_strlit("8");
        reveal_strlit("9");
    }
    let text = if d == 0 {
        "0"
    } else if d == 1 {
        "1"
    } else if d == 2 {
        "2"
    } else if d == 3 {
        "3"
    } else if d == 4 {
        "4"
    } else if d == 5 {
        "5"
    } else if d == 6 {
        "6"
    } else if d == 7 {
        "7"
    } else if d == 8 {
        "8"
    } else {
        "9"
    };
    assert(text@ =~= seq![digit_char(d as nat)]);
    text
}

/// Appends `n` in decimal to `out`.
fn append_decimal(out: &mut String, n: usize)
    ensures
        final(out)@ == old(out)@ + decimal(n as nat),
    decreases n,
{
    if n >= 10 {
        append_decimal(out, n / 10);
    }
    out.append(digit_text(n % 10));
    proof {
        if n >= 10 {
            assert(old(out)@ + decimal((n / 10) as nat) + seq![digit_char((n % 10) as nat)]
                =~= old(out)@ + decimal(n as nat));
        }
    }
}

/// `n` written in decimal.
pub fn decimal_string(n: usize) -> (text: String)
    ensures
        text@ == decimal(n as nat),
{
    let mut text = String::new();
    append_decimal(&mut text, n);
    assert(Seq::<char>::empty() + decimal(n as nat) =~= decimal(n as nat));
    text
}

/// The answer to a `PING` with the parameter `token`.
pub open spec fn pong_line(token: Seq<char>) -> Seq<char> {
    ":localhost PONG "@ + token + "\r\n"@
}

/// The reply 001, which welcomes the client.
pub open spec fn welcome_line(nick: Seq<char>, user: Seq<char>) -> Seq<char> {
    ":localhost 001 "@ + nick + " :Welcome to the Local Network, "@ + nick + "!"@ + user
        + "@localhost"@ + "\r\n"@
}

/// The reply 002, which names the host, the port and the version.
pub open spec fn your_host_line(nick: Seq<char>, config: ConfigView) -> Seq<char> {
    ":localhost 002 "@ + nick + " :Your host is localhost["@ + config.server + "/"@ + decimal(
        config.port,
    ) + "], running version "@ + config.programver + "\r\n"@
}

/// The reply 003, which names the time at which the server claims to have
/// been created. It is always the same time.
pub open spec fn created_line(nick: Seq<char>) -> Seq<char> {
    ":localhost 003 "@ + nick + " :This server was created Sep 22 2018 at 19:19:32"@ + "\r\n"@
}

/// The reply 004, which names the version and the modes that the server
/// claims to know.
pub open spec fn my_info_line(nick: Seq<char>, config: ConfigView) -> Seq<char> {
    ":localhost 004 "@ + nick + " localhost "@ + config.programver
        + " CDGPRSabcdfgijklnorsuwxyz bciklmnopstvzeIMRS bkloveI"@ + "\r\n"@
}

/// The reply 005, which names the limits of the server.
pub open spec fn supported_line(nick: Seq<char>) -> Seq<char> {
    ":localhost 005 "@ + nick + " NICKLEN=30 :are supported by this server"@ + "\r\n"@
}

/// The five replies that complete a registration, in the order in which they
/// are sent.
pub open spec fn registration_lines(nick: Seq<char>, user: Seq<char>, config: ConfigView) -> Seq<
    Seq<char>,
> {
    seq![
        welcome_line(nick, user),
        your_host_line(nick, config),
        created_line(nick),
        my_info_line(nick, config),
        supported_line(nick),
    ]
}

/// Builds the answer to a `PING`.
pub fn pong(token: &str) -> (line: String)
    ensures
        line@ == pong_line(token@),
{
    let mut line = ":localhost PONG ".to_owned();
    line.append(token);
    line.append("\r\n");
    line
}

/// Builds the five replies that complete the registration of `nick`.
pub fn registration_replies(nick: &str, user: &str, config: &ServerConfig) -> (lines: Vec<String>)
    ensures
        lines.deep_view() == registration_lines(nick@, user@, config@),
{
    let mut welcome = ":localhost 001 ".to_owned();
    welcome.append(nick);
    welcome.append(" :Welcome to the Local Network, ");
    welcome.append(nick);
    welcome.append("!");
    welcome.append(user);
    welcome.append("@localhost");
    welcome.append("\r\n");

    let mut your_host = ":localhost 002 ".to_owned();
    your_host.append(nick);
    your_host.append(" :Your host is localhost[");
    your_host.append(config.server.as_str());
    your_host.append("/");
    append_decimal(&mut your_host, config.port);
    your_host.append("], running version ");
    your_host.append(config.programver.as_str());
    your_host.append("\r\n");

    let mut created = ":localhost 003 ".to_owned();
    created.append(nick);
    created.append(" :This server was created Sep 22 2018 at 19:19:32");
    created.append("\r\n");

    let mut my_info = ":localhost 004 ".to_owned();
    my_info.append(nick);
    my_info.append(" localhost ");
    my_info.append(config.programver.as_str());
    my_info.append(" CDGPRSabcdfgijklnorsuwxyz bciklmnopstvzeIMRS bkloveI");
    my_info.append("\r\n");

    let mut supported = ":localhost 005 ".to_owned();
    supported.append(nick);
    supported.append(" NICKLEN=30 :are supported by this server");
    supported.append("\r\n");

    let mut lines: Vec<String> = Vec::new();
    lines.push(welcome);
    lines.push(your_host);
    lines.push(created);
    lines.push(my_info);
    lines.push(supported);
    assert(lines.deep_view() =~= registration_lines(nick@, user@, config@));
    lines
}

} // verus!
