use fake_irc_server::connection::{ConnectionState, LineOutcome};
use fake_irc_server::message::IrcMessage;
use fake_irc_server::reply::ServerConfig;

fn welcome_block(nick: &str, user: &str, port: usize) -> Vec<String> {
    vec![
        format!(":localhost 001 {nick} :Welcome to the Local Network, {nick}!{user}@localhost\r\n"),
        format!(
            ":localhost 002 {nick} :Your host is localhost[127.0.0.1/{port}], running version fake-irc-server-v0.1.0\r\n"
        ),
        format!(":localhost 003 {nick} :This server was created Sep 22 2018 at 19:19:32\r\n"),
        format!(
            ":localhost 004 {nick} localhost fake-irc-server-v0.1.0 CDGPRSabcdfgijklnorsuwxyz bciklmnopstvzeIMRS bkloveI\r\n"
        ),
        format!(":localhost 005 {nick} NICKLEN=30 :are supported by this server\r\n"),
    ]
}

fn send(state: &mut ConnectionState, config: &ServerConfig, line: &str) -> LineOutcome {
    state.receive_line(&format!("{line}\r\n"), config)
}

fn name(text: &str) -> Option<String> {
    Some(text.to_string())
}

#[test]
fn new_connection_knows_nothing() {
    let state = ConnectionState::new();
    assert_eq!(state.nickname(), None);
    assert_eq!(state.username(), None);
    assert_eq!(state.realname(), None);
    assert!(!state.registered());
}

#[test]
fn nick_in_any_case_sets_the_nickname() {
    for line in ["nick foo", "NICK foo", "Nick foo", "nIcK foo"] {
        let config = ServerConfig::new(1234);
        let mut state = ConnectionState::new();
        let outcome = send(&mut state, &config, line);
        assert_eq!(state.nickname().cloned(), name("foo"));
        assert_eq!(state.username(), None);
        assert_eq!(state.realname(), None);
        assert!(outcome.replies.is_empty());
        assert!(!outcome.registered);
        assert!(!state.registered());
    }
}

#[test]
fn user_in_any_case_sets_user_name_and_real_name() {
    for line in ["user u 0 * :Real Name", "USER u 0 * :Real Name", "User u 0 * :Real Name"] {
        let config = ServerConfig::new(1234);
        let mut state = ConnectionState::new();
        let outcome = send(&mut state, &config, line);
        assert_eq!(state.nickname(), None);
        assert_eq!(state.username().cloned(), name("u"));
        assert_eq!(state.realname().cloned(), name("Real Name"));
        assert!(outcome.replies.is_empty());
        assert!(!state.registered());
    }
}

#[test]
fn ping_in_any_case_is_answered() {
    for line in ["ping abc", "PING abc", "Ping abc"] {
        let config = ServerConfig::new(1234);
        let mut state = ConnectionState::new();
        let outcome = send(&mut state, &config, line);
        assert_eq!(outcome.replies, vec![":localhost PONG abc\r\n".to_string()]);
    }
}

#[test]
fn command_that_only_looks_alike_is_another_command() {
    let config = ServerConfig::new(1234);
    let mut state = ConnectionState::new();
    for line in ["NICKS foo", "NIC foo", "N\u{131}CK foo", "\u{ff2e}ICK foo", "PINGS x", "USERS a b c d"] {
        let outcome = send(&mut state, &config, line);
        assert!(outcome.message.is_some());
        assert!(outcome.replies.is_empty());
    }
    assert_eq!(state, ConnectionState::new());
}

#[test]
fn nick_without_parameter_unsets_the_nickname() {
    let config = ServerConfig::new(1234);
    let mut state = ConnectionState::new();
    send(&mut state, &config, "NICK foo");
    assert_eq!(state.nickname().cloned(), name("foo"));
    let outcome = send(&mut state, &config, "NICK");
    assert_eq!(state.nickname(), None);
    assert!(outcome.replies.is_empty());
}

#[test]
fn nick_again_replaces_the_nickname() {
    let config = ServerConfig::new(1234);
    let mut state = ConnectionState::new();
    send(&mut state, &config, "NICK first");
    send(&mut state, &config, "NICK second");
    assert_eq!(state.nickname().cloned(), name("second"));
    let outcome = send(&mut state, &config, "USER u 0 * :Real");
    assert_eq!(outcome.replies, welcome_block("second", "u", 1234));
}

#[test]
fn user_with_too_few_parameters_leaves_the_real_name_unset() {
    let config = ServerConfig::new(1234);
    let mut state = ConnectionState::new();
    send(&mut state, &config, "NICK foo");
    let outcome = send(&mut state, &config, "USER u 0 *");
    assert_eq!(state.username().cloned(), name("u"));
    assert_eq!(state.realname(), None);
    assert!(outcome.replies.is_empty());
    assert!(!state.registered());

    let outcome = send(&mut state, &config, "USER");
    assert_eq!(state.username(), None);
    assert_eq!(state.realname(), None);
    assert!(outcome.replies.is_empty());
}

#[test]
fn user_takes_the_fourth_parameter_for_the_real_name() {
    let config = ServerConfig::new(1234);
    let mut state = ConnectionState::new();
    send(&mut state, &config, "USER u mode unused real extra :more");
    assert_eq!(state.username().cloned(), name("u"));
    assert_eq!(state.realname().cloned(), name("real"));
}

#[test]
fn nick_then_user_registers_with_five_replies() {
    let config = ServerConfig::new(6667);
    let mut state = ConnectionState::new();
    let first = state.receive_line("NICK alice\r\n", &config);
    assert!(first.replies.is_empty());
    assert!(!first.registered);
    let second = state.receive_line("USER alice 0 * :Alice A\r\n", &config);
    assert_eq!(
        second.replies,
        vec![
            ":localhost 001 alice :Welcome to the Local Network, alice!alice@localhost\r\n".to_string(),
            ":localhost 002 alice :Your host is localhost[127.0.0.1/6667], running version fake-irc-server-v0.1.0\r\n".to_string(),
            ":localhost 003 alice :This server was created Sep 22 2018 at 19:19:32\r\n".to_string(),
            ":localhost 004 alice localhost fake-irc-server-v0.1.0 CDGPRSabcdfgijklnorsuwxyz bciklmnopstvzeIMRS bkloveI\r\n".to_string(),
            ":localhost 005 alice NICKLEN=30 :are supported by this server\r\n".to_string(),
        ]
    );
    assert!(second.registered);
    assert!(state.registered());
    assert_eq!(state.nickname().cloned(), name("alice"));
    assert_eq!(state.username().cloned(), name("alice"));
    assert_eq!(state.realname().cloned(), name("Alice A"));
}

#[test]
fn user_then_nick_registers_too() {
    let config = ServerConfig::new(1234);
    let mut state = ConnectionState::new();
    let first = send(&mut state, &config, "USER bob 0 * :Bob B");
    assert!(first.replies.is_empty());
    let second = send(&mut state, &config, "NICK bobby");
    assert_eq!(second.replies, welcome_block("bobby", "bob", 1234));
    assert!(second.registered);
}

#[test]
fn registration_uses_different_nick_and_user() {
    let config = ServerConfig::new(65535);
    let mut state = ConnectionState::new();
    send(&mut state, &config, "NICK n\u{e9}ck");
    let outcome = send(&mut state, &config, "USER \u{fc}ser 0 * :R\u{e9}al N\u{e4}me");
    assert_eq!(outcome.replies, welcome_block("n\u{e9}ck", "\u{fc}ser", 65535));
}

#[test]
fn registration_completes_exactly_once() {
    let config = ServerConfig::new(1234);
    let mut state = ConnectionState::new();
    let mut blocks = 0;
    let mut lines = 0;
    for line in [
        "NICK alice",
        "USER alice 0 * :Alice A",
        "JOIN #chan",
        "NICK alice2",
        "USER alice2 0 * :Alice B",
        "MODE alice2 +i",
        "NICK",
        "USER",
        "NICK alice3",
        "USER alice3 0 * :Alice C",
    ] {
        let outcome = send(&mut state, &config, line);
        if outcome.registered {
            blocks += 1;
        }
        lines += outcome.replies.len();
        assert!(outcome.message.is_some());
    }
    assert_eq!(blocks, 1);
    assert_eq!(lines, 5);
    assert!(state.registered());
}

#[test]
fn unrelated_command_after_registration_sends_nothing() {
    let config = ServerConfig::new(1234);
    let mut state = ConnectionState::new();
    send(&mut state, &config, "NICK alice");
    let outcome = send(&mut state, &config, "USER alice 0 * :Alice A");
    assert_eq!(outcome.replies.len(), 5);
    let outcome = send(&mut state, &config, "JOIN #chan");
    assert!(outcome.replies.is_empty());
    assert!(!outcome.registered);
    assert!(state.registered());
}

#[test]
fn names_change_after_registration_without_replies() {
    let config = ServerConfig::new(1234);
    let mut state = ConnectionState::new();
    send(&mut state, &config, "NICK alice");
    send(&mut state, &config, "USER alice 0 * :Alice A");
    let outcome = send(&mut state, &config, "NICK carol");
    assert!(outcome.replies.is_empty());
    assert!(!outcome.registered);
    assert_eq!(state.nickname().cloned(), name("carol"));
    let outcome = send(&mut state, &config, "USER carol 0 * :Carol C");
    assert!(outcome.replies.is_empty());
    assert!(!outcome.registered);
    assert_eq!(state.username().cloned(), name("carol"));
    assert_eq!(state.realname().cloned(), name("Carol C"));
    assert!(state.registered());
}

#[test]
fn unrelated_command_before_the_names_are_known_registers_nothing() {
    let config = ServerConfig::new(1234);
    let mut state = ConnectionState::new();
    send(&mut state, &config, "NICK alice");
    let outcome = send(&mut state, &config, "CAP LS 302");
    assert!(outcome.replies.is_empty());
    assert!(!state.registered());
    let outcome = send(&mut state, &config, "USER alice 0 *");
    assert!(outcome.replies.is_empty());
    let outcome = send(&mut state, &config, "JOIN #chan");
    assert!(outcome.replies.is_empty());
    assert!(!state.registered());
}

#[test]
fn ping_is_answered_before_registration() {
    let config = ServerConfig::new(1234);
    let mut state = ConnectionState::new();
    let outcome = send(&mut state, &config, "PING abc");
    assert_eq!(outcome.replies, vec![":localhost PONG abc\r\n".to_string()]);
    assert!(!outcome.registered);
    assert_eq!(state, ConnectionState::new());
}

#[test]
fn ping_is_answered_after_registration() {
    let config = ServerConfig::new(1234);
    let mut state = ConnectionState::new();
    send(&mut state, &config, "NICK alice");
    send(&mut state, &config, "USER alice 0 * :Alice A");
    let before = state.clone();
    let outcome = send(&mut state, &config, "PING abc");
    assert_eq!(outcome.replies, vec![":localhost PONG abc\r\n".to_string()]);
    assert!(!outcome.registered);
    assert_eq!(state, before);
}

#[test]
fn ping_between_nick_and_user_does_not_register() {
    let config = ServerConfig::new(1234);
    let mut state = ConnectionState::new();
    send(&mut state, &config, "NICK alice");
    let outcome = send(&mut state, &config, "PING abc");
    assert_eq!(outcome.replies, vec![":localhost PONG abc\r\n".to_string()]);
    assert!(!state.registered());
    let outcome = send(&mut state, &config, "USER alice 0 * :Alice A");
    assert_eq!(outcome.replies, welcome_block("alice", "alice", 1234));
    let outcome = send(&mut state, &config, "PING abc");
    assert_eq!(outcome.replies, vec![":localhost PONG abc\r\n".to_string()]);
}

#[test]
fn ping_is_answered_every_time() {
    let config = ServerConfig::new(1234);
    let mut state = ConnectionState::new();
    for token in ["one", "two", "three"] {
        let outcome = send(&mut state, &config, &format!("PING {token}"));
        assert_eq!(outcome.replies, vec![format!(":localhost PONG {token}\r\n")]);
    }
}

#[test]
fn ping_without_token_is_answered_with_an_empty_token() {
    let config = ServerConfig::new(1234);
    let mut state = ConnectionState::new();
    let outcome = send(&mut state, &config, "PING");
    assert_eq!(outcome.replies, vec![":localhost PONG \r\n".to_string()]);
}

#[test]
fn ping_echoes_its_first_parameter_only() {
    let config = ServerConfig::new(1234);
    let mut state = ConnectionState::new();
    let outcome = send(&mut state, &config, "PING abc def");
    assert_eq!(outcome.replies, vec![":localhost PONG abc\r\n".to_string()]);
    let outcome = send(&mut state, &config, "PING :abc def");
    assert_eq!(outcome.replies, vec![":localhost PONG abc def\r\n".to_string()]);
}

#[test]
fn line_with_line_feed_only_is_dropped() {
    let config = ServerConfig::new(1234);
    let mut state = ConnectionState::new();
    let outcome = state.receive_line("PING abc\n", &config);
    assert_eq!(outcome.message, None);
    assert!(outcome.replies.is_empty());
    assert!(!outcome.registered);
    let outcome = state.receive_line("NICK alice\n", &config);
    assert_eq!(outcome.message, None);
    assert!(outcome.replies.is_empty());
    assert_eq!(state, ConnectionState::new());
}

#[test]
fn line_without_terminator_is_dropped() {
    let config = ServerConfig::new(1234);
    let mut state = ConnectionState::new();
    for raw in ["NICK alice", "NICK alice\r", "NICK alice\n\r", "", "\n", "\r"] {
        let outcome = state.receive_line(raw, &config);
        assert_eq!(outcome.message, None);
        assert!(outcome.replies.is_empty());
        assert!(!outcome.registered);
    }
    assert_eq!(state, ConnectionState::new());
}

#[test]
fn dropped_line_does_not_complete_a_registration() {
    let config = ServerConfig::new(1234);
    let mut state = ConnectionState::new();
    send(&mut state, &config, "NICK alice");
    let outcome = state.receive_line("USER alice 0 * :Alice A\n", &config);
    assert!(outcome.replies.is_empty());
    assert!(!state.registered());
    assert_eq!(state.username(), None);
}

#[test]
fn line_without_command_is_dropped() {
    let config = ServerConfig::new(1234);
    let mut state = ConnectionState::new();
    send(&mut state, &config, "NICK alice");
    let before = state.clone();
    for line in ["", "   ", "@tag", ":prefix", "@tag :prefix "] {
        let outcome = send(&mut state, &config, line);
        assert_eq!(outcome.message, None);
        assert!(outcome.replies.is_empty());
        assert!(!outcome.registered);
    }
    assert_eq!(state, before);
}

#[test]
fn outcome_holds_the_message() {
    let config = ServerConfig::new(1234);
    let mut state = ConnectionState::new();
    let outcome = send(&mut state, &config, ":me PRIVMSG #chan :hello there");
    assert_eq!(outcome.message, Some(IrcMessage::new(":me PRIVMSG #chan :hello there").unwrap()));
}

#[test]
fn handle_message_takes_a_parsed_message() {
    let config = ServerConfig::new(1234);
    let mut state = ConnectionState::new();
    let nick = IrcMessage::new("NICK dave").unwrap();
    let reaction = state.handle_message(&nick, &config);
    assert!(reaction.replies.is_empty());
    assert!(!reaction.registered);
    let user = IrcMessage::new("USER dave 0 * :Dave D").unwrap();
    let reaction = state.handle_message(&user, &config);
    assert_eq!(reaction.replies, welcome_block("dave", "dave", 1234));
    assert!(reaction.registered);
    let ping = IrcMessage::new("PING :a b").unwrap();
    let reaction = state.handle_message(&ping, &config);
    assert_eq!(reaction.replies, vec![":localhost PONG a b\r\n".to_string()]);
    assert!(!reaction.registered);
}

#[test]
fn tag_and_prefix_make_no_difference() {
    let config = ServerConfig::new(1234);
    let mut state = ConnectionState::new();
    send(&mut state, &config, "@id=1 :someone NICK erin");
    assert_eq!(state.nickname().cloned(), name("erin"));
    let outcome = send(&mut state, &config, "@id=2 PING token");
    assert_eq!(outcome.replies, vec![":localhost PONG token\r\n".to_string()]);
}

#[test]
fn connections_do_not_share_state() {
    let config = ServerConfig::new(1234);
    let mut one = ConnectionState::new();
    let mut two = ConnectionState::new();
    send(&mut one, &config, "NICK one");
    send(&mut two, &config, "USER two 0 * :Two");
    assert_eq!(one.username(), None);
    assert_eq!(two.nickname(), None);
    let outcome = send(&mut one, &config, "USER one 0 * :One");
    assert_eq!(outcome.replies, welcome_block("one", "one", 1234));
    assert!(!two.registered());
}
