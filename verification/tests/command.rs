use fake_irc_server::command::{upcase_eq, CommandKind};

#[test]
fn upcase_eq_ignores_the_case_of_the_left_side() {
    assert!(upcase_eq("nick", "NICK"));
    assert!(upcase_eq("NICK", "NICK"));
    assert!(upcase_eq("Nick", "NICK"));
    assert!(upcase_eq("", ""));
    assert!(upcase_eq("a1-z", "A1-Z"));
}

#[test]
fn upcase_eq_does_not_ignore_the_case_of_the_right_side() {
    assert!(!upcase_eq("nick", "nick"));
    assert!(!upcase_eq("NICK", "Nick"));
    assert!(!upcase_eq("a", "a"));
}

#[test]
fn upcase_eq_tells_different_words_apart() {
    assert!(!upcase_eq("nick", "NICKS"));
    assert!(!upcase_eq("nicks", "NICK"));
    assert!(!upcase_eq("", "NICK"));
    assert!(!upcase_eq("nick", ""));
    assert!(!upcase_eq("nock", "NICK"));
    assert!(!upcase_eq("{", "["));
    assert!(!upcase_eq("`", "@"));
}

#[test]
fn upcase_eq_leaves_letters_beyond_ascii_alone() {
    assert!(upcase_eq("\u{e9}a", "\u{e9}A"));
    assert!(!upcase_eq("\u{e9}", "\u{c9}"));
    assert!(!upcase_eq("\u{131}", "I"));
    assert!(!upcase_eq("\u{17f}", "S"));
}

#[test]
fn upcase_eq_agrees_with_the_standard_library() {
    let words = ["", "a", "A", "z", "Z", "`", "{", "@", "[", "nick", "NICK", "NiCk", "\u{e9}", "\u{c9}", "a\u{1F600}b", "A\u{1F600}B", "ping1", "PING1"];
    for left in words {
        for right in words {
            assert_eq!(upcase_eq(left, right), left.to_ascii_uppercase() == right);
        }
    }
}

#[test]
fn commands_are_told_apart() {
    assert_eq!(CommandKind::of("NICK"), CommandKind::Nick);
    assert_eq!(CommandKind::of("USER"), CommandKind::User);
    assert_eq!(CommandKind::of("PING"), CommandKind::Ping);
    assert_eq!(CommandKind::of("PONG"), CommandKind::Other);
    assert_eq!(CommandKind::of("JOIN"), CommandKind::Other);
    assert_eq!(CommandKind::of(""), CommandKind::Other);
}

#[test]
fn commands_are_known_in_any_case() {
    for name in ["nick", "NICK", "Nick", "nICK", "NiCk"] {
        assert_eq!(CommandKind::of(name), CommandKind::Nick);
    }
    for name in ["user", "USER", "User", "uSeR"] {
        assert_eq!(CommandKind::of(name), CommandKind::User);
    }
    for name in ["ping", "PING", "Ping", "pinG"] {
        assert_eq!(CommandKind::of(name), CommandKind::Ping);
    }
}

#[test]
fn longer_and_shorter_names_are_other_commands() {
    for name in ["NICKNAME", "NIC", "USERS", "USE", "PINGS", "PIN", " NICK", "NICK ", "N\u{130}CK"] {
        assert_eq!(CommandKind::of(name), CommandKind::Other);
    }
}
