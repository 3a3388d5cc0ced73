use fake_irc_server::framing::{frame_line, strip_terminator};

#[test]
fn terminator_is_taken_off() {
    assert_eq!(strip_terminator("NICK alice\r\n"), Some("NICK alice"));
    assert_eq!(strip_terminator("\r\n"), Some(""));
    assert_eq!(strip_terminator("a\r\n"), Some("a"));
}

#[test]
fn only_the_last_terminator_is_taken_off() {
    assert_eq!(strip_terminator("a\r\n\r\n"), Some("a\r\n"));
    assert_eq!(strip_terminator("a\rb\nc\r\n"), Some("a\rb\nc"));
}

#[test]
fn line_feed_alone_is_no_terminator() {
    assert_eq!(strip_terminator("NICK alice\n"), None);
    assert_eq!(strip_terminator("\n"), None);
    assert_eq!(strip_terminator("a\r \n"), None);
}

#[test]
fn carriage_return_alone_is_no_terminator() {
    assert_eq!(strip_terminator("NICK alice\r"), None);
    assert_eq!(strip_terminator("\r"), None);
    assert_eq!(strip_terminator("a\n\r"), None);
}

#[test]
fn line_without_an_end_is_no_line() {
    assert_eq!(strip_terminator(""), None);
    assert_eq!(strip_terminator("a"), None);
    assert_eq!(strip_terminator("NICK alice"), None);
}

#[test]
fn terminator_behind_text_beyond_ascii() {
    assert_eq!(strip_terminator("h\u{e9}llo \u{1F600}\r\n"), Some("h\u{e9}llo \u{1F600}"));
    assert_eq!(strip_terminator("\u{1F600}\r\n"), Some("\u{1F600}"));
    assert_eq!(strip_terminator("\u{1F600}\n"), None);
    assert_eq!(strip_terminator("\r\u{1F600}\n"), None);
    // characters whose encodings end in the bytes of neither terminator
    assert_eq!(strip_terminator("\u{10d}\u{10a}"), None);
    assert_eq!(strip_terminator("\u{4d}\u{34a}"), None);
    assert_eq!(strip_terminator("\u{e9}"), None);
}

#[test]
fn terminator_is_put_behind() {
    assert_eq!(frame_line("hello"), "hello\r\n");
    assert_eq!(frame_line(""), "\r\n");
    assert_eq!(frame_line("h\u{e9}llo w\u{f6}rld"), "h\u{e9}llo w\u{f6}rld\r\n");
}

#[test]
fn framing_and_stripping_undo_each_other() {
    for text in ["", "a", "hello world", "\r\n", "x\r", "\u{1F600}"] {
        let line = frame_line(text);
        assert_eq!(strip_terminator(&line), Some(text));
    }
}
