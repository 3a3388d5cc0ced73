use fake_irc_server::framing::strip_terminator;
use fake_irc_server::message::{IrcError, IrcMessage};
use fake_irc_server::port::parse_number;

/// Every string of up to `length` characters of `alphabet`.
fn strings_over(alphabet: &[char], length: usize) -> Vec<String> {
    let mut all = vec![String::new()];
    let mut last = vec![String::new()];
    for _ in 0..length {
        let mut next = Vec::new();
        for text in &last {
            for c in alphabet {
                let mut longer = text.clone();
                longer.push(*c);
                next.push(longer);
            }
        }
        all.extend(next.iter().cloned());
        last = next;
    }
    all
}

fn is_space(c: char) -> bool {
    c.is_ascii_whitespace()
}

/// Splits a word off the front of `text`.
fn split_word(text: &str) -> (&str, &str) {
    let end = text.find(is_space).unwrap_or(text.len());
    text.split_at(end)
}

/// The same grammar, written with the string functions of the standard
/// library.
fn parse_with_std(line: &str) -> Result<IrcMessage, IrcError> {
    let mut rest = line.trim_start_matches(is_space);
    let mut tag = None;
    if let Some(body) = rest.strip_prefix('@') {
        let (word, behind) = split_word(body);
        tag = Some(word.to_string());
        rest = behind;
    }
    rest = rest.trim_start_matches(is_space);
    let mut prefix = None;
    if let Some(body) = rest.strip_prefix(':') {
        let (word, behind) = split_word(body);
        prefix = Some(word.to_string());
        rest = behind;
    }
    rest = rest.trim_start_matches(is_space);
    let (command, behind) = split_word(rest);
    if command.is_empty() {
        return Err(IrcError::NoCommand);
    }
    rest = behind;
    let mut params = Vec::new();
    loop {
        rest = rest.trim_start_matches(is_space);
        if rest.is_empty() {
            break;
        }
        if let Some(last) = rest.strip_prefix(':') {
            params.push(last.to_string());
            break;
        }
        let (word, behind) = split_word(rest);
        params.push(word.to_string());
        rest = behind;
    }
    Ok(IrcMessage { tag, prefix, command: command.to_string(), params })
}

#[test]
fn short_lines_parse_as_with_the_standard_library() {
    let alphabet = [' ', '\t', ':', '@', 'a', '\u{e9}', '\u{1F600}'];
    for line in strings_over(&alphabet, 6) {
        assert_eq!(IrcMessage::new(&line), parse_with_std(&line), "line {:?}", line);
    }
}

#[test]
fn lines_of_words_parse_as_with_the_standard_library() {
    let pieces = ["@t", ":p", "CMD", "a:b", ":", " ", "  ", "\r", "\u{4e16}", ":x y", "@"];
    let mut lines = vec![String::new()];
    let mut last = vec![String::new()];
    for _ in 0..5 {
        let mut next = Vec::new();
        for text in &last {
            for piece in pieces {
                next.push(format!("{text}{piece}"));
            }
        }
        lines.extend(next.iter().cloned());
        last = next;
    }
    for line in lines {
        assert_eq!(IrcMessage::new(&line), parse_with_std(&line), "line {:?}", line);
    }
}

#[test]
fn terminators_are_found_as_with_the_standard_library() {
    let alphabet = ['\r', '\n', 'a', '\u{10a}', '\u{34d}', '\u{1F60D}'];
    for raw in strings_over(&alphabet, 5) {
        assert_eq!(strip_terminator(&raw), raw.strip_suffix("\r\n"), "raw {:?}", raw);
    }
}

#[test]
fn short_numbers_are_read_as_with_the_standard_library() {
    let alphabet = ['0', '1', '9', '+', '-', ' ', 'a', '\u{661}'];
    for text in strings_over(&alphabet, 5) {
        assert_eq!(parse_number(&text), text.parse::<usize>().ok(), "text {:?}", text);
    }
}

#[test]
fn long_numbers_are_read_as_with_the_standard_library() {
    let largest = usize::MAX.to_string();
    let digits = ['0', '1', '5', '6', '9'];
    for cut in 0..largest.len() {
        for digit in digits {
            let mut text = largest.clone();
            text.replace_range(cut..cut + 1, &digit.to_string());
            assert_eq!(parse_number(&text), text.parse::<usize>().ok(), "text {:?}", text);
            text.push(digit);
            assert_eq!(parse_number(&text), text.parse::<usize>().ok(), "text {:?}", text);
        }
    }
}
