//! Recognising the commands that the connection handler reacts to. Command
//! names are compared without regard to ASCII case.

use vstd::prelude::*;
use vstd::std_specs::iter::IteratorSpec;
use vstd::string::*;

verus! {

/// The ASCII upper case form of `c`: `a` to `z` become `A` to `Z`, every
/// other character stays as it is.
pub open spec fn ascii_upper(c: char) -> char {
    if 'a' <= c <= 'z' {
        ((c as u32) - 32) as char
    } else {
        c
    }
}

/// `s` with each character in its ASCII upper case form.
pub open spec fn to_ascii_uppercase(s: Seq<char>) -> Seq<char> {
    Seq::new(s.len(), |i: int| ascii_upper(s[i]))
}

/// Whether `c` in upper case is `upper`.
fn upper_is(c: char, upper: char) -> (same: bool)
    ensures
        same == (ascii_upper(c) == upper),
{
    let code: u32 = c as u32;
    if 'a' as u32 <= code && code <= 'z' as u32 {
        code - 32 == upper as u32
    } else {
        c == upper
    }
}

/// Whether `left`, put in ASCII upper case, is `right`.
pub fn upcase_eq(left: &str, right: &str) -> (same: bool)
    ensures
        same == (to_ascii_uppercase(left@) == right@),
{
    let mut lefts = left.chars();
    let mut rights = right.chars();
    let ghost mut at: int = 0;
    loop
        invariant
            0 <= at <= left@.len(),
            at <= right@.len(),
            lefts.remaining() == left@.skip(at),
            rights.remaining() == right@.skip(at),
            to_ascii_uppercase(left@).take(at) == right@.take(at),
        decreases left@.len() - at,
    {
        let l = lefts.next();
        let r = rights.next();
        match (l, r) {
            (Some(a), Some(b)) => {
                if !upper_is(a, b) {
                    proof {
                        assert(to_ascii_uppercase(left@)[at] != right@[at]);
                    }
                    return false;
                }
                proof {
                    assert(to_ascii_uppercase(left@).take(at + 1) =~= to_ascii_uppercase(
                        left@,
                    ).take(at).push(ascii_upper(a)));
                    assert(right@.take(at + 1) =~= right@.take(at).push(b));
                    assert(left@.skip(at).drop_first() =~= left@.skip(at + 1));
                    assert(right@.skip(at).drop_first() =~= right@.skip(at + 1));
                    at = at + 1;
                }
            },
            (None, None) => {
                proof {
                    assert(to_ascii_uppercase(left@).take(at) =~= to_ascii_uppercase(left@));
                    assert(right@.take(at) =~= right@);
                }
                return true;
            },
            _ => {
                proof {
                    assert(to_ascii_uppercase(left@).len() != right@.len());
                }
                return false;
            },
        }
    }
}

/// The commands that the connection handler tells apart.
#[derive(Debug, Clone, Copy, PartialEq, Eq)]
pub enum CommandKind {
    /// `NICK`: the client names its nickname.
    Nick,
    /// `USER`: the client names its user name and real name.
    User,
    /// `PING`: the client asks for a `PONG`.
    Ping,
    /// Any other command.
    Other,
}

/// The kind of the command `name`, whatever the case of its letters.
pub open spec fn command_kind(name: Seq<char>) -> CommandKind {
    let upper = to_ascii_uppercase(name);
    if upper == "NICK"@ {
        CommandKind::Nick
    } else if upper == "USER"@ {
        CommandKind::User
    } else if upper == "PING"@ {
        CommandKind::Ping
    } else {
        CommandKind::Other
    }
}

impl CommandKind {
    /// Classifies a command name.
    pub fn of(name: &str) -> (kind: CommandKind)
        ensures
            kind == command_kind(name@),
    {
        if upcase_eq(name, "NICK") {
            CommandKind::Nick
        } else if upcase_eq(name, "USER") {
            CommandKind::User
        } else if upcase_eq(name, "PING") {
            CommandKind::Ping
        } else {
            CommandKind::Other
        }
    }
}

/// Two names that differ only in the case of ASCII letters are the same
/// command.
pub proof fn lemma_command_kind_ignores_case(a: Seq<char>, b: Seq<char>)
    requires
        to_ascii_uppercase(a) == to_ascii_uppercase(b),
    ensures
        command_kind(a) == command_kind(b),
{
}

/// Putting a name in upper case does not change which command it is.
pub proof fn lemma_command_kind_of_uppercase(name: Seq<char>)
    ensures
        command_kind(to_ascii_uppercase(name)) == command_kind(name),
{
    assert(to_ascii_uppercase(to_ascii_uppercase(name)) =~= to_ascii_uppercase(name));
}

} // verus!
