//! The port that the server listens on, as named on the command line.

use crate::reply::{decimal, digit_char};
use vstd::prelude::*;
use vstd::std_specs::iter::IteratorSpec;
use vstd::string::*;

verus! {

/// The port that the server listens on where none is named.
pub const DEFAULT_PORT: usize = 1234;

/// Why no port could be taken from the command line.
#[derive(Debug, Clone, Copy, PartialEq, Eq)]
pub enum PortError {
    /// The argument is not a number that can be a port.
    NotANumber,
}

impl PortError {
    /// What to tell the user.
    pub fn message(&self) -> (text: String)
        ensures
            text@ == "PORT argument is not a number. Usage: fake-irc-server [PORT]"@,
    {
        "PORT argument is not a number. Usage: fake-irc-server [PORT]".to_owned()
    }
}

/// Whether `c` is one of the digits `0` to `9`.
pub open spec fn is_digit(c: char) -> bool {
    '0' <= c <= '9'
}

/// The value of the digit `c`.
pub open spec fn digit_value(c: char) -> nat {
    if is_digit(c) {
        ((c as u32) - ('0' as u32)) as nat
    } else {
        0
    }
}

/// Whether `s` holds digits only.
pub open spec fn all_digits(s: Seq<char>) -> bool {
    forall|i: int| 0 <= i < s.len() ==> is_digit(#[trigger] s[i])
}

/// The number that the digits `s` write in decimal.
pub open spec fn digits_value(s: Seq<char>) -> nat
    decreases s.len(),
{
    if s.len() == 0 {
        0
    } else {
        digits_value(s.drop_last()) * 10 + digit_value(s.last())
    }
}

/// `s` without the `+` that may stand in front of a number.
pub open spec fn without_sign(s: Seq<char>) -> Seq<char> {
    if s.len() > 0 && s[0] == '+' {
        s.drop_first()
    } else {
        s
    }
}

/// The number that `s` names: `s` is one or more decimal digits, with
/// nothing around them but for a `+` that may stand in front, and the
/// number fits the machine's word.
pub open spec fn number_in(s: Seq<char>) -> Option<usize> {
    let digits = without_sign(s);
    if digits.len() > 0 && all_digits(digits) && digits_value(digits) <= usize::MAX {
        Some(digits_value(digits) as usize)
    } else {
        None
    }
}

/// The port for a command line whose first argument is `argument`: the
/// default port where there is no argument, else the number that the
/// argument names.
pub open spec fn port_for(argument: Option<Seq<char>>) -> Result<usize, PortError> {
    match argument {
        None => Ok(DEFAULT_PORT),
        Some(text) => match number_in(text) {
            Some(port) => Ok(port),
            None => Err(PortError::NotANumber),
        },
    }
}

/// More digits never write a smaller number.
pub proof fn lemma_digits_value_grows(s: Seq<char>, k: int)
    requires
        0 <= k <= s.len(),
    ensures
        digits_value(s.take(k)) <= digits_value(s),
    decreases s.len() - k,
{
    if k < s.len() {
        lemma_digits_value_grows(s, k + 1);
        assert(s.take(k + 1).drop_last() =~= s.take(k));
        assert(digits_value(s.take(k)) <= digits_value(s.take(k)) * 10) by (nonlinear_arith);
    } else {
        assert(s.take(k) =~= s);
    }
}

/// A number written in decimal is digits only, and they write that number.
pub proof fn lemma_decimal_digits(n: nat)
    ensures
        decimal(n).len() > 0,
        all_digits(decimal(n)),
        digits_value(decimal(n)) == n,
    decreases n,
{
    let last = digit_char(n % 10);
    assert(is_digit(last) && digit_value(last) == n % 10);
    assert(decimal(n).last() == last);
    if n < 10 {
        assert(decimal(n).drop_last() =~= Seq::<char>::empty());
        assert(digits_value(decimal(n).drop_last()) == 0);
    } else {
        lemma_decimal_digits(n / 10);
        assert(decimal(n).drop_last() =~= decimal(n / 10));
        assert(digits_value(decimal(n)) == (n / 10) * 10 + n % 10);
    }
}

/// Reading undoes writing: a number that fits the machine's word, written in
/// decimal, names that number.
pub proof fn lemma_number_in_decimal(n: usize)
    ensures
        number_in(decimal(n as nat)) == Some(n),
{
    lemma_decimal_digits(n as nat);
    assert(is_digit(decimal(n as nat)[0]));
}

/// The value of `c` where it is a digit.
fn digit_of(c: char) -> (digit: Option<usize>)
    ensures
        digit == if is_digit(c) {
            Some(digit_value(c) as usize)
        } else {
            None::<usize>
        },
        is_digit(c) ==> digit_value(c) < 10,
{
    let code: u32 = c as u32;
    if code < '0' as u32 || code > '9' as u32 {
        None
    } else {
        Some((code - '0' as u32) as usize)
    }
}

/// Reads a number: decimal digits, with nothing around them but for a `+`
/// that may stand in front. Returns `None` for anything else, and for a
/// number that does not fit the machine's word.
pub fn parse_number(text: &str) -> (number: Option<usize>)
    ensures
        number == number_in(text@),
{
    let mut chars = text.chars();
    let mut next = chars.next();
    if next == Some('+') {
        next = chars.next();
    }
    let ghost digits = without_sign(text@);
    if next.is_none() {
        return None;
    }
    let mut value: usize = 0;
    let ghost mut read: int = 0;
    assert(digits.take(0) =~= Seq::<char>::empty());
    assert(digits.skip(0).drop_first() =~= digits.skip(1));
    loop
        invariant
            0 <= read <= digits.len(),
            digits == without_sign(text@),
            digits.len() > 0,
            all_digits(digits.take(read)),
            value == digits_value(digits.take(read)),
            next == if read < digits.len() {
                Some(digits[read])
            } else {
                None::<char>
            },
            read < digits.len() ==> chars.remaining() == digits.skip(read + 1),
        decreases digits.len() - read,
    {
        let c = match next {
            Some(c) => c,
            None => {
                assert(digits.take(read) =~= digits);
                return Some(value);
            },
        };
        let digit = match digit_of(c) {
            Some(digit) => digit,
            None => {
                assert(digits[read] == c);
                return None;
            },
        };
        proof {
            assert forall|i: int| 0 <= i < read + 1 implies is_digit(
                #[trigger] digits.take(read + 1)[i],
            ) by {
                if i < read {
                    assert(digits.take(read + 1)[i] == digits.take(read)[i]);
                }
            }
            assert(digits.take(read + 1).drop_last() =~= digits.take(read));
            assert(digits.take(read + 1).last() == c);
            lemma_digits_value_grows(digits, read + 1);
        }
        let tens = match value.checked_mul(10) {
            Some(tens) => tens,
            None => {
                return None;
            },
        };
        value = match tens.checked_add(digit) {
            Some(sum) => sum,
            None => {
                return None;
            },
        };
        next = chars.next();
        proof {
            read = read + 1;
            if read < digits.len() {
                assert(digits.skip(read).drop_first() =~= digits.skip(read + 1));
            }
        }
    }
}

/// Chooses the port from the first argument of the command line, if there
/// is one.
pub fn port_from_argument(argument: Option<&str>) -> (port: Result<usize, PortError>)
    ensures
        port == port_for(argument.deep_view()),
{
    match argument {
        None => Ok(DEFAULT_PORT),
        Some(text) => match parse_number(text) {
            Some(port) => Ok(port),
            None => Err(PortError::NotANumber),
        },
    }
}

} // verus!
