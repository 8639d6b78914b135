//! Process configuration: defaults for what the environment leaves out,
//! and the address that the gateway listens on.

use vstd::prelude::*;
use crate::address::opt_str;
use crate::text::{chars_of, string_of, slice_chars, trim, trim_chars, trimmed};

verus! {

/// Whether `c` is a decimal digit.
pub open spec fn is_digit(c: char) -> bool {
    '0' <= c && c <= '9'
}

/// Whether `s` consists of decimal digits.
pub open spec fn all_digits(s: Seq<char>) -> bool {
    forall|i: int| 0 <= i < s.len() ==> is_digit(#[trigger] s[i])
}

/// The number that the decimal digits `s` write.
pub open spec fn number(s: Seq<char>) -> nat
    decreases s.len(),
{
    if s.len() == 0 {
        0
    } else {
        number(s.drop_last()) * 10 + (s.last() as u8 - '0' as u8) as nat
    }
}

/// `text` without a plus sign at its head.
pub open spec fn unsigned_part(text: Seq<char>) -> Seq<char> {
    if text.len() > 0 && text[0] == '+' {
        text.skip(1)
    } else {
        text
    }
}

/// The port that `text` writes: an optional plus sign and then one or more
/// decimal digits, leading zeros allowed, for a number of at most 65535.
/// Anything else, white space too, writes no port.
pub open spec fn parsed_port(text: Seq<char>) -> Option<u16> {
    let digits = unsigned_part(text);
    if digits.len() > 0 && all_digits(digits) && number(digits) <= u16::MAX {
        Some(number(digits) as u16)
    } else {
        None
    }
}

/// Reads a port number.
pub fn parse_port(text: &str) -> (r: Option<u16>)
    ensures
        r == parsed_port(text@),
{
    let v = chars_of(text);
    let start: usize = if v.len() > 0 && v[0] == '+' {
        1
    } else {
        0
    };
    let ghost digits = unsigned_part(text@);
    assert(digits =~= v@.skip(start as int));
    if start == v.len() {
        return None;
    }
    let mut acc: u32 = 0;
    let mut over = false;
    let mut i: usize = start;
    assert(digits.take(0) =~= Seq::<char>::empty());
    while i < v.len()
        invariant
            start <= i <= v.len(),
            digits == unsigned_part(text@),
            digits == v@.skip(start as int),
            all_digits(digits.take(i - start)),
            !over ==> acc == number(digits.take(i - start)) && acc <= u16::MAX,
            over ==> number(digits.take(i - start)) > u16::MAX,
        decreases v.len() - i,
    {
        let c = v[i];
        assert(digits[i - start] == c);
        if !('0' <= c && c <= '9') {
            assert(!is_digit(digits[i - start]));
            return None;
        }
        let ghost more = digits.take(i - start + 1);
        assert(more.drop_last() =~= digits.take(i - start));
        assert(more.last() == c);
        let d: u8 = c as u8 - 48;
        if !over {
            acc = acc * 10 + d as u32;
            if acc > 65535 {
                over = true;
            }
        }
        i += 1;
    }
    assert(digits.take(v.len() - start) =~= digits);
    if over {
        None
    } else {
        Some(acc as u16)
    }
}

/// The value to go by: what the environment holds, trimmed, unless that
/// is nothing or empty, in which case the default stands.
pub open spec fn value_or_default(value: Option<Seq<char>>, default: Seq<char>) -> Seq<char> {
    match value {
        Some(v) => if trimmed(v).len() == 0 {
            default
        } else {
            trimmed(v)
        },
        None => default,
    }
}

/// Settles a setting from what the environment holds for it.
pub fn env_or_default(value: Option<&str>, default: &str) -> (r: String)
    ensures
        r@ == value_or_default(opt_str(value), default@),
{
    match value {
        Some(v) => {
            let t = trim(v);
            if t.as_str().is_empty() {
                string_of(&chars_of(default))
            } else {
                t
            }
        },
        None => string_of(&chars_of(default)),
    }
}

/// Where to listen.
pub enum ListenAddr {
    /// On every interface, at this port.
    AnyInterface { port: u16 },
    /// At this socket address, still to be parsed.
    Socket { text: String },
}

/// The mathematical content of a `ListenAddr`.
pub enum ListenSpec {
    AnyInterface { port: u16 },
    Socket { text: Seq<char> },
}

impl View for ListenAddr {
    type V = ListenSpec;

    open spec fn view(&self) -> ListenSpec {
        match self {
            ListenAddr::AnyInterface { port } => ListenSpec::AnyInterface { port: *port },
            ListenAddr::Socket { text } => ListenSpec::Socket { text: text@ },
        }
    }
}

/// Why a listen address is refused.
#[derive(Clone, Copy, Debug, PartialEq, Eq, Structural)]
pub enum ListenError {
    /// The address is empty.
    Empty,
    /// What follows the colon is no port number.
    InvalidPort,
}

/// What a listen address stands for: trimmed, the form `:PORT` binds
/// every interface at that port, and anything else is a socket address.
pub open spec fn listen_of(raw: Seq<char>) -> Result<ListenSpec, ListenError> {
    let t = trimmed(raw);
    if t.len() == 0 {
        Err(ListenError::Empty)
    } else if t[0] == ':' {
        match parsed_port(t.skip(1)) {
            Some(port) => Ok(ListenSpec::AnyInterface { port }),
            None => Err(ListenError::InvalidPort),
        }
    } else {
        Ok(ListenSpec::Socket { text: t })
    }
}

/// Reads a listen address.
pub fn normalize_listen_addr(raw: &str) -> (r: Result<ListenAddr, ListenError>)
    ensures
        match r {
            Ok(a) => listen_of(raw@) == Ok::<ListenSpec, ListenError>(a@),
            Err(e) => listen_of(raw@) == Err::<ListenSpec, ListenError>(e),
        },
{
    let t = trim_chars(&chars_of(raw));
    if t.len() == 0 {
        return Err(ListenError::Empty);
    }
    if t[0] == ':' {
        let rest = slice_chars(&t, 1, t.len());
        assert(rest@ =~= t@.skip(1));
        match parse_port(string_of(&rest).as_str()) {
            Some(port) => Ok(ListenAddr::AnyInterface { port }),
            None => Err(ListenError::InvalidPort),
        }
    } else {
        Ok(ListenAddr::Socket { text: string_of(&t) })
    }
}

} // verus!
