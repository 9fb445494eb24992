//! Parse errors: what went wrong, and on which line.
use vstd::prelude::*;

use crate::parser::utils::{chars_of, string_of};

verus! {

/// The kinds of parse errors.
#[derive(Clone, Copy, Debug, PartialEq, Eq, Hash, Structural)]
pub enum Kind {
    /// The document has no content.
    Empty,
    /// An expected line (counts, a vertex, a face) is absent.
    Missing,
    /// A configured limit was exceeded.
    LimitExceeded,
    /// The first line is not `OFF`.
    InvalidHeader,
    /// The counts line is malformed.
    InvalidCounts,
    /// A vertex position is malformed.
    InvalidVertexPosition,
    /// A color is malformed or out of range.
    InvalidColor,
    /// A face line is malformed.
    InvalidFace,
    /// The vertex indices of a face are malformed or out of range.
    InvalidFaceIndex,
}

/// An error found while parsing, with the zero-based index of the physical
/// line it was found on.
#[derive(Clone, Debug, PartialEq, Eq, Hash)]
pub struct Error {
    pub kind: Kind,
    pub line_index: usize,
    pub message: Option<String>,
}

impl Kind {
    /// The name of the kind.
    pub open spec fn spec_name(self) -> Seq<char> {
        match self {
            Kind::Empty => "Empty"@,
            Kind::Missing => "Missing"@,
            Kind::LimitExceeded => "LimitExceeded"@,
            Kind::InvalidHeader => "InvalidHeader"@,
            Kind::InvalidCounts => "InvalidCounts"@,
            Kind::InvalidVertexPosition => "InvalidVertexPosition"@,
            Kind::InvalidColor => "InvalidColor"@,
            Kind::InvalidFace => "InvalidFace"@,
            Kind::InvalidFaceIndex => "InvalidFaceIndex"@,
        }
    }

    /// The name of the kind, as it is shown to users.
    pub fn name(&self) -> (r: &'static str)
        ensures
            r@ == self.spec_name(),
    {
        match self {
            Kind::Empty => "Empty",
            Kind::Missing => "Missing",
            Kind::LimitExceeded => "LimitExceeded",
            Kind::InvalidHeader => "InvalidHeader",
            Kind::InvalidCounts => "InvalidCounts",
            Kind::InvalidVertexPosition => "InvalidVertexPosition",
            Kind::InvalidColor => "InvalidColor",
            Kind::InvalidFace => "InvalidFace",
            Kind::InvalidFaceIndex => "InvalidFaceIndex",
        }
    }
}

/// The decimal digit character for `d`.
pub open spec fn digit_char(d: int) -> char {
    if d == 0 {
        '0'
    } else if d == 1 {
        '1'
    } else if d == 2 {
        '2'
    } else if d == 3 {
        '3'
    } else if d == 4 {
        '4'
    } else if d == 5 {
        '5'
    } else if d == 6 {
        '6'
    } else if d == 7 {
        '7'
    } else if d == 8 {
        '8'
    } else {
        '9'
    }
}

/// The decimal numeral of `n`, without leading zeros.
pub open spec fn decimal_chars(n: nat) -> Seq<char>
    decreases n,
{
    if n < 10 {
        seq![digit_char(n as int)]
    } else {
        decimal_chars(n / 10).push(digit_char((n % 10) as int))
    }
}

/// How an error is shown: `<kind> @ ln:<line number>`, then ` - <message>`
/// when there is one; line numbers count from 1.
pub open spec fn error_text(kind: Kind, line_index: int, message: Option<Seq<char>>) -> Seq<char> {
    kind.spec_name() + " @ ln:"@ + decimal_chars((line_index + 1) as nat) + match message {
        Some(m) => " - "@ + m,
        None => Seq::empty(),
    }
}

fn digit_to_char(d: u128) -> (r: char)
    requires
        d < 10,
    ensures
        r == digit_char(d as int),
{
    match d {
        0 => '0',
        1 => '1',
        2 => '2',
        3 => '3',
        4 => '4',
        5 => '5',
        6 => '6',
        7 => '7',
        8 => '8',
        _ => '9',
    }
}

/// Appends the decimal numeral of `n`.
fn push_decimal(n: u128, out: &mut Vec<char>)
    ensures
        final(out)@ == old(out)@ + decimal_chars(n as nat),
    decreases n,
{
    if n >= 10 {
        push_decimal(n / 10, out);
    }
    let ghost mid = out@;
    out.push(digit_to_char(n % 10));
    proof {
        if n >= 10 {
            assert(old(out)@ + decimal_chars((n / 10) as nat) == mid);
            assert(decimal_chars(n as nat) == decimal_chars((n / 10) as nat).push(
                digit_char((n % 10) as int),
            ));
            assert(out@ == old(out)@ + decimal_chars(n as nat));
        } else {
            assert(mid == old(out)@);
            assert(decimal_chars(n as nat) == seq![digit_char(n as int)]);
            assert(out@ == old(out)@ + decimal_chars(n as nat));
        }
    }
}

/// Appends the characters of `s`.
fn push_str(s: &str, out: &mut Vec<char>)
    ensures
        final(out)@ == old(out)@ + s@,
{
    let mut chars = chars_of(s);
    out.append(&mut chars);
}

/// The message of a limit that was exceeded: `<what> exceeds limit (limit:
/// <limit>, actual: <actual>)`.
pub fn limit_message(what: &str, limit: usize, actual: usize) -> (r: String)
    ensures
        r@ == what@ + " exceeds limit (limit: "@ + decimal_chars(limit as nat) + ", actual: "@
            + decimal_chars(actual as nat) + ")"@,
{
    let mut out: Vec<char> = Vec::new();
    push_str(what, &mut out);
    push_str(" exceeds limit (limit: ", &mut out);
    push_decimal(limit as u128, &mut out);
    push_str(", actual: ", &mut out);
    push_decimal(actual as u128, &mut out);
    push_str(")", &mut out);
    string_of(out.as_slice())
}

impl Error {
    /// The error as it is shown to users: `<kind> @ ln:<line number>`, then
    /// ` - <message>` when there is one. Line numbers count from 1.
    pub fn to_text(&self) -> (r: String)
        ensures
            r@ == error_text(
                self.kind,
                self.line_index as int,
                match self.message {
                    Some(m) => Some(m@),
                    None => None,
                },
            ),
    {
        let mut out: Vec<char> = Vec::new();
        push_str(self.kind.name(), &mut out);
        push_str(" @ ln:", &mut out);
        push_decimal(self.line_index as u128 + 1, &mut out);
        let ghost head = out@;
        match &self.message {
            Some(m) => {
                push_str(" - ", &mut out);
                push_str(m.as_str(), &mut out);
                assert(out@ == head + (" - "@ + m@));
            },
            None => {
                assert(out@ == head + Seq::<char>::empty());
            },
        }
        string_of(out.as_slice())
    }

    /// Creates a new error with the given kind, line index and optional message.
    pub fn new(kind: Kind, line_index: usize, message: Option<String>) -> (r: Error)
        ensures
            r.kind == kind,
            r.line_index == line_index,
            r.message == message,
    {
        Error { kind, line_index, message }
    }

    /// Creates a new error with the given kind, line index and message.
    pub fn with_message(kind: Kind, line_index: usize, message: &str) -> (r: Error)
        ensures
            r.kind == kind,
            r.line_index == line_index,
            r.message matches Some(m) && m@ == message@,
    {
        Error::new(kind, line_index, Some(message.to_owned()))
    }

    /// Creates a new error with the given kind and line index, without a message.
    pub fn without_message(kind: Kind, line_index: usize) -> (r: Error)
        ensures
            r.kind == kind,
            r.line_index == line_index,
            r.message is None,
    {
        Error::new(kind, line_index, None)
    }
}

} // verus!
