//! The errors that a statistics request can end in.

use vstd::prelude::*;
use vstd::string::*;

use crate::hashrate::{digit_char, digit_text};

verus! {

/// Why a response body could not be read as user statistics.
#[derive(Debug, Clone)]
pub enum DecodeError {
    /// The body is not the expected JSON document; the parser's message.
    Json(String),
    /// A numeric text is not a decimal literal; the offending text.
    InvalidNumber(String),
    /// A field holds text that does not decode: the field's wire name and its raw text.
    Field { field: String, text: String },
}

/// How a statistics request failed.
#[derive(Debug)]
pub enum Error {
    /// The request target could not be built from the base URL and the identifier.
    InvalidEndpoint(url::ParseError),
    /// The exchange failed before a status line came back, or while the body
    /// was read; the transport's message.
    Transport(String),
    /// The pool answered "not found" for the per-user path.
    UserNotFound,
    /// The pool answered with another status outside 200..=299.
    Upstream(u16),
    /// The body is not a user statistics document.
    Decode(DecodeError),
}

/// The decimal text of `n`, without leading zeros.
pub open spec fn decimal_text(n: nat) -> Seq<char>
    decreases n,
{
    if n < 10 {
        seq![digit_char(n)]
    } else {
        decimal_text(n / 10).push(digit_char(n % 10))
    }
}

/// The message of an error: the URL parser's own text for
/// `InvalidEndpoint`, the transport's for `Transport`.
pub open spec fn message_text(e: Error) -> Seq<char> {
    match e {
        Error::InvalidEndpoint(p) => parse_error_message(p),
        Error::Transport(m) => m@,
        Error::UserNotFound => "User not found"@,
        Error::Upstream(code) => "HTTP status "@ + decimal_text(code as nat),
        Error::Decode(DecodeError::Json(m)) => m@,
        Error::Decode(DecodeError::InvalidNumber(t)) => "invalid number: "@ + t@,
        Error::Decode(DecodeError::Field { field, text }) => "invalid value in field "@ + field@
            + ": "@ + text@,
    }
}

/// The text that the `Display` of url::ParseError writes for `e`.
pub uninterp spec fn parse_error_message(e: url::ParseError) -> Seq<char>;

/// Relies on the `Display` of url::ParseError: a fixed short description
/// for each kind of parse failure.
#[verifier::external_body]
fn parse_error_text(e: &url::ParseError) -> (r: String)
    ensures
        r@ == parse_error_message(*e),
{
    format!("{}", e)
}

/// Appends the decimal text of `n` to `s`.
fn append_decimal(s: &mut String, n: u16)
    ensures
        final(s)@ == old(s)@ + decimal_text(n as nat),
    decreases n,
{
    if n >= 10 {
        append_decimal(s, n / 10);
    }
    s.append(digit_text((n % 10) as u8));
    proof {
        if n >= 10 {
            assert(old(s)@ + decimal_text(n as nat) == old(s)@ + decimal_text((n / 10) as nat)
                + seq![digit_char((n % 10) as nat)]);
        } else {
            assert(n % 10 == n);
        }
    }
}

impl Error {
    /// A readable message, as `message_text` gives it.
    pub fn message(&self) -> (r: String)
        ensures
            r@ == message_text(*self),
    {
        match self {
            Error::InvalidEndpoint(e) => parse_error_text(e),
            Error::Transport(m) => m.clone(),
            Error::UserNotFound => String::from_str("User not found"),
            Error::Upstream(code) => {
                let mut s = String::from_str("HTTP status ");
                append_decimal(&mut s, *code);
                s
            },
            Error::Decode(DecodeError::Json(m)) => m.clone(),
            Error::Decode(DecodeError::InvalidNumber(t)) => {
                let mut s = String::from_str("invalid number: ");
                s.append(t.as_str());
                s
            },
            Error::Decode(DecodeError::Field { field, text }) => {
                let mut s = String::from_str("invalid value in field ");
                s.append(field.as_str());
                s.append(": ");
                s.append(text.as_str());
                s
            },
        }
    }
}

} // verus!
