//! The decisions of one statistics request: its target, the meaning of the
//! status that came back, and the decoding of the document.

use vstd::prelude::*;
use vstd::string::*;

use crate::error::{DecodeError, Error};
use crate::response::{is_field_error, user_decoded, user_stats_fault, RawUserStats, UserStats};

verus! {

/// What `url::Url::join` gives for `input` against `base`: the parse of
/// `input` as a URL relative to `base`, or the parse error.
pub uninterp spec fn joined(base: url::Url, input: Seq<char>) -> Result<url::Url, url::ParseError>;

/// Relies on url::Url::join: `input` parsed as a URL relative to `base`;
/// the result depends on the two arguments alone.
#[verifier::external_body]
fn join(base: &url::Url, input: &str) -> (r: Result<url::Url, url::ParseError>)
    ensures
        r == joined(*base, input@),
{
    base.join(input)
}

/// Characters that stand for themselves in a path segment: ASCII letters
/// and digits, `-._~`, and every non-ASCII character (which the URL parser
/// percent-encodes as UTF-8 itself).
pub open spec fn segment_keeps(c: char) -> bool {
    ('a' <= c && c <= 'z') || ('A' <= c && c <= 'Z') || ('0' <= c && c <= '9') || c == '-' || c
        == '.' || c == '_' || c == '~' || c as u32 >= 128
}

/// The upper-case hexadecimal digit of `d`.
pub open spec fn hex_digit(d: nat) -> char {
    "0123456789ABCDEF"@[d as int]
}

/// One character as it stands in a path segment: itself, or `%` and the
/// two hexadecimal digits of its ASCII code.
pub open spec fn encode_char(c: char) -> Seq<char> {
    if segment_keeps(c) {
        seq![c]
    } else {
        seq!['%', hex_digit((c as u32 / 16) as nat), hex_digit((c as u32 % 16) as nat)]
    }
}

/// `s` percent-encoded as one path segment, character by character.
pub open spec fn segment_of(s: Seq<char>) -> Seq<char>
    decreases s.len(),
{
    if s.len() == 0 {
        seq![]
    } else {
        segment_of(s.drop_last()) + encode_char(s.last())
    }
}

/// Percent-encodes `s` as one path segment, so that `/`, `?`, `#`, `:` and
/// the other ASCII marks cannot change the request target.
pub fn path_segment(s: &str) -> (r: String)
    ensures
        r@ == segment_of(s@),
{
    let hex = "0123456789ABCDEF";
    proof {
        reveal_strlit("0123456789ABCDEF");
        reveal_strlit("%");
    }
    let n = s.unicode_len();
    let mut r = String::new();
    let mut i: usize = 0;
    while i < n
        invariant
            n == s@.len(),
            i <= n,
            hex@ == "0123456789ABCDEF"@,
            hex@.len() == 16,
            "%"@ == seq!['%'],
            r@ == segment_of(s@.take(i as int)),
        decreases n - i,
    {
        let c = s.get_char(i);
        let ghost before = r@;
        if ('a' <= c && c <= 'z') || ('A' <= c && c <= 'Z') || ('0' <= c && c <= '9') || c == '-'
            || c == '.' || c == '_' || c == '~' || c as u32 >= 128 {
            let one = s.substring_char(i, i + 1);
            assert(one@ =~= seq![c]);
            r.append(one);
        } else {
            let u = c as u32;
            let hi = (u / 16) as usize;
            let lo = (u % 16) as usize;
            let h = hex.substring_char(hi, hi + 1);
            let l = hex.substring_char(lo, lo + 1);
            assert(h@ =~= seq![hex_digit(hi as nat)]);
            assert(l@ =~= seq![hex_digit(lo as nat)]);
            r.append("%");
            r.append(h);
            r.append(l);
            assert(r@ =~= before + encode_char(c));
        }
        assert(s@.take(i + 1).drop_last() == s@.take(i as int));
        i = i + 1;
    }
    assert(s@.take(n as int) == s@);
    r
}

/// The per-user statistics URL: `base` joined with `/users/`, then with
/// `identifier` percent-encoded as one path segment. A failure of either
/// join is `InvalidEndpoint`, carrying the parser's error.
pub fn user_url(base: &url::Url, identifier: &str) -> (r: Result<url::Url, Error>)
    ensures
        r matches Ok(u) ==> joined(*base, "/users/"@) matches Ok(b) && joined(
            b,
            segment_of(identifier@),
        ) == Ok::<url::Url, url::ParseError>(u),
        r is Err <==> (joined(*base, "/users/"@) is Err || (joined(*base, "/users/"@) matches Ok(
            b,
        ) && joined(b, segment_of(identifier@)) is Err)),
        r matches Err(e) ==> e matches Error::InvalidEndpoint(p) && (joined(*base, "/users/"@)
            == Err::<url::Url, url::ParseError>(p) || (joined(*base, "/users/"@) matches Ok(b)
            && joined(b, segment_of(identifier@)) == Err::<url::Url, url::ParseError>(p))),
{
    let users = match join(base, "/users/") {
        Ok(u) => u,
        Err(e) => return Err(Error::InvalidEndpoint(e)),
    };
    let segment = path_segment(identifier);
    match join(&users, segment.as_str()) {
        Ok(u) => Ok(u),
        Err(e) => Err(Error::InvalidEndpoint(e)),
    }
}

/// The status codes of success.
pub open spec fn is_success(status: u16) -> bool {
    200 <= status && status <= 299
}

/// What a status line on the per-user path means: success for 2xx,
/// `UserNotFound` for 404, `Upstream` with the code for any other.
pub open spec fn status_outcome_is(status: u16, r: Result<(), Error>) -> bool {
    if is_success(status) {
        r is Ok
    } else if status == 404 {
        r matches Err(Error::UserNotFound)
    } else {
        r matches Err(Error::Upstream(code)) && code == status
    }
}

/// Classifies the status of a response on the per-user path, before any
/// body is read.
pub fn classify_status(status: u16) -> (r: Result<(), Error>)
    ensures
        status_outcome_is(status, r),
{
    if 200 <= status && status <= 299 {
        Ok(())
    } else if status == 404 {
        Err(Error::UserNotFound)
    } else {
        Err(Error::Upstream(status))
    }
}

/// Classifies what the transport reported for the request: a failure
/// before any status line is `Transport`, carrying the failure's message;
/// a status is classified as `classify_status` does.
pub fn classify_response(sent: Result<u16, String>) -> (r: Result<(), Error>)
    ensures
        match sent {
            Ok(status) => status_outcome_is(status, r),
            Err(t) => r matches Err(Error::Transport(e)) && e@ == t@,
        },
{
    match sent {
        Ok(status) => classify_status(status),
        Err(t) => Err(Error::Transport(t)),
    }
}

/// Turns the body of a successful response into user stats. `document`
/// is the JSON document's values, or the JSON parser's message where the
/// body is not such a document; either failure is `Decode`.
pub fn decode_document(document: Result<RawUserStats, String>) -> (r: Result<UserStats, Error>)
    ensures
        match document {
            Err(msg) => r matches Err(Error::Decode(DecodeError::Json(m))) && m@ == msg@,
            Ok(raw) => {
                &&& r is Ok <==> user_stats_fault(raw) is None
                &&& r matches Ok(s) ==> user_decoded(raw, s) && s.wf()
                &&& r matches Err(Error::Decode(e)) ==> user_stats_fault(raw) matches Some(f)
                    && is_field_error(e, f)
                &&& r is Err ==> r matches Err(Error::Decode(_))
            },
        },
{
    match document {
        Err(msg) => Err(Error::Decode(DecodeError::Json(msg))),
        Ok(raw) => match UserStats::decode(&raw) {
            Ok(s) => Ok(s),
            Err(e) => Err(Error::Decode(e)),
        },
    }
}

} // verus!
