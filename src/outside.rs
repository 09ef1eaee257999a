//! Types of the outside crates that values of this library carry.

use vstd::prelude::*;

verus! {

/// The URL parser's error type, carried through unread.
#[verifier::external_type_specification]
#[verifier::external_body]
pub struct ExParseError(url::ParseError);

/// The URL type, carried through unread.
#[verifier::external_type_specification]
#[verifier::external_body]
pub struct ExUrl(url::Url);

} // verus!
