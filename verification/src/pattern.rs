//! Regular-expression support for the executor.
//!
//! A pattern is the text between the slashes of a `/…/` literal. Whether
//! it compiles, and whether it matches a given text, are delegated to an
//! outside crate through the two trusted items below; the executor is
//! verified for every answer they can give.

use vstd::prelude::*;

verus! {

/// Whether the pattern compiles as a regular expression. A pattern that
/// is not valid UTF-8 does not compile.
pub uninterp spec fn regex_valid(p: Seq<u8>) -> bool;

/// Whether the (valid) pattern matches somewhere in the text.
pub uninterp spec fn regex_match(p: Seq<u8>, t: Seq<u8>) -> bool;

/// Relies on `regex::bytes::Regex::new`: returns whether the pattern
/// compiles.
#[verifier::external_body]
pub(crate) fn regex_ok(p: &[u8]) -> (r: bool)
    ensures
        r == regex_valid(p@),
{
    match core::str::from_utf8(p) {
        Err(_) => false,
        Ok(text) => regex::bytes::Regex::new(text).is_ok(),
    }
}

/// Relies on `regex::bytes::Regex::new` and `Regex::is_match`: whether
/// the compiled pattern matches somewhere in `t`.
#[verifier::external_body]
pub(crate) fn regex_find(p: &[u8], t: &[u8]) -> (r: bool)
    requires
        regex_valid(p@),
    ensures
        r == regex_match(p@, t@),
{
    let re = regex::bytes::Regex::new(core::str::from_utf8(p).unwrap()).unwrap();
    re.is_match(t)
}

} // verus!
