//! The boundary between the verified core, which works on words of
//! characters, and the `String`/`&str`/byte types of its callers. The
//! three conversions below are the only code the crate takes on trust.

use vstd::prelude::*;
use vstd::utf8::decode_utf8;
use vstd::utf8::valid_utf8;

verus! {

/// Relies on `core::str::from_utf8`, which succeeds exactly on valid
/// UTF-8, and on `str::chars`, which yields the characters of the
/// decoded text in order.
#[verifier::external_body]
pub(crate) fn decode_utf8_chars(b: &[u8]) -> (r: Option<Vec<char>>)
    ensures
        r is Some <==> valid_utf8(b@),
        r matches Some(v) ==> v@ == decode_utf8(b@),
{
    core::str::from_utf8(b).ok().map(|s| s.chars().collect())
}

/// Relies on `str::chars`: it yields exactly the characters of the
/// string, in order.
#[verifier::external_body]
pub(crate) fn str_to_chars(s: &str) -> (r: Vec<char>)
    ensures
        r@ == s@,
{
    s.chars().collect()
}

/// Relies on `String`'s `FromIterator<char>`: the collected string holds
/// exactly the characters of the word, in order.
#[verifier::external_body]
pub(crate) fn chars_to_string(v: &Vec<char>) -> (r: String)
    ensures
        r@ == v@,
{
    v.iter().collect()
}

} // verus!
