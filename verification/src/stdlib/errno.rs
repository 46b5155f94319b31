//! Error codes of the POSIX layer, and the text of byte strings.
use vstd::prelude::*;
use vstd::utf8::{decode_utf8, valid_utf8};

verus! {

/// Calls `std::str::from_utf8` and copies the text it accepts into a `String`.
/// The contract states that it accepts exactly well-formed UTF-8 and that the
/// text holds the characters that the bytes encode.
#[verifier::external_body]
pub(crate) fn utf8_text(input: &[u8]) -> (r: Option<String>)
    ensures
        r is Some <==> valid_utf8(input@),
        r matches Some(t) ==> t@ == decode_utf8(input@),
{
    std::str::from_utf8(input).ok().map(|t| t.to_string())
}

/// Returns `libc::EINVAL`, which the `libc` crate defines as 22 on Linux.
#[verifier::external_body]
pub(crate) fn einval() -> (r: i32)
    ensures
        r == 22,
{
    libc::EINVAL
}

/// The text of a byte string that names something (a path, a variable):
/// `EINVAL` when the bytes are not UTF-8.
pub fn text_of(input: &[u8]) -> (r: Result<String, i32>)
    ensures
        valid_utf8(input@) ==> (r matches Ok(t) && t@ == decode_utf8(input@)),
        !valid_utf8(input@) ==> r == Err::<String, i32>(22),
{
    match utf8_text(input) {
        Some(t) => Ok(t),
        None => Err(einval()),
    }
}

} // verus!
