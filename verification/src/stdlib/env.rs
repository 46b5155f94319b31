//! What the environment functions decide before they touch the environment.
use vstd::prelude::*;
use vstd::utf8::{decode_utf8, valid_utf8};
use super::errno::{einval, text_of};

verus! {

/// The name and value that `set` stores: both must be UTF-8 (else `EINVAL`),
/// and the name must not be empty (else `EINVAL`).
pub fn assignment(key: &[u8], value: &[u8]) -> (r: Result<(String, String), i32>)
    ensures
        r is Ok <==> valid_utf8(key@) && valid_utf8(value@) && key@.len() > 0,
        r is Err ==> r == Err::<(String, String), i32>(22),
        r matches Ok((k, v)) ==> k@ == decode_utf8(key@) && v@ == decode_utf8(value@),
{
    let k = match text_of(key) {
        Ok(k) => k,
        Err(e) => return Err(e),
    };
    let v = match text_of(value) {
        Ok(v) => v,
        Err(e) => return Err(e),
    };
    if key.len() == 0 {
        return Err(einval());
    }
    Ok((k, v))
}

/// The name that `unset` removes: it must be UTF-8 and not empty (else `EINVAL`).
pub fn removal(key: &[u8]) -> (r: Result<String, i32>)
    ensures
        r is Ok <==> valid_utf8(key@) && key@.len() > 0,
        r is Err ==> r == Err::<String, i32>(22),
        r matches Ok(k) ==> k@ == decode_utf8(key@),
{
    let k = match text_of(key) {
        Ok(k) => k,
        Err(e) => return Err(e),
    };
    if key.len() == 0 {
        return Err(einval());
    }
    Ok(k)
}

} // verus!
