//! Random tokens.
use crate::text;
use vstd::prelude::*;

verus! {

/// A random token: the bytes that the system's random source gave, where it could
/// be read, in hexadecimal.
pub fn random_hex(bytes: Option<&[u8]>) -> (r: Result<String, &'static str>)
    ensures
        match r {
            Ok(s) => bytes matches Some(b) && s@ == text::hex_of(b@),
            Err(e) => bytes is None && e@ == "System randomness unavailable"@,
        },
{
    match bytes {
        Some(b) => Ok(text::hex(b)),
        None => Err("System randomness unavailable"),
    }
}

} // verus!
