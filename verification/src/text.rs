//! The one step the library does not compute itself: turning accumulated
//! bytes into a `String`.

use vstd::prelude::*;
use vstd::utf8::decode_utf8;
use vstd::utf8::valid_utf8;

verus! {

/// Relies on `String::from_utf8`: it returns `Ok` exactly when the bytes are
/// valid UTF-8, and the string it then returns consists of their decoding.
#[verifier::external_body]
pub fn bytes_to_string(v: &Vec<u8>) -> (r: Option<String>)
    ensures
        r is Some <==> valid_utf8(v@),
        r matches Some(s) ==> s@ == decode_utf8(v@),
{
    String::from_utf8(v.clone()).ok()
}

} // verus!
