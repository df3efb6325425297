//! Contracts for the few functions of the standard library that this
//! library calls and that `vstd` leaves without one. Nothing here is proved:
//! each contract restates what the function's documentation promises.

use vstd::prelude::*;
use vstd::utf8::is_scalar;
use vstd::utf8::valid_utf8;
use vstd::string::StringSliceAdditionalSpecFns;

verus! {

/// The error of `core::str::from_utf8`. Its contents are never read.
#[verifier::external_type_specification]
#[verifier::external_body]
pub struct ExUtf8Error(core::str::Utf8Error);

/// `String::push` appends the character and changes nothing else.
pub assume_specification[ std::string::String::push ](s: &mut std::string::String, ch: char)
    ensures
        final(s)@ == old(s)@.push(ch),
;

/// `char::from_u32` returns the character with the given code point, and
/// `None` exactly when the number is not a Unicode scalar value, that is when
/// it is a surrogate or lies above U+10FFFF.
pub assume_specification[ char::from_u32 ](i: u32) -> (r: Option<char>)
    ensures
        is_scalar(i) ==> r == Some(i as char),
        !is_scalar(i) ==> r is None,
;

/// `core::str::from_utf8` succeeds exactly on well-formed UTF-8, and the
/// string slice it returns consists of the bytes it was given.
pub assume_specification[ core::str::from_utf8 ](v: &[u8]) -> (r: Result<
    &str,
    core::str::Utf8Error,
>)
    ensures
        r is Ok <==> valid_utf8(v@),
        r matches Ok(s) ==> s.spec_bytes() == v@,
;

} // verus!
