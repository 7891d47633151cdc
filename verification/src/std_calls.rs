//! The calls into the standard library that the string operations make and that vstd
//! gives no specification of: their contracts are trusted, and each is stated over vstd's
//! UTF-8 specification.
use vstd::prelude::*;
use vstd::utf8::*;

verus! {

/// `std::str::Utf8Error`, the error that `std::str::from_utf8` returns for bytes that are
/// not UTF-8. It is carried through as it is.
#[verifier::external_type_specification]
#[verifier::external_body]
pub struct ExUtf8Error(std::str::Utf8Error);

/// Calls `char::from_u32`. Trusted: std documents that it returns `Some` exactly for the
/// Unicode scalar values (not above 0x10FFFF and outside the surrogate range 0xD800..=0xDFFF),
/// and that the returned character has the given value.
#[verifier::external_body]
pub(crate) fn char_from_u32(v: u32) -> (r: Option<char>)
    ensures
        r is Some <==> is_scalar(v),
        r matches Some(c) ==> c as u32 == v,
{
    char::from_u32(v)
}

/// The error that `std::str::from_utf8` returns for `bytes` when they are not valid UTF-8.
/// It depends on the bytes alone: std fills it with the length of their longest valid
/// prefix and the length of the invalid sequence that follows, if the input does not end
/// inside it.
pub uninterp spec fn utf8_error_of(bytes: Seq<u8>) -> std::str::Utf8Error;

/// Calls `std::str::from_utf8`. Trusted: std documents that it succeeds exactly when the
/// bytes are well-formed UTF-8 (leading and continuation bytes in place, no overlong
/// encoding, no surrogate, nothing above 0x10FFFF), which is vstd's `valid_utf8`, and that the
/// string it returns consists of those bytes, so its characters are their decoding. On
/// failure the error is the one std computes from the bytes, named `utf8_error_of`.
#[verifier::external_body]
pub(crate) fn str_from_utf8(v: &[u8]) -> (r: Result<&str, std::str::Utf8Error>)
    ensures
        r is Ok <==> valid_utf8(v@),
        r matches Ok(s) ==> s@ == decode_utf8(v@),
        r matches Err(e) ==> e == utf8_error_of(v@),
{
    std::str::from_utf8(v)
}

} // verus!
