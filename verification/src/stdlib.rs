//! The few standard-library functions that the library calls and that vstd
//! gives no specification, each behind a trusted wrapper.
use vstd::prelude::*;
use vstd::string::*;
use vstd::utf8::*;

verus! {

/// The characters that `String::from_utf8_lossy` makes of a byte sequence:
/// the decoded text, with U+FFFD in place of each invalid sequence.
pub uninterp spec fn utf8_lossy(bytes: Seq<u8>) -> Seq<char>;

/// Calls `String::from_utf8_lossy`. Trusted: the result is the named
/// conversion of the bytes, and, as its documentation says, valid UTF-8 comes
/// out as exactly the text it encodes. How invalid sequences are replaced is
/// left to the name.
#[verifier::external_body]
pub(crate) fn string_from_utf8_lossy(bytes: &[u8]) -> (s: String)
    ensures
        s@ == utf8_lossy(bytes@),
        valid_utf8(bytes@) ==> s@ == decode_utf8(bytes@),
{
    String::from_utf8_lossy(bytes).into_owned()
}

/// Calls `std::str::from_utf8`. Trusted: it succeeds exactly on valid UTF-8,
/// and then the string slice holds the same bytes.
#[verifier::external_body]
pub(crate) fn str_from_utf8(bytes: &[u8]) -> (r: Option<&str>)
    ensures
        r is Some <==> valid_utf8(bytes@),
        r matches Some(s) ==> s.spec_bytes() == bytes@,
{
    std::str::from_utf8(bytes).ok()
}

/// Calls `String::push`. Trusted: the character is appended at the end.
#[verifier::external_body]
pub(crate) fn push_char(s: &mut String, c: char)
    ensures
        final(s)@ == old(s)@.push(c),
{
    s.push(c)
}

/// The characters that `str::to_lowercase` makes of a string (Unicode
/// lowercase mapping, which may change the length).
pub uninterp spec fn lowercase(s: Seq<char>) -> Seq<char>;

/// Calls `str::to_lowercase`. Trusted: the result is the named mapping of the
/// argument; the Unicode tables themselves are left to the name.
#[verifier::external_body]
pub(crate) fn to_lowercase(s: &str) -> (r: String)
    ensures
        r@ == lowercase(s@),
{
    s.to_lowercase()
}

/// `std::time::SystemTime`, carried through opaquely.
#[verifier::external_type_specification]
#[verifier::external_body]
pub struct ExSystemTime(std::time::SystemTime);

/// `std::time::SystemTimeError`, carried through opaquely.
#[verifier::external_type_specification]
#[verifier::external_body]
pub struct ExSystemTimeError(std::time::SystemTimeError);

/// Calls `SystemTime::now`. Trusted with no claim on the result: it is the
/// clock's reading.
#[verifier::external_body]
pub(crate) fn system_time_now() -> (t: std::time::SystemTime) {
    std::time::SystemTime::now()
}

/// Calls `SystemTime::duration_since` with `UNIX_EPOCH`: the time elapsed
/// since the epoch, or an error when `t` is earlier. Trusted with no claim
/// on the result.
#[verifier::external_body]
pub(crate) fn duration_since_epoch(t: &std::time::SystemTime) -> (r: Result<
    core::time::Duration,
    std::time::SystemTimeError,
>) {
    t.duration_since(std::time::UNIX_EPOCH)
}

/// Calls `Duration::as_nanos`. Trusted with no claim on the result.
#[verifier::external_body]
pub(crate) fn duration_as_nanos(d: &core::time::Duration) -> (n: u128) {
    d.as_nanos()
}

} // verus!
