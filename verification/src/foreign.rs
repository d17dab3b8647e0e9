//! The calls into `nix` and into those parts of `std` that have no specification of their own.
//! What these functions promise is believed, not proved.
use vstd::prelude::*;
use vstd::utf8::{decode_utf8, valid_utf8};

verus! {

/// What the `Debug` form of a string is, quotes and escapes included.
pub uninterp spec fn quoted(s: Seq<char>) -> Seq<char>;

/// Calls `std`'s `Debug` formatting of `str` (`{:?}`). The claim: the result depends on the
/// characters of the string and on nothing else.
#[verifier::external_body]
pub(crate) fn quote(s: &str) -> (r: String)
    ensures
        r@ == quoted(s@),
{
    format!("{:?}", s)
}

/// Calls `std::str::from_utf8`. The claim: it succeeds exactly on valid UTF-8, and then gives
/// the characters that the bytes encode.
#[verifier::external_body]
pub(crate) fn utf8_text(bytes: &[u8]) -> (r: Option<&str>)
    ensures
        r is Some <==> valid_utf8(bytes@),
        r matches Some(s) ==> s@ == decode_utf8(bytes@),
{
    std::str::from_utf8(bytes).ok()
}

/// How `nix` prints the error number `errno` of Linux: the symbolic name, a colon and a
/// description.
pub uninterp spec fn errno_words(errno: i32) -> Seq<char>;

/// The error numbers that every Linux target defines alike.
pub open spec fn is_common_errno(errno: i32) -> bool {
    1 <= errno <= 34
}

/// Calls `nix::errno::Errno::from_raw` and prints the value with its `Display`. The claim: for
/// the error numbers that every Linux target numbers alike, the text depends on the number and
/// on nothing else. Of the other numbers nothing is claimed: which error they stand for is up
/// to the target (95 is `EOPNOTSUPP` on x86-64 and another error on MIPS).
#[verifier::external_body]
pub(crate) fn errno_text(errno: i32) -> (r: String)
    ensures
        is_common_errno(errno) ==> r@ == errno_words(errno),
{
    nix::errno::Errno::from_raw(errno).to_string()
}

} // verus!
