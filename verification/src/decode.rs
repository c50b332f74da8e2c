//! Bytes as text.

use vstd::prelude::*;
use vstd::utf8::decode_utf8;
use vstd::utf8::valid_utf8;
use crate::error::DiffError;
use crate::error::ErrorModel;
use crate::text::optional_text;

verus! {

/// What `String::from_utf8_lossy` makes of bytes: their text, with the
/// replacement character in place of each part that is not UTF-8.
pub uninterp spec fn lossy_text(bytes: Seq<u8>) -> Seq<char>;

/// What `str::trim` leaves of a text: the text without the white space at
/// its two ends.
pub uninterp spec fn trimmed(text: Seq<char>) -> Seq<char>;

/// The text that bytes stand for, where they are UTF-8.
pub open spec fn decoded(bytes: Seq<u8>) -> Option<Seq<char>> {
    if valid_utf8(bytes) {
        Some(decode_utf8(bytes))
    } else {
        None
    }
}

/// `std::str::from_utf8`: the text of the bytes where they are valid UTF-8,
/// and nothing where they are not.
#[verifier::external_body]
pub(crate) fn from_utf8(bytes: &[u8]) -> (r: Option<String>)
    ensures
        optional_text(r) == decoded(bytes@),
{
    match std::str::from_utf8(bytes) {
        Ok(text) => Some(text.to_owned()),
        Err(_) => None,
    }
}

/// `String::from_utf8_lossy`: a function of the bytes alone.
#[verifier::external_body]
pub(crate) fn from_utf8_lossy(bytes: &[u8]) -> (r: String)
    ensures
        r@ == lossy_text(bytes@),
{
    String::from_utf8_lossy(bytes).into_owned()
}

/// `str::trim`: a function of the text alone.
#[verifier::external_body]
pub(crate) fn trim(text: &str) -> (r: String)
    ensures
        r@ == trimmed(text@),
{
    text.trim().to_owned()
}

/// The outcome of reading a path from bytes.
pub open spec fn path_read(bytes: Seq<u8>) -> Result<Seq<char>, ErrorModel> {
    match decoded(bytes) {
        Some(text) => Ok(text),
        None => Err(ErrorModel::PathEncodingError { path: lossy_text(bytes) }),
    }
}

/// The view of a path that may have failed to be read.
pub open spec fn path_model(r: Result<String, DiffError>) -> Result<Seq<char>, ErrorModel> {
    match r {
        Ok(text) => Ok(text@),
        Err(e) => Err(e@),
    }
}

/// Reads a path from the bytes that the system holds for it. A path that is
/// not UTF-8 is an error, not a path with parts replaced.
pub fn path_text(bytes: &[u8]) -> (r: Result<String, DiffError>)
    ensures
        path_model(r) == path_read(bytes@),
{
    match from_utf8(bytes) {
        Some(text) => Ok(text),
        None => Err(DiffError::PathEncodingError { path: from_utf8_lossy(bytes) }),
    }
}

} // verus!
