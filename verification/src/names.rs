//! Names as the file system stores them, and as text.
//!
//! A name is kept as the bytes that the operating system reports. It is text
//! where those bytes are valid UTF-8. A path is the list of the names that
//! lead from the root to it, so the root is the empty list.

use vstd::prelude::*;
use vstd::utf8::{decode_utf8, valid_utf8};

verus! {

/// The text of a raw name, where it has one.
pub open spec fn name_text(raw: Seq<u8>) -> Option<Seq<char>> {
    if valid_utf8(raw) {
        Some(decode_utf8(raw))
    } else {
        None
    }
}

/// The text of the last name of `path`: none for the root, and none for a
/// last name that is not text.
pub open spec fn file_name_text(path: Seq<Seq<u8>>) -> Option<Seq<char>> {
    if path.len() == 0 {
        None
    } else {
        name_text(path.last())
    }
}

/// `std::str::from_utf8`: the string that `raw` encodes. It is there exactly
/// when `raw` is valid UTF-8, and then holds the characters that `raw`
/// decodes to.
#[verifier::external_body]
fn decode<'a>(raw: &'a [u8]) -> (text: Option<&'a str>)
    ensures
        text is Some == valid_utf8(raw@),
        text matches Some(s) ==> s@ == decode_utf8(raw@),
{
    std::str::from_utf8(raw).ok()
}

/// The text of a raw name, where it has one.
pub fn name_to_string(raw: &[u8]) -> (text: Option<String>)
    ensures
        text is Some == name_text(raw@) is Some,
        text matches Some(s) ==> name_text(raw@) == Some(s@),
{
    match decode(raw) {
        Some(s) => Some(s.to_owned()),
        None => None,
    }
}

/// The last name of `path` as text.
pub fn path_file_name_to_string(path: &[Vec<u8>]) -> (name: Option<String>)
    ensures
        name is Some == file_name_text(path.deep_view()) is Some,
        name matches Some(s) ==> file_name_text(path.deep_view()) == Some(s@),
{
    let n = path.len();
    if n == 0 {
        return None;
    }
    assert(path.deep_view().last() == path@[n - 1]@);
    name_to_string(path[n - 1].as_slice())
}

} // verus!
