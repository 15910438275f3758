use vstd::prelude::*;
use vstd::utf8::encode_utf8;

use crate::error::Error;

verus! {

/// Longest title accepted, in UTF-8 bytes.
pub const MAX_TITLE_LEN: u32 = 120;

/// Longest description accepted, in UTF-8 bytes.
pub const MAX_DESCRIPTION_LEN: u32 = 1024;

/// Length of a text in UTF-8 bytes (as the machine counts it).
pub open spec fn byte_len(s: Seq<char>) -> int {
    encode_utf8(s).len() as usize as int
}

/// An optional text is accepted when it is absent, empty, or at most
/// `max_len` bytes long.
pub open spec fn text_ok(input: Option<String>, max_len: u32) -> bool {
    match input {
        Some(v) => v@.len() == 0 || byte_len(v@) <= max_len,
        None => true,
    }
}

/// An accepted optional text as it is stored: an empty text becomes absent.
pub open spec fn normalized_text(input: Option<String>) -> Option<String> {
    match input {
        Some(v) => if v@.len() == 0 {
            None
        } else {
            Some(v)
        },
        None => None,
    }
}

/// Normalizes an optional free-text field: an empty text is dropped, a text
/// longer than `max_len` bytes is rejected.
pub fn normalize_optional_text(input: Option<String>, max_len: u32) -> (r: Result<
    Option<String>,
    Error,
>)
    ensures
        text_ok(input, max_len) ==> r == Ok::<Option<String>, Error>(normalized_text(input)),
        !text_ok(input, max_len) ==> r == Err::<Option<String>, Error>(Error::InvalidParameters),
{
    match input {
        Some(value) => {
            if value.as_str().is_empty() {
                Ok(None)
            } else if value.as_str().len() > max_len as usize {
                Err(Error::InvalidParameters)
            } else {
                Ok(Some(value))
            }
        },
        None => Ok(None),
    }
}

} // verus!
