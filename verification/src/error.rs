//! The failures an encryption call can surface. Every failure is returned to
//! the caller at once; nothing is retried or recovered inside the library.

use vstd::prelude::*;

verus! {

/// Why an encryption call failed.
#[derive(Debug)]
pub enum Error {
    /// The key bytes are not valid UTF-8 text. Deliberately carries no
    /// diagnostic: raw key bytes are never echoed back.
    Encoding,
    /// The envelope does not begin with the expected public-key header line.
    /// Holds the actual first line of the input for diagnostics.
    Format(Vec<u8>),
    /// The base64 body failed to decode, or the decoded key is not the fixed
    /// encoding this parser assumes.
    Decode,
    /// The message is too long for the key width and digest size
    /// ("password too long").
    Capacity,
}

} // verus!
