//! The tagged error type shared by every stage of the pipeline: one variant
//! per failure kind, converted at each component boundary, every error
//! terminal to the invocation that raised it.

use vstd::prelude::*;

verus! {

/// One error kind per pipeline stage: reading input, splitting CSV rows,
/// decoding Base64 symbols, interpreting decoded bytes as text, and
/// rendering records to the output format.
#[derive(Clone, Copy, Debug, PartialEq, Eq, Structural)]
pub enum Error {
    /// A source could not be read or a destination could not be written.
    Io,
    /// The CSV input is structurally bad. The index is the offending row
    /// (the header row is row zero); zero also covers input that the row
    /// splitter itself refused.
    Parse(usize),
    /// The Base64 input is not a well-formed encoding under the selected
    /// alphabet: a symbol outside the alphabet, stray padding, or a length
    /// no encoding produces.
    Codec,
    /// Decoded Base64 bytes are not valid UTF-8 text.
    Encoding,
    /// The serializer failed to render the record set.
    Serialize,
}

impl Error {
    /// A human-readable diagnostic for the process boundary.
    pub fn message(&self) -> (r: String)
        ensures
            self is Io ==> r@ == "input or output failure"@,
            self is Parse ==> r@ == "malformed CSV row"@,
            self is Codec ==> r@ == "invalid base64 input for the selected alphabet"@,
            self is Encoding ==> r@ == "decoded bytes are not valid UTF-8 text"@,
            self is Serialize ==> r@ == "failed to serialize records"@,
    {
        match self {
            Error::Io => "input or output failure".to_owned(),
            Error::Parse(_) => "malformed CSV row".to_owned(),
            Error::Codec => "invalid base64 input for the selected alphabet".to_owned(),
            Error::Encoding => "decoded bytes are not valid UTF-8 text".to_owned(),
            Error::Serialize => "failed to serialize records".to_owned(),
        }
    }
}

} // verus!
