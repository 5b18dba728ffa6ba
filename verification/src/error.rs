//! The failures a decode can end in.
use vstd::prelude::*;

verus! {

/// Why a decode did not produce a pattern.
#[derive(Debug, Clone)]
pub enum GeddesError {
    /// The input could not be read as the text it was expected to be.
    Io(String),
    /// The archive container is malformed; carries the archive reader's message.
    Zip(String),
    /// A structural expectation of the format was not met; carries which one.
    Parse(String),
    /// The file name has no extension that names a supported format.
    UnknownFormat,
    /// The archive holds no entry of the expected name; carries the name pattern.
    FileNotFoundInArchive(String),
}

impl GeddesError {
    /// The text carried by the error, empty for `UnknownFormat`.
    pub open spec fn detail(self) -> Seq<char> {
        match self {
            GeddesError::Io(s) => s@,
            GeddesError::Zip(s) => s@,
            GeddesError::Parse(s) => s@,
            GeddesError::UnknownFormat => Seq::empty(),
            GeddesError::FileNotFoundInArchive(s) => s@,
        }
    }

    /// True for a `Parse` error whose description is `text`.
    pub open spec fn is_parse(self, text: Seq<char>) -> bool {
        self matches GeddesError::Parse(s) && s@ == text
    }
}

/// Builds the `Parse` error with the given description.
pub fn parse_error(text: &str) -> (e: GeddesError)
    ensures
        e.is_parse(text@),
{
    GeddesError::Parse(text.to_owned())
}

} // verus!
