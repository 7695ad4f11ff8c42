//! What can go wrong while reading or editing a tag.
use vstd::prelude::*;

verus! {

/// The failures of the codecs and of the tag editing operations.
#[derive(Copy, Clone, Debug, PartialEq, Eq, Structural)]
pub enum TagError {
    /// The buffer does not start with the identifier of the expected tag.
    ID3TagNotFound,
    /// A comment or lyrics frame with this language and description already exists.
    ReusedLangDescription,
    /// A language code is not three bytes long.
    LangWrongSize,
    /// Fewer bytes remain than a declared length requires.
    TruncatedInput,
    /// The ID3 major version is not 3.
    UnsupportedVersion,
    /// A FLAC block type is not one of the seven known.
    UnknownBlockType,
    /// The buffer does not start with "fLaC".
    FlacTagNotFound,
    /// The tag would outgrow the largest size its header can declare.
    TagTooLarge,
}

} // verus!
