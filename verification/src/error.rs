//! The errors of the library.
use vstd::prelude::*;

verus! {

/// What can go wrong when the user's description of songs and books is
/// turned into the model.
#[derive(Clone, Debug, PartialEq, Eq, Hash)]
pub enum ModelError {
    /// A time signature that is not of the accepted form.
    InvalidTimeSignature(String),
    /// A text that should be a number from 0 to 255.
    InvalidNumber(String),
    /// A chord section whose type is not a known section type.
    UnknownSectionType(String),
    /// A path that has no parent directory.
    NoParent(String),
    /// A book names a song (author, title) that does not exist.
    MissingSong(String, String),
}

/// The abstract value of a model error.
pub enum ModelErrorV {
    InvalidTimeSignature(Seq<char>),
    InvalidNumber(Seq<char>),
    UnknownSectionType(Seq<char>),
    NoParent(Seq<char>),
    MissingSong(Seq<char>, Seq<char>),
}

impl View for ModelError {
    type V = ModelErrorV;

    open spec fn view(&self) -> ModelErrorV {
        match self {
            ModelError::InvalidTimeSignature(s) => ModelErrorV::InvalidTimeSignature(s@),
            ModelError::InvalidNumber(s) => ModelErrorV::InvalidNumber(s@),
            ModelError::UnknownSectionType(s) => ModelErrorV::UnknownSectionType(s@),
            ModelError::NoParent(s) => ModelErrorV::NoParent(s@),
            ModelError::MissingSong(a, t) => ModelErrorV::MissingSong(a@, t@),
        }
    }
}

} // verus!
