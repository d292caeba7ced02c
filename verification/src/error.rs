//! The ways in which resolving merge keys can fail.

use vstd::prelude::*;

verus! {

/// Why a `<<` entry could not be folded into its mapping.
#[derive(Clone, Copy, Debug, PartialEq, Eq, Structural)]
pub enum Error {
    /// An element of the sequence under `<<` is itself a sequence.
    SequenceInMergeElement,
    /// The value under `<<`, or an element of the sequence under it, is tagged.
    TaggedInMerge,
    /// An element of the sequence under `<<` is a scalar.
    ScalarInMergeElement,
    /// The value under `<<` is a scalar.
    ScalarInMerge,
}

impl Error {
    /// The message that describes this error.
    pub fn message(&self) -> (text: &'static str)
        ensures
            text@ == self.spec_message(),
    {
        match self {
            Error::SequenceInMergeElement => "expected a mapping for merging, but found sequence",
            Error::TaggedInMerge => "unexpected tagged value in merge",
            Error::ScalarInMergeElement => "expected a mapping for merging, but found scalar",
            Error::ScalarInMerge =>
                "expected a mapping or list of mappings for merging, but found scalar",
        }
    }

    /// The text of `message`, as a sequence of characters.
    pub open spec fn spec_message(&self) -> Seq<char> {
        match self {
            Error::SequenceInMergeElement => "expected a mapping for merging, but found sequence"@,
            Error::TaggedInMerge => "unexpected tagged value in merge"@,
            Error::ScalarInMergeElement => "expected a mapping for merging, but found scalar"@,
            Error::ScalarInMerge =>
                "expected a mapping or list of mappings for merging, but found scalar"@,
        }
    }
}

} // verus!
