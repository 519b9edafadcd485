use vstd::prelude::*;

verus! {

/// The failure kinds of the toolbox. Every error aborts the whole run;
/// each carries a description naming the offending input.
#[derive(Debug, Clone, PartialEq, Eq)]
pub enum SlicerError {
    /// The compressed container reported a corrupt stream.
    ArchiveError(String),
    /// A document is not valid structured data or misses a required field.
    FormatError(String),
    /// An axis code is not exactly three characters, or a required axis
    /// letter is absent from it.
    CoordinateSystemError(String),
    /// The single-system mode saw zero, or more than one, distinct
    /// coordinate-system codes.
    ConsistencyError(String),
    /// A filesystem open or create failed.
    IOError(String),
}

impl SlicerError {
    /// The description carried by the error.
    pub fn detail(&self) -> (r: &String)
        ensures
            r@ == self.spec_detail(),
    {
        match self {
            SlicerError::ArchiveError(m) => m,
            SlicerError::FormatError(m) => m,
            SlicerError::CoordinateSystemError(m) => m,
            SlicerError::ConsistencyError(m) => m,
            SlicerError::IOError(m) => m,
        }
    }

    pub open spec fn spec_detail(&self) -> Seq<char> {
        match self {
            SlicerError::ArchiveError(m) => m@,
            SlicerError::FormatError(m) => m@,
            SlicerError::CoordinateSystemError(m) => m@,
            SlicerError::ConsistencyError(m) => m@,
            SlicerError::IOError(m) => m@,
        }
    }
}

} // verus!
