use vstd::prelude::*;

verus! {

/// Mathematical image of an [`Error`]: key and message strings are viewed as
/// character sequences, counts as unbounded integers.
#[verifier::ext_equal]
pub enum ErrorV {
    MissingKey { key: Seq<char> },
    TypeMismatch,
    LengthMismatch,
    FilterDecodeFailure { filter: Seq<char>, cause: Seq<char> },
    NotDecoded,
    OutOfBounds { index: int, count: int },
    MalformedTokenStream,
    UnresolvedRef { id: u64 },
    Unsupported,
}

/// The error surface of this core.  Every failure a caller can see is one of
/// these semantic categories; none of them is retried internally.
#[derive(Debug, PartialEq, Eq)]
pub enum Error {
    /// A required dictionary entry is absent; carries the key's name.
    MissingKey { key: String },
    /// A primitive value's shape does not match the expected target type.
    TypeMismatch,
    /// The declared `Length` entry disagrees with the actual raw byte count.
    LengthMismatch,
    /// A codec failed to decode its input; carries the filter's name and the
    /// codec's own message.  Chain decoding aborts at the first such failure.
    FilterDecodeFailure { filter: String, cause: String },
    /// A canonical-data accessor was invoked while the filter chain is still
    /// non-empty.
    NotDecoded,
    /// An object-stream extraction index exceeds the offset table.
    OutOfBounds { index: usize, count: usize },
    /// Fewer integer tokens than declared, a non-integer token where one was
    /// expected, or a token too large to hold, while building an offset table.
    MalformedTokenStream,
    /// An indirect reference pointed at no known object.
    UnresolvedRef { id: u64 },
    /// The operation is deliberately not implemented (encoding and
    /// serialization are out of scope for this core).
    Unsupported,
}

impl View for Error {
    type V = ErrorV;

    open spec fn view(&self) -> ErrorV {
        match self {
            Error::MissingKey { key } => ErrorV::MissingKey { key: key@ },
            Error::TypeMismatch => ErrorV::TypeMismatch,
            Error::LengthMismatch => ErrorV::LengthMismatch,
            Error::FilterDecodeFailure { filter, cause } => ErrorV::FilterDecodeFailure {
                filter: filter@,
                cause: cause@,
            },
            Error::NotDecoded => ErrorV::NotDecoded,
            Error::OutOfBounds { index, count } => ErrorV::OutOfBounds {
                index: *index as int,
                count: *count as int,
            },
            Error::MalformedTokenStream => ErrorV::MalformedTokenStream,
            Error::UnresolvedRef { id } => ErrorV::UnresolvedRef { id: *id },
            Error::Unsupported => ErrorV::Unsupported,
        }
    }
}

/// Views a result whose error side is this crate's [`Error`]: both sides are
/// replaced by their mathematical images.
pub open spec fn rview<T: View>(r: Result<T, Error>) -> Result<T::V, ErrorV> {
    match r {
        Ok(t) => Ok(t@),
        Err(e) => Err(e@),
    }
}

} // verus!
