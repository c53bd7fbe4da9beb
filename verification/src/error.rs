//! What can go wrong when a body is converted, and the status each failure
//! is reported with.

use vstd::prelude::*;

verus! {

/// The status classes that a failed conversion is reported with.
#[derive(Clone, Copy, Debug, PartialEq, Eq, Structural)]
pub enum StatusCode {
    /// 413: the declared length is more than this machine can hold in memory.
    PayloadTooLarge,
    /// 422: the content could not be read or understood.
    UnprocessableEntity,
}

impl StatusCode {
    /// The number of this status.
    pub open spec fn spec_code(self) -> u16 {
        match self {
            StatusCode::PayloadTooLarge => 413,
            StatusCode::UnprocessableEntity => 422,
        }
    }

    /// The number of this status.
    #[verifier::when_used_as_spec(spec_code)]
    pub fn code(self) -> (c: u16)
        ensures
            c == self.spec_code(),
    {
        match self {
            StatusCode::PayloadTooLarge => 413,
            StatusCode::UnprocessableEntity => 422,
        }
    }
}

/// Why a conversion failed.
#[derive(Clone, Copy, Debug, PartialEq, Eq, Structural)]
pub enum BodyError {
    /// The underlying stream failed while it was read.
    Io,
    /// A value could not be encoded.
    Encode,
    /// The content is not a document of the expected format.
    Decode,
    /// The declared length does not fit the size type of this machine.
    Size,
    /// The content is not valid UTF-8.
    Utf8,
}

impl BodyError {
    /// The status that this failure is reported with: a length that does not
    /// fit is too large a payload, everything else cannot be processed.
    pub open spec fn spec_status(self) -> StatusCode {
        match self {
            BodyError::Size => StatusCode::PayloadTooLarge,
            _ => StatusCode::UnprocessableEntity,
        }
    }

    /// The status that this failure is reported with.
    #[verifier::when_used_as_spec(spec_status)]
    pub fn status(self) -> (s: StatusCode)
        ensures
            s == self.spec_status(),
    {
        match self {
            BodyError::Size => StatusCode::PayloadTooLarge,
            _ => StatusCode::UnprocessableEntity,
        }
    }
}

} // verus!
