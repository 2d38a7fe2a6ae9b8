//! The error cases this library raises.

use vstd::prelude::*;

use crate::ecad::ECAD;

verus! {

/// Everything that can go wrong while selecting an ECAD format,
/// extracting an archive, or processing extracted entries.
#[derive(Debug, Clone, Copy, PartialEq, Eq, Structural)]
pub enum Error {
    /// The given label does not name any recognized ECAD format.
    EcadNotFound,
    /// The requested operation is not defined for the named ECAD
    /// identifier (extraction and processing reject `Zip`).
    UnsupportedOperation(ECAD),
    /// The archive reader could not deliver an entry's name or bytes.
    ArchiveRead,
}

impl Error {
    /// A short human-readable description of the error.
    pub fn describe(&self) -> (r: &'static str)
        ensures
            *self is EcadNotFound ==> r@ == "unrecognized ecad label"@,
            *self is UnsupportedOperation ==> r@ == "operation not supported for this ecad"@,
            *self is ArchiveRead ==> r@ == "archive entry could not be read"@,
    {
        match self {
            Error::EcadNotFound => "unrecognized ecad label",
            Error::UnsupportedOperation(_) => "operation not supported for this ecad",
            Error::ArchiveRead => "archive entry could not be read",
        }
    }
}

} // verus!
