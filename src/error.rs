//! The ways a conversion can fail.
use vstd::prelude::*;

verus! {

/// `std::io::Error`, carried unchanged when reading the mount directory fails.
#[verifier::external_type_specification]
#[verifier::external_body]
pub struct ExIoError(std::io::Error);

/// Conversion errors.
#[derive(Debug)]
pub enum Error {
    /// An HFS path with an invalid format was provided.
    InvalidHfsPath,
    /// A mounted volume with the given name was not found.
    VolumeNotFound(String),
    /// Reading the mount directory failed.
    Io(std::io::Error),
}

impl Error {
    /// A one-line human-readable description of the error.
    pub fn message(&self) -> (r: String)
        ensures
            self is InvalidHfsPath ==> r@ == "Invalid HFS path format"@,
            self is VolumeNotFound ==> r@ == "Volume "@ + self->VolumeNotFound_0@ + " not found"@,
            self is Io ==> r@ == "I/O error"@,
    {
        match self {
            Error::InvalidHfsPath => String::from_str("Invalid HFS path format"),
            Error::VolumeNotFound(volume) => {
                let mut r = String::from_str("Volume ");
                r.append(volume.as_str());
                r.append(" not found");
                r
            },
            Error::Io(_) => String::from_str("I/O error"),
        }
    }
}

} // verus!
