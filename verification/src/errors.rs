//! The ways in which decoding fails.

use vstd::prelude::*;
use vstd::std_specs::convert::FromSpecImpl;

verus! {

/// `std::io::Error`, the failure of a byte source. Nothing is claimed of what
/// a value of it holds: it is only carried.
#[verifier::external_type_specification]
#[verifier::external_body]
pub struct ExIoError(std::io::Error);

/// A decoding failure as contracts speak of it: the kind, and for a rejected
/// code the bytes that held it.
pub enum Failure {
    /// The byte source itself failed.
    Io,
    /// Fewer bytes were left than a field takes, or the file does not start
    /// with the magic number.
    MissingData,
    /// A code outside the accepted set, with the bytes that held it.
    InvalidValue { value: Seq<u8> },
}

impl Failure {
    /// Whether the failure lies in the bytes that were read, not in the
    /// reading of them.
    pub open spec fn is_of_the_bytes(self) -> bool {
        !(self is Io)
    }
}

/// Why a value could not be decoded.
#[derive(Debug)]
pub enum ParseError {
    /// The byte source itself failed. No decoder of this library gives it:
    /// it is for the caller that fills the buffer.
    IoError(std::io::Error),
    /// Fewer bytes were left than a field takes, or the file does not start
    /// with the magic number.
    MissingData,
    /// A code outside the accepted set, with the bytes that held it.
    InvalidValue { value: Box<[u8]> },
}

impl View for ParseError {
    type V = Failure;

    open spec fn view(&self) -> Failure {
        match self {
            ParseError::IoError(_) => Failure::Io,
            ParseError::MissingData => Failure::MissingData,
            ParseError::InvalidValue { value } => Failure::InvalidValue { value: value@ },
        }
    }
}

impl From<std::io::Error> for ParseError {
    fn from(io_error: std::io::Error) -> (error: Self) {
        Self::IoError(io_error)
    }
}

impl FromSpecImpl<std::io::Error> for ParseError {
    open spec fn obeys_from_spec() -> bool {
        true
    }

    open spec fn from_spec(io_error: std::io::Error) -> Self {
        ParseError::IoError(io_error)
    }
}

} // verus!
