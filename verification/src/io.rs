//! The error values that the byte-level readers and writers of this crate return.
use vstd::prelude::*;

verus! {

/// What went wrong while reading or writing bytes.
#[derive(Clone, Copy, Debug, PartialEq, Eq, Structural)]
pub enum ErrorKind {
    /// The input does not have the shape that the format demands.
    InvalidData,
    /// The input ended before a complete value was read.
    UnexpectedEof,
    /// The output buffer is too small for the value.
    WriteZero,
}

/// An error of a byte-level read or write.
#[derive(Clone, Copy, Debug, PartialEq, Eq, Structural)]
pub struct Error {
    pub kind: ErrorKind,
}

impl Error {
    pub fn new(kind: ErrorKind) -> (e: Error)
        ensures
            e.kind == kind,
    {
        Error { kind }
    }

    pub fn kind(&self) -> (k: ErrorKind)
        ensures
            k == self.kind,
    {
        self.kind
    }
}

} // verus!
