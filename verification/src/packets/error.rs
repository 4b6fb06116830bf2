//! Why a packet could not be read.
use vstd::prelude::*;

verus! {

#[derive(Debug, Clone, Copy, PartialEq, Eq, Structural)]
pub enum PacketParseError {
    NotEnoughData,
    InvalidData,
}

impl PacketParseError {
    /// The message that describes the error.
    pub fn message(&self) -> (m: &'static str)
        ensures
            m@ == match self {
                PacketParseError::NotEnoughData => "Not enough data"@,
                PacketParseError::InvalidData => "Invalid data"@,
            },
    {
        match self {
            PacketParseError::NotEnoughData => "Not enough data",
            PacketParseError::InvalidData => "Invalid data",
        }
    }
}

} // verus!
