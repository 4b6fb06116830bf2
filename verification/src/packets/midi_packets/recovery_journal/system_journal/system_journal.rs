//! The header of a system journal: its flags and the length of its chapters.
use crate::endian::{be_u16_value, read_u16_be};
use vstd::prelude::*;

verus! {

#[derive(Debug)]
pub struct SystemJournal {
    flags_and_length: u16,
    system_chapters: Vec<u8>,
}

impl SystemJournal {
    pub closed spec fn spec_flags_and_length(&self) -> u16 {
        self.flags_and_length
    }

    pub closed spec fn spec_system_chapters(&self) -> Seq<u8> {
        self.system_chapters@
    }

    /// The flags and length from the first two bytes, most significant first;
    /// no chapters are read.
    pub fn from_be_bytes(bytes: &mut [u8]) -> (r: Result<Self, crate::io::Error>)
        requires
            old(bytes)@.len() >= 2,
        ensures
            final(bytes)@ == old(bytes)@,
            r matches Ok(j) && j.spec_flags_and_length() == be_u16_value(old(bytes)@) && j.spec_system_chapters()
                == Seq::<u8>::empty(),
    {
        let flags_and_length = read_u16_be(bytes);
        let system_chapters: Vec<u8> = Vec::new();
        Ok(SystemJournal { flags_and_length, system_chapters })
    }
}

} // verus!
