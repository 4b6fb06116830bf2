//! Chapter P of a channel journal, read from the front of a byte slice.
use crate::bits::{bit_cursor, bits_of};
use crate::io::{Error, ErrorKind};
use crate::packet::midi_packet::recovery_journal::program_change_chapter::{
    spec_program_change, ProgramChangeChapter as Chapter,
};
use vstd::prelude::*;

verus! {

#[derive(Debug, Clone, Copy, PartialEq, Eq, Structural)]
pub struct ProgramChangeChapter {
    pub s: bool,
    pub program: u8,
    pub b: bool,
    pub bank_msb: u8,
    pub x: bool,
    pub bank_lsb: u8,
}

impl ProgramChangeChapter {
    /// Reads the chapter from the first three bytes of `bytes`: S, seven bits
    /// of program, B, seven bits of bank MSB, X, seven bits of bank LSB. Fails
    /// with `UnexpectedEof` on fewer bytes.
    pub fn from_bytes(bytes: &[u8]) -> (r: Result<Self, Error>)
        ensures
            match spec_program_change(bits_of(bytes@)) {
                Some((c, _)) => r matches Ok(v) && v.s == c.s && v.program == c.program && v.b == c.b
                    && v.bank_msb == c.bank_msb && v.x == c.x && v.bank_lsb == c.bank_lsb,
                None => r matches Err(e) && e.kind == ErrorKind::UnexpectedEof,
            },
    {
        let mut reader = bit_cursor(bytes);
        match Chapter::from_reader(&mut reader) {
            Ok(c) => Ok(ProgramChangeChapter {
                s: c.s,
                program: c.program,
                b: c.b,
                bank_msb: c.bank_msb,
                x: c.x,
                bank_lsb: c.bank_lsb,
            }),
            Err(e) => Err(e),
        }
    }
}

} // verus!
