//! A MIDI packet read in place: its header and the bytes after it.
use super::midi_command_iterator::MidiCommandIterator;
use super::midi_packet_header_zero_alloc::MidiPacketHeaderZeroAlloc;
use crate::endian::{be_u16_value, be_u32_value};
use crate::io::{Error, ErrorKind};
use vstd::prelude::*;

verus! {

#[derive(Debug)]
pub struct MidiPacketZeroAlloc<'a> {
    header: MidiPacketHeaderZeroAlloc<'a>,
    data: &'a [u8],
}

impl<'a> MidiPacketZeroAlloc<'a> {
    pub closed spec fn spec_header(&self) -> Seq<u8> {
        self.header.data@
    }

    pub closed spec fn spec_body(&self) -> Seq<u8> {
        self.data@
    }

    /// Splits `data` into the twelve header bytes and the body after them.
    /// Fails with `InvalidData` on fewer than twelve bytes.
    pub fn new(data: &'a [u8]) -> (r: Result<Self, Error>)
        ensures
            match r {
                Ok(p) => data@.len() >= 12 && p.spec_header() == data@.take(12) && p.spec_body()
                    == data@.skip(12),
                Err(e) => data@.len() < 12 && e.kind == ErrorKind::InvalidData,
            },
    {
        if data.len() < 12 {
            return Err(Error::new(ErrorKind::InvalidData));
        }
        let head = &data[0..12];
        assert(head@ =~= data@.take(12));
        let header: &[u8; 12] = match header_array(head) {
            Some(h) => h,
            None => return Err(Error::new(ErrorKind::InvalidData)),
        };
        let body = &data[12..data.len()];
        assert(body@ =~= data@.skip(12));
        Ok(Self { header: MidiPacketHeaderZeroAlloc::new(header), data: body })
    }

    /// The commands of the body.
    pub fn commands(&self) -> (it: MidiCommandIterator<'a>)
        requires
            self.spec_body().len() >= 1,
            self.spec_body()[0] & 0x80 != 0 ==> self.spec_body().len() >= 2,
            ({
                let b = self.spec_body();
                let size: int = if b[0] & 0x80 != 0 { 2 } else { 1 };
                let length: int = if b[0] & 0x80 != 0 {
                    (b[0] % 0x10) * 0x100 + b[1]
                } else {
                    (b[0] % 0x10) as int
                };
                size + length <= b.len()
            }),
        ensures
            ({
                let b = self.spec_body();
                let size: int = if b[0] & 0x80 != 0 { 2 } else { 1 };
                let length: int = if b[0] & 0x80 != 0 {
                    (b[0] % 0x10) * 0x100 + b[1]
                } else {
                    (b[0] % 0x10) as int
                };
                &&& it.spec_data() == b.subrange(size, size + length)
                &&& it.spec_running_status() is None
                &&& it.spec_read_delta_time() == (b[0] & 0x20 != 0)
            }),
    {
        MidiCommandIterator::new(self.data)
    }

    pub fn sequence_number(&self) -> (s: u16)
        ensures
            s == be_u16_value(self.spec_header().skip(2)),
    {
        self.header.sequence_number()
    }

    pub fn timestamp(&self) -> (t: u32)
        ensures
            t == be_u32_value(self.spec_header().skip(4)),
    {
        self.header.timestamp()
    }

    pub fn ssrc(&self) -> (s: u32)
        ensures
            s == be_u32_value(self.spec_header().skip(8)),
    {
        self.header.ssrc()
    }
}

/// `<&[u8; 12]>::try_from`: the slice as an array reference, which succeeds
/// exactly when the slice holds twelve bytes.
#[verifier::external_body]
fn header_array(s: &[u8]) -> (r: Option<&[u8; 12]>)
    ensures
        match r {
            Some(a) => s@.len() == 12 && a@ == s@,
            None => s@.len() != 12,
        },
{
    <&[u8; 12]>::try_from(s).ok()
}

} // verus!
