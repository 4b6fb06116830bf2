//! Reading an optional NUL-terminated string from a byte stream.
use crate::io::{Error, ErrorKind};
use crate::packet::session_initiation_packet::{first_nul, lemma_first_nul};
use crate::stream::ByteReader;
use crate::text::{string_from_utf8_lossy, utf8_lossy};
use vstd::prelude::*;
use vstd::utf8::{decode_utf8, encode_scalar, encode_utf8, valid_utf8};

verus! {

/// What `read_optional_string` reads from `rest`: nothing when it is empty,
/// else the text of the bytes before the first NUL, with the NUL used too.
pub open spec fn spec_optional_string(rest: Seq<u8>) -> Result<(Option<Seq<char>>, nat), ErrorKind> {
    if rest.len() == 0 {
        Ok((None, 0))
    } else {
        match first_nul(rest) {
            Some(p) => Ok((Some(utf8_lossy(rest.take(p as int))), p + 1)),
            None => Err(ErrorKind::UnexpectedEof),
        }
    }
}

/// The bytes of `rest` before its first NUL; none when it has no NUL.
pub open spec fn bytes_before_nul(rest: Seq<u8>) -> Seq<u8> {
    match first_nul(rest) {
        Some(p) => rest.take(p as int),
        None => Seq::empty(),
    }
}

/// `v` holds the text `s`, or neither holds anything.
pub open spec fn optional_text_matches(v: Option<String>, s: Option<Seq<char>>) -> bool {
    match v {
        Some(a) => s matches Some(b) && a@ == b,
        None => s is None,
    }
}

/// Reads an optional string: `None` when the stream is at its end, else the
/// bytes up to a NUL, as text. Fails with `UnexpectedEof` when the stream ends
/// before the NUL.
pub fn read_optional_string(reader: &mut ByteReader) -> (r: Result<Option<String>, Error>)
    requires
        old(reader).wf(),
    ensures
        final(reader).wf(),
        final(reader).spec_data() == old(reader).spec_data(),
        match spec_optional_string(old(reader).rest()) {
            Ok((s, n)) => r matches Ok(v) && optional_text_matches(v, s) && final(reader).rest()
                == old(reader).rest().skip(n as int),
            Err(k) => r matches Err(e) && e.kind == k,
        },
        r matches Ok(Some(v)) ==> (valid_utf8(bytes_before_nul(old(reader).rest())) ==> v@ == decode_utf8(
            bytes_before_nul(old(reader).rest()),
        )),
{
    let ghost rest0 = reader.rest();
    let first = match reader.read_u8() {
        Ok(b) => b,
        Err(_) => {
            assert(reader.rest() =~= rest0.skip(0));
            return Ok(None);
        },
    };
    let mut bytes: Vec<u8> = Vec::new();
    let mut byte = first;
    loop
        invariant
            reader.wf(),
            reader.spec_data() == old(reader).spec_data(),
            rest0 == old(reader).rest(),
            rest0.len() >= bytes@.len() + 1,
            bytes@ == rest0.take(bytes@.len() as int),
            byte == rest0[bytes@.len() as int],
            reader.rest() == rest0.skip((bytes@.len() + 1) as int),
            forall|j: int| 0 <= j < bytes@.len() ==> rest0[j] != 0,
        decreases reader.rest().len(),
    {
        if byte == 0 {
            proof {
                lemma_first_nul(rest0, bytes@.len() as int);
            }
            return Ok(Some(string_from_utf8_lossy(bytes.as_slice())));
        }
        bytes.push(byte);
        proof {
            assert(bytes@ =~= rest0.take(bytes@.len() as int));
        }
        byte = match reader.read_u8() {
            Ok(b) => b,
            Err(e) => {
                proof {
                    lemma_first_nul(rest0, bytes@.len() as int);
                }
                return Err(e);
            },
        };
        assert(reader.rest() =~= rest0.skip((bytes@.len() + 1) as int));
    }
}

/// No character of `s` is NUL.
pub open spec fn has_no_nul(s: Seq<char>) -> bool {
    forall|i: int| 0 <= i < s.len() ==> #[trigger] s[i] as u32 != 0
}

/// Every byte of the UTF-8 encoding of a character other than NUL is nonzero.
proof fn lemma_scalar_bytes_nonzero(s: u32)
    by (bit_vector)
    requires
        s != 0,
    ensures
        s <= 0x7F ==> (s & 0x7F) as u8 != 0,
        (0xC0u8 | ((s >> 6) & 0x1F) as u8) != 0,
        (0xE0u8 | ((s >> 12) & 0x0F) as u8) != 0,
        (0xF0u8 | ((s >> 18) & 0x7) as u8) != 0,
        (0x80u8 | (s & 0x3F) as u8) != 0,
        (0x80u8 | ((s >> 6) & 0x3F) as u8) != 0,
        (0x80u8 | ((s >> 12) & 0x3F) as u8) != 0,
{
}

/// The UTF-8 encoding of text without NUL characters has no zero byte, and it
/// decodes back to the text.
pub proof fn lemma_encode_utf8_no_nul(chars: Seq<char>)
    requires
        has_no_nul(chars),
    ensures
        forall|j: int| 0 <= j < encode_utf8(chars).len() ==> #[trigger] encode_utf8(chars)[j] != 0,
        valid_utf8(encode_utf8(chars)),
        decode_utf8(encode_utf8(chars)) == chars,
    decreases chars.len(),
{
    vstd::utf8::encode_utf8_valid_utf8(chars);
    vstd::utf8::encode_utf8_decode_utf8(chars);
    if chars.len() > 0 {
        let rest = chars.drop_first();
        assert(has_no_nul(rest)) by {
            assert forall|i: int| 0 <= i < rest.len() implies #[trigger] rest[i] as u32 != 0 by {
                assert(rest[i] == chars[i + 1]);
            }
        }
        lemma_encode_utf8_no_nul(rest);
        let s = chars[0] as u32;
        assert(s != 0);
        lemma_scalar_bytes_nonzero(s);
        let head = encode_scalar(s);
        assert forall|j: int| 0 <= j < head.len() implies head[j] != 0 by {}
        let all = encode_utf8(chars);
        assert(all == head + encode_utf8(rest));
        assert forall|j: int| 0 <= j < all.len() implies #[trigger] all[j] != 0 by {
            if j < head.len() {
                assert(all[j] == head[j]);
            } else {
                assert(all[j] == encode_utf8(rest)[j - head.len()]);
            }
        }
    }
}

} // verus!
