//! The message envelope: a 16-bit length, least significant byte first, and
//! then that many bytes of payload. This is the whole agreement between two
//! peers on where a message ends.

use crate::error::FramingError;
use crate::serialization::byte_reader::ByteReader;
use crate::serialization::byte_writer::ByteWriter;
use crate::serialization::wire::{
    decode_u16, encode_u16, lemma_overwrite_peek, lemma_unsigned_round_trip, overwrite,
};
use vstd::prelude::*;

verus! {

/// Number of bytes of the length prefix.
pub const HEADER_LEN: usize = 2;

/// Largest payload that an envelope can hold.
pub const MAX_PAYLOAD_LEN: usize = 65535;

/// The envelope of `payload`: its length, then its bytes.
pub open spec fn frame(payload: Seq<u8>) -> Seq<u8>
    recommends
        payload.len() <= MAX_PAYLOAD_LEN,
{
    encode_u16(payload.len() as u16) + payload
}

/// What taking one message from the start of `stream` gives: the payload and
/// the number of bytes used, or `Truncated` where the stream ends inside the
/// prefix or inside the payload.
pub open spec fn parse_frame(stream: Seq<u8>) -> Result<(Seq<u8>, nat), FramingError> {
    if stream.len() < 2 {
        Err(FramingError::Truncated)
    } else {
        let n = decode_u16(stream.subrange(0, 2)) as int;
        if stream.len() < 2 + n {
            Err(FramingError::Truncated)
        } else {
            Ok((stream.subrange(2, 2 + n), (2 + n) as nat))
        }
    }
}

/// Framing round trip: a payload of at most 65535 bytes comes back from its
/// envelope byte for byte and with its length, whatever follows the envelope
/// in the stream.
pub proof fn lemma_frame_round_trip(payload: Seq<u8>, rest: Seq<u8>)
    requires
        payload.len() <= MAX_PAYLOAD_LEN,
    ensures
        frame(payload).len() == 2 + payload.len(),
        parse_frame(frame(payload) + rest) == Ok::<(Seq<u8>, nat), FramingError>(
            (payload, frame(payload).len()),
        ),
{
    let n = payload.len() as u16;
    let all = frame(payload) + rest;
    lemma_unsigned_round_trip(0, n, 0, 0);
    assert(all.subrange(0, 2) =~= encode_u16(n));
    assert(all.subrange(2, 2 + n) =~= payload);
}

/// A stream that is cut anywhere inside an envelope is truncated.
pub proof fn lemma_cut_frame_is_truncated(payload: Seq<u8>, cut: int)
    requires
        payload.len() <= MAX_PAYLOAD_LEN,
        0 <= cut < frame(payload).len(),
    ensures
        parse_frame(frame(payload).subrange(0, cut)) == Err::<(Seq<u8>, nat), FramingError>(
            FramingError::Truncated,
        ),
{
    let n = payload.len() as u16;
    let part = frame(payload).subrange(0, cut);
    lemma_unsigned_round_trip(0, n, 0, 0);
    if cut >= 2 {
        assert(part.subrange(0, 2) =~= encode_u16(n));
    }
}

/// The payload length that a two-byte length prefix announces.
pub fn payload_len(header: &[u8; 2]) -> (n: u16)
    ensures
        n == decode_u16(header@),
{
    let mut reader = ByteReader::new(header.as_slice());
    proof {
        assert(reader@.peek(2) =~= header@);
    }
    match reader.read_u16() {
        Ok(n) => n,
        Err(_) => 0,
    }
}

/// Writes the envelope of `payload` at the start of `dst` and returns it.
/// A payload of more than 65535 bytes is refused before anything is
/// written.
pub fn frame_message<'a>(dst: &'a mut [u8], payload: &[u8]) -> (r: Result<&'a [u8], FramingError>)
    requires
        old(dst)@.len() >= 2 + payload@.len(),
    ensures
        payload@.len() <= MAX_PAYLOAD_LEN <==> r is Ok,
        r matches Ok(bytes) ==> bytes@ == frame(payload@) && final(dst)@ == overwrite(
            old(dst)@,
            0,
            frame(payload@),
        ),
        r matches Err(e) ==> e == FramingError::Oversized && final(dst)@ == old(dst)@,
{
    if payload.len() > MAX_PAYLOAD_LEN {
        return Err(FramingError::Oversized);
    }
    let ghost before = dst@;
    let mut writer = ByteWriter::new_for_message(dst);
    writer.write(payload);
    let ghost written = writer@.buf;
    if writer.write_message_len().is_err() {
        return Err(FramingError::Oversized);
    }
    let bytes = writer.into_bytes();
    proof {
        let n = payload@.len() as u16;
        lemma_overwrite_peek(before, 2, payload@);
        lemma_overwrite_peek(written, 0, encode_u16(n));
        assert(bytes@ =~= frame(payload@));
        assert(overwrite(written, 0, encode_u16(n)) =~= overwrite(before, 0, frame(payload@)));
    }
    Ok(bytes)
}

/// Takes one message from `stream`: reads the two bytes of the length, then
/// copies exactly that many bytes into `buf` and hands back a reader at the
/// start of them. Where the stream ends first, nothing is taken and `buf`
/// stays as it was.
pub fn receive_message<'a>(stream: &mut ByteReader<'_>, buf: &'a mut Vec<u8>) -> (r: Result<
    ByteReader<'a>,
    FramingError,
>)
    ensures
        match parse_frame(old(stream)@.remaining()) {
            Ok((payload, used)) => {
                &&& r is Ok
                &&& r->Ok_0@.src == payload
                &&& r->Ok_0@.pos == 0
                &&& final(buf)@ == payload
                &&& final(stream)@ == old(stream)@.advance(used)
            },
            Err(e) => r is Err && r->Err_0 == e && final(buf)@ == old(buf)@ && final(stream)@
                == old(stream)@,
        },
{
    let ghost rest = stream@.remaining();
    if stream.bytes_remaining() < HEADER_LEN {
        return Err(FramingError::Truncated);
    }
    let available = stream.bytes();
    let header = [available[0], available[1]];
    proof {
        assert(header@ =~= rest.subrange(0, 2));
    }
    let len = payload_len(&header) as usize;
    if available.len() - HEADER_LEN < len {
        return Err(FramingError::Truncated);
    }
    buf.clear();
    let mut i: usize = 0;
    while i < len
        invariant
            i <= len,
            available@ == rest,
            2 + len <= rest.len() <= usize::MAX,
            buf@ == rest.subrange(2, 2 + i),
        decreases len - i,
    {
        buf.push(available[HEADER_LEN + i]);
        i = i + 1;
        proof {
            assert(buf@ =~= rest.subrange(2, 2 + i));
        }
    }
    stream.skip(HEADER_LEN + len);
    Ok(ByteReader::new(buf.as_slice()))
}

} // verus!
