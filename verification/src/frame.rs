//! Length-prefixed binary frames.
//!
//! A frame is a 4-byte unsigned length followed by exactly that many payload
//! bytes. The byte order of the length is fixed per channel and both ends of
//! a channel must agree on it.

use crate::error::IpcError;
use vstd::prelude::*;

verus! {

/// Byte order of the length header of a channel.
#[derive(Clone, Copy, Debug, PartialEq, Eq, Structural)]
pub enum ByteOrder {
    /// Least significant byte first.
    LittleEndian,
    /// Most significant byte first.
    BigEndian,
}

/// Number of bytes of a length header.
pub const HEADER_LEN: usize = 4;

/// The four bytes that stand for `len` on the wire.
pub open spec fn length_header(len: u32, order: ByteOrder) -> Seq<u8> {
    let b0 = (len % 0x100) as u8;
    let b1 = (len / 0x100 % 0x100) as u8;
    let b2 = (len / 0x1_0000 % 0x100) as u8;
    let b3 = (len / 0x100_0000 % 0x100) as u8;
    match order {
        ByteOrder::LittleEndian => seq![b0, b1, b2, b3],
        ByteOrder::BigEndian => seq![b3, b2, b1, b0],
    }
}

/// The length that the first four bytes of `header` stand for.
pub open spec fn header_length(header: Seq<u8>, order: ByteOrder) -> nat
    recommends
        header.len() >= 4,
{
    match order {
        ByteOrder::LittleEndian => (header[0] + 0x100 * header[1] + 0x1_0000 * header[2]
            + 0x100_0000 * header[3]) as nat,
        ByteOrder::BigEndian => (header[3] + 0x100 * header[2] + 0x1_0000 * header[1]
            + 0x100_0000 * header[0]) as nat,
    }
}

/// The length written in front of a payload of `payload_len` bytes: the
/// payload length itself while it fits in 32 bits, its low 32 bits beyond.
pub open spec fn wire_length(payload_len: nat) -> u32 {
    (payload_len % 0x1_0000_0000) as u32
}

/// The frame that carries `payload`.
pub open spec fn binary_frame(payload: Seq<u8>, order: ByteOrder) -> Seq<u8> {
    length_header(wire_length(payload.len()), order) + payload
}

/// The payload of the frame at the start of `stream`, where `stream` is all
/// that arrived before the stream closed. `None` where the header or the
/// payload it announces is incomplete.
pub open spec fn frame_payload(stream: Seq<u8>, order: ByteOrder) -> Option<Seq<u8>> {
    if stream.len() < 4 {
        None
    } else {
        let announced = header_length(stream, order);
        if stream.len() - 4 < announced {
            None
        } else {
            Some(stream.subrange(4, 4 + announced as int))
        }
    }
}

/// A header read back gives the length it was written for.
pub proof fn lemma_header_round_trip(len: u32, order: ByteOrder)
    ensures
        length_header(len, order).len() == 4,
        header_length(length_header(len, order), order) == len,
{
}

/// Decoding what `binary_frame` built gives the payload back, whatever
/// follows the frame on the stream, as long as the payload length fits in
/// the 32-bit header.
pub proof fn lemma_frame_round_trip(payload: Seq<u8>, rest: Seq<u8>, order: ByteOrder)
    requires
        payload.len() <= u32::MAX,
    ensures
        binary_frame(payload, order).len() == 4 + payload.len(),
        frame_payload(binary_frame(payload, order) + rest, order) == Some(payload),
{
    let header = length_header(wire_length(payload.len()), order);
    let stream = binary_frame(payload, order) + rest;
    lemma_header_round_trip(wire_length(payload.len()), order);
    assert(stream[0] == header[0] && stream[1] == header[1] && stream[2] == header[2] && stream[3]
        == header[3]);
    assert(header_length(stream, order) == payload.len());
    assert(stream.subrange(4, 4 + payload.len() as int) =~= payload);
}

/// Appends the header for `len` to `out`.
fn push_header(out: &mut Vec<u8>, len: u32, order: ByteOrder)
    ensures
        final(out)@ == old(out)@ + length_header(len, order),
{
    let b0: u8 = (len % 0x100) as u8;
    let b1: u8 = (len / 0x100 % 0x100) as u8;
    let b2: u8 = (len / 0x1_0000 % 0x100) as u8;
    let b3: u8 = (len / 0x100_0000 % 0x100) as u8;
    match order {
        ByteOrder::LittleEndian => {
            out.push(b0);
            out.push(b1);
            out.push(b2);
            out.push(b3);
        },
        ByteOrder::BigEndian => {
            out.push(b3);
            out.push(b2);
            out.push(b1);
            out.push(b0);
        },
    }
    assert(out@ =~= old(out)@ + length_header(len, order));
}

/// Prepends the 4-byte length header to `payload`.
///
/// No limit is put on the payload: beyond 32 bits of length the header holds
/// the low 32 bits, and such a frame does not decode to its payload.
pub fn encode_binary_frame(payload: &[u8], order: ByteOrder) -> (frame: Vec<u8>)
    ensures
        frame@ == binary_frame(payload@, order),
{
    let total: u64 = payload.len() as u64;
    let len: u32 = (total % 0x1_0000_0000) as u32;
    let mut frame: Vec<u8> = Vec::new();
    push_header(&mut frame, len, order);
    let ghost header = frame@;
    frame.extend_from_slice(payload);
    assert(frame@ =~= header + payload@);
    frame
}

/// Reads the frame at the start of `stream`: four header bytes, then as many
/// payload bytes as the header announces. `stream` holds all that arrived
/// before the stream closed; bytes after the frame are left alone.
///
/// Fails with `ShortRead` exactly when the header or the announced payload
/// is incomplete.
pub fn decode_binary_frame(stream: &[u8], order: ByteOrder) -> (result: Result<Vec<u8>, IpcError>)
    ensures
        match result {
            Ok(payload) => frame_payload(stream@, order) == Some(payload@),
            Err(e) => e == IpcError::ShortRead && frame_payload(stream@, order) is None,
        },
{
    if stream.len() < HEADER_LEN {
        return Err(IpcError::ShortRead);
    }
    let h0: u64 = stream[0] as u64;
    let h1: u64 = stream[1] as u64;
    let h2: u64 = stream[2] as u64;
    let h3: u64 = stream[3] as u64;
    let announced: u64 = match order {
        ByteOrder::LittleEndian => h0 + 0x100 * h1 + 0x1_0000 * h2 + 0x100_0000 * h3,
        ByteOrder::BigEndian => h3 + 0x100 * h2 + 0x1_0000 * h1 + 0x100_0000 * h0,
    };
    assert(announced == header_length(stream@, order));
    let available: u64 = (stream.len() - HEADER_LEN) as u64;
    if available < announced {
        return Err(IpcError::ShortRead);
    }
    let end: usize = HEADER_LEN + announced as usize;
    let payload = vstd::slice::slice_to_vec(vstd::slice::slice_subrange(stream, HEADER_LEN, end));
    Ok(payload)
}

} // verus!
