//! Frames: the length of a payload as four bytes, the most significant first, and the payload.

use vstd::prelude::*;

use crate::api::LocalApiError;
use crate::text::{clone_bytes, slice_bytes};

verus! {

/// The bytes before a payload.
pub const HEADER_BYTES: usize = 4;

/// The length that a header gives.
pub open spec fn header_value(header: Seq<u8>) -> nat {
    (header[0] * 0x100_0000 + header[1] * 0x1_0000 + header[2] * 0x100 + header[3]) as nat
}

/// The header of a payload of this length.
pub open spec fn header_of(length: nat) -> Seq<u8> {
    seq![
        (length / 0x100_0000) as u8,
        (length / 0x1_0000 % 0x100) as u8,
        (length / 0x100 % 0x100) as u8,
        (length % 0x100) as u8,
    ]
}

/// A payload in its frame.
pub open spec fn framed(payload: Seq<u8>) -> Seq<u8> {
    header_of(payload.len()) + payload
}

/// What a header announces under a limit.
pub open spec fn announced(header: Seq<u8>, max_frame_bytes: usize) -> Result<
    nat,
    LocalApiError,
> {
    let length = header_value(header);
    if length == 0 {
        Err(LocalApiError::Protocol)
    } else if length > max_frame_bytes {
        Err(LocalApiError::FrameTooLarge)
    } else {
        Ok(length)
    }
}

/// The length of the payload behind a header, if it may be read at all.
pub fn frame_length(header: &[u8; 4], max_frame_bytes: usize) -> (r: Result<usize, LocalApiError>)
    ensures
        announced(header@, max_frame_bytes) == (match r {
            Ok(length) => Ok::<nat, LocalApiError>(length as nat),
            Err(error) => Err(error),
        }),
{
    let length: u32 = header[0] as u32 * 0x100_0000 + header[1] as u32 * 0x1_0000 + header[2]
        as u32 * 0x100 + header[3] as u32;
    if length == 0 {
        return Err(LocalApiError::Protocol);
    }
    if length as usize > max_frame_bytes {
        return Err(LocalApiError::FrameTooLarge);
    }
    Ok(length as usize)
}

/// What is read from the bytes of a connection: nothing where it was closed at once.
pub open spec fn read(bytes: Seq<u8>, max_frame_bytes: usize) -> Result<
    Option<Seq<u8>>,
    LocalApiError,
> {
    if bytes.len() == 0 {
        Ok(None)
    } else if bytes.len() < HEADER_BYTES {
        Err(LocalApiError::Protocol)
    } else {
        match announced(bytes.take(4), max_frame_bytes) {
            Err(error) => Err(error),
            Ok(length) => if bytes.len() < HEADER_BYTES + length {
                Err(LocalApiError::Protocol)
            } else {
                Ok(Some(bytes.subrange(4, 4int + length)))
            },
        }
    }
}

/// Reads the payload of the frame at the front of the bytes of a connection.
pub fn read_frame(bytes: &[u8], max_frame_bytes: usize) -> (r: Result<
    Option<Vec<u8>>,
    LocalApiError,
>)
    ensures
        read(bytes@, max_frame_bytes) == (match r {
            Ok(Some(payload)) => Ok::<Option<Seq<u8>>, LocalApiError>(Some(payload@)),
            Ok(None) => Ok(None),
            Err(error) => Err(error),
        }),
{
    if bytes.len() == 0 {
        return Ok(None);
    }
    if bytes.len() < HEADER_BYTES {
        return Err(LocalApiError::Protocol);
    }
    let header: [u8; 4] = [bytes[0], bytes[1], bytes[2], bytes[3]];
    assert(header@ =~= bytes@.take(4));
    match frame_length(&header, max_frame_bytes) {
        Ok(length) => {
            if bytes.len() - HEADER_BYTES < length {
                return Err(LocalApiError::Protocol);
            }
            let payload = slice_bytes(bytes, HEADER_BYTES, HEADER_BYTES + length);
            Ok(Some(payload))
        },
        Err(error) => Err(error),
    }
}

/// Whether a payload can be sent.
pub open spec fn sendable(length: nat, max_frame_bytes: usize) -> bool {
    0 < length <= max_frame_bytes && length <= u32::MAX
}

/// Puts a payload into its frame.
pub fn write_frame(payload: &[u8], max_frame_bytes: usize) -> (r: Result<Vec<u8>, LocalApiError>)
    ensures
        r is Ok <==> sendable(payload@.len(), max_frame_bytes),
        r is Ok ==> (r->Ok_0)@ == framed(payload@),
        r is Err ==> r->Err_0 == LocalApiError::FrameTooLarge,
{
    if payload.len() == 0 || payload.len() > max_frame_bytes || payload.len() as u64
        > 0xffff_ffff {
        return Err(LocalApiError::FrameTooLarge);
    }
    let length: u64 = payload.len() as u64;
    let mut frame: Vec<u8> = Vec::new();
    frame.push((length / 0x100_0000) as u8);
    frame.push((length / 0x1_0000 % 0x100) as u8);
    frame.push((length / 0x100 % 0x100) as u8);
    frame.push((length % 0x100) as u8);
    assert(frame@ =~= header_of(payload@.len()));
    let mut tail = clone_bytes(payload);
    frame.append(&mut tail);
    assert(frame@ =~= framed(payload@));
    Ok(frame)
}

/// A payload comes out of its frame as it went in, whatever follows the frame.
pub proof fn law_frames_read_back(payload: Seq<u8>, rest: Seq<u8>, max_frame_bytes: usize)
    requires
        sendable(payload.len(), max_frame_bytes),
    ensures
        read(framed(payload) + rest, max_frame_bytes) == Ok::<Option<Seq<u8>>, LocalApiError>(
            Some(payload),
        ),
{
    let bytes = framed(payload) + rest;
    let length = payload.len();
    assert(bytes.take(4) =~= header_of(length));
    assert(header_value(header_of(length)) == length) by {
        assert(length / 0x100_0000 < 0x100);
        assert(length / 0x100_0000 * 0x100_0000 + length / 0x1_0000 % 0x100 * 0x1_0000 + length
            / 0x100 % 0x100 * 0x100 + length % 0x100 == length);
    }
    assert(bytes.subrange(4, 4int + length) =~= payload);
}

/// A frame over the limit is refused by its header alone, before anything of its payload is
/// read.
pub proof fn law_large_frames_are_refused_early(header: Seq<u8>, rest: Seq<u8>, max_frame_bytes: usize)
    requires
        header.len() == HEADER_BYTES,
        header_value(header) > max_frame_bytes,
    ensures
        read(header + rest, max_frame_bytes) == Err::<Option<Seq<u8>>, LocalApiError>(
            LocalApiError::FrameTooLarge,
        ),
{
    assert((header + rest).take(4) =~= header);
}

} // verus!
