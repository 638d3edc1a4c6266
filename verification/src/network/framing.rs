//! Frames between nodes: a length in four bytes, the highest first, and then as
//! many bytes.

use vstd::prelude::*;

use crate::engine::{IoFailure, IoKind};
use crate::wire::{
    append_bytes, high_first, high_first_bytes, law_lengths_round_trip, number_from,
    number_of_high_first,
};

verus! {

/// The most bytes that a frame may carry.
pub const MAX_FRAME_SIZE: u32 = 67108864;

/// The most bytes of memory that are kept from one frame to the next.
pub const MAX_REUSABLE_FRAME_BUFFER_SIZE: usize = 1048576;

/// The frame of some bytes.
pub open spec fn frame_of(payload: Seq<u8>) -> Seq<u8> {
    high_first(payload.len() as u32) + payload
}

/// The frame of some bytes, or why there is none.
pub fn encode_frame(payload: &[u8]) -> (r: Result<Vec<u8>, IoFailure>)
    ensures
        match r {
            Ok(frame) => payload@.len() <= MAX_FRAME_SIZE && frame@ == frame_of(payload@),
            Err(failure) => payload@.len() > MAX_FRAME_SIZE && failure.kind == IoKind::InvalidData
                && failure.message@ == (if payload@.len() > u32::MAX {
                "peer RPC is too large"@
            } else {
                "peer RPC exceeds the frame limit"@
            }),
        },
{
    if payload.len() as u64 > u32::MAX as u64 {
        return Err(
            IoFailure { kind: IoKind::InvalidData, message: "peer RPC is too large".to_owned() },
        );
    }
    let length: u32 = payload.len() as u32;
    if length > MAX_FRAME_SIZE {
        return Err(
            IoFailure {
                kind: IoKind::InvalidData,
                message: "peer RPC exceeds the frame limit".to_owned(),
            },
        );
    }
    let mut frame = high_first_bytes(length);
    append_bytes(&mut frame, payload);
    Ok(frame)
}

/// How many bytes a frame carries, by the four bytes in front of it, or why it
/// may not be read.
pub fn frame_length(header: [u8; 4]) -> (r: Result<u32, IoFailure>)
    ensures
        match r {
            Ok(length) => length == number_of_high_first(header@) && length <= MAX_FRAME_SIZE,
            Err(failure) => number_of_high_first(header@) > MAX_FRAME_SIZE && failure.kind
                == IoKind::InvalidData && failure.message@ == "peer RPC exceeds the frame limit"@,
        },
{
    let length: u32 = number_from(header[3], header[2], header[1], header[0]);
    if length > MAX_FRAME_SIZE {
        return Err(
            IoFailure {
                kind: IoKind::InvalidData,
                message: "peer RPC exceeds the frame limit".to_owned(),
            },
        );
    }
    Ok(length)
}

/// Whether a buffer of some size is kept for the next frame.
pub fn keeps_buffer(capacity: usize) -> (r: bool)
    ensures
        r == (capacity <= MAX_REUSABLE_FRAME_BUFFER_SIZE),
{
    capacity <= MAX_REUSABLE_FRAME_BUFFER_SIZE
}

/// A frame gives back what was put into it: its first four bytes say how many
/// follow, and those are what the frame was made of.
pub proof fn law_frames_round_trip(payload: Seq<u8>)
    requires
        payload.len() <= MAX_FRAME_SIZE,
    ensures
        number_of_high_first(frame_of(payload).take(4)) == payload.len(),
        frame_of(payload).skip(4) == payload,
        frame_of(payload).len() == payload.len() + 4,
{
    law_lengths_round_trip(payload.len() as u32);
    assert(frame_of(payload).take(4) =~= high_first(payload.len() as u32));
    assert(frame_of(payload).skip(4) =~= payload);
}

/// A frame is made of anything up to the limit, and read back by the four bytes in front of
/// it; what is longer is refused on both sides.
pub proof fn law_frames_are_limited(
    payload: &'static [u8],
    frame: Result<Vec<u8>, IoFailure>,
    header: [u8; 4],
    length: Result<u32, IoFailure>,
)
    requires
        call_ensures(encode_frame, (payload,), frame),
        call_ensures(frame_length, (header,), length),
    ensures
        frame is Ok <==> payload@.len() <= 64 * 1024 * 1024,
        frame matches Ok(bytes) ==> bytes@.len() == payload@.len() + 4 && bytes@.skip(4)
            == payload@,
        ({
            let n = header@[3] + 256 * header@[2] + 256 * 256 * header@[1] + 256 * 256 * 256
                * header@[0];
            &&& length is Ok <==> n <= 64 * 1024 * 1024
            &&& length matches Ok(said) ==> said == n
        }),
{
    if payload@.len() <= MAX_FRAME_SIZE {
        law_frames_round_trip(payload@);
    }
}

} // verus!
