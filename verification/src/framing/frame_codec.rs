//! Frames on the wire.
//!
//! Behind the packet header a datagram holds its frames back to back. Every
//! frame starts with its type code. `EMPTY` and `PADDING` are that one byte
//! and no more. Every other frame goes on with the identifier of its stream
//! and then with what its kind carries:
//!
//! | kind                            | bytes behind the code                  |
//! |---------------------------------|----------------------------------------|
//! | `EMPTY`, `PADDING`              | none                                   |
//! | `CLOSE`, `DETACH`, `RESET`,     | identifier (8)                         |
//! | `SETTINGS`                      |                                        |
//! | `ACK`, `DECONGESTION`           | identifier (8), amount (4)             |
//! | `PRIORITY`                      | identifier (8), priority (4, two's     |
//! |                                 | complement)                            |
//! | `STREAM`                        | identifier (8), flags (1: bit 0 end of |
//! |                                 | record), length (2), data (length)     |
//!
//! All numbers stand most significant byte first. The seven high bits of the
//! flags of a `STREAM` frame are written as zero and ignored when read.

use vstd::prelude::*;
use crate::framing::frame::{fits, BodyView, Frame, FrameBody, FrameView};
use crate::framing::frame_type::{FrameKind, FrameType};
use crate::framing::frame_types::{PADDING, STREAM};
use crate::framing::wire::{
    be_bytes, be_value, get_be, lemma_be_bytes_len, lemma_be_value_bound, lemma_be_value_of_bytes,
    lemma_radix_pow_values, put_be, put_bytes,
};

verus! {

/// Why a frame could not be written or read.
#[derive(Clone, Copy, Debug, PartialEq, Eq, Structural)]
pub enum FrameError {
    /// The frame has no form on the wire: its type code is none of the ten,
    /// its body is not one that its kind carries, it is for no stream and
    /// yet names one or carries something, or its data is longer than a
    /// length of two bytes can say.
    NotEncodable,
    /// The buffer is shorter than the frame.
    BufferTooSmall,
    /// The bytes end before the frame does.
    Truncated,
    /// The type code is none of the ten.
    UnknownFrameTag,
}

/// Most bytes of data that one `STREAM` frame carries.
pub const MAX_FRAME_DATA: usize = 0xffff;

/// The number that stands for a priority in its four bytes.
pub open spec fn priority_code(priority: i32) -> nat {
    if priority >= 0 {
        priority as nat
    } else {
        (priority + 0x1_0000_0000) as nat
    }
}

/// The priority that a four-byte number stands for.
pub open spec fn priority_of(code: nat) -> i32 {
    if code < 0x8000_0000 {
        code as i32
    } else {
        (code - 0x1_0000_0000) as i32
    }
}

/// Whether a frame has a form on the wire.
pub open spec fn encodable(frame: FrameView) -> bool {
    &&& frame.frame_type.kind() matches Some(kind)
    &&& fits(kind, frame.body)
    &&& kind.is_filler() ==> frame.usid == 0 && frame.body is Nothing
    &&& frame.body matches BodyView::Data { data, .. } ==> data.len() <= MAX_FRAME_DATA
}

/// The bytes of a body.
pub open spec fn encoded_body(body: BodyView) -> Seq<u8> {
    match body {
        BodyView::Nothing => Seq::empty(),
        BodyView::Data { data, end_of_record } => seq![
            if end_of_record {
                1u8
            } else {
                0u8
            },
        ] + be_bytes(data.len(), 2) + data,
        BodyView::Amount(amount) => be_bytes(amount as nat, 4),
        BodyView::Priority(priority) => be_bytes(priority_code(priority), 4),
    }
}

/// The bytes of a frame that has a form on the wire.
pub open spec fn encoded_frame(frame: FrameView) -> Seq<u8> {
    if frame.frame_type.kind() is Some && frame.frame_type.kind()->Some_0.is_filler() {
        seq![frame.frame_type.0]
    } else {
        seq![frame.frame_type.0] + be_bytes(frame.usid as nat, 8) + encoded_body(frame.body)
    }
}

/// What reading a frame from the front of `bytes` gives, and how many bytes
/// the frame takes.
pub open spec fn decoded_frame(bytes: Seq<u8>) -> Result<(FrameView, nat), FrameError> {
    if bytes.len() == 0 {
        Err(FrameError::Truncated)
    } else {
        let frame_type = FrameType(bytes[0]);
        match frame_type.kind() {
            None => Err(FrameError::UnknownFrameTag),
            Some(kind) => if kind.is_filler() {
                Ok((FrameView { frame_type, usid: 0, body: BodyView::Nothing }, 1nat))
            } else if bytes.len() < 9 + fixed_body_len(kind) {
                Err(FrameError::Truncated)
            } else {
                let usid = be_value(bytes.subrange(1, 9)) as u64;
                let number = be_value(bytes.subrange(9, 13));
                let length = be_value(bytes.subrange(10, 12));
                match kind {
                    FrameKind::Stream => if bytes.len() < 12 + length {
                        Err(FrameError::Truncated)
                    } else {
                        Ok(
                            (
                                FrameView {
                                    frame_type,
                                    usid,
                                    body: BodyView::Data {
                                        data: bytes.subrange(12, 12 + length as int),
                                        end_of_record: bytes[9] % 2 == 1,
                                    },
                                },
                                12 + length,
                            ),
                        )
                    },
                    FrameKind::Ack => Ok(
                        (FrameView { frame_type, usid, body: BodyView::Amount(number as u32) }, 13nat),
                    ),
                    FrameKind::Decongestion => Ok(
                        (FrameView { frame_type, usid, body: BodyView::Amount(number as u32) }, 13nat),
                    ),
                    FrameKind::Priority => Ok(
                        (
                            FrameView {
                                frame_type,
                                usid,
                                body: BodyView::Priority(priority_of(number)),
                            },
                            13nat,
                        ),
                    ),
                    _ => Ok((FrameView { frame_type, usid, body: BodyView::Nothing }, 9nat)),
                }
            },
        }
    }
}

/// Number of bytes that a frame of the given kind has behind its
/// identifier whatever it carries.
pub open spec fn fixed_body_len(kind: FrameKind) -> nat {
    match kind {
        FrameKind::Stream => 3,
        FrameKind::Ack => 4,
        FrameKind::Decongestion => 4,
        FrameKind::Priority => 4,
        _ => 0,
    }
}

/// A priority and the number that stands for it correspond one to one.
pub proof fn lemma_priority_code(priority: i32)
    ensures
        priority_code(priority) < 0x1_0000_0000,
        priority_of(priority_code(priority)) == priority,
{
}

/// A frame that was written reads back as it was, whatever bytes follow it,
/// and takes as many bytes as were written.
pub proof fn lemma_decode_encode_frame(frame: FrameView, tail: Seq<u8>)
    requires
        encodable(frame),
    ensures
        encoded_frame(frame).len() >= 1,
        decoded_frame(encoded_frame(frame) + tail) == Ok::<(FrameView, nat), FrameError>(
            (frame, encoded_frame(frame).len()),
        ),
{
    let kind = frame.frame_type.kind()->Some_0;
    let bytes = encoded_frame(frame) + tail;
    assert(bytes[0] == frame.frame_type.0);
    assert(FrameType(bytes[0]) == frame.frame_type);
    if !kind.is_filler() {
        lemma_radix_pow_values();
        lemma_be_bytes_len(frame.usid as nat, 8);
        lemma_be_value_of_bytes(frame.usid as nat, 8);
        assert(bytes.subrange(1, 9) =~= be_bytes(frame.usid as nat, 8));
        match frame.body {
            BodyView::Nothing => {},
            BodyView::Data { data, end_of_record } => {
                lemma_be_bytes_len(data.len(), 2);
                lemma_be_value_of_bytes(data.len(), 2);
                assert(bytes.subrange(10, 12) =~= be_bytes(data.len(), 2));
                assert(bytes.subrange(12, 12 + data.len() as int) =~= data);
            },
            BodyView::Amount(amount) => {
                lemma_be_bytes_len(amount as nat, 4);
                lemma_be_value_of_bytes(amount as nat, 4);
                assert(bytes.subrange(9, 13) =~= be_bytes(amount as nat, 4));
            },
            BodyView::Priority(priority) => {
                lemma_priority_code(priority);
                lemma_be_bytes_len(priority_code(priority), 4);
                lemma_be_value_of_bytes(priority_code(priority), 4);
                assert(bytes.subrange(9, 13) =~= be_bytes(priority_code(priority), 4));
            },
        }
    }
}

/// The `STREAM` frame that carries `data` for the stream `usid`, with a
/// record boundary behind the data if `end_of_record`.
pub open spec fn stream_frame(usid: u64, data: Seq<u8>, end_of_record: bool) -> FrameView {
    FrameView { frame_type: FrameType(STREAM), usid, body: BodyView::Data { data, end_of_record } }
}

/// The frame of the given kind for the stream `usid` that carries nothing.
pub open spec fn plain_frame(kind: FrameKind, usid: u64) -> FrameView {
    FrameView { frame_type: FrameType(kind.code()), usid, body: BodyView::Nothing }
}

/// A run of `count` padding frames.
pub open spec fn padding(count: nat) -> Seq<u8> {
    Seq::new(count, |i: int| PADDING)
}

/// A run of padding reads as that many `PADDING` frames and nothing else.
pub proof fn lemma_padding_decodes(count: nat)
    ensures
        decoded_frames(padding(count)).0 == Seq::new(
            count,
            |i: int| plain_frame(FrameKind::Padding, 0),
        ),
        decoded_frames(padding(count)).1 is None,
    decreases count,
{
    let bytes = padding(count);
    if count > 0 {
        lemma_padding_decodes((count - 1) as nat);
        assert(bytes.subrange(1, count as int) =~= padding((count - 1) as nat));
        assert(decoded_frames(bytes).0 =~= Seq::new(
            count,
            |i: int| plain_frame(FrameKind::Padding, 0),
        ));
    } else {
        assert(decoded_frames(bytes).0 =~= Seq::new(
            count,
            |i: int| plain_frame(FrameKind::Padding, 0),
        ));
    }
}

/// Frames that were written one behind the other, with nothing behind the
/// last, read back as they were.
pub proof fn lemma_decode_frames_concat(frame: FrameView, rest: Seq<u8>)
    requires
        encodable(frame),
    ensures
        decoded_frames(encoded_frame(frame) + rest).0 == seq![frame] + decoded_frames(rest).0,
        decoded_frames(encoded_frame(frame) + rest).1 == decoded_frames(rest).1,
{
    let bytes = encoded_frame(frame) + rest;
    lemma_decode_encode_frame(frame, rest);
    assert(bytes.subrange(encoded_frame(frame).len() as int, bytes.len() as int) =~= rest);
}

/// Fills `buffer` from `from` on with padding frames, to bring a datagram
/// up to size.
pub fn pad(buffer: &mut [u8], from: usize)
    requires
        from <= old(buffer)@.len(),
    ensures
        final(buffer)@ == old(buffer)@.subrange(0, from as int) + padding(
            (old(buffer)@.len() - from) as nat,
        ),
{
    let total = buffer.len();
    let mut i: usize = from;
    while i < total
        invariant
            from <= i <= total,
            buffer@.len() == total,
            old(buffer)@.len() == total,
            forall|k: int| 0 <= k < from ==> buffer@[k] == old(buffer)@[k],
            forall|k: int| from <= k < i ==> buffer@[k] == PADDING,
        decreases total - i,
    {
        buffer[i] = PADDING;
        i = i + 1;
    }
    proof {
        assert(buffer@ =~= old(buffer)@.subrange(0, from as int) + padding(
            (old(buffer)@.len() - from) as nat,
        ));
    }
}

/// Writes a `STREAM` frame at the front of `buffer`, for the stream `usid`,
/// with `data` and a record boundary behind it if `end_of_record`, and
/// returns how many bytes the frame took.
///
/// Fails with `NotEncodable` exactly when the data is longer than one frame
/// carries, and otherwise with `BufferTooSmall` exactly when the buffer is
/// shorter than the frame. On failure the buffer is untouched.
pub fn encode_stream_frame(buffer: &mut [u8], usid: u64, data: &[u8], end_of_record: bool) -> (result:
    Result<usize, FrameError>)
    ensures
        match result {
            Ok(len) => {
                let frame = stream_frame(usid, data@, end_of_record);
                &&& encodable(frame)
                &&& len == encoded_frame(frame).len()
                &&& len == 12 + data@.len()
                &&& len <= old(buffer)@.len()
                &&& final(buffer)@ == encoded_frame(frame) + old(buffer)@.subrange(
                    len as int,
                    old(buffer)@.len() as int,
                )
            },
            Err(error) => {
                &&& final(buffer)@ == old(buffer)@
                &&& error == if data@.len() > MAX_FRAME_DATA {
                    FrameError::NotEncodable
                } else {
                    FrameError::BufferTooSmall
                }
                &&& data@.len() <= MAX_FRAME_DATA ==> old(buffer)@.len() < 12 + data@.len()
            },
        },
{
    let total = buffer.len();
    if data.len() > MAX_FRAME_DATA {
        return Err(FrameError::NotEncodable);
    }
    let len = 12 + data.len();
    if total < len {
        return Err(FrameError::BufferTooSmall);
    }
    proof {
        lemma_be_bytes_len(usid as nat, 8);
        lemma_be_bytes_len(data@.len(), 2);
    }
    buffer[0] = STREAM;
    put_be(buffer, 1, 8, usid);
    let ghost head = seq![STREAM] + be_bytes(usid as nat, 8);
    assert(buffer@ =~= head + old(buffer)@.subrange(9, total as int));
    buffer[9] = if end_of_record {
        1
    } else {
        0
    };
    put_be(buffer, 10, 2, data.len() as u64);
    let ghost front = head + seq![buffer@[9]] + be_bytes(data@.len(), 2);
    assert(buffer@ =~= front + old(buffer)@.subrange(12, total as int));
    put_bytes(buffer, 12, data);
    assert(buffer@ =~= front + data@ + old(buffer)@.subrange(len as int, total as int));
    Ok(len)
}

/// The views of `frames`, in order.
pub open spec fn frame_views(frames: Seq<Frame>) -> Seq<FrameView> {
    Seq::new(frames.len(), |i: int| frames[i]@)
}

/// What reading frames from `bytes` gives until the bytes are used up or a
/// frame cannot be read: the frames read, and why reading stopped early if
/// it did.
pub open spec fn decoded_frames(bytes: Seq<u8>) -> (Seq<FrameView>, Option<FrameError>)
    decreases bytes.len(),
{
    if bytes.len() == 0 {
        (Seq::empty(), None)
    } else {
        match decoded_frame(bytes) {
            Err(error) => (Seq::empty(), Some(error)),
            Ok((frame, len)) => if 0 < len <= bytes.len() {
                let rest = decoded_frames(bytes.subrange(len as int, bytes.len() as int));
                (seq![frame] + rest.0, rest.1)
            } else {
                (Seq::empty(), Some(FrameError::Truncated))
            },
        }
    }
}

/// A frame that reads well lies within the bytes and takes at least one.
pub proof fn lemma_decoded_frame_len(bytes: Seq<u8>)
    requires
        decoded_frame(bytes) is Ok,
    ensures
        0 < decoded_frame(bytes)->Ok_0.1 <= bytes.len(),
{
}

/// What the frames read from a datagram were.
#[derive(Debug, PartialEq, Eq)]
pub struct Decoded {
    /// The frames that were read, in order.
    pub frames: Vec<Frame>,
    /// Why reading stopped before the bytes were used up, if it did. What
    /// follows the frame that could not be read is dropped with it.
    pub error: Option<FrameError>,
}

/// The number that stands for `priority` in its four bytes.
fn priority_number(priority: i32) -> (code: u32)
    ensures
        code == priority_code(priority),
{
    if priority >= 0 {
        priority as u32
    } else {
        (priority as i64 + 0x1_0000_0000i64) as u32
    }
}

impl Frame {
    /// Writes the frame at the front of `buffer` and returns how many bytes
    /// it took.
    ///
    /// Fails with `NotEncodable` exactly when the frame has no form on the
    /// wire, and otherwise with `BufferTooSmall` exactly when the buffer is
    /// shorter than the frame. On failure the buffer is untouched; on
    /// success only the frame's bytes are overwritten.
    pub fn encode(&self, buffer: &mut [u8]) -> (result: Result<usize, FrameError>)
        ensures
            match result {
                Ok(len) => {
                    &&& encodable(self@)
                    &&& len == encoded_frame(self@).len()
                    &&& len <= old(buffer)@.len()
                    &&& final(buffer)@ == encoded_frame(self@) + old(buffer)@.subrange(
                        len as int,
                        old(buffer)@.len() as int,
                    )
                },
                Err(error) => {
                    &&& final(buffer)@ == old(buffer)@
                    &&& error == if encodable(self@) {
                        FrameError::BufferTooSmall
                    } else {
                        FrameError::NotEncodable
                    }
                    &&& encodable(self@) ==> old(buffer)@.len() < encoded_frame(self@).len()
                },
            },
    {
        let total = buffer.len();
        let kind = match self.frame_type.kind() {
            Some(kind) => kind,
            None => {
                return Err(FrameError::NotEncodable);
            },
        };
        if !self.body.fits_kind(kind) {
            return Err(FrameError::NotEncodable);
        }
        if kind.is_filler() {
            let bare = match &self.body {
                FrameBody::Nothing => self.usid == 0,
                _ => false,
            };
            if !bare {
                return Err(FrameError::NotEncodable);
            }
            if total < 1 {
                return Err(FrameError::BufferTooSmall);
            }
            buffer[0] = self.frame_type.0;
            assert(buffer@ =~= encoded_frame(self@) + old(buffer)@.subrange(1, total as int));
            return Ok(1);
        }
        let amount: u32 = match &self.body {
            FrameBody::Data { data, end_of_record } => {
                proof {
                    lemma_be_bytes_len(self.usid as nat, 8);
                    lemma_be_bytes_len(data@.len(), 2);
                    assert(self@ == stream_frame(self.usid, data@, *end_of_record));
                }
                let written = encode_stream_frame(
                    buffer,
                    self.usid,
                    data.as_slice(),
                    *end_of_record,
                );
                return written;
            },
            FrameBody::Nothing => 0,
            FrameBody::Amount(amount) => *amount,
            FrameBody::Priority(priority) => priority_number(*priority),
        };
        let len: usize = match &self.body {
            FrameBody::Nothing => 9,
            _ => 13,
        };
        proof {
            lemma_be_bytes_len(self.usid as nat, 8);
            lemma_be_bytes_len(amount as nat, 4);
        }
        if total < len {
            return Err(FrameError::BufferTooSmall);
        }
        buffer[0] = self.frame_type.0;
        put_be(buffer, 1, 8, self.usid);
        if len > 9 {
            put_be(buffer, 9, 4, amount as u64);
        }
        assert(buffer@ =~= encoded_frame(self@) + old(buffer)@.subrange(len as int, total as int));
        Ok(len)
    }

    /// Reads the frame at the front of `bytes` and returns it with the
    /// number of bytes it takes.
    ///
    /// Fails with `Truncated` when the bytes end before the frame does, and
    /// with `UnknownFrameTag` when the type code is none of the ten.
    pub fn decode(bytes: &[u8]) -> (result: Result<(Frame, usize), FrameError>)
        ensures
            match result {
                Ok((frame, len)) => decoded_frame(bytes@) == Ok::<(FrameView, nat), FrameError>(
                    (frame@, len as nat),
                ) && 0 < len <= bytes@.len(),
                Err(error) => decoded_frame(bytes@) == Err::<(FrameView, nat), FrameError>(error),
            },
    {
        let total = bytes.len();
        if total == 0 {
            return Err(FrameError::Truncated);
        }
        let frame_type = FrameType::new(bytes[0]);
        let kind = match frame_type.kind() {
            Some(kind) => kind,
            None => {
                return Err(FrameError::UnknownFrameTag);
            },
        };
        if kind.is_filler() {
            return Ok((Frame { frame_type, usid: 0, body: FrameBody::Nothing }, 1));
        }
        let fixed: usize = match kind {
            FrameKind::Stream => 3,
            FrameKind::Ack => 4,
            FrameKind::Decongestion => 4,
            FrameKind::Priority => 4,
            _ => 0,
        };
        if total < 9 + fixed {
            return Err(FrameError::Truncated);
        }
        let usid = get_be(bytes, 1, 8);
        proof {
            lemma_radix_pow_values();
        }
        match kind {
            FrameKind::Stream => {
                proof {
                    lemma_be_value_bound(bytes@.subrange(10, 12));
                }
                let length = get_be(bytes, 10, 2) as usize;
                if total - 12 < length {
                    return Err(FrameError::Truncated);
                }
                let data = vstd::slice::slice_to_vec(
                    vstd::slice::slice_subrange(bytes, 12, 12 + length),
                );
                let end_of_record = bytes[9] % 2 == 1;
                Ok((Frame { frame_type, usid, body: FrameBody::Data { data, end_of_record } }, 12 + length))
            },
            FrameKind::Ack => {
                proof {
                    lemma_be_value_bound(bytes@.subrange(9, 13));
                }
                let amount = get_be(bytes, 9, 4) as u32;
                Ok((Frame { frame_type, usid, body: FrameBody::Amount(amount) }, 13))
            },
            FrameKind::Decongestion => {
                proof {
                    lemma_be_value_bound(bytes@.subrange(9, 13));
                }
                let amount = get_be(bytes, 9, 4) as u32;
                Ok((Frame { frame_type, usid, body: FrameBody::Amount(amount) }, 13))
            },
            FrameKind::Priority => {
                proof {
                    lemma_be_value_bound(bytes@.subrange(9, 13));
                }
                let number = get_be(bytes, 9, 4);
                let priority = if number < 0x8000_0000 {
                    number as i32
                } else {
                    (number as i64 - 0x1_0000_0000i64) as i32
                };
                Ok((Frame { frame_type, usid, body: FrameBody::Priority(priority) }, 13))
            },
            _ => Ok((Frame { frame_type, usid, body: FrameBody::Nothing }, 9)),
        }
    }
}

/// Reads the frames of a datagram's payload, one behind the other, until
/// the payload is used up or a frame cannot be read.
pub fn decode_frames(payload: &[u8]) -> (decoded: Decoded)
    ensures
        frame_views(decoded.frames@) == decoded_frames(payload@).0,
        decoded.error == decoded_frames(payload@).1,
{
    let total = payload.len();
    let mut frames: Vec<Frame> = Vec::new();
    let mut at: usize = 0;
    assert(payload@.subrange(0, total as int) =~= payload@);
    assert(frame_views(frames@) =~= Seq::<FrameView>::empty());
    while at < total
        invariant
            at <= total,
            total == payload@.len(),
            decoded_frames(payload@).0 == frame_views(frames@) + decoded_frames(
                payload@.subrange(at as int, total as int),
            ).0,
            decoded_frames(payload@).1 == decoded_frames(
                payload@.subrange(at as int, total as int),
            ).1,
        decreases total - at,
    {
        let rest = vstd::slice::slice_subrange(payload, at, total);
        match Frame::decode(rest) {
            Ok((frame, len)) => {
                proof {
                    assert(rest@.subrange(len as int, rest@.len() as int) =~= payload@.subrange(
                        at + len,
                        total as int,
                    ));
                    assert(frame_views(frames@.push(frame)) =~= frame_views(frames@) + seq![
                        frame@,
                    ]);
                }
                frames.push(frame);
                at = at + len;
            },
            Err(error) => {
                proof {
                    assert(frame_views(frames@) + Seq::<FrameView>::empty() =~= frame_views(
                        frames@,
                    ));
                }
                return Decoded { frames, error: Some(error) };
            },
        }
    }
    proof {
        assert(frame_views(frames@) + Seq::<FrameView>::empty() =~= frame_views(frames@));
    }
    Decoded { frames, error: None }
}

} // verus!
