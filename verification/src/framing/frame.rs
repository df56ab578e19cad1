//! Frames as the transport hands them over: a type code, the identifier of
//! the stream meant, and a body in plain values.

use vstd::prelude::*;
use crate::framing::frame_type::{FrameKind, FrameType};

verus! {

/// What a frame carries besides its type and stream.
#[derive(Debug, PartialEq, Eq)]
pub enum FrameBody {
    /// Nothing.
    Nothing,
    /// Stream data, with a record boundary behind it if `end_of_record`.
    Data {
        /// The bytes.
        data: Vec<u8>,
        /// Whether a record ends behind the bytes.
        end_of_record: bool,
    },
    /// A number of bytes: acknowledged, or granted as a window.
    Amount(u32),
    /// A priority.
    Priority(i32),
}

/// One frame of a datagram.
#[derive(Debug, PartialEq, Eq)]
pub struct Frame {
    /// The frame's type code.
    pub frame_type: FrameType,
    /// The unique identifier of the stream that the frame is for. Zero in
    /// frames that are for no stream.
    pub usid: u64,
    /// What the frame carries.
    pub body: FrameBody,
}

/// The value of a frame body.
pub enum BodyView {
    /// Nothing.
    Nothing,
    /// Stream data, with a record boundary behind it if `end_of_record`.
    Data {
        /// The bytes.
        data: Seq<u8>,
        /// Whether a record ends behind the bytes.
        end_of_record: bool,
    },
    /// A number of bytes: acknowledged, or granted as a window.
    Amount(u32),
    /// A priority.
    Priority(i32),
}

/// The value of a frame.
pub struct FrameView {
    /// The frame's type code.
    pub frame_type: FrameType,
    /// The unique identifier of the stream that the frame is for.
    pub usid: u64,
    /// What the frame carries.
    pub body: BodyView,
}

impl View for FrameBody {
    type V = BodyView;

    open spec fn view(&self) -> BodyView {
        match *self {
            FrameBody::Nothing => BodyView::Nothing,
            FrameBody::Data { data, end_of_record } => BodyView::Data {
                data: data@,
                end_of_record,
            },
            FrameBody::Amount(amount) => BodyView::Amount(amount),
            FrameBody::Priority(priority) => BodyView::Priority(priority),
        }
    }
}

impl View for Frame {
    type V = FrameView;

    open spec fn view(&self) -> FrameView {
        FrameView { frame_type: self.frame_type, usid: self.usid, body: self.body@ }
    }
}

/// Whether `body` is what a frame of the given kind carries. Frames that
/// carry no meaning may hold anything.
pub open spec fn fits(kind: FrameKind, body: BodyView) -> bool {
    match kind {
        FrameKind::Empty => true,
        FrameKind::Padding => true,
        FrameKind::Stream => body is Data,
        FrameKind::Ack => body is Amount,
        FrameKind::Decongestion => body is Amount,
        FrameKind::Priority => body is Priority,
        FrameKind::Close => body is Nothing,
        FrameKind::Detach => body is Nothing,
        FrameKind::Reset => body is Nothing,
        FrameKind::Settings => body is Nothing,
    }
}

impl FrameBody {
    /// Whether this is what a frame of the given kind carries.
    pub fn fits_kind(&self, kind: FrameKind) -> (result: bool)
        ensures
            result == fits(kind, self@),
    {
        match kind {
            FrameKind::Empty => true,
            FrameKind::Padding => true,
            FrameKind::Stream => match self {
                FrameBody::Data { .. } => true,
                _ => false,
            },
            FrameKind::Ack => match self {
                FrameBody::Amount(_) => true,
                _ => false,
            },
            FrameKind::Decongestion => match self {
                FrameBody::Amount(_) => true,
                _ => false,
            },
            FrameKind::Priority => match self {
                FrameBody::Priority(_) => true,
                _ => false,
            },
            _ => match self {
                FrameBody::Nothing => true,
                _ => false,
            },
        }
    }
}

} // verus!
