//! Frame types.
//!
//! After the packet header a datagram holds zero or more frames, each led by
//! a one-byte type code from a closed set of ten. A code outside the set is
//! not an error of the session: the frame is dropped and the streams live on.

use vstd::prelude::*;
use crate::framing::frame_types::{
    ACK, CLOSE, DECONGESTION, DETACH, EMPTY, PADDING, PRIORITY, RESET, SETTINGS, STREAM,
};

verus! {

/// Represents the "frame_type" header field.
///
/// Frame types are ordered and compared by their code.
#[derive(Copy, Clone, Debug, PartialEq, Eq, Structural, PartialOrd, Ord, Hash)]
pub struct FrameType(pub u8);

/// The ten frame types that the protocol knows.
#[derive(Copy, Clone, Debug, PartialEq, Eq, Structural)]
pub enum FrameKind {
    /// Carries nothing; keeps a session alive.
    Empty,
    /// Carries nothing; pads a datagram to a minimum size.
    Padding,
    /// Stream data.
    Stream,
    /// End of a stream's data in one direction.
    Close,
    /// Detaches a stream from the channel that carried it.
    Detach,
    /// Congestion feedback.
    Decongestion,
    /// Changes a stream's priority.
    Priority,
    /// Abandons a stream at once.
    Reset,
    /// Acknowledges received data.
    Ack,
    /// Session settings.
    Settings,
}

impl FrameKind {
    /// The code that stands for this kind on the wire.
    pub open spec fn spec_code(self) -> u8 {
        match self {
            FrameKind::Empty => EMPTY,
            FrameKind::Padding => PADDING,
            FrameKind::Stream => STREAM,
            FrameKind::Close => CLOSE,
            FrameKind::Detach => DETACH,
            FrameKind::Decongestion => DECONGESTION,
            FrameKind::Priority => PRIORITY,
            FrameKind::Reset => RESET,
            FrameKind::Ack => ACK,
            FrameKind::Settings => SETTINGS,
        }
    }

    /// Whether frames of this kind carry no meaning and are skipped.
    pub open spec fn spec_is_filler(self) -> bool {
        self == FrameKind::Empty || self == FrameKind::Padding
    }

    /// The code that stands for this kind on the wire.
    #[verifier::when_used_as_spec(spec_code)]
    pub fn code(self) -> (code: u8)
        ensures
            code == self.spec_code(),
    {
        match self {
            FrameKind::Empty => EMPTY,
            FrameKind::Padding => PADDING,
            FrameKind::Stream => STREAM,
            FrameKind::Close => CLOSE,
            FrameKind::Detach => DETACH,
            FrameKind::Decongestion => DECONGESTION,
            FrameKind::Priority => PRIORITY,
            FrameKind::Reset => RESET,
            FrameKind::Ack => ACK,
            FrameKind::Settings => SETTINGS,
        }
    }

    /// The frame type of this kind.
    pub fn frame_type(self) -> (frame_type: FrameType)
        ensures
            frame_type == FrameType(self.spec_code()),
    {
        FrameType(self.code())
    }

    /// Whether frames of this kind carry no meaning and are skipped.
    #[verifier::when_used_as_spec(spec_is_filler)]
    pub fn is_filler(self) -> (filler: bool)
        ensures
            filler == self.spec_is_filler(),
    {
        match self {
            FrameKind::Empty => true,
            FrameKind::Padding => true,
            _ => false,
        }
    }
}

impl FrameType {
    /// The kind that this code stands for, if it is one of the ten.
    pub open spec fn spec_kind(self) -> Option<FrameKind> {
        if self.0 == EMPTY {
            Some(FrameKind::Empty)
        } else if self.0 == PADDING {
            Some(FrameKind::Padding)
        } else if self.0 == STREAM {
            Some(FrameKind::Stream)
        } else if self.0 == CLOSE {
            Some(FrameKind::Close)
        } else if self.0 == DETACH {
            Some(FrameKind::Detach)
        } else if self.0 == DECONGESTION {
            Some(FrameKind::Decongestion)
        } else if self.0 == PRIORITY {
            Some(FrameKind::Priority)
        } else if self.0 == RESET {
            Some(FrameKind::Reset)
        } else if self.0 == ACK {
            Some(FrameKind::Ack)
        } else if self.0 == SETTINGS {
            Some(FrameKind::Settings)
        } else {
            None
        }
    }

    /// The frame type with the given code.
    pub fn new(val: u8) -> (frame_type: FrameType)
        ensures
            frame_type == FrameType(val),
    {
        FrameType(val)
    }

    /// The code as a one-element tuple of primitive values.
    pub fn to_primitive_values(&self) -> (values: (u8, ))
        ensures
            values.0 == self.0,
    {
        (self.0, )
    }

    /// The kind that this code stands for, or `None` for a code outside the
    /// closed set.
    #[verifier::when_used_as_spec(spec_kind)]
    pub fn kind(self) -> (kind: Option<FrameKind>)
        ensures
            kind == self.spec_kind(),
    {
        let code = self.0;
        if code == EMPTY {
            Some(FrameKind::Empty)
        } else if code == PADDING {
            Some(FrameKind::Padding)
        } else if code == STREAM {
            Some(FrameKind::Stream)
        } else if code == CLOSE {
            Some(FrameKind::Close)
        } else if code == DETACH {
            Some(FrameKind::Detach)
        } else if code == DECONGESTION {
            Some(FrameKind::Decongestion)
        } else if code == PRIORITY {
            Some(FrameKind::Priority)
        } else if code == RESET {
            Some(FrameKind::Reset)
        } else if code == ACK {
            Some(FrameKind::Ack)
        } else if code == SETTINGS {
            Some(FrameKind::Settings)
        } else {
            None
        }
    }

    /// Whether `self` stands before `other` in the order of frame types.
    pub fn precedes(self, other: FrameType) -> (before: bool)
        ensures
            before == (self.0 < other.0),
    {
        self.0 < other.0
    }
}

/// The codes and the kinds correspond one to one, and the known codes are
/// exactly 0 to 9.
pub proof fn lemma_kind_code_bijection(kind: FrameKind, frame_type: FrameType)
    ensures
        FrameType(kind.code()).kind() == Some(kind),
        frame_type.kind() == Some(kind) <==> frame_type.0 == kind.code(),
        frame_type.kind() is Some <==> frame_type.0 <= SETTINGS,
{
}

} // verus!
