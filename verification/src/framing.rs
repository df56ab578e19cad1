//! The datagram framing layer: sequence numbers, the packet header codec,
//! the registry of frame type codes, and the frames themselves.

pub mod wire;
pub mod sequence;
pub mod header;
pub mod frame_type;
pub mod frame_types;
pub mod frame;
pub mod frame_codec;
