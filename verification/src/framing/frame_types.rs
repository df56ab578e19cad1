//! The codes of the ten frame types.

use vstd::prelude::*;

verus! {

/// Carries nothing; keeps a session alive.
pub const EMPTY: u8 = 0;

/// Carries nothing; pads a datagram to a minimum size.
pub const PADDING: u8 = 1;

/// Stream data.
pub const STREAM: u8 = 2;

/// End of a stream's data in one direction.
pub const CLOSE: u8 = 3;

/// Detaches a stream from the channel that carried it.
pub const DETACH: u8 = 4;

/// Congestion feedback.
pub const DECONGESTION: u8 = 5;

/// Changes a stream's priority.
pub const PRIORITY: u8 = 6;

/// Abandons a stream at once.
pub const RESET: u8 = 7;

/// Acknowledges received data.
pub const ACK: u8 = 8;

/// Session settings.
pub const SETTINGS: u8 = 9;

} // verus!
