//! Bit flags for `Frame`.

use vstd::prelude::*;

verus! {

/// Last frame in this stream.
pub const END_STREAM: u8 = 0x01;

/// Payload is compressed.
pub const COMPRESSED: u8 = 0x02;

/// This is an error/status frame.
pub const ERROR: u8 = 0x04;

/// Control frame (shutdown, ping, etc.)
pub const CONTROL: u8 = 0x08;

} // verus!
