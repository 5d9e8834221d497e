use vstd::prelude::*;

verus! {

/// Capacity of the receive buffer, and the fill level at which the serial
/// transport closes a frame by force.
pub const READ_BUF_SIZE: usize = 64;

/// Byte whose arrival closes a frame early.
pub const AT_CMD: u8 = 0x0A;

/// Speed of the serial link, in bits per second.
pub const BAUDERATE: u32 = 115200;

/// Interval between two firings of the heartbeat task, in milliseconds.
pub const HEARTBEAT_PERIOD_MS: u64 = 1000;

} // verus!
