use vstd::prelude::*;

verus! {

/// Every way in which creating, opening or using a channel can fail.
#[derive(Debug)]
pub enum KrenError {
    /// The shared memory segment could not be created.
    CreateFailed(String),
    /// The shared memory segment could not be opened.
    OpenFailed(String),
    /// The shared memory segment could not be mapped.
    MapFailed(String),
    /// The segment does not start with the channel's magic number.
    InvalidMagic,
    /// The segment was laid out by another version of the channel format.
    VersionMismatch { expected: u32, found: u32 },
    /// A message fits the buffer in principle, but not the room now left in it.
    BufferFull { requested: usize, available: usize },
    /// There is no message to read.
    BufferEmpty,
    /// A message can never fit the buffer, whatever is read from it.
    DataTooLarge { size: usize, max: usize },
    /// A capacity of zero, or one that does not fit in 32 bits.
    InvalidCapacity(usize),
    /// The channel was closed.
    ChannelClosed,
    /// Any other failure reported by the operating system.
    Platform(String),
}

} // verus!
