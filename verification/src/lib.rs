//! A single-writer, single-reader channel of length-prefixed messages over a
//! byte ring, with the header that two processes share to find it.
use vstd::prelude::*;

pub mod binding_errors;
pub mod buffer;
pub mod channel;
pub mod error;
pub mod header;
pub mod platform;
pub mod ring;

pub use buffer::RingBuffer;
pub use error::KrenError;
pub use header::{ChannelFlags, SharedHeader, KREN_MAGIC, KREN_VERSION};

verus! {

} // verus!
