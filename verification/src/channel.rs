//! The decisions a channel's writer and reader take around their shared
//! segment: which capacities a new channel accepts, how large its segment is,
//! and what a reader that connects checks.
use vstd::prelude::*;

use crate::error::KrenError;
use crate::header::{header_is_valid, SharedHeader};

verus! {

/// Whether a new channel accepts a ring of `capacity` bytes.
pub open spec fn capacity_is_valid(capacity: int) -> bool {
    0 < capacity <= u32::MAX
}

/// A new channel accepts every capacity from one byte up to `u32::MAX`
/// bytes, and no other.
pub proof fn lemma_capacity_accepted_exactly(capacity: int)
    ensures
        capacity_is_valid(capacity) <==> (1 <= capacity && capacity <= 0xFFFF_FFFF),
{
}

/// The capacity of a new channel, as its header stores it: refused with
/// `InvalidCapacity` where it is zero or does not fit in 32 bits.
pub fn checked_capacity(capacity: usize) -> (r: Result<u32, KrenError>)
    ensures
        (r is Ok) <==> (1 <= capacity && capacity <= 0xFFFF_FFFF),
        r is Ok ==> r->Ok_0 as int == capacity as int,
        r is Err ==> r->Err_0 == KrenError::InvalidCapacity(capacity),
        match r {
            Ok(c) => capacity_is_valid(capacity as int) && c == capacity,
            Err(KrenError::InvalidCapacity(v)) => !capacity_is_valid(capacity as int) && v
                == capacity,
            _ => false,
        },
{
    if capacity == 0 || capacity as u64 > u32::MAX as u64 {
        return Err(KrenError::InvalidCapacity(capacity));
    }
    Ok(capacity as u32)
}

/// The size of a channel's segment: the header, then the ring.
pub fn segment_size(capacity: u32) -> (size: usize)
    requires
        SharedHeader::SIZE + capacity <= usize::MAX,
    ensures
        size == SharedHeader::SIZE + capacity,
{
    SharedHeader::SIZE + capacity as usize
}

/// What a reader that connects learns from the header it finds: the ring's
/// capacity, once the header has been checked.
pub fn connect_capacity(header: &SharedHeader) -> (r: Result<usize, KrenError>)
    ensures
        (r is Ok) <==> (header.magic == 0x4B52454E && header.version == 1),
        r is Ok ==> r->Ok_0 as int == header.capacity as int,
        match r {
            Ok(c) => header_is_valid(*header) && c == header.capacity,
            Err(KrenError::InvalidMagic) => header.magic != crate::header::KREN_MAGIC,
            Err(KrenError::VersionMismatch { expected, found }) => {
                &&& header.magic == crate::header::KREN_MAGIC
                &&& header.version != crate::header::KREN_VERSION
                &&& expected == crate::header::KREN_VERSION
                &&& found == header.version
            },
            _ => false,
        },
{
    match header.validate() {
        Ok(()) => Ok(header.capacity as usize),
        Err(e) => Err(e),
    }
}

} // verus!
