//! The header at the start of a channel's shared segment: what identifies the
//! channel format, the ring's capacity, the writer's and reader's positions,
//! and whether either side has closed.
//!
//! In the segment the header takes `SharedHeader::SIZE` bytes, laid out as
//! little-endian fields at fixed offsets (see `header_layout`), so that
//! processes written in other languages can read it too.
use vstd::bytes::*;
use vstd::prelude::*;

use crate::error::KrenError;

verus! {

/// The first four bytes of every channel segment: "KREN".
pub const KREN_MAGIC: u32 = 0x4B52454E;

/// The version of the segment layout that this library reads and writes.
pub const KREN_VERSION: u32 = 1;

/// Offset of the writer's position in the segment.
pub const HEAD_OFFSET: usize = 16;

/// Offset of the reader's position in the segment.
pub const TAIL_OFFSET: usize = 24;

/// Offset of the channel's flags byte in the segment.
pub const FLAGS_OFFSET: usize = 32;

/// Which sides of a channel have closed.
#[derive(Debug, Clone, Copy, PartialEq, Eq, Structural)]
pub enum ChannelFlags {
    Active,
    WriterClosed,
    ReaderClosed,
    Closed,
}

impl ChannelFlags {
    /// The flags that a stored byte stands for: every byte above 2 means `Closed`.
    pub open spec fn from_byte(value: u8) -> ChannelFlags {
        if value == 0 {
            ChannelFlags::Active
        } else if value == 1 {
            ChannelFlags::WriterClosed
        } else if value == 2 {
            ChannelFlags::ReaderClosed
        } else {
            ChannelFlags::Closed
        }
    }

    /// The byte that stores these flags.
    pub open spec fn byte(self) -> u8 {
        match self {
            ChannelFlags::Active => 0,
            ChannelFlags::WriterClosed => 1,
            ChannelFlags::ReaderClosed => 2,
            ChannelFlags::Closed => 3,
        }
    }

    /// The byte that stores these flags.
    pub fn as_u8(self) -> (b: u8)
        ensures
            b == self.byte(),
            b == (match self {
                ChannelFlags::Active => 0u8,
                ChannelFlags::WriterClosed => 1u8,
                ChannelFlags::ReaderClosed => 2u8,
                ChannelFlags::Closed => 3u8,
            }),
    {
        match self {
            ChannelFlags::Active => 0,
            ChannelFlags::WriterClosed => 1,
            ChannelFlags::ReaderClosed => 2,
            ChannelFlags::Closed => 3,
        }
    }

    /// Whether the writer is gone: `WriterClosed` or `Closed`.
    pub open spec fn writer_gone(self) -> bool {
        self == ChannelFlags::WriterClosed || self == ChannelFlags::Closed
    }

    /// The flags once the reader closes: an active channel becomes
    /// `ReaderClosed`, any other becomes `Closed`.
    pub open spec fn after_reader_close(self) -> ChannelFlags {
        if self == ChannelFlags::Active {
            ChannelFlags::ReaderClosed
        } else {
            ChannelFlags::Closed
        }
    }

    /// The flags once the writer closes: `WriterClosed`, whatever they were.
    pub open spec fn after_writer_close(self) -> ChannelFlags {
        ChannelFlags::WriterClosed
    }

    /// Whether the writer is gone.
    pub fn is_writer_closed(self) -> (b: bool)
        ensures
            b == self.writer_gone(),
            b == (self == ChannelFlags::WriterClosed || self == ChannelFlags::Closed),
    {
        match self {
            ChannelFlags::WriterClosed | ChannelFlags::Closed => true,
            _ => false,
        }
    }

    /// The flags once the reader closes.
    pub fn on_reader_close(self) -> (f: ChannelFlags)
        ensures
            f == self.after_reader_close(),
            f == (if self == ChannelFlags::Active {
                ChannelFlags::ReaderClosed
            } else {
                ChannelFlags::Closed
            }),
    {
        match self {
            ChannelFlags::Active => ChannelFlags::ReaderClosed,
            ChannelFlags::WriterClosed => ChannelFlags::Closed,
            _ => ChannelFlags::Closed,
        }
    }

    /// The flags once the writer closes.
    pub fn on_writer_close(self) -> (f: ChannelFlags)
        ensures
            f == self.after_writer_close(),
            f == ChannelFlags::WriterClosed,
    {
        ChannelFlags::WriterClosed
    }
}

/// Storing flags as a byte and reading the byte back gives the same flags.
pub proof fn lemma_flags_byte_roundtrip(f: ChannelFlags)
    ensures
        ChannelFlags::from_byte(f.byte()) == f,
{
}

/// Once the writer has closed, a reader sees it, also after the reader closes
/// in turn; a reader that closes first does not make the writer look gone.
pub proof fn lemma_close_visibility(f: ChannelFlags)
    ensures
        f.after_writer_close().writer_gone(),
        f.after_writer_close().after_reader_close().writer_gone(),
        f.after_writer_close().after_reader_close() == ChannelFlags::Closed,
        !ChannelFlags::Active.after_reader_close().writer_gone(),
{
}

/// The writer closing always leaves exactly `WriterClosed`, whatever the
/// reader did: in particular an active channel becomes `WriterClosed`, not
/// `Closed`, while its reader is still attached.
pub proof fn lemma_writer_close_exact(f: ChannelFlags)
    ensures
        f.after_writer_close() == ChannelFlags::WriterClosed,
        ChannelFlags::Active.after_writer_close() != ChannelFlags::Closed,
        f.after_writer_close().byte() == 1,
{
}

/// The reader closing an active channel leaves `ReaderClosed`; closing any
/// other leaves `Closed`. The writer counts as gone exactly in `WriterClosed`
/// and `Closed`.
pub proof fn lemma_reader_close_exact(f: ChannelFlags)
    ensures
        f.after_reader_close() == (if f == ChannelFlags::Active {
            ChannelFlags::ReaderClosed
        } else {
            ChannelFlags::Closed
        }),
        f.writer_gone() <==> (f == ChannelFlags::WriterClosed || f == ChannelFlags::Closed),
{
}

/// The bytes that store the flags: 0 active, 1 writer closed, 2 reader
/// closed, 3 closed; every byte from 3 up reads as closed.
pub proof fn lemma_flag_bytes(v: u8)
    ensures
        ChannelFlags::Active.byte() == 0,
        ChannelFlags::WriterClosed.byte() == 1,
        ChannelFlags::ReaderClosed.byte() == 2,
        ChannelFlags::Closed.byte() == 3,
        v >= 3 ==> ChannelFlags::from_byte(v) == ChannelFlags::Closed,
        ChannelFlags::from_byte(v).byte() == (if v >= 3 {
            3
        } else {
            v
        }),
{
}


impl From<u8> for ChannelFlags {
    fn from(value: u8) -> (f: Self) {
        match value {
            0 => ChannelFlags::Active,
            1 => ChannelFlags::WriterClosed,
            2 => ChannelFlags::ReaderClosed,
            _ => ChannelFlags::Closed,
        }
    }
}

impl vstd::std_specs::convert::FromSpecImpl<u8> for ChannelFlags {
    open spec fn obeys_from_spec() -> bool {
        true
    }

    open spec fn from_spec(value: u8) -> Self {
        ChannelFlags::from_byte(value)
    }
}

/// The channel header, as plain values.
#[derive(Debug, Clone, Copy, PartialEq, Eq, Structural)]
pub struct SharedHeader {
    pub magic: u32,
    pub version: u32,
    pub capacity: u32,
    pub data_offset: u32,
    /// The writer's position in the ring.
    pub head: u32,
    /// The reader's position in the ring.
    pub tail: u32,
    /// The stored byte of the channel's `ChannelFlags`.
    pub flags: u8,
}

/// The header's bytes in the segment: magic, version, capacity and data
/// offset; the head, then four bytes of padding; the tail, then four bytes of
/// padding; the flags byte, then seven bytes of padding.
pub open spec fn header_layout(h: SharedHeader) -> Seq<u8> {
    spec_u32_to_le_bytes(h.magic) + spec_u32_to_le_bytes(h.version) + spec_u32_to_le_bytes(
        h.capacity,
    ) + spec_u32_to_le_bytes(h.data_offset) + spec_u32_to_le_bytes(h.head) + spec_u32_to_le_bytes(
        0,
    ) + spec_u32_to_le_bytes(h.tail) + spec_u32_to_le_bytes(0) + seq![h.flags] + seq![
        0u8,
        0u8,
        0u8,
        0u8,
        0u8,
        0u8,
        0u8,
    ]
}

/// The little-endian `u32` at `offset` in `s`.
pub open spec fn u32_at(s: Seq<u8>, offset: int) -> u32 {
    spec_u32_from_le_bytes(s.subrange(offset, offset + 4))
}

/// The header that the first `SharedHeader::SIZE` bytes of `s` hold.
pub open spec fn parse_header(s: Seq<u8>) -> SharedHeader {
    SharedHeader {
        magic: u32_at(s, 0),
        version: u32_at(s, 4),
        capacity: u32_at(s, 8),
        data_offset: u32_at(s, 12),
        head: u32_at(s, HEAD_OFFSET as int),
        tail: u32_at(s, TAIL_OFFSET as int),
        flags: s[FLAGS_OFFSET as int],
    }
}

/// The header of a new channel whose ring holds `capacity` bytes.
pub open spec fn initial_header(capacity: u32) -> SharedHeader {
    SharedHeader {
        magic: KREN_MAGIC,
        version: KREN_VERSION,
        capacity,
        data_offset: SharedHeader::SIZE as u32,
        head: 0,
        tail: 0,
        flags: ChannelFlags::Active.byte(),
    }
}

/// Whether a header belongs to this channel format and version.
pub open spec fn header_is_valid(h: SharedHeader) -> bool {
    h.magic == KREN_MAGIC && h.version == KREN_VERSION
}

/// Reading a header back from its bytes gives the header that was written.
pub proof fn lemma_header_layout_roundtrip(h: SharedHeader)
    ensures
        header_layout(h).len() == SharedHeader::SIZE,
        parse_header(header_layout(h)) == h,
{
    lemma_auto_spec_u32_to_from_le_bytes();
    let s = header_layout(h);
    assert(s.subrange(0, 4) =~= spec_u32_to_le_bytes(h.magic));
    assert(s.subrange(4, 8) =~= spec_u32_to_le_bytes(h.version));
    assert(s.subrange(8, 12) =~= spec_u32_to_le_bytes(h.capacity));
    assert(s.subrange(12, 16) =~= spec_u32_to_le_bytes(h.data_offset));
    assert(s.subrange(16, 20) =~= spec_u32_to_le_bytes(h.head));
    assert(s.subrange(24, 28) =~= spec_u32_to_le_bytes(h.tail));
    assert(s[32] == h.flags);
}

/// A header is accepted exactly when it carries the magic number "KREN" and
/// the format version 1.
pub proof fn lemma_header_valid_exactly(h: SharedHeader)
    ensures
        header_is_valid(h) <==> (h.magic == 0x4B52454E && h.version == 1),
{
}

/// A new channel's header keeps the capacity it is given, starts both
/// positions at 0, puts the ring right after the 40-byte header, and is
/// active and valid.
pub proof fn lemma_initial_header_fields(capacity: u32)
    ensures
        initial_header(capacity).capacity == capacity,
        initial_header(capacity).magic == 0x4B52454E,
        initial_header(capacity).version == 1,
        initial_header(capacity).data_offset == 40,
        initial_header(capacity).head == 0,
        initial_header(capacity).tail == 0,
        initial_header(capacity).flags == 0,
        header_is_valid(initial_header(capacity)),
{
}

/// The header's fields stand at fixed offsets in its 40 bytes, little-endian:
/// magic at 0, version at 4, capacity at 8, data offset at 12, head at 16,
/// tail at 24, flags at 32, and zeros after the flags.
pub proof fn lemma_header_layout_offsets(h: SharedHeader, s: Seq<u8>)
    requires
        s.len() >= 40,
    ensures
        header_layout(h).len() == 40,
        header_layout(h).subrange(0, 4) == spec_u32_to_le_bytes(h.magic),
        header_layout(h).subrange(4, 8) == spec_u32_to_le_bytes(h.version),
        header_layout(h).subrange(8, 12) == spec_u32_to_le_bytes(h.capacity),
        header_layout(h).subrange(12, 16) == spec_u32_to_le_bytes(h.data_offset),
        header_layout(h).subrange(16, 20) == spec_u32_to_le_bytes(h.head),
        header_layout(h).subrange(24, 28) == spec_u32_to_le_bytes(h.tail),
        header_layout(h)[32] == h.flags,
        forall|j: int| 33 <= j < 40 ==> #[trigger] header_layout(h)[j] == 0,
        parse_header(s).magic == spec_u32_from_le_bytes(s.subrange(0, 4)),
        parse_header(s).version == spec_u32_from_le_bytes(s.subrange(4, 8)),
        parse_header(s).capacity == spec_u32_from_le_bytes(s.subrange(8, 12)),
        parse_header(s).data_offset == spec_u32_from_le_bytes(s.subrange(12, 16)),
        parse_header(s).head == spec_u32_from_le_bytes(s.subrange(16, 20)),
        parse_header(s).tail == spec_u32_from_le_bytes(s.subrange(24, 28)),
        parse_header(s).flags == s[32],
{
    lemma_auto_spec_u32_to_from_le_bytes();
    let l = header_layout(h);
    assert(l.subrange(0, 4) =~= spec_u32_to_le_bytes(h.magic));
    assert(l.subrange(4, 8) =~= spec_u32_to_le_bytes(h.version));
    assert(l.subrange(8, 12) =~= spec_u32_to_le_bytes(h.capacity));
    assert(l.subrange(12, 16) =~= spec_u32_to_le_bytes(h.data_offset));
    assert(l.subrange(16, 20) =~= spec_u32_to_le_bytes(h.head));
    assert(l.subrange(24, 28) =~= spec_u32_to_le_bytes(h.tail));
}

impl SharedHeader {
    /// Bytes that the header takes at the start of the segment.
    pub const SIZE: usize = 40;

    /// Alignment that the header's layout asks of the segment.
    pub const ALIGN: usize = 8;

    /// The header of a new channel whose ring holds `capacity` bytes: this
    /// format's magic and version, the data right after the header, both
    /// positions at 0 and the channel active.
    pub fn init(capacity: u32) -> (h: Self)
        ensures
            h == initial_header(capacity),
            header_is_valid(h),
            ChannelFlags::from_byte(h.flags) == ChannelFlags::Active,
            h.magic == 0x4B52454E,
            h.version == 1,
            h.capacity == capacity,
            h.data_offset == 40,
            h.head == 0,
            h.tail == 0,
            h.flags == 0,
    {
        SharedHeader {
            magic: KREN_MAGIC,
            version: KREN_VERSION,
            capacity,
            data_offset: 40,
            head: 0,
            tail: 0,
            flags: ChannelFlags::Active.as_u8(),
        }
    }

    /// The header that the first `SIZE` bytes of `bytes` hold.
    pub fn from_bytes(bytes: &[u8]) -> (h: Self)
        requires
            bytes@.len() >= Self::SIZE,
        ensures
            h == parse_header(bytes@),
    {
        SharedHeader {
            magic: u32_from_le_bytes(vstd::slice::slice_subrange(bytes, 0, 4)),
            version: u32_from_le_bytes(vstd::slice::slice_subrange(bytes, 4, 8)),
            capacity: u32_from_le_bytes(vstd::slice::slice_subrange(bytes, 8, 12)),
            data_offset: u32_from_le_bytes(vstd::slice::slice_subrange(bytes, 12, 16)),
            head: u32_from_le_bytes(
                vstd::slice::slice_subrange(bytes, HEAD_OFFSET, HEAD_OFFSET + 4),
            ),
            tail: u32_from_le_bytes(
                vstd::slice::slice_subrange(bytes, TAIL_OFFSET, TAIL_OFFSET + 4),
            ),
            flags: bytes[FLAGS_OFFSET],
        }
    }

    /// The header's `SIZE` bytes as they stand in the segment.
    pub fn to_bytes(&self) -> (b: Vec<u8>)
        ensures
            b@ == header_layout(*self),
            b@.len() == Self::SIZE,
    {
        let mut out = u32_to_le_bytes(self.magic);
        let mut part = u32_to_le_bytes(self.version);
        out.append(&mut part);
        let mut part = u32_to_le_bytes(self.capacity);
        out.append(&mut part);
        let mut part = u32_to_le_bytes(self.data_offset);
        out.append(&mut part);
        let mut part = u32_to_le_bytes(self.head);
        out.append(&mut part);
        let mut part = u32_to_le_bytes(0);
        out.append(&mut part);
        let mut part = u32_to_le_bytes(self.tail);
        out.append(&mut part);
        let mut part = u32_to_le_bytes(0);
        out.append(&mut part);
        out.push(self.flags);
        proof {
            lemma_auto_spec_u32_to_from_le_bytes();
            assert(out@.subrange(0, 33) =~= header_layout(*self).subrange(0, 33));
        }
        let mut i: usize = 0;
        while i < 7
            invariant
                i <= 7,
                out@.len() == 33 + i,
                out@.subrange(0, 33) == header_layout(*self).subrange(0, 33),
                forall|j: int| 33 <= j < 33 + i ==> #[trigger] out@[j] == 0u8,
            decreases 7 - i,
        {
            let ghost before = out@;
            out.push(0u8);
            proof {
                assert(out@.subrange(0, 33) =~= before.subrange(0, 33));
            }
            i = i + 1;
        }
        proof {
            lemma_auto_spec_u32_to_from_le_bytes();
            assert forall|j: int| 0 <= j < 33 implies out@[j] == header_layout(*self)[j] by {
                assert(out@.subrange(0, 33)[j] == header_layout(*self).subrange(0, 33)[j]);
            }
            assert(out@ =~= header_layout(*self));
        }
        out
    }

    /// Checks the magic number, then the version.
    pub fn validate(&self) -> (r: Result<(), KrenError>)
        ensures
            (r is Ok) <==> (self.magic == 0x4B52454E && self.version == 1),
            (r == Err::<(), KrenError>(KrenError::InvalidMagic)) <==> self.magic != 0x4B52454E,
            (r == Err::<(), KrenError>(KrenError::VersionMismatch { expected: 1, found: self.version }))
                <==> (self.magic == 0x4B52454E && self.version != 1),
            match r {
                Ok(()) => header_is_valid(*self),
                Err(KrenError::InvalidMagic) => self.magic != KREN_MAGIC,
                Err(KrenError::VersionMismatch { expected, found }) => {
                    &&& self.magic == KREN_MAGIC
                    &&& self.version != KREN_VERSION
                    &&& expected == KREN_VERSION
                    &&& found == self.version
                },
                _ => false,
            },
    {
        if self.magic != KREN_MAGIC {
            return Err(KrenError::InvalidMagic);
        }
        if self.version != KREN_VERSION {
            return Err(KrenError::VersionMismatch { expected: KREN_VERSION, found: self.version });
        }
        Ok(())
    }

    /// The writer's position.
    pub fn head(&self) -> (v: u32)
        ensures
            v == self.head,
    {
        self.head
    }

    /// The reader's position.
    pub fn tail(&self) -> (v: u32)
        ensures
            v == self.tail,
    {
        self.tail
    }

    /// Moves the writer's position; nothing else changes.
    pub fn set_head(&mut self, value: u32)
        ensures
            *final(self) == (SharedHeader { head: value, ..*old(self) }),
    {
        self.head = value;
    }

    /// Moves the reader's position; nothing else changes.
    pub fn set_tail(&mut self, value: u32)
        ensures
            *final(self) == (SharedHeader { tail: value, ..*old(self) }),
    {
        self.tail = value;
    }

    /// The channel's flags, read from their stored byte.
    pub fn get_flags(&self) -> (f: ChannelFlags)
        ensures
            f == ChannelFlags::from_byte(self.flags),
    {
        ChannelFlags::from(self.flags)
    }

    /// Stores the channel's flags; nothing else changes.
    pub fn set_flags(&mut self, flags: ChannelFlags)
        ensures
            *final(self) == (SharedHeader { flags: flags.byte(), ..*old(self) }),
    {
        self.flags = flags.as_u8();
    }

    /// Whether neither side has closed.
    pub fn is_active(&self) -> (b: bool)
        ensures
            b == (ChannelFlags::from_byte(self.flags) == ChannelFlags::Active),
    {
        self.get_flags() == ChannelFlags::Active
    }
}

} // verus!
