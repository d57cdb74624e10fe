//! A channel's ring buffer: its header and its data bytes, kept together.
use vstd::prelude::*;

use crate::error::KrenError;
use crate::header::SharedHeader;
use crate::ring::{
    available_read, available_write, cyclic, cyclic_write, frame, frame_len, free_space,
    lemma_parse_frames_append, lemma_parse_frames_empty, lemma_read_takes_first,
    lemma_write_extends_pending, next_read_in_bounds, parse_frames, pending_bytes, read_in_bounds,
    read_message, used_space, write_message,
};

verus! {

/// The ring of one channel: the header that holds both positions, and the
/// `capacity` bytes of data.
pub struct RingBuffer {
    header: SharedHeader,
    data: Vec<u8>,
    capacity: usize,
}

impl RingBuffer {
    /// The channel header.
    pub closed spec fn spec_header(&self) -> SharedHeader {
        self.header
    }

    /// The ring's data bytes.
    pub closed spec fn spec_data(&self) -> Seq<u8> {
        self.data@
    }

    /// The number of bytes in the ring.
    pub closed spec fn spec_capacity(&self) -> nat {
        self.capacity as nat
    }

    /// The ring holds `capacity` bytes, at least one and at most `u32::MAX`,
    /// and both positions lie inside it.
    pub open spec fn inv(&self) -> bool {
        &&& 0 < self.spec_capacity() <= u32::MAX
        &&& self.spec_data().len() == self.spec_capacity()
        &&& self.spec_header().head < self.spec_capacity()
        &&& self.spec_header().tail < self.spec_capacity()
    }

    /// The bytes written and not yet read.
    pub open spec fn pending(&self) -> Seq<u8> {
        pending_bytes(
            self.spec_data(),
            self.spec_header().head as int,
            self.spec_header().tail as int,
        )
    }

    /// The messages written and not yet read, oldest first, if the waiting
    /// bytes hold whole messages and nothing else.
    pub open spec fn messages(&self) -> Option<Seq<Seq<u8>>> {
        parse_frames(self.pending())
    }

    /// The number of bytes written and not yet read.
    pub open spec fn used(&self) -> int {
        used_space(
            self.spec_capacity() as int,
            self.spec_header().head as int,
            self.spec_header().tail as int,
        )
    }

    /// The number of bytes a writer may still fill.
    pub open spec fn free(&self) -> int {
        free_space(
            self.spec_capacity() as int,
            self.spec_header().head as int,
            self.spec_header().tail as int,
        )
    }

    /// The length that the next message's prefix announces.
    pub open spec fn next_len(&self) -> int {
        frame_len(cyclic(self.spec_data(), self.spec_header().tail as int, 4))
    }

    /// Whether reading the next message stays inside the ring.
    pub open spec fn read_in_bounds(&self) -> bool {
        read_in_bounds(
            self.spec_data(),
            self.spec_header().head as int,
            self.spec_header().tail as int,
        )
    }

    /// A ring over `data`, whose positions `header` holds.
    pub fn new(header: SharedHeader, data: Vec<u8>, capacity: usize) -> (rb: Self)
        requires
            0 < capacity <= u32::MAX,
            data@.len() == capacity,
            header.head < capacity,
            header.tail < capacity,
        ensures
            rb.inv(),
            rb.spec_header() == header,
            rb.spec_data() == data@,
            rb.spec_capacity() == capacity,
            header.head == header.tail ==> rb.messages() == Some(Seq::<Seq<u8>>::empty()),
    {
        let rb = RingBuffer { header, data, capacity };
        proof {
            if header.head == header.tail {
                assert(rb.pending() =~= Seq::<u8>::empty());
            }
        }
        rb
    }

    /// The channel header.
    pub fn header(&self) -> (h: &SharedHeader)
        ensures
            *h == self.spec_header(),
    {
        &self.header
    }

    /// Writes one message: its length as a little-endian `u32`, then its
    /// bytes, at the writer's position, and moves the writer past them.
    /// Returns the message's length. A message longer than the ring less the
    /// prefix gives `DataTooLarge`; one that does not fit the room left gives
    /// `BufferFull`; either way nothing changes.
    pub fn write(&mut self, data: &[u8]) -> (r: Result<usize, KrenError>)
        requires
            old(self).inv(),
            old(self).spec_capacity() >= 4,
        ensures
            final(self).inv(),
            final(self).spec_capacity() == old(self).spec_capacity(),
            ({
                let c = old(self).spec_capacity() as int;
                let len = data@.len() as int;
                let free = old(self).free();
                let h = old(self).spec_header();
                match r {
                    Ok(n) => {
                        &&& n == len
                        &&& 4 + len <= free
                        &&& final(self).spec_header() == (SharedHeader {
                            head: ((h.head + 4 + len) % c) as u32,
                            ..h
                        })
                        &&& final(self).spec_data() == cyclic_write(
                            old(self).spec_data(),
                            h.head as int,
                            frame(data@),
                        )
                    },
                    Err(KrenError::DataTooLarge { size, max }) => {
                        &&& 4 + len > c
                        &&& size == len
                        &&& max == c - 4
                        &&& final(self).spec_header() == old(self).spec_header()
                        &&& final(self).spec_data() == old(self).spec_data()
                    },
                    Err(KrenError::BufferFull { requested, available }) => {
                        &&& 4 + len <= c
                        &&& 4 + len > free
                        &&& requested == len
                        &&& available == (if free >= 4 {
                            free - 4
                        } else {
                            0
                        })
                        &&& final(self).spec_header() == old(self).spec_header()
                        &&& final(self).spec_data() == old(self).spec_data()
                    },
                    _ => false,
                }
            }),
            r is Ok ==> final(self).pending() == old(self).pending() + frame(data@),
            r is Ok && old(self).messages() is Some ==> final(self).messages() == Some(
                old(self).messages().unwrap().push(data@),
            ),
    {
        let head = self.header.head as usize;
        let tail = self.header.tail as usize;
        let ghost d0 = self.data@;
        let r = write_message(self.data.as_mut_slice(), head, tail, data);
        match r {
            Ok(new_head) => {
                proof {
                    vstd::bytes::lemma_auto_spec_u32_to_from_le_bytes();
                    lemma_write_extends_pending(d0, head as int, tail as int, frame(data@));
                    if old(self).messages() is Some {
                        lemma_parse_frames_append(old(self).pending(), data@);
                    }
                }
                self.header.set_head(new_head as u32);
                Ok(data.len())
            },
            Err(e) => Err(e),
        }
    }

    /// Reads the next message: the length its prefix announces, then that
    /// many bytes, and moves the reader past them. An empty ring gives
    /// `BufferEmpty` and nothing changes.
    pub fn read(&mut self) -> (r: Result<Vec<u8>, KrenError>)
        requires
            old(self).inv(),
            old(self).read_in_bounds() || old(self).messages() is Some,
        ensures
            final(self).inv(),
            final(self).spec_capacity() == old(self).spec_capacity(),
            final(self).spec_data() == old(self).spec_data(),
            ({
                let c = old(self).spec_capacity() as int;
                let h = old(self).spec_header();
                let n = old(self).next_len();
                match r {
                    Ok(msg) => {
                        &&& old(self).used() > 0
                        &&& msg@ == cyclic(old(self).spec_data(), (h.tail + 4) % c, n)
                        &&& final(self).spec_header() == (SharedHeader {
                            tail: ((h.tail + 4 + n) % c) as u32,
                            ..h
                        })
                    },
                    Err(KrenError::BufferEmpty) => {
                        &&& old(self).used() == 0
                        &&& final(self).spec_header() == old(self).spec_header()
                    },
                    _ => false,
                }
            }),
            old(self).messages() is Some ==> {
                let q = old(self).messages().unwrap();
                if q.len() == 0 {
                    r is Err
                } else {
                    &&& r is Ok
                    &&& r->Ok_0@ == q[0]
                    &&& final(self).messages() == Some(q.drop_first())
                }
            },
    {
        proof {
            if old(self).messages() is Some {
                lemma_messages_read_in_bounds(&*self);
            }
        }
        let head = self.header.head as usize;
        let tail = self.header.tail as usize;
        let r = read_message(self.data.as_slice(), head, tail);
        proof {
            if old(self).messages() is Some {
                lemma_parse_frames_empty(old(self).pending());
                if old(self).messages().unwrap().len() > 0 {
                    lemma_read_takes_first(self.data@, head as int, tail as int);
                }
            }
        }
        match r {
            Ok((msg, new_tail)) => {
                self.header.set_tail(new_tail as u32);
                Ok(msg)
            },
            Err(e) => Err(e),
        }
    }

    /// Reads the next message if there is one: `Ok(None)` where `read` would
    /// give `BufferEmpty`.
    pub fn try_read(&mut self) -> (r: Result<Option<Vec<u8>>, KrenError>)
        requires
            old(self).inv(),
            old(self).read_in_bounds() || old(self).messages() is Some,
        ensures
            final(self).inv(),
            final(self).spec_capacity() == old(self).spec_capacity(),
            final(self).spec_data() == old(self).spec_data(),
            ({
                let c = old(self).spec_capacity() as int;
                let h = old(self).spec_header();
                let n = old(self).next_len();
                match r {
                    Ok(Some(msg)) => {
                        &&& old(self).used() > 0
                        &&& msg@ == cyclic(old(self).spec_data(), (h.tail + 4) % c, n)
                        &&& final(self).spec_header() == (SharedHeader {
                            tail: ((h.tail + 4 + n) % c) as u32,
                            ..h
                        })
                    },
                    Ok(None) => {
                        &&& old(self).used() == 0
                        &&& final(self).spec_header() == old(self).spec_header()
                    },
                    Err(_) => false,
                }
            }),
            old(self).messages() is Some ==> {
                let q = old(self).messages().unwrap();
                if q.len() == 0 {
                    r == Ok::<Option<Vec<u8>>, KrenError>(None)
                } else {
                    &&& r is Ok
                    &&& r->Ok_0 is Some
                    &&& r->Ok_0->Some_0@ == q[0]
                    &&& final(self).messages() == Some(q.drop_first())
                }
            },
    {
        match self.read() {
            Ok(data) => Ok(Some(data)),
            Err(KrenError::BufferEmpty) => Ok(None),
            Err(e) => Err(e),
        }
    }

    /// The number of bytes a writer may still fill.
    pub fn available_write(&self) -> (n: usize)
        requires
            self.inv(),
        ensures
            n == self.free(),
    {
        available_write(self.capacity, self.header.head as usize, self.header.tail as usize)
    }

    /// The number of bytes written and not yet read.
    pub fn available_read(&self) -> (n: usize)
        requires
            self.inv(),
        ensures
            n == self.used(),
    {
        available_read(self.capacity, self.header.head as usize, self.header.tail as usize)
    }

    /// Whether reading the next message stays inside the ring.
    pub fn next_read_in_bounds(&self) -> (b: bool)
        requires
            self.inv(),
        ensures
            b == self.read_in_bounds(),
    {
        next_read_in_bounds(self.data.as_slice(), self.header.head as usize, self.header.tail as usize)
    }
}

/// A ring whose waiting bytes hold whole messages can always be read: the
/// next read stays inside the ring.
pub proof fn lemma_messages_read_in_bounds(rb: &RingBuffer)
    requires
        rb.inv(),
        rb.messages() is Some,
    ensures
        rb.read_in_bounds(),
{
    lemma_parse_frames_empty(rb.pending());
    if rb.messages().unwrap().len() > 0 {
        lemma_read_takes_first(
            rb.spec_data(),
            rb.spec_header().head as int,
            rb.spec_header().tail as int,
        );
    }
}

} // verus!
