//! The byte ring that carries length-prefixed messages from one writer to one
//! reader.
//!
//! The ring is a slice of `capacity` bytes. The writer's position is `head`,
//! the reader's is `tail`; the bytes from `tail` up to `head`, read around the
//! end of the slice, are those written and not yet read. One byte always stays
//! free, so that `head == tail` means an empty ring. Each message is stored as
//! its length (a little-endian `u32`) followed by its bytes.
use vstd::arithmetic::div_mod::*;
use vstd::bytes::*;
use vstd::prelude::*;

use crate::error::KrenError;

verus! {

/// Number of bytes that precede every message in the ring: its length.
pub const MSG_HEADER_SIZE: usize = 4;

/// `n` bytes read around the ring `data`, starting at `start`.
pub open spec fn cyclic(data: Seq<u8>, start: int, n: int) -> Seq<u8> {
    Seq::new(n as nat, |i: int| data[(start + i) % (data.len() as int)])
}

/// The ring `data` after `bytes` are written around it, starting at `start`.
pub open spec fn cyclic_write(data: Seq<u8>, start: int, bytes: Seq<u8>) -> Seq<u8> {
    Seq::new(
        data.len(),
        |j: int|
            {
                let k = (j - start) % (data.len() as int);
                if k < bytes.len() {
                    bytes[k]
                } else {
                    data[j]
                }
            },
    )
}

/// Bytes written and not yet read, with the writer at `head` and the reader at `tail`.
pub open spec fn used_space(capacity: int, head: int, tail: int) -> int {
    if head >= tail {
        head - tail
    } else {
        capacity - tail + head
    }
}

/// Bytes that a writer may still fill, with the writer at `head` and the reader at `tail`.
pub open spec fn free_space(capacity: int, head: int, tail: int) -> int {
    capacity - used_space(capacity, head, tail) - 1
}

/// A message as it stands in the ring: its length, then its bytes.
pub open spec fn frame(msg: Seq<u8>) -> Seq<u8> {
    spec_u32_to_le_bytes(msg.len() as u32) + msg
}

/// The length that the first four bytes of `s` announce.
pub open spec fn frame_len(s: Seq<u8>) -> int {
    spec_u32_from_le_bytes(s.subrange(0, 4)) as int
}

/// The messages that `s` holds back to back, if it holds them and nothing else.
pub open spec fn parse_frames(s: Seq<u8>) -> Option<Seq<Seq<u8>>>
    decreases s.len(),
{
    if s.len() == 0 {
        Some(Seq::empty())
    } else if s.len() < 4 {
        None
    } else {
        let n = frame_len(s);
        if 4 + n > s.len() {
            None
        } else {
            match parse_frames(s.subrange(4 + n, s.len() as int)) {
                Some(rest) => Some(seq![s.subrange(4, 4 + n)] + rest),
                None => None,
            }
        }
    }
}

/// The bytes written and not yet read in the ring `data`.
pub open spec fn pending_bytes(data: Seq<u8>, head: int, tail: int) -> Seq<u8> {
    cyclic(data, tail, used_space(data.len() as int, head, tail))
}

/// Whether reading the next message from the ring stays inside the ring: the
/// length prefix and the number of bytes it announces can be read around the
/// ring at most once more from where they start.
pub open spec fn read_in_bounds(data: Seq<u8>, head: int, tail: int) -> bool {
    let c = data.len() as int;
    used_space(c, head, tail) == 0 || {
        &&& 4 <= 2 * c - tail
        &&& frame_len(cyclic(data, tail, 4)) <= 2 * c - (tail + 4) % c
    }
}

/// `x % c` for `x` within one turn of the ring on either side of `[0, c)`.
pub proof fn lemma_mod_window(x: int, c: int)
    requires
        0 < c,
        -c <= x < 2 * c,
    ensures
        x % c == (if x < 0 {
            x + c
        } else if x < c {
            x
        } else {
            x - c
        }),
{
    if x < 0 {
        lemma_fundamental_div_mod_converse(x, c, -1, x + c);
    } else if x < c {
        lemma_fundamental_div_mod_converse(x, c, 0, x);
    } else {
        lemma_fundamental_div_mod_converse(x, c, 1, x - c);
    }
}

/// The number of bytes written and not yet read.
pub fn available_read(capacity: usize, head: usize, tail: usize) -> (n: usize)
    requires
        head < capacity,
        tail < capacity,
    ensures
        n == used_space(capacity as int, head as int, tail as int),
        n < capacity,
{
    if head >= tail {
        head - tail
    } else {
        capacity - tail + head
    }
}

/// The number of bytes a writer may still fill.
pub fn available_write(capacity: usize, head: usize, tail: usize) -> (n: usize)
    requires
        head < capacity,
        tail < capacity,
    ensures
        n == free_space(capacity as int, head as int, tail as int),
{
    if head >= tail {
        capacity - (head - tail) - 1
    } else {
        tail - head - 1
    }
}

/// Writes `bytes` around the ring `data`, starting at `pos`.
pub fn write_at(data: &mut [u8], pos: usize, bytes: &[u8])
    requires
        pos < old(data)@.len(),
        bytes@.len() <= old(data)@.len(),
    ensures
        final(data)@ == cyclic_write(old(data)@, pos as int, bytes@),
{
    let ghost d0 = data@;
    let cap = data.len();
    let room = cap - pos;
    let first = if bytes.len() < room {
        bytes.len()
    } else {
        room
    };
    let mut i: usize = 0;
    while i < first
        invariant
            first <= bytes@.len(),
            pos + first <= cap,
            cap == d0.len(),
            i <= first,
            data@.len() == cap,
            forall|j: int|
                0 <= j < cap ==> #[trigger] data@[j] == if pos <= j < pos + i {
                    bytes@[j - pos]
                } else {
                    d0[j]
                },
        decreases first - i,
    {
        data[pos + i] = bytes[i];
        i = i + 1;
    }
    let rest = bytes.len() - first;
    let mut k: usize = 0;
    while k < rest
        invariant
            rest == bytes@.len() - first,
            first <= bytes@.len(),
            rest > 0 ==> first == room,
            room == cap - pos,
            pos < cap,
            bytes@.len() <= cap,
            cap == d0.len(),
            k <= rest,
            data@.len() == cap,
            forall|j: int|
                0 <= j < cap ==> #[trigger] data@[j] == if pos <= j < pos + first {
                    bytes@[j - pos]
                } else if j < k {
                    bytes@[first + j]
                } else {
                    d0[j]
                },
        decreases rest - k,
    {
        data[k] = bytes[first + k];
        k = k + 1;
    }
    proof {
        let c = cap as int;
        assert forall|j: int| 0 <= j < c implies data@[j] == #[trigger] cyclic_write(
            d0,
            pos as int,
            bytes@,
        )[j] by {
            lemma_mod_window(j - pos, c);
        }
        assert(data@ =~= cyclic_write(d0, pos as int, bytes@));
    }
}

/// Reads `n` bytes around the ring `data`, starting at `pos`.
pub fn read_at(data: &[u8], pos: usize, n: usize) -> (out: Vec<u8>)
    requires
        pos < data@.len(),
        n <= 2 * data@.len() - pos,
    ensures
        out@ == cyclic(data@, pos as int, n as int),
{
    let cap = data.len();
    let room = cap - pos;
    let first = if n < room {
        n
    } else {
        room
    };
    let mut out: Vec<u8> = Vec::new();
    let mut i: usize = 0;
    while i < first
        invariant
            first <= n,
            pos + first <= cap,
            cap == data@.len(),
            i <= first,
            out@.len() == i,
            forall|j: int| 0 <= j < i ==> #[trigger] out@[j] == data@[pos + j],
        decreases first - i,
    {
        out.push(data[pos + i]);
        i = i + 1;
    }
    let rest = n - first;
    let mut k: usize = 0;
    while k < rest
        invariant
            rest == n - first,
            rest > 0 ==> first == room,
            room == cap - pos,
            pos < cap,
            n <= 2 * cap - pos,
            cap == data@.len(),
            k <= rest,
            out@.len() == first + k,
            forall|j: int|
                0 <= j < first + k ==> #[trigger] out@[j] == if j < first {
                    data@[pos + j]
                } else {
                    data@[j - first]
                },
        decreases rest - k,
    {
        out.push(data[k]);
        k = k + 1;
    }
    proof {
        let c = cap as int;
        assert forall|j: int| 0 <= j < n implies out@[j] == #[trigger] cyclic(
            data@,
            pos as int,
            n as int,
        )[j] by {
            lemma_mod_window(pos + j, c);
        }
        assert(out@ =~= cyclic(data@, pos as int, n as int));
    }
    out
}


/// Two writes around the ring, the second starting where the first ended, are
/// one write of both byte strings.
pub proof fn lemma_cyclic_write_concat(d: Seq<u8>, h: int, a: Seq<u8>, b: Seq<u8>)
    requires
        0 <= h < d.len(),
        a.len() + b.len() <= d.len(),
    ensures
        cyclic_write(cyclic_write(d, h, a), (h + a.len()) % (d.len() as int), b) == cyclic_write(
            d,
            h,
            a + b,
        ),
{
    let c = d.len() as int;
    let hp = (h + a.len()) % c;
    lemma_mod_window(h + a.len(), c);
    let d1 = cyclic_write(d, h, a);
    let lhs = cyclic_write(d1, hp, b);
    let rhs = cyclic_write(d, h, a + b);
    assert forall|j: int| 0 <= j < c implies #[trigger] lhs[j] == rhs[j] by {
        lemma_mod_window(j - h, c);
        lemma_mod_window(j - hp, c);
    }
    assert(lhs =~= rhs);
}

/// A write of `f` at the writer's position appends `f` to the bytes waiting
/// to be read, and moves the writer past them.
pub proof fn lemma_write_extends_pending(d: Seq<u8>, head: int, tail: int, f: Seq<u8>)
    requires
        0 <= head < d.len(),
        0 <= tail < d.len(),
        f.len() <= free_space(d.len() as int, head, tail),
    ensures
        0 <= (head + f.len()) % (d.len() as int) < d.len(),
        used_space(d.len() as int, (head + f.len()) % (d.len() as int), tail) == used_space(
            d.len() as int,
            head,
            tail,
        ) + f.len(),
        pending_bytes(cyclic_write(d, head, f), (head + f.len()) % (d.len() as int), tail)
            == pending_bytes(d, head, tail) + f,
{
    let c = d.len() as int;
    let h2 = (head + f.len()) % c;
    lemma_mod_window(head + f.len(), c);
    let u = used_space(c, head, tail);
    let d2 = cyclic_write(d, head, f);
    let lhs = pending_bytes(d2, h2, tail);
    let rhs = pending_bytes(d, head, tail) + f;
    assert(used_space(c, h2, tail) == u + f.len());
    assert forall|i: int| 0 <= i < u + f.len() implies #[trigger] lhs[i] == rhs[i] by {
        lemma_mod_window(tail + i, c);
        let p = (tail + i) % c;
        lemma_mod_window(p - head, c);
    }
    assert(lhs =~= rhs);
}

/// Appending one framed message to bytes that hold whole messages gives one
/// message more, at the end.
pub proof fn lemma_parse_frames_append(p: Seq<u8>, m: Seq<u8>)
    requires
        parse_frames(p) is Some,
        m.len() <= u32::MAX,
    ensures
        parse_frames(p + frame(m)) == Some(parse_frames(p).unwrap().push(m)),
    decreases p.len(),
{
    lemma_auto_spec_u32_to_from_le_bytes();
    let f = frame(m);
    let s = p + f;
    if p.len() == 0 {
        assert(s =~= f);
        assert(f.subrange(0, 4) =~= spec_u32_to_le_bytes(m.len() as u32));
        assert(frame_len(s) == m.len());
        assert(s.subrange(4, 4 + m.len() as int) =~= m);
        assert(s.subrange(4 + m.len() as int, s.len() as int) =~= Seq::<u8>::empty());
        assert(parse_frames(Seq::<u8>::empty()) == Some(Seq::<Seq<u8>>::empty()));
        assert(seq![m] + Seq::<Seq<u8>>::empty() =~= Seq::<Seq<u8>>::empty().push(m));
    } else {
        let n = frame_len(p);
        assert(s.subrange(0, 4) =~= p.subrange(0, 4));
        assert(frame_len(s) == n);
        let rest = p.subrange(4 + n, p.len() as int);
        assert(s.subrange(4 + n, s.len() as int) =~= rest + f);
        assert(s.subrange(4, 4 + n) =~= p.subrange(4, 4 + n));
        lemma_parse_frames_append(rest, m);
        let q = parse_frames(rest).unwrap();
        assert(seq![p.subrange(4, 4 + n)] + q.push(m) =~= (seq![p.subrange(4, 4 + n)] + q).push(m));
    }
}

/// Bytes that hold at least one whole message start with it: its length
/// prefix, its bytes, then the rest of the messages.
pub proof fn lemma_parse_frames_first(p: Seq<u8>)
    requires
        parse_frames(p) is Some,
        parse_frames(p).unwrap().len() > 0,
    ensures
        p.len() >= 4,
        4 + frame_len(p) <= p.len(),
        parse_frames(p).unwrap()[0] == p.subrange(4, 4 + frame_len(p)),
        parse_frames(p.subrange(4 + frame_len(p), p.len() as int)) == Some(
            parse_frames(p).unwrap().drop_first(),
        ),
{
    let n = frame_len(p);
    let rest = parse_frames(p.subrange(4 + n, p.len() as int)).unwrap();
    assert((seq![p.subrange(4, 4 + n)] + rest).drop_first() =~= rest);
}

/// Nothing waits to be read exactly when the waiting bytes hold no message.
pub proof fn lemma_parse_frames_empty(p: Seq<u8>)
    requires
        parse_frames(p) is Some,
    ensures
        parse_frames(p).unwrap().len() == 0 <==> p.len() == 0,
{
}

/// Writes one message: its length, then its bytes, starting at the writer's
/// position `head`, and returns the writer's new position. A message that can
/// never fit the ring, or that does not fit the room left now, is refused and
/// the ring is left as it was.
pub fn write_message(data: &mut [u8], head: usize, tail: usize, msg: &[u8]) -> (r: Result<
    usize,
    KrenError,
>)
    requires
        MSG_HEADER_SIZE <= old(data)@.len() <= u32::MAX,
        head < old(data)@.len(),
        tail < old(data)@.len(),
    ensures
        ({
            let c = old(data)@.len() as int;
            let len = msg@.len() as int;
            let free = free_space(c, head as int, tail as int);
            match r {
                Ok(new_head) => {
                    &&& 4 + len <= free
                    &&& new_head == (head + 4 + len) % c
                    &&& final(data)@ == cyclic_write(old(data)@, head as int, frame(msg@))
                },
                Err(KrenError::DataTooLarge { size, max }) => {
                    &&& 4 + len > c
                    &&& size == len
                    &&& max == c - 4
                    &&& final(data)@ == old(data)@
                },
                Err(KrenError::BufferFull { requested, available }) => {
                    &&& 4 + len <= c
                    &&& 4 + len > free
                    &&& requested == len
                    &&& available == (if free >= 4 {
                        free - 4
                    } else {
                        0
                    })
                    &&& final(data)@ == old(data)@
                },
                _ => false,
            }
        }),
{
    let ghost d0 = data@;
    let cap = data.len();
    let len = msg.len();
    if len > cap - MSG_HEADER_SIZE {
        return Err(KrenError::DataTooLarge { size: len, max: cap - MSG_HEADER_SIZE });
    }
    let total_needed = MSG_HEADER_SIZE + len;
    let available = available_write(cap, head, tail);
    if total_needed > available {
        return Err(
            KrenError::BufferFull {
                requested: len,
                available: available.saturating_sub(MSG_HEADER_SIZE),
            },
        );
    }
    let len_bytes = u32_to_le_bytes(len as u32);
    write_at(data, head, len_bytes.as_slice());
    let body_pos = ((head as u64 + 4) % (cap as u64)) as usize;
    write_at(data, body_pos, msg);
    let new_head = ((head as u64 + total_needed as u64) % (cap as u64)) as usize;
    proof {
        lemma_cyclic_write_concat(d0, head as int, len_bytes@, msg@);
    }
    Ok(new_head)
}

/// Reads the message at the reader's position `tail`: its length prefix, then
/// that many bytes, and returns them with the reader's new position. An empty
/// ring gives `BufferEmpty`.
pub fn read_message(data: &[u8], head: usize, tail: usize) -> (r: Result<
    (Vec<u8>, usize),
    KrenError,
>)
    requires
        0 < data@.len() <= u32::MAX,
        head < data@.len(),
        tail < data@.len(),
        read_in_bounds(data@, head as int, tail as int),
    ensures
        ({
            let c = data@.len() as int;
            let n = frame_len(cyclic(data@, tail as int, 4));
            match r {
                Ok((msg, new_tail)) => {
                    &&& used_space(c, head as int, tail as int) > 0
                    &&& msg@ == cyclic(data@, (tail + 4) % c, n)
                    &&& new_tail == (tail + 4 + n) % c
                },
                Err(KrenError::BufferEmpty) => used_space(c, head as int, tail as int) == 0,
                _ => false,
            }
        }),
{
    let cap = data.len();
    if available_read(cap, head, tail) == 0 {
        return Err(KrenError::BufferEmpty);
    }
    let len_bytes = read_at(data, tail, MSG_HEADER_SIZE);
    proof {
        assert(len_bytes@.subrange(0, 4) =~= len_bytes@);
    }
    let len = u32_from_le_bytes(len_bytes.as_slice()) as usize;
    let body_pos = ((tail as u64 + 4) % (cap as u64)) as usize;
    let msg = read_at(data, body_pos, len);
    let new_tail = ((tail as u64 + 4 + len as u64) % (cap as u64)) as usize;
    Ok((msg, new_tail))
}

/// Whether reading the next message would stay inside the ring; see
/// `read_in_bounds`.
pub fn next_read_in_bounds(data: &[u8], head: usize, tail: usize) -> (b: bool)
    requires
        0 < data@.len() <= u32::MAX,
        head < data@.len(),
        tail < data@.len(),
    ensures
        b == read_in_bounds(data@, head as int, tail as int),
{
    let cap = data.len() as u64;
    if available_read(data.len(), head, tail) == 0 {
        return true;
    }
    if 4 > 2 * cap - tail as u64 {
        return false;
    }
    let len_bytes = read_at(data, tail, MSG_HEADER_SIZE);
    proof {
        assert(len_bytes@.subrange(0, 4) =~= len_bytes@);
    }
    let len = u32_from_le_bytes(len_bytes.as_slice()) as u64;
    len <= 2 * cap - (tail as u64 + 4) % cap
}


/// When the waiting bytes hold whole messages and at least one, reading stays
/// inside the ring, gives the first message, and leaves the others waiting.
pub proof fn lemma_read_takes_first(d: Seq<u8>, head: int, tail: int)
    requires
        0 <= head < d.len(),
        0 <= tail < d.len(),
        parse_frames(pending_bytes(d, head, tail)) is Some,
        parse_frames(pending_bytes(d, head, tail)).unwrap().len() > 0,
    ensures
        ({
            let c = d.len() as int;
            let q = parse_frames(pending_bytes(d, head, tail)).unwrap();
            let n = frame_len(cyclic(d, tail, 4));
            let t2 = (tail + 4 + n) % c;
            &&& used_space(c, head, tail) > 0
            &&& read_in_bounds(d, head, tail)
            &&& cyclic(d, (tail + 4) % c, n) == q[0]
            &&& 0 <= t2 < c
            &&& parse_frames(pending_bytes(d, head, t2)) == Some(q.drop_first())
        }),
{
    let c = d.len() as int;
    let p = pending_bytes(d, head, tail);
    let q = parse_frames(p).unwrap();
    let u = used_space(c, head, tail);
    lemma_parse_frames_first(p);
    let n = frame_len(p);
    assert(p.subrange(0, 4) =~= cyclic(d, tail, 4).subrange(0, 4));
    assert(frame_len(cyclic(d, tail, 4)) == n);
    lemma_mod_window(tail + 4, c);
    let b = (tail + 4) % c;
    let body = cyclic(d, b, n);
    assert forall|i: int| 0 <= i < n implies #[trigger] body[i] == p.subrange(4, 4 + n)[i] by {
        lemma_mod_window(b + i, c);
        lemma_mod_window(tail + 4 + i, c);
    }
    assert(body =~= p.subrange(4, 4 + n));
    let t2 = (tail + 4 + n) % c;
    lemma_mod_window(tail + 4 + n, c);
    assert(used_space(c, head, t2) == u - 4 - n);
    let rest = pending_bytes(d, head, t2);
    assert forall|i: int| 0 <= i < u - 4 - n implies #[trigger] rest[i] == p.subrange(
        4 + n,
        u,
    )[i] by {
        lemma_mod_window(t2 + i, c);
        lemma_mod_window(tail + 4 + n + i, c);
    }
    assert(rest =~= p.subrange(4 + n, p.len() as int));
}


/// The bytes waiting to be read and the room left to write always add up to
/// one byte less than the ring.
pub proof fn lemma_space_partition(capacity: int, head: int, tail: int)
    requires
        0 <= head < capacity,
        0 <= tail < capacity,
    ensures
        0 <= used_space(capacity, head, tail) < capacity,
        0 <= free_space(capacity, head, tail) < capacity,
        used_space(capacity, head, tail) + free_space(capacity, head, tail) == capacity - 1,
        used_space(capacity, head, tail) == 0 <==> head == tail,
{
}

/// A message written to a ring with nothing waiting is the message that the
/// next read gives back, and that read leaves the ring empty again with the
/// reader where the writer stopped.
pub proof fn lemma_write_then_read(d: Seq<u8>, head: int, tail: int, msg: Seq<u8>)
    requires
        0 < d.len() <= u32::MAX,
        0 <= head < d.len(),
        0 <= tail < d.len(),
        used_space(d.len() as int, head, tail) == 0,
        4 + msg.len() <= free_space(d.len() as int, head, tail),
    ensures
        ({
            let c = d.len() as int;
            let d2 = cyclic_write(d, head, frame(msg));
            let h2 = (head + 4 + msg.len()) % c;
            let n = frame_len(cyclic(d2, tail, 4));
            &&& used_space(c, h2, tail) > 0
            &&& read_in_bounds(d2, h2, tail)
            &&& cyclic(d2, (tail + 4) % c, n) == msg
            &&& (tail + 4 + n) % c == h2
        }),
{
    lemma_auto_spec_u32_to_from_le_bytes();
    let c = d.len() as int;
    let f = frame(msg);
    assert(pending_bytes(d, head, tail) =~= Seq::<u8>::empty());
    assert(parse_frames(Seq::<u8>::empty()) == Some(Seq::<Seq<u8>>::empty()));
    lemma_write_extends_pending(d, head, tail, f);
    let d2 = cyclic_write(d, head, f);
    let h2 = (head + f.len()) % c;
    assert(pending_bytes(d2, h2, tail) =~= f);
    lemma_parse_frames_append(Seq::<u8>::empty(), msg);
    assert(Seq::<u8>::empty() + f =~= f);
    assert(Seq::<Seq<u8>>::empty().push(msg)[0] == msg);
    lemma_read_takes_first(d2, h2, tail);
    let n = frame_len(cyclic(d2, tail, 4));
    let t2 = (tail + 4 + n) % c;
    assert(Seq::<Seq<u8>>::empty().push(msg).drop_first() =~= Seq::<Seq<u8>>::empty());
    lemma_parse_frames_empty(pending_bytes(d2, h2, t2));
}


/// While the writer works from a reader position it read earlier, the reader
/// may only have moved forward over waiting bytes: that only adds room, so a
/// write that fitted the earlier position still fits. Likewise a writer that
/// moves forward over free room only adds bytes behind the ones a reader
/// already saw waiting, and leaves those bytes as they were.
pub proof fn lemma_progress_of_the_other_side(capacity: int, head: int, tail: int, k: int)
    requires
        0 <= head < capacity,
        0 <= tail < capacity,
    ensures
        0 <= k <= used_space(capacity, head, tail) ==> free_space(
            capacity,
            head,
            (tail + k) % capacity,
        ) == free_space(capacity, head, tail) + k,
        0 <= k <= free_space(capacity, head, tail) ==> used_space(
            capacity,
            (head + k) % capacity,
            tail,
        ) == used_space(capacity, head, tail) + k,
{
    if 0 <= k <= used_space(capacity, head, tail) {
        lemma_mod_window(tail + k, capacity);
    }
    if 0 <= k <= free_space(capacity, head, tail) {
        lemma_mod_window(head + k, capacity);
    }
}

/// A write changes no byte that waits to be read: the waiting bytes before
/// the write are a prefix of those after it, so a reader that saw the writer
/// at its earlier position reads the same bytes.
pub proof fn lemma_write_keeps_waiting_bytes(d: Seq<u8>, head: int, tail: int, f: Seq<u8>)
    requires
        0 <= head < d.len(),
        0 <= tail < d.len(),
        f.len() <= free_space(d.len() as int, head, tail),
    ensures
        pending_bytes(d, head, tail) == pending_bytes(cyclic_write(d, head, f), head, tail),
{
    lemma_write_extends_pending(d, head, tail, f);
    let c = d.len() as int;
    let d2 = cyclic_write(d, head, f);
    let u = used_space(c, head, tail);
    let h2 = (head + f.len()) % c;
    assert forall|i: int| 0 <= i < u implies #[trigger] pending_bytes(d2, head, tail)[i]
        == pending_bytes(d2, h2, tail)[i] by {
    }
    assert(pending_bytes(d2, head, tail) =~= pending_bytes(d2, h2, tail).subrange(0, u));
    assert((pending_bytes(d, head, tail) + f).subrange(0, u) =~= pending_bytes(d, head, tail));
}


/// The bytes waiting are the distance from the reader to the writer, counted
/// forward around the ring; the room left is one byte less than the rest.
pub proof fn lemma_space_is_distance(capacity: int, head: int, tail: int)
    requires
        0 <= head < capacity,
        0 <= tail < capacity,
    ensures
        used_space(capacity, head, tail) == (head - tail) % capacity,
        free_space(capacity, head, tail) == capacity - 1 - (head - tail) % capacity,
        (tail + used_space(capacity, head, tail)) % capacity == head,
{
    lemma_mod_window(head - tail, capacity);
    lemma_mod_window(tail + used_space(capacity, head, tail), capacity);
}

/// Reading `n` bytes around the ring from `start` gives the bytes from
/// `start` to the end of the ring, then, if more are wanted, those from its
/// beginning.
pub proof fn lemma_cyclic_is_two_chunks(d: Seq<u8>, start: int, n: int)
    requires
        0 <= start < d.len(),
        0 <= n <= d.len(),
    ensures
        n <= d.len() - start ==> cyclic(d, start, n) == d.subrange(start, start + n),
        n > d.len() - start ==> cyclic(d, start, n) == d.subrange(start, d.len() as int)
            + d.subrange(0, n - (d.len() - start)),
{
    let c = d.len() as int;
    assert forall|i: int| 0 <= i < n implies #[trigger] cyclic(d, start, n)[i] == (if start + i
        < c {
        d[start + i]
    } else {
        d[start + i - c]
    }) by {
        lemma_mod_window(start + i, c);
    }
    if n <= c - start {
        assert(cyclic(d, start, n) =~= d.subrange(start, start + n));
    } else {
        assert(cyclic(d, start, n) =~= d.subrange(start, c) + d.subrange(0, n - (c - start)));
    }
}

/// Writing `bytes` around the ring from `start` puts byte `k` at position
/// `(start + k) % capacity` and leaves every position it does not reach as it
/// was; the ring keeps its length.
pub proof fn lemma_cyclic_write_positions(d: Seq<u8>, start: int, bytes: Seq<u8>)
    requires
        0 <= start < d.len(),
        bytes.len() <= d.len(),
    ensures
        cyclic_write(d, start, bytes).len() == d.len(),
        forall|k: int|
            0 <= k < bytes.len() ==> #[trigger] cyclic_write(d, start, bytes)[(start + k) % (
            d.len() as int)] == bytes[k],
        forall|j: int|
            0 <= j < d.len() && (forall|k: int|
                0 <= k < bytes.len() ==> #[trigger] ((start + k) % (d.len() as int)) != j)
                ==> #[trigger] cyclic_write(d, start, bytes)[j] == d[j],
{
    let c = d.len() as int;
    let w = cyclic_write(d, start, bytes);
    assert forall|k: int| 0 <= k < bytes.len() implies #[trigger] w[(start + k) % c]
        == bytes[k] by {
        lemma_mod_window(start + k, c);
        let p = (start + k) % c;
        lemma_mod_window(p - start, c);
    }
    assert forall|j: int|
        0 <= j < c && (forall|k: int| 0 <= k < bytes.len() ==> #[trigger] ((start + k) % c) != j)
        implies #[trigger] w[j] == d[j] by {
        lemma_mod_window(j - start, c);
        let k0 = (j - start) % c;
        if k0 < bytes.len() {
            lemma_mod_window(start + k0, c);
            assert((start + k0) % c == j);
        }
    }
}

/// A framed message is four bytes that decode, little-endian, to its length,
/// followed by the message itself.
pub proof fn lemma_frame_layout(m: Seq<u8>)
    requires
        m.len() <= u32::MAX,
    ensures
        frame(m).len() == 4 + m.len(),
        spec_u32_from_le_bytes(frame(m).subrange(0, 4)) == m.len(),
        frame_len(frame(m)) == m.len(),
        frame(m).subrange(4, 4 + m.len() as int) == m,
{
    lemma_auto_spec_u32_to_from_le_bytes();
    assert(frame(m).subrange(0, 4) =~= spec_u32_to_le_bytes(m.len() as u32));
    assert(frame(m).subrange(4, 4 + m.len() as int) =~= m);
}

} // verus!
