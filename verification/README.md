# kren-core

Shared memory channels between processes: one writer and one reader meet in a
named shared memory segment that starts with a 40-byte header and continues
with a ring of length-prefixed messages.

- `src/` is the library, verified with Verus:
  - `ring.rs`: the byte ring as a slice; writing and reading one message,
    the room left and the bytes waiting, and the laws that tie them together
    (messages come out in the order they went in, byte for byte; each side's
    progress only helps the other).
  - `buffer.rs`: `RingBuffer`, a ring kept together with its header.
  - `header.rs`: `SharedHeader` and its byte layout, `ChannelFlags` and how
    closing either side changes them.
  - `channel.rs`: the checks a writer makes on a new channel's capacity and a
    reader makes on the header it finds.
  - `platform.rs`: the names of the segment on POSIX and on Windows.
  - `binding_errors.rs`: how the Python and Node.js bindings classify errors.
- `app/` maps the segment with `libc`, moves the positions and flags with
  atomics, and calls the library for every decision; it also holds the
  Python (`pyo3`) and Node.js (`napi`) bindings.
- `tests/` runs the library on concrete channels.
