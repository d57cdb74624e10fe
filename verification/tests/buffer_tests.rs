use kren_core::ring::{available_read, available_write, next_read_in_bounds, read_message, write_message};
use kren_core::{ChannelFlags, KrenError, RingBuffer, SharedHeader};

fn create_test_ring(capacity: usize) -> RingBuffer {
    let header = SharedHeader::init(capacity as u32);
    RingBuffer::new(header, vec![0u8; capacity], capacity)
}

#[test]
fn test_write_read_single() {
    let mut ring = create_test_ring(256);

    let msg = b"Hello, World!";
    let written = ring.write(msg).unwrap();
    assert_eq!(written, msg.len());

    let received = ring.read().unwrap();
    assert_eq!(received, msg);
}

#[test]
fn test_buffer_full() {
    let capacity = 64;
    let mut ring = create_test_ring(capacity);

    let big_data = vec![0u8; capacity];
    assert!(matches!(ring.write(&big_data), Err(KrenError::DataTooLarge { .. })));
}

#[test]
fn test_buffer_empty() {
    let mut ring = create_test_ring(64);
    assert!(matches!(ring.read(), Err(KrenError::BufferEmpty)));
}

#[test]
fn test_wraparound() {
    let mut ring = create_test_ring(64);

    for i in 0..10 {
        let msg = format!("Iteration {}", i);
        ring.write(msg.as_bytes()).unwrap();
        let received = ring.read().unwrap();
        assert_eq!(received, msg.as_bytes());
    }
}

#[test]
fn test_multiple_messages() {
    let mut ring = create_test_ring(256);

    let messages = ["First", "Second", "Third", "Fourth"];

    for msg in &messages {
        ring.write(msg.as_bytes()).unwrap();
    }

    for expected in &messages {
        let received = ring.read().unwrap();
        assert_eq!(received, expected.as_bytes());
    }
}

#[test]
fn test_available_space() {
    let capacity = 128;
    let mut ring = create_test_ring(capacity);

    assert_eq!(ring.available_write(), capacity - 1);
    assert_eq!(ring.available_read(), 0);

    ring.write(b"Test").unwrap();
    assert!(ring.available_write() < capacity - 1);
    assert!(ring.available_read() > 0);

    ring.read().unwrap();
    assert_eq!(ring.available_write(), capacity - 1);
    assert_eq!(ring.available_read(), 0);
}

#[test]
fn test_writer_reader_basic() {
    let mut ring = create_test_ring(1024);

    let data = b"Hello, KREN!";
    let written = ring.write(data).unwrap();
    assert_eq!(written, data.len());

    let received = ring.read().unwrap();
    assert_eq!(received, data);
}

#[test]
fn test_multiple_writes_reads() {
    let mut ring = create_test_ring(1024);

    for i in 0..10 {
        let msg = format!("Message {}", i);
        ring.write(msg.as_bytes()).unwrap();
        let received = ring.read().unwrap();
        assert_eq!(received, msg.as_bytes());
    }
}

#[test]
fn test_try_read_empty() {
    let mut ring = create_test_ring(1024);
    assert!(ring.try_read().unwrap().is_none());
}

#[test]
fn test_writer_closed_flag() {
    let mut header = SharedHeader::init(1024);
    assert!(!header.get_flags().is_writer_closed());
    let closed = header.get_flags().on_writer_close();
    header.set_flags(closed);
    assert!(header.get_flags().is_writer_closed());
}

#[test]
fn exact_space_accounting() {
    let mut ring = create_test_ring(128);
    ring.write(b"Test").unwrap();
    assert_eq!(ring.available_read(), 8);
    assert_eq!(ring.available_write(), 119);
    assert_eq!(ring.header().head(), 8);
    assert_eq!(ring.header().tail(), 0);
    ring.read().unwrap();
    assert_eq!(ring.header().tail(), 8);
}

#[test]
fn data_too_large_reports_limit() {
    let mut ring = create_test_ring(64);
    match ring.write(&[1u8; 61]) {
        Err(KrenError::DataTooLarge { size, max }) => {
            assert_eq!(size, 61);
            assert_eq!(max, 60);
        }
        other => panic!("unexpected {:?}", other),
    }
    // 60 bytes never fit either: with the prefix they fill the whole ring, one
    // byte more than it can hold.
    match ring.write(&[1u8; 60]) {
        Err(KrenError::BufferFull { requested, available }) => {
            assert_eq!(requested, 60);
            assert_eq!(available, 59);
        }
        other => panic!("unexpected {:?}", other),
    }
    assert_eq!(ring.write(&[1u8; 59]).unwrap(), 59);
    assert_eq!(ring.available_write(), 0);
}

#[test]
fn buffer_full_reports_room() {
    let mut ring = create_test_ring(32);
    ring.write(&[7u8; 20]).unwrap();
    match ring.write(&[8u8; 10]) {
        Err(KrenError::BufferFull { requested, available }) => {
            assert_eq!(requested, 10);
            assert_eq!(available, 3);
        }
        other => panic!("unexpected {:?}", other),
    }
    match ring.write(&[8u8; 4]) {
        Err(KrenError::BufferFull { requested, available }) => {
            assert_eq!(requested, 4);
            assert_eq!(available, 3);
        }
        other => panic!("unexpected {:?}", other),
    }
    assert_eq!(ring.write(&[9u8; 3]).unwrap(), 3);
    match ring.write(&[]) {
        Err(KrenError::BufferFull { requested, available }) => {
            assert_eq!(requested, 0);
            assert_eq!(available, 0);
        }
        other => panic!("unexpected {:?}", other),
    }
    assert_eq!(ring.read().unwrap(), vec![7u8; 20]);
    assert_eq!(ring.read().unwrap(), vec![9u8; 3]);
    assert!(ring.try_read().unwrap().is_none());
}

#[test]
fn prefix_and_body_wrap() {
    // Positions chosen so that the length prefix itself straddles the end.
    let mut header = SharedHeader::init(16);
    header.set_head(14);
    header.set_tail(14);
    let mut ring = RingBuffer::new(header, vec![0u8; 16], 16);
    assert_eq!(ring.write(b"abcdef").unwrap(), 6);
    assert_eq!(ring.header().head(), 8);
    assert_eq!(ring.available_read(), 10);
    assert_eq!(ring.try_read().unwrap().unwrap(), b"abcdef");
    assert_eq!(ring.header().tail(), 8);
}

#[test]
fn ring_functions_on_a_slice() {
    let mut data = [0u8; 10];
    let head = write_message(&mut data, 7, 7, b"xyz").unwrap();
    assert_eq!(head, 4);
    assert_eq!(data, [0, b'x', b'y', b'z', 0, 0, 0, 3, 0, 0]);
    assert!(next_read_in_bounds(&data, head, 7));
    let (msg, tail) = read_message(&data, head, 7).unwrap();
    assert_eq!(msg, b"xyz");
    assert_eq!(tail, head);
    assert!(matches!(read_message(&data, head, tail), Err(KrenError::BufferEmpty)));
}

#[test]
fn corrupt_length_is_detected() {
    let mut data = [0u8; 8];
    data[0..4].copy_from_slice(&1000u32.to_le_bytes());
    assert!(!next_read_in_bounds(&data, 5, 0));
    let mut header = SharedHeader::init(8);
    header.set_head(5);
    let ring = RingBuffer::new(header, data.to_vec(), 8);
    assert!(!ring.next_read_in_bounds());
}

#[test]
fn closed_flags_after_both_sides() {
    let f = ChannelFlags::Active.on_reader_close();
    assert_eq!(f, ChannelFlags::ReaderClosed);
    assert_eq!(f.on_writer_close(), ChannelFlags::WriterClosed);
}

#[test]
fn sides_working_from_stale_positions() {
    let mut data = [0u8; 32];
    let head = write_message(&mut data, 0, 0, b"first").unwrap();
    assert_eq!(head, 9);
    // The reader, seeing the writer at 9, reads the first message.
    let (msg, tail) = read_message(&data, head, 0).unwrap();
    assert_eq!(msg, b"first");
    // The writer still sees the reader at 0: its room can only grow once it
    // sees the reader at its new position.
    assert_eq!(available_write(32, head, 0), 22);
    assert_eq!(available_write(32, head, tail), 22 + 9);
    // A write from the stale position leaves the bytes the reader saw waiting.
    let mut data2 = data;
    let head2 = write_message(&mut data2, head, 0, b"second").unwrap();
    assert_eq!(available_read(32, head2, 0), 9 + 10);
    let (again, _) = read_message(&data2, head, 0).unwrap();
    assert_eq!(again, b"first");
    let (next, tail2) = read_message(&data2, head2, tail).unwrap();
    assert_eq!(next, b"second");
    assert_eq!(tail2, head2);
}
