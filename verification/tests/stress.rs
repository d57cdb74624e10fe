use kren_core::{ChannelFlags, RingBuffer, SharedHeader};

fn create(capacity: usize) -> RingBuffer {
    RingBuffer::new(SharedHeader::init(capacity as u32), vec![0u8; capacity], capacity)
}

#[test]
fn stress_100k_messages() {
    let mut ring = create(1024 * 64);
    for i in 0..100_000 {
        let msg = format!("msg_{:06}", i);
        ring.write(msg.as_bytes()).expect("write");
        let data = ring.read().expect("read");
        assert_eq!(data, msg.as_bytes(), "mismatch at message {}", i);
    }
}

#[test]
fn stress_large_message() {
    let size = 1024 * 1024;
    let mut ring = create(size);
    let large_data: Vec<u8> = (0..size / 2).map(|i| (i % 256) as u8).collect();
    ring.write(&large_data).expect("write large");
    let received = ring.read().expect("read large");
    assert_eq!(received, large_data);
}

#[test]
fn stress_wraparound() {
    let mut ring = create(256);
    for i in 0..10_000 {
        let msg = format!("w{}", i);
        ring.write(msg.as_bytes()).expect("write");
        let data = ring.read().expect("read");
        assert_eq!(data, msg.as_bytes(), "wraparound failed at {}", i);
    }
}

#[test]
fn stress_varying_sizes() {
    let mut ring = create(1024 * 32);
    let sizes = [1, 2, 4, 8, 16, 32, 64, 128, 256, 512, 1024, 2048, 4096];
    for (i, &size) in sizes.iter().cycle().take(5000).enumerate() {
        let data: Vec<u8> = (0..size).map(|j| ((i + j) % 256) as u8).collect();
        ring.write(&data).expect("write");
        let received = ring.read().expect("read");
        assert_eq!(received, data, "mismatch at msg {} (size {})", i, size);
    }
}

#[test]
fn stress_buffer_pressure() {
    let mut ring = create(512);
    for cycle in 0..100 {
        let mut count = 0;
        loop {
            let msg = format!("c{}m{}", cycle, count);
            match ring.write(msg.as_bytes()) {
                Ok(_) => count += 1,
                Err(_) => break,
            }
        }
        assert!(count > 0, "should write at least 1 message");
        for j in 0..count {
            let expected = format!("c{}m{}", cycle, j);
            let data = ring.read().expect("read during drain");
            assert_eq!(data, expected.as_bytes());
        }
    }
}

#[test]
fn stress_writer_drop_safety() {
    let mut ring = create(1024);
    let mut flags = ChannelFlags::Active;
    ring.write(b"before_drop").expect("write");
    flags = flags.on_writer_close();

    assert!(flags.is_writer_closed());
    let data = ring.read().expect("read after drop");
    assert_eq!(data, b"before_drop");
}

#[test]
fn stress_empty_messages() {
    let mut ring = create(1024);
    ring.write(b"").expect("write empty");
    let data = ring.read().expect("read empty");
    assert_eq!(data, b"");
    ring.write(b"after_empty").expect("write after");
    let data = ring.read().expect("read after");
    assert_eq!(data, b"after_empty");
}
