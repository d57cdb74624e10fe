use kren_core::binding_errors::{node_error_status, python_error_kind, NodeErrorStatus, PyErrorKind};
use kren_core::channel::{checked_capacity, connect_capacity, segment_size};
use kren_core::header::{FLAGS_OFFSET, HEAD_OFFSET, TAIL_OFFSET};
use kren_core::platform::{encode_name, make_shm_name};
use kren_core::{ChannelFlags, KrenError, SharedHeader, KREN_MAGIC, KREN_VERSION};

#[test]
fn test_header_size_alignment() {
    assert_eq!(SharedHeader::SIZE, 40);
    assert_eq!(SharedHeader::ALIGN, 8);
}

#[test]
fn test_header_init_and_validate() {
    let mut buffer = vec![0u8; SharedHeader::SIZE];
    buffer.copy_from_slice(&SharedHeader::init(4096).to_bytes());
    let header = SharedHeader::from_bytes(&buffer);

    assert_eq!(header.magic, KREN_MAGIC);
    assert_eq!(header.version, KREN_VERSION);
    assert_eq!(header.capacity, 4096);
    assert_eq!(header.data_offset, SharedHeader::SIZE as u32);
    assert_eq!(header.head(), 0);
    assert_eq!(header.tail(), 0);
    assert!(header.is_active());
    assert!(header.validate().is_ok());
}

#[test]
fn test_invalid_magic() {
    let buffer = vec![0u8; SharedHeader::SIZE];
    let header = SharedHeader::from_bytes(&buffer);
    assert!(matches!(header.validate().unwrap_err(), KrenError::InvalidMagic));
}

#[test]
fn test_atomic_operations() {
    let mut header = SharedHeader::init(1024);

    header.set_head(100);
    header.set_tail(50);
    assert_eq!(header.head(), 100);
    assert_eq!(header.tail(), 50);
}

#[test]
fn test_flags() {
    let mut header = SharedHeader::init(1024);

    assert!(header.is_active());
    header.set_flags(ChannelFlags::WriterClosed);
    assert_eq!(header.get_flags(), ChannelFlags::WriterClosed);
    assert!(!header.is_active());
}

#[test]
fn header_version_mismatch() {
    let mut header = SharedHeader::init(64);
    header.version = 7;
    match header.validate() {
        Err(KrenError::VersionMismatch { expected, found }) => {
            assert_eq!(expected, KREN_VERSION);
            assert_eq!(found, 7);
        }
        other => panic!("unexpected {:?}", other),
    }
}

#[test]
fn header_bytes_layout() {
    let mut header = SharedHeader::init(0x0102_0304);
    header.set_head(0x11);
    header.set_tail(0x2233);
    header.set_flags(ChannelFlags::ReaderClosed);
    let bytes = header.to_bytes();
    assert_eq!(bytes.len(), SharedHeader::SIZE);
    assert_eq!(&bytes[0..4], &[0x4E, 0x45, 0x52, 0x4B]);
    assert_eq!(&bytes[0..4], b"NERK");
    assert_eq!(&bytes[4..8], &[1, 0, 0, 0]);
    assert_eq!(&bytes[8..12], &[4, 3, 2, 1]);
    assert_eq!(&bytes[12..16], &[40, 0, 0, 0]);
    assert_eq!(&bytes[HEAD_OFFSET..HEAD_OFFSET + 4], &[0x11, 0, 0, 0]);
    assert_eq!(&bytes[20..24], &[0, 0, 0, 0]);
    assert_eq!(&bytes[TAIL_OFFSET..TAIL_OFFSET + 4], &[0x33, 0x22, 0, 0]);
    assert_eq!(bytes[FLAGS_OFFSET], 2);
    assert_eq!(&bytes[33..40], &[0u8; 7]);
    assert_eq!(SharedHeader::from_bytes(&bytes), header);
}

#[test]
fn header_from_longer_segment() {
    let mut segment = SharedHeader::init(128).to_bytes();
    segment.extend_from_slice(&[0xFFu8; 128]);
    let header = SharedHeader::from_bytes(&segment);
    assert_eq!(header, SharedHeader::init(128));
}

#[test]
fn flags_from_byte() {
    assert_eq!(ChannelFlags::from(0u8), ChannelFlags::Active);
    assert_eq!(ChannelFlags::from(1u8), ChannelFlags::WriterClosed);
    assert_eq!(ChannelFlags::from(2u8), ChannelFlags::ReaderClosed);
    assert_eq!(ChannelFlags::from(3u8), ChannelFlags::Closed);
    assert_eq!(ChannelFlags::from(200u8), ChannelFlags::Closed);
    for f in [
        ChannelFlags::Active,
        ChannelFlags::WriterClosed,
        ChannelFlags::ReaderClosed,
        ChannelFlags::Closed,
    ] {
        assert_eq!(ChannelFlags::from(f.as_u8()), f);
    }
}

#[test]
fn flags_close_transitions() {
    assert_eq!(ChannelFlags::Active.on_reader_close(), ChannelFlags::ReaderClosed);
    assert_eq!(ChannelFlags::WriterClosed.on_reader_close(), ChannelFlags::Closed);
    assert_eq!(ChannelFlags::ReaderClosed.on_reader_close(), ChannelFlags::Closed);
    assert_eq!(ChannelFlags::Closed.on_reader_close(), ChannelFlags::Closed);
    assert_eq!(ChannelFlags::ReaderClosed.on_writer_close(), ChannelFlags::WriterClosed);
    assert!(!ChannelFlags::Active.is_writer_closed());
    assert!(!ChannelFlags::ReaderClosed.is_writer_closed());
    assert!(ChannelFlags::WriterClosed.is_writer_closed());
    assert!(ChannelFlags::Closed.is_writer_closed());
    assert!(ChannelFlags::Active.on_writer_close().on_reader_close().is_writer_closed());
}

#[test]
fn shm_names() {
    assert_eq!(make_shm_name("my_channel"), "/kren_my_channel");
    assert_eq!(make_shm_name("/already"), "/already");
    assert_eq!(make_shm_name(""), "/kren_");
}

#[test]
fn windows_names() {
    let expected: Vec<u16> = "Local\\KREN_chan".encode_utf16().chain([0u16]).collect();
    assert_eq!(encode_name("chan"), expected);
    let wide: Vec<u16> = "Local\\KREN_é😀".encode_utf16().chain([0u16]).collect();
    assert_eq!(encode_name("é😀"), wide);
    assert_eq!(*encode_name("").last().unwrap(), 0);
    assert_eq!(encode_name("").len(), 12);
}

#[test]
fn capacity_checks() {
    assert!(matches!(checked_capacity(0), Err(KrenError::InvalidCapacity(0))));
    assert_eq!(checked_capacity(1).unwrap(), 1);
    assert_eq!(checked_capacity(4096).unwrap(), 4096);
    assert_eq!(checked_capacity(u32::MAX as usize).unwrap(), u32::MAX);
    let too_big = u32::MAX as usize + 1;
    assert!(matches!(checked_capacity(too_big), Err(KrenError::InvalidCapacity(v)) if v == too_big));
    assert_eq!(segment_size(1024), 1064);
}

#[test]
fn connect_checks_header() {
    let header = SharedHeader::init(512);
    assert_eq!(connect_capacity(&header).unwrap(), 512);
    let zero = SharedHeader::from_bytes(&[0u8; 40]);
    assert!(matches!(connect_capacity(&zero), Err(KrenError::InvalidMagic)));
}

#[test]
fn binding_error_classes() {
    let cases = vec![
        (KrenError::BufferFull { requested: 1, available: 0 }, PyErrorKind::IoError, NodeErrorStatus::GenericFailure),
        (KrenError::BufferEmpty, PyErrorKind::IoError, NodeErrorStatus::GenericFailure),
        (KrenError::DataTooLarge { size: 9, max: 4 }, PyErrorKind::ValueError, NodeErrorStatus::InvalidArg),
        (KrenError::InvalidCapacity(0), PyErrorKind::ValueError, NodeErrorStatus::InvalidArg),
        (KrenError::InvalidMagic, PyErrorKind::RuntimeError, NodeErrorStatus::GenericFailure),
        (KrenError::VersionMismatch { expected: 1, found: 2 }, PyErrorKind::RuntimeError, NodeErrorStatus::GenericFailure),
        (KrenError::ChannelClosed, PyErrorKind::IoError, NodeErrorStatus::GenericFailure),
        (KrenError::CreateFailed("x".to_string()), PyErrorKind::RuntimeError, NodeErrorStatus::GenericFailure),
        (KrenError::OpenFailed("x".to_string()), PyErrorKind::RuntimeError, NodeErrorStatus::GenericFailure),
        (KrenError::MapFailed("x".to_string()), PyErrorKind::RuntimeError, NodeErrorStatus::GenericFailure),
        (KrenError::Platform("x".to_string()), PyErrorKind::RuntimeError, NodeErrorStatus::GenericFailure),
    ];
    for (err, kind, status) in cases {
        assert_eq!(python_error_kind(&err), kind, "{:?}", err);
        assert_eq!(node_error_status(&err), status, "{:?}", err);
    }
}
