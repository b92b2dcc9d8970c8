use sardips::save::{
    build_save_request, read_save_blob, save_timer, FlushError, LoadedSave, ReadBuffer,
    WriteBuffer, SAVE_INTERVAL_SECS,
};
use sardips::timer::NANOS_PER_SEC;

#[test]
fn nothing_written_sends_nothing() {
    assert!(build_save_request(&[]).is_none());
}

#[test]
fn a_save_is_compressed_then_base64() {
    let data = b"hello hello hello hello hello".to_vec();
    let request = build_save_request(&data).unwrap();
    assert_eq!(request.name, "sardips_save");
    // A zlib stream starts with 0x78, which base64 writes as "e".
    assert!(request.save_blob.starts_with('e'));
    assert_eq!(request.save_blob.len() % 4, 0);
    assert_ne!(request.save_blob.as_bytes(), &data[..]);
}

#[test]
fn a_saved_blob_reads_back() {
    let data: Vec<u8> = (0..2000u32).map(|i| (i % 251) as u8).collect();
    let request = build_save_request(&data).unwrap();
    match read_save_blob(&request.save_blob) {
        LoadedSave::Loaded(bytes) => assert_eq!(bytes, data),
        other => panic!("unexpected {:?}", other),
    }
}

#[test]
fn an_empty_blob_is_no_save() {
    assert!(matches!(read_save_blob(""), LoadedSave::NoSave));
}

#[test]
fn a_broken_blob_is_corrupt() {
    assert!(matches!(read_save_blob("not base64!"), LoadedSave::Corrupt));
    // Valid base64, but not a zlib stream.
    assert!(matches!(read_save_blob("aGVsbG8="), LoadedSave::Corrupt));
}

#[test]
fn write_buffer_keeps_everything_and_refuses_flush() {
    let mut buffer = WriteBuffer::default();
    assert_eq!(buffer.flush(), Ok(()));
    assert_eq!(buffer.write(b"abc"), 3);
    assert_eq!(buffer.write(b"de"), 2);
    assert_eq!(buffer.buffer, b"abcde".to_vec());
    assert_eq!(buffer.flush(), Err(FlushError::BufferNotEmpty));
}

#[test]
fn read_buffer_hands_out_its_bytes_in_order() {
    let mut reader = ReadBuffer { buffer: b"abcdef".to_vec() };
    let mut buf = [0u8; 4];
    assert_eq!(reader.read(&mut buf), 4);
    assert_eq!(&buf, b"abcd");
    let mut buf = [9u8; 4];
    assert_eq!(reader.read(&mut buf), 2);
    assert_eq!(&buf, &[b'e', b'f', 9, 9]);
    assert_eq!(reader.read(&mut buf), 0);
}

#[test]
fn saves_happen_every_five_seconds() {
    let t = save_timer();
    assert_eq!(t.duration, SAVE_INTERVAL_SECS * NANOS_PER_SEC);
    assert_eq!(t.duration, 5_000_000_000);
    assert_eq!(t.elapsed, 0);
}
