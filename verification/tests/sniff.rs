use procy::buffered_conn::BufferedReader;
use procy::buffered_conn::MemSource;

#[test]
fn test_sniff_buffer_read() {
    let test_data = b"Hello, World!";
    let cursor = MemSource::new(test_data.to_vec());
    let mut sniff_buffer = BufferedReader::new(cursor);

    // Test reading without sniffing
    let mut buf = vec![0u8; 5];
    assert_eq!(sniff_buffer.read(&mut buf).unwrap(), 5);
    assert_eq!(&buf[..], b"Hello");

    // Enable sniffing and read more
    let mut buf = vec![0u8; 8];
    sniff_buffer.reset(true);
    assert_eq!(sniff_buffer.read(&mut buf).unwrap(), 8);
    assert_eq!(&buf[..], b", World!");

    // Sniff done
    sniff_buffer.reset(false);

    // Read buffer data
    let mut buf = vec![0u8; 8];
    assert_eq!(sniff_buffer.read(&mut buf).unwrap(), 8);
    assert_eq!(sniff_buffer.buffer, b", World!");
}

#[test]
fn sniff_passthrough_keeps_buffer_empty() {
    let mut r = BufferedReader::new(MemSource::new(b"abcdef".to_vec()));
    let mut buf = vec![0u8; 4];
    assert_eq!(r.read(&mut buf).unwrap(), 4);
    assert_eq!(&buf[..], b"abcd");
    assert!(r.buffer.is_empty());
    assert!(!r.sniffing);
}

#[test]
fn sniff_short_source_read() {
    let mut r = BufferedReader::new(MemSource::new(b"xy".to_vec()));
    let mut buf = vec![0u8; 10];
    assert_eq!(r.read(&mut buf).unwrap(), 2);
    assert_eq!(&buf[..2], b"xy");
    // The source is drained: the next read returns zero bytes.
    assert_eq!(r.read(&mut buf).unwrap(), 0);
}

#[test]
fn sniff_reset_re_exposes_whole_buffer() {
    let mut r = BufferedReader::new(MemSource::new(b"abcdef".to_vec()));
    r.reset(true);
    let mut buf = vec![0u8; 3];
    assert_eq!(r.read(&mut buf).unwrap(), 3);
    assert_eq!(&buf[..], b"abc");
    assert_eq!(r.buffer, b"abc");

    // Replay, but only partially.
    r.reset(false);
    let mut one = vec![0u8; 1];
    assert_eq!(r.read(&mut one).unwrap(), 1);
    assert_eq!(&one[..], b"a");

    // A reset resets the cursor to the start: the whole captured buffer
    // is replayed again, not just its unread tail.
    r.reset(false);
    let mut buf = vec![0u8; 3];
    assert_eq!(r.read(&mut buf).unwrap(), 3);
    assert_eq!(&buf[..], b"abc");

    // The replayed buffer is now consumed; the next read falls through
    // to the source and clears the buffer.
    let mut rest = vec![0u8; 3];
    assert_eq!(r.read(&mut rest).unwrap(), 3);
    assert_eq!(&rest[..], b"def");
    assert!(r.buffer.is_empty());
}

#[test]
fn sniff_replay_served_before_capture() {
    let mut r = BufferedReader::new(MemSource::new(b"abcd".to_vec()));
    r.reset(true);
    let mut buf = vec![0u8; 2];
    assert_eq!(r.read(&mut buf).unwrap(), 2);
    assert_eq!(&buf[..], b"ab");

    // Back to capture mode while replay data exists: the unread replay
    // data drains first, regardless of the sniffing flag.
    r.reset(true);
    let mut buf = vec![0u8; 2];
    assert_eq!(r.read(&mut buf).unwrap(), 2);
    assert_eq!(&buf[..], b"ab");
    assert_eq!(r.buffer, b"ab");
}

#[test]
fn sniff_empty_destination_reads_nothing() {
    let mut r = BufferedReader::new(MemSource::new(b"abc".to_vec()));
    let mut buf: Vec<u8> = Vec::new();
    assert_eq!(r.read(&mut buf).unwrap(), 0);
}
