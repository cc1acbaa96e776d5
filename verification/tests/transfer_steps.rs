use socket::transfer::{absorb_read, absorb_write, IoFailure, ReadProgress};

#[test]
fn read_appends_chunk_and_continues() {
    let mut buf = vec![1u8, 2];
    let p = absorb_read(&mut buf, Ok(&[3u8, 4][..]));
    assert_eq!(p, ReadProgress::KeepReading);
    assert_eq!(buf, vec![1, 2, 3, 4]);
}

#[test]
fn successive_reads_concatenate_in_order() {
    let mut buf = Vec::new();
    assert_eq!(absorb_read(&mut buf, Ok(&b"GET / "[..])), ReadProgress::KeepReading);
    assert_eq!(absorb_read(&mut buf, Ok(&b"HTTP/1.1"[..])), ReadProgress::KeepReading);
    assert_eq!(absorb_read(&mut buf, Err(IoFailure::WouldBlock)), ReadProgress::Finished(false));
    assert_eq!(buf, b"GET / HTTP/1.1".to_vec());
}

#[test]
fn empty_read_means_closed() {
    let mut buf = vec![9u8];
    assert_eq!(absorb_read(&mut buf, Ok(&[][..])), ReadProgress::Finished(true));
    assert_eq!(buf, vec![9]);
}

#[test]
fn read_would_block_stops_without_close() {
    let mut buf = vec![9u8];
    assert_eq!(absorb_read(&mut buf, Err(IoFailure::WouldBlock)), ReadProgress::Finished(false));
    assert_eq!(buf, vec![9]);
}

#[test]
fn read_error_stops_without_close() {
    let mut buf = Vec::new();
    assert_eq!(absorb_read(&mut buf, Err(IoFailure::Other)), ReadProgress::Finished(false));
    assert!(buf.is_empty());
}

#[test]
fn write_counts_accepted_bytes() {
    let mut written = 2usize;
    assert!(absorb_write(&mut written, 10, Ok(5)));
    assert_eq!(written, 7);
    assert!(absorb_write(&mut written, 10, Ok(3)));
    assert_eq!(written, 10);
}

#[test]
fn write_of_zero_bytes_stops() {
    let mut written = 4usize;
    assert!(!absorb_write(&mut written, 10, Ok(0)));
    assert_eq!(written, 4);
}

#[test]
fn write_failures_stop_without_counting() {
    let mut written = 1usize;
    assert!(!absorb_write(&mut written, 3, Err(IoFailure::WouldBlock)));
    assert!(!absorb_write(&mut written, 3, Err(IoFailure::Other)));
    assert_eq!(written, 1);
}
