use socket::client::ReadWrite;
use socket::transfer::{IoFailure, ReadProgress};

#[test]
fn new_client_state_is_empty() {
    let rw = ReadWrite::new();
    assert!(rw.read_buf.is_empty());
    assert!(rw.write_buf.is_empty());
    assert!(!rw.done_read);
    assert!(!rw.done_write);
    assert_eq!(rw.written_bytes, 0);
}

#[test]
fn read_step_buffers_bytes_and_reports_close() {
    let mut rw = ReadWrite::new();
    assert_eq!(rw.read_step(Ok(&b"hello"[..])), ReadProgress::KeepReading);
    assert_eq!(rw.read_step(Ok(&b" world"[..])), ReadProgress::KeepReading);
    assert_eq!(rw.read_step(Ok(&[][..])), ReadProgress::Finished(true));
    assert_eq!(rw.read_buf, b"hello world".to_vec());
    assert_eq!(rw.written_bytes, 0);
}

#[test]
fn write_steps_walk_through_the_buffer() {
    let mut rw = ReadWrite::new();
    rw.write_buf = b"abcdef".to_vec();
    assert_eq!(rw.unwritten(), &b"abcdef"[..]);
    assert!(rw.write_step(Ok(2)));
    assert_eq!(rw.unwritten(), &b"cdef"[..]);
    assert!(rw.write_step(Ok(4)));
    assert_eq!(rw.unwritten(), &b""[..]);
    assert!(!rw.write_step(Ok(0)));
    assert_eq!(rw.written_bytes, 6);
}

#[test]
fn write_step_would_block_keeps_position() {
    let mut rw = ReadWrite::new();
    rw.write_buf = b"xyz".to_vec();
    assert!(rw.write_step(Ok(1)));
    assert!(!rw.write_step(Err(IoFailure::WouldBlock)));
    assert_eq!(rw.unwritten(), &b"yz"[..]);
}
