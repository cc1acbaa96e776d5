use socket::echo::{echo_response, request_complete, WebSocket, ECHO_LISTENER_TOKEN};
use socket::server::{route_token, Target};
use socket::transfer::{IoFailure, ReadProgress};

const HEAD: &[u8] = b"HTTP/1.1 200 OK\r\nServer: HttpMio\r\n\r\n";

#[test]
fn request_ending_in_blank_line_is_complete() {
    assert!(request_complete(b"GET / HTTP/1.1\r\nHost: x\r\n\r\n"));
    assert!(request_complete(b"\r\n\r\n"));
}

#[test]
fn short_or_unterminated_requests_are_incomplete() {
    assert!(!request_complete(b""));
    assert!(!request_complete(b"\n\r\n"));
    assert!(!request_complete(b"GET / HTTP/1.1\r\n"));
    assert!(!request_complete(b"GET / HTTP/1.1\r\n\r\nbody"));
    assert!(!request_complete(b"a\n\n\r\n"));
}

#[test]
fn echo_response_is_head_then_request() {
    let r = echo_response(b"GET /\r\n\r\n");
    let mut expected = HEAD.to_vec();
    expected.extend_from_slice(b"GET /\r\n\r\n");
    assert_eq!(r, expected);
    assert_eq!(echo_response(b""), HEAD.to_vec());
}

#[test]
fn new_client_and_continued_stream() {
    let s = WebSocket::new_client();
    assert!(s.read_buf.is_empty() && s.write_buf.is_empty());
    assert!(!s.done_read);
    assert_eq!(s.bytes_written, 0);
    let t = WebSocket::continued_stream(vec![1], true, vec![2, 3], 1);
    assert_eq!(t.read_buf, vec![1]);
    assert!(t.done_read);
    assert_eq!(t.write_buf, vec![2, 3]);
    assert_eq!(t.bytes_written, 1);
}

#[test]
fn full_echo_exchange() {
    let mut s = WebSocket::new_client();
    assert_eq!(s.read_step(Ok(&b"GET / HTTP/1.1\r\n"[..])), ReadProgress::KeepReading);
    assert_eq!(s.read_step(Err(IoFailure::WouldBlock)), ReadProgress::Finished(false));
    assert!(!s.finish_read());
    assert!(!s.done_read);
    assert!(!s.may_write(true));
    assert!(s.stays_open(false, false));
    assert_eq!(s.read_step(Ok(&b"\r\n"[..])), ReadProgress::KeepReading);
    assert!(s.finish_read());
    assert!(s.done_read);
    assert!(s.may_write(true));
    assert!(!s.may_write(false));
    s.begin_response();
    let mut expected = HEAD.to_vec();
    expected.extend_from_slice(b"GET / HTTP/1.1\r\n\r\n");
    assert_eq!(s.unwritten(), &expected[..]);
    assert!(s.write_step(Ok(10)));
    assert!(!s.write_complete());
    assert!(s.stays_open(false, true));
    assert_eq!(s.unwritten(), &expected[10..]);
    let rest = s.unwritten().len();
    assert!(s.write_step(Ok(rest)));
    assert!(!s.write_step(Ok(0)));
    assert!(s.write_complete());
    assert!(!s.stays_open(false, true));
    assert!(!s.stays_open(true, false));
}

#[test]
fn prepared_response_is_not_rebuilt() {
    let mut s = WebSocket::continued_stream(b"new\r\n\r\n".to_vec(), true, b"old".to_vec(), 1);
    s.begin_response();
    assert_eq!(s.write_buf, b"old".to_vec());
    assert_eq!(s.unwritten(), &b"ld"[..]);
}

#[test]
fn done_read_stays_set() {
    let mut s = WebSocket::continued_stream(b"x".to_vec(), true, Vec::new(), 0);
    assert!(!s.finish_read());
    assert!(s.done_read);
}

#[test]
fn closed_read_is_reported() {
    let mut s = WebSocket::new_client();
    assert_eq!(s.read_step(Ok(&[][..])), ReadProgress::Finished(true));
    assert_eq!(s.read_step(Err(IoFailure::Other)), ReadProgress::Finished(false));
}

#[test]
fn echo_listener_token_routes_to_listener() {
    assert_eq!(route_token(ECHO_LISTENER_TOKEN, 100000), Target::Listener);
    assert_eq!(route_token(ECHO_LISTENER_TOKEN, 0), Target::Client(0));
}

#[test]
fn closed_stream_is_dropped() {
    let s = WebSocket::new_client();
    assert!(!s.stays_open(true, false));
    assert!(!s.stays_open(true, true));
    assert!(s.stays_open(false, false));
}
