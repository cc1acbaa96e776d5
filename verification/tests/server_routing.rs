use socket::client::ReadWrite;
use socket::server::{handle_readable, route, ClientOutcome, Target, SERVER_TOKEN};

#[test]
fn server_token_is_one_below_max() {
    assert_eq!(SERVER_TOKEN, usize::MAX - 1);
}

#[test]
fn listener_token_routes_to_listener() {
    assert_eq!(route(SERVER_TOKEN), Target::Listener);
}

#[test]
fn other_tokens_route_to_clients() {
    assert_eq!(route(0), Target::Client(0));
    assert_eq!(route(17), Target::Client(17));
    assert_eq!(route(usize::MAX), Target::Client(usize::MAX));
}

#[test]
fn closed_stream_is_reported_and_buffer_kept() {
    let mut rw = ReadWrite::new();
    rw.read_buf = b"partial".to_vec();
    match handle_readable(&mut rw, true) {
        ClientOutcome::Closed => {}
        ClientOutcome::Message(_) => panic!("expected a close"),
    }
    assert_eq!(rw.read_buf, b"partial".to_vec());
}

#[test]
fn message_is_everything_read_and_buffer_is_emptied() {
    let mut rw = ReadWrite::new();
    rw.read_step(Ok(&b"ping "[..]));
    rw.read_step(Ok(&b"pong"[..]));
    match handle_readable(&mut rw, false) {
        ClientOutcome::Message(m) => assert_eq!(m, b"ping pong".to_vec()),
        ClientOutcome::Closed => panic!("expected a message"),
    }
    assert!(rw.read_buf.is_empty());
    match handle_readable(&mut rw, false) {
        ClientOutcome::Message(m) => assert!(m.is_empty()),
        ClientOutcome::Closed => panic!("expected a message"),
    }
}
