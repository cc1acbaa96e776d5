use socket::server::Target;
use socket::ws_server::{client_action, ClientAction, WebsocketServer, LISTENER_TOKEN, MAX_HANGS};

#[test]
fn tokens_count_up_from_one() {
    let mut s = WebsocketServer::new();
    assert_eq!(s.counter, 0);
    assert!(s.clients.is_empty());
    assert_eq!(s.next_token(), 1);
    assert_eq!(s.next_token(), 2);
    assert_eq!(s.next_token(), 3);
    assert_eq!(s.counter, 3);
    assert_eq!(s.clients, vec![1, 2, 3]);
}

#[test]
fn disconnected_client_is_forgotten_and_tokens_not_reused() {
    let mut s = WebsocketServer::new();
    s.next_token();
    s.next_token();
    s.next_token();
    s.disconnect(2);
    assert_eq!(s.clients, vec![1, 3]);
    assert_eq!(s.counter, 3);
    assert_eq!(s.next_token(), 4);
    s.disconnect(1);
    s.disconnect(4);
    assert_eq!(s.clients, vec![3]);
}

#[test]
fn listener_token_is_zero_and_routes_to_listener() {
    let s = WebsocketServer::new();
    assert_eq!(LISTENER_TOKEN, 0);
    assert_eq!(s.route(0), Target::Listener);
    assert_eq!(s.route(4), Target::Client(4));
}

#[test]
fn hung_clients_are_disconnected() {
    assert_eq!(MAX_HANGS, 3);
    assert_eq!(client_action(4, true, true), ClientAction::Disconnect);
    assert_eq!(client_action(3, false, false), ClientAction::Wait);
}

#[test]
fn writable_comes_before_readable() {
    assert_eq!(client_action(0, true, true), ClientAction::Write);
    assert_eq!(client_action(1, false, true), ClientAction::Write);
    assert_eq!(client_action(3, true, false), ClientAction::Read);
    assert_eq!(client_action(0, false, false), ClientAction::Wait);
}
