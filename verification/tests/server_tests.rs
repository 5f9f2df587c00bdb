use chattery::reader::PayloadSignal;
use chattery::server::{broadcast_line, Server};

fn addr(s: &str) -> Vec<u8> {
    s.as_bytes().to_vec()
}

#[test]
fn admission_refused_at_capacity() {
    let mut server = Server::new().max_clients(2);
    assert!(server.on_accept(addr("10.0.0.1:1")));
    assert!(server.on_accept(addr("10.0.0.2:2")));
    // the third concurrent attempt is refused and the first two are untouched
    assert!(!server.on_accept(addr("10.0.0.3:3")));
    assert_eq!(server.client_count(), 2);
    assert!(server.is_connected(&addr("10.0.0.1:1")));
    assert!(server.is_connected(&addr("10.0.0.2:2")));
    assert!(!server.is_connected(&addr("10.0.0.3:3")));
}

#[test]
fn tracked_identity_is_admitted_at_capacity() {
    let mut server = Server::new().max_clients(1);
    assert!(server.on_accept(addr("10.0.0.1:1")));
    assert!(server.on_accept(addr("10.0.0.1:1")));
    assert_eq!(server.client_count(), 1);
}

#[test]
fn default_capacity_is_one() {
    let mut server = Server::new();
    assert!(server.on_accept(addr("a")));
    assert!(!server.on_accept(addr("b")));
}

#[test]
fn changing_capacity_rebuilds_registry() {
    let mut server = Server::new().max_clients(2);
    assert!(server.on_accept(addr("a")));
    let server2 = server.max_clients(2);
    assert_eq!(server2.client_count(), 1);
    let server3 = server2.max_clients(3);
    assert_eq!(server3.client_count(), 0);
}

#[test]
fn broadcast_goes_to_everyone_else() {
    let mut server = Server::new().max_clients(3);
    assert!(server.on_accept(addr("a")));
    assert!(server.on_accept(addr("b")));
    assert!(server.on_accept(addr("c")));
    let action = server
        .on_payload(addr("a"), PayloadSignal::MessageSignal, Some(b"hello".to_vec()))
        .expect("broadcast expected");
    assert_eq!(action.line, b"a -> hello\r\n".to_vec());
    assert_eq!(action.targets, vec![addr("b"), addr("c")]);
    // the sender still counts as connected: message events change no state
    assert_eq!(server.client_count(), 3);
}

#[test]
fn message_signal_without_text_is_ignored() {
    let mut server = Server::new().max_clients(2);
    assert!(server.on_accept(addr("a")));
    assert!(server.on_payload(addr("a"), PayloadSignal::MessageSignal, None).is_none());
    assert_eq!(server.client_count(), 1);
}

#[test]
fn interrupt_removes_and_stops_broadcasts_to_it() {
    let mut server = Server::new().max_clients(2);
    assert!(server.on_accept(addr("a")));
    assert!(server.on_accept(addr("b")));
    assert!(server.on_payload(addr("a"), PayloadSignal::InterruptSignal, None).is_none());
    assert!(!server.is_connected(&addr("a")));
    assert_eq!(server.client_count(), 1);
    let action = server
        .on_payload(addr("b"), PayloadSignal::MessageSignal, Some(b"x".to_vec()))
        .expect("broadcast expected");
    assert!(!action.targets.contains(&addr("a")));
    assert!(action.targets.is_empty());
}

#[test]
fn duplicate_interrupt_is_noop() {
    let mut server = Server::new().max_clients(2);
    assert!(server.on_accept(addr("a")));
    assert!(server.on_accept(addr("b")));
    assert!(server.on_payload(addr("a"), PayloadSignal::InterruptSignal, None).is_none());
    assert!(server.on_payload(addr("a"), PayloadSignal::InterruptSignal, None).is_none());
    assert_eq!(server.client_count(), 1);
    assert!(server.is_connected(&addr("b")));
}

#[test]
fn relay_order_preserved_per_sender() {
    let mut server = Server::new().max_clients(3);
    assert!(server.on_accept(addr("a")));
    assert!(server.on_accept(addr("b")));
    assert!(server.on_accept(addr("c")));
    let mut received_by_b: Vec<Vec<u8>> = Vec::new();
    for text in [b"one".to_vec(), b"two".to_vec(), b"three".to_vec()] {
        let action = server
            .on_payload(addr("a"), PayloadSignal::MessageSignal, Some(text))
            .expect("broadcast expected");
        assert!(!action.targets.contains(&addr("a")));
        if action.targets.contains(&addr("b")) {
            received_by_b.push(action.line.clone());
        }
    }
    assert_eq!(
        received_by_b,
        vec![
            b"a -> one\r\n".to_vec(),
            b"a -> two\r\n".to_vec(),
            b"a -> three\r\n".to_vec(),
        ]
    );
}

#[test]
fn full_session_scenario() {
    // capacity two; A and B connect; A says hello; B alone receives it;
    // A disconnects; only B is left, so C can now be admitted
    let a = addr("127.0.0.1:40001");
    let b = addr("127.0.0.1:40002");
    let c = addr("127.0.0.1:40003");
    let mut server = Server::new().max_clients(2).max_acceptable_buffer(256);
    assert!(server.on_accept(a.clone()));
    assert!(server.on_accept(b.clone()));
    let action = server
        .on_payload(a.clone(), PayloadSignal::MessageSignal, Some(b"hello".to_vec()))
        .expect("broadcast expected");
    assert_eq!(action.line, b"127.0.0.1:40001 -> hello\r\n".to_vec());
    assert_eq!(action.targets, vec![b.clone()]);
    assert!(server.on_payload(a.clone(), PayloadSignal::InterruptSignal, None).is_none());
    assert_eq!(server.client_count(), 1);
    assert!(server.is_connected(&b));
    assert!(!server.is_connected(&a));
    assert!(server.on_accept(c.clone()));
    assert!(server.is_connected(&c));
}

#[test]
fn broadcast_line_format() {
    let line = broadcast_line(&b"9.9.9.9:9".to_vec(), &b"hi there".to_vec());
    assert_eq!(line, b"9.9.9.9:9 -> hi there\r\n".to_vec());
}
