use chat_host::event_loop::{
    on_accept, on_read, on_ready, AcceptAction, AcceptOutcome, ReadAction, ReadOutcome, Task,
    EVENT_CAPACITY, LISTEN_PORT,
};
use chat_host::identity::IdentityCounter;
use chat_host::server::{SendError, Server};
use std::cell::RefCell;
use std::rc::Rc;

/// Stands for a socket: what is written to it can be read back by the test.
#[derive(Clone, Debug, PartialEq)]
struct Peer {
    received: Rc<RefCell<Vec<u8>>>,
}

impl Peer {
    fn new() -> Peer {
        Peer { received: Rc::new(RefCell::new(Vec::new())) }
    }

    fn write_all(&self, bytes: &[u8]) -> bool {
        self.received.borrow_mut().extend_from_slice(bytes);
        true
    }
}

fn log_of(log: &[&str]) -> Vec<String> {
    log.iter().map(|t| t.to_string()).collect()
}

#[test]
fn listens_on_port_13265() {
    assert_eq!(LISTEN_PORT, 13265);
    assert_eq!(EVENT_CAPACITY, 128);
}

#[test]
fn accepted_connections_get_increasing_identities() {
    let mut identities = IdentityCounter::new();
    assert_eq!(on_accept(&mut identities, AcceptOutcome::Accepted), AcceptAction::Admit(1));
    assert_eq!(on_accept(&mut identities, AcceptOutcome::Accepted), AcceptAction::Admit(2));
    assert_eq!(on_accept(&mut identities, AcceptOutcome::Accepted), AcceptAction::Admit(3));
}

#[test]
fn accept_that_would_block_ends_the_drain() {
    let mut identities = IdentityCounter::new();
    assert_eq!(on_accept(&mut identities, AcceptOutcome::WouldBlock), AcceptAction::Done);
    assert_eq!(on_accept(&mut identities, AcceptOutcome::Accepted), AcceptAction::Admit(1));
}

#[test]
fn failed_accept_is_reported_and_takes_no_identity() {
    let mut identities = IdentityCounter::new();
    assert_eq!(on_accept(&mut identities, AcceptOutcome::Accepted), AcceptAction::Admit(1));
    assert_eq!(on_accept(&mut identities, AcceptOutcome::Failed), AcceptAction::Report);
    assert_eq!(on_accept(&mut identities, AcceptOutcome::WouldBlock), AcceptAction::Done);
    assert_eq!(on_accept(&mut identities, AcceptOutcome::Accepted), AcceptAction::Admit(2));
}

#[test]
fn identities_are_not_reused_after_a_close() {
    let mut identities = IdentityCounter::new();
    let mut server: Server<u32> = Server::new();
    assert_eq!(on_accept(&mut identities, AcceptOutcome::Accepted), AcceptAction::Admit(1));
    server.insert(1, 0);
    assert!(matches!(
        on_read(&mut server, 1, ReadOutcome::Received(Vec::new())),
        ReadAction::Closed(0)
    ));
    assert_eq!(on_accept(&mut identities, AcceptOutcome::Accepted), AcceptAction::Admit(2));
    server.insert(2, 0);
    assert_eq!(server.ids(), vec![2]);
}

#[test]
fn read_of_text_is_recorded() {
    let mut server: Server<u32> = Server::new();
    server.insert(1, 0);
    let action = on_read(&mut server, 1, ReadOutcome::Received(b"hi".to_vec()));
    assert!(matches!(action, ReadAction::Recorded));
    assert_eq!(server.get_messages(1), Some(log_of(&["hi"])));
}

#[test]
fn read_of_a_padded_buffer_is_recorded_without_the_padding() {
    let mut server: Server<u32> = Server::new();
    server.insert(1, 0);
    let mut buffer = vec![0u8; 512];
    buffer[..5].copy_from_slice(b"hello");
    assert!(matches!(on_read(&mut server, 1, ReadOutcome::Received(buffer)), ReadAction::Recorded));
    assert_eq!(server.get_messages(1), Some(log_of(&["hello"])));
}

#[test]
fn each_read_is_one_entry() {
    let mut server: Server<u32> = Server::new();
    server.insert(1, 0);
    on_read(&mut server, 1, ReadOutcome::Received(b"one\ntwo".to_vec()));
    on_read(&mut server, 1, ReadOutcome::Received(b"thr".to_vec()));
    on_read(&mut server, 1, ReadOutcome::Received(b"ee".to_vec()));
    assert_eq!(server.get_messages(1), Some(log_of(&["one\ntwo", "thr", "ee"])));
}

#[test]
fn read_of_padding_alone_records_an_empty_entry() {
    let mut server: Server<u32> = Server::new();
    server.insert(1, 0);
    assert!(matches!(
        on_read(&mut server, 1, ReadOutcome::Received(vec![0, 0, 0])),
        ReadAction::Recorded
    ));
    assert_eq!(server.get_messages(1), Some(log_of(&[""])));
}

#[test]
fn read_without_bytes_closes_the_connection() {
    let mut server: Server<u32> = Server::new();
    server.insert(1, 41);
    server.insert(2, 42);
    let action = on_read(&mut server, 1, ReadOutcome::Received(Vec::new()));
    assert!(matches!(action, ReadAction::Closed(41)));
    assert!(!server.contains(1));
    assert!(server.contains(2));
    assert_eq!(server.number_of_connections(), 1);
}

#[test]
fn failed_read_closes_the_connection() {
    let mut server: Server<u32> = Server::new();
    server.insert(1, 41);
    server.record_inbound(1, "before".to_string());
    let action = on_read(&mut server, 1, ReadOutcome::Failed);
    assert!(matches!(action, ReadAction::Closed(41)));
    assert_eq!(server.get_messages(1), None);
    assert_eq!(server.number_of_connections(), 0);
}

#[test]
fn read_that_would_block_changes_nothing() {
    let mut server: Server<u32> = Server::new();
    server.insert(1, 41);
    server.record_inbound(1, "before".to_string());
    assert!(matches!(on_read(&mut server, 1, ReadOutcome::WouldBlock), ReadAction::Idle));
    assert_eq!(server.get_messages(1), Some(log_of(&["before"])));
    assert_eq!(server.socket(1), Some(&41));
}

#[test]
fn read_for_an_unknown_identity_changes_nothing() {
    let mut server: Server<u32> = Server::new();
    server.insert(1, 41);
    assert!(matches!(
        on_read(&mut server, 7, ReadOutcome::Received(b"hi".to_vec())),
        ReadAction::Unknown
    ));
    assert!(matches!(on_read(&mut server, 7, ReadOutcome::Failed), ReadAction::Unknown));
    assert!(matches!(
        on_read(&mut server, 7, ReadOutcome::Received(Vec::new())),
        ReadAction::Unknown
    ));
    assert!(matches!(on_read(&mut server, 7, ReadOutcome::WouldBlock), ReadAction::Unknown));
    assert_eq!(server.ids(), vec![1]);
    assert_eq!(server.get_messages(1), Some(Vec::new()));
    assert_eq!(server.get_messages(7), None);
}

#[test]
fn malformed_bytes_are_dropped_and_the_connection_stays() {
    let mut server: Server<u32> = Server::new();
    server.insert(1, 41);
    on_read(&mut server, 1, ReadOutcome::Received(b"hi".to_vec()));
    let action = on_read(&mut server, 1, ReadOutcome::Received(vec![0xff, 0xfe, 0xfd]));
    assert!(matches!(action, ReadAction::Discarded));
    assert!(server.contains(1));
    assert_eq!(server.socket(1), Some(&41));
    assert_eq!(server.number_of_connections(), 1);
    assert_eq!(server.get_messages(1), Some(log_of(&["hi"])));
    let action = on_read(&mut server, 1, ReadOutcome::Received(b"still here".to_vec()));
    assert!(matches!(action, ReadAction::Recorded));
    assert_eq!(server.get_messages(1), Some(log_of(&["hi", "still here"])));
}

#[test]
fn one_client_connects_talks_and_leaves() {
    let mut identities = IdentityCounter::new();
    let mut server: Server<Peer> = Server::new();
    let client = Peer::new();

    let id = match on_accept(&mut identities, AcceptOutcome::Accepted) {
        AcceptAction::Admit(id) => id,
        other => panic!("the connection was not admitted: {:?}", other),
    };
    assert_eq!(id, 1);
    server.insert(id, client.clone());
    assert_eq!(on_accept(&mut identities, AcceptOutcome::WouldBlock), AcceptAction::Done);

    assert!(matches!(
        on_read(&mut server, 1, ReadOutcome::Received(b"hi".to_vec())),
        ReadAction::Recorded
    ));
    assert_eq!(server.get_messages(1), Some(log_of(&["hi"])));

    let written = match server.socket(1) {
        Some(socket) => socket.write_all("hello".as_bytes()),
        None => false,
    };
    assert_eq!(server.send_message(1, "hello", written), Ok(()));
    assert_eq!(server.get_messages(1), Some(log_of(&["hi", "hello"])));
    assert_eq!(client.received.borrow().as_slice(), b"hello");

    let before = server.number_of_connections();
    let action = on_read(&mut server, 1, ReadOutcome::Received(Vec::new()));
    assert!(matches!(action, ReadAction::Closed(socket) if socket == client));
    assert_eq!(server.number_of_connections(), before - 1);
    assert!(!server.ids().contains(&1));
    assert_eq!(server.send_message(1, "too late", true), Err(SendError::UnknownConnection));
}

#[test]
fn two_clients_get_distinct_identities() {
    let mut identities = IdentityCounter::new();
    let mut server: Server<Peer> = Server::new();
    let mut admitted: Vec<usize> = Vec::new();
    for _ in 0..2 {
        match on_accept(&mut identities, AcceptOutcome::Accepted) {
            AcceptAction::Admit(id) => {
                server.insert(id, Peer::new());
                admitted.push(id);
            }
            other => panic!("the connection was not admitted: {:?}", other),
        }
    }
    assert_eq!(admitted, vec![1, 2]);
    assert_ne!(admitted[0], admitted[1]);
    assert_eq!(server.number_of_connections(), 2);
    assert_eq!(server.sorted_ids(), vec![1, 2]);
    assert!(server.ids().contains(&1));
    assert!(server.ids().contains(&2));
}

#[test]
fn an_error_on_one_connection_leaves_the_others() {
    let mut server: Server<u32> = Server::new();
    server.insert(1, 0);
    server.insert(2, 0);
    server.insert(3, 0);
    server.record_inbound(2, "two".to_string());
    server.record_inbound(3, "three".to_string());
    on_read(&mut server, 1, ReadOutcome::Failed);
    on_read(&mut server, 2, ReadOutcome::Received(vec![0x80]));
    assert_eq!(server.send_message(3, "x", false), Err(SendError::TransportError));
    assert_eq!(server.sorted_ids(), vec![2]);
    assert_eq!(server.get_messages(2), Some(log_of(&["two"])));
}

#[test]
fn readiness_of_the_listener_asks_for_accepts() {
    assert_eq!(on_ready(0, true), Task::Accept);
    assert_eq!(on_ready(0, false), Task::Accept);
}

#[test]
fn readiness_of_a_connection_asks_for_a_read() {
    assert_eq!(on_ready(1, true), Task::Read(1));
    assert_eq!(on_ready(42, true), Task::Read(42));
    assert_eq!(on_ready(usize::MAX, true), Task::Read(usize::MAX));
}

#[test]
fn an_event_that_is_not_readable_is_skipped() {
    assert_eq!(on_ready(1, false), Task::Skip);
    assert_eq!(on_ready(42, false), Task::Skip);
}
