use chatey::{
    decode, ChatMessage, HandleError, HandleResult, Inbound, Registry, Session, SessionError,
    SessionPhase,
};
use tokio::sync::mpsc::{unbounded_channel, UnboundedReceiver};

fn drain(rx: &mut UnboundedReceiver<ChatMessage>) -> Vec<(String, String)> {
    let mut out = Vec::new();
    while let Ok(m) = rx.try_recv() {
        out.push((m.get_username(), m.get_message()));
    }
    out
}

fn text(s: &str) -> Inbound {
    Inbound::Text(s.to_string())
}

fn join(reg: &mut Registry, id: u64, name: &str) -> (Session, UnboundedReceiver<ChatMessage>) {
    let (tx, rx) = unbounded_channel();
    let mut s = Session::new(id, tx);
    assert_eq!(s.handle_received_from_client(reg, text(name), 10), Ok(HandleResult::ResponseSuccessful));
    (s, rx)
}

#[test]
fn three_peers_chat_and_one_leaves() {
    let mut reg = Registry::new();
    let (mut alice, mut rx_a) = join(&mut reg, 1, "Alice");
    let (mut bob, mut rx_b) = join(&mut reg, 2, "Bob");
    let (_carol, mut rx_c) = join(&mut reg, 3, "Carol");
    assert_eq!(reg.len(), 3);
    assert_eq!(
        drain(&mut rx_a),
        vec![
            ("SYSTEM".to_string(), "Bob has entered the channel".to_string()),
            ("SYSTEM".to_string(), "Carol has entered the channel".to_string()),
        ]
    );
    assert_eq!(drain(&mut rx_b), vec![("SYSTEM".to_string(), "Carol has entered the channel".to_string())]);
    assert!(drain(&mut rx_c).is_empty());

    assert_eq!(alice.handle_received_from_client(&mut reg, text("hi"), 20), Ok(HandleResult::ResponseSuccessful));
    assert_eq!(drain(&mut rx_b), vec![("Alice".to_string(), "hi".to_string())]);
    assert_eq!(drain(&mut rx_c), vec![("Alice".to_string(), "hi".to_string())]);
    assert!(drain(&mut rx_a).is_empty());

    assert_eq!(bob.handle_received_from_client(&mut reg, Inbound::Ended, 30), Err(HandleError::ConnectionDropped));
    assert_eq!(bob.outcome(), Some(SessionError::PeerDisconnected));
    assert_eq!(reg.len(), 2);
    assert_eq!(reg.peer_ids(), vec![1, 3]);
    let leave = vec![("SYSTEM".to_string(), "Bob has exited the channel".to_string())];
    assert_eq!(drain(&mut rx_a), leave);
    assert_eq!(drain(&mut rx_c), leave);
    assert!(drain(&mut rx_b).is_empty());
    alice.connection_lost(&mut reg, 40);
    assert_eq!(reg.peer_ids(), vec![3]);
}

#[test]
fn a_connection_that_leaves_before_its_name_is_never_seen() {
    let mut reg = Registry::new();
    let (_alice, mut rx_a) = join(&mut reg, 1, "Alice");
    let (tx, _rx) = unbounded_channel();
    let mut ghost = Session::new(2, tx);
    assert_eq!(ghost.handle_received_from_client(&mut reg, Inbound::Ended, 5), Err(HandleError::ConnectionDropped));
    assert_eq!(ghost.outcome(), Some(SessionError::HandshakeFailed));
    assert_eq!(reg.peer_ids(), vec![1]);
    let ids: Vec<u64> = reg.snapshot_targets(1).into_iter().map(|(id, _)| id).collect();
    assert!(ids.is_empty());
    assert!(drain(&mut rx_a).is_empty());

    let (tx, _rx) = unbounded_channel();
    let mut garbled = Session::new(3, tx);
    assert_eq!(garbled.handle_received_from_client(&mut reg, Inbound::Unreadable, 5), Err(HandleError::ConnectionDropped));
    assert_eq!(garbled.current_phase(), SessionPhase::Closed(SessionError::HandshakeFailed));
    assert_eq!(reg.peer_ids(), vec![1]);
    assert!(drain(&mut rx_a).is_empty());

    let (tx, _rx) = unbounded_channel();
    let mut cut = Session::new(4, tx);
    cut.connection_lost(&mut reg, 6);
    assert_eq!(cut.outcome(), Some(SessionError::HandshakeFailed));
    assert_eq!(reg.peer_ids(), vec![1]);
    assert!(drain(&mut rx_a).is_empty());
}

#[test]
fn a_duplicate_id_fails_the_handshake() {
    let mut reg = Registry::new();
    let (_first, _rx1) = join(&mut reg, 1, "One");
    let (tx, _rx) = unbounded_channel();
    let mut second = Session::new(1, tx);
    assert_eq!(second.handle_received_from_client(&mut reg, text("Two"), 1), Err(HandleError::DuplicateRegistration));
    assert_eq!(second.outcome(), Some(SessionError::HandshakeFailed));
    assert_eq!(reg.len(), 1);
}

#[test]
fn an_unreadable_frame_is_dropped() {
    let mut reg = Registry::new();
    let (mut a, _rx_a) = join(&mut reg, 1, "A");
    let (_b, mut rx_b) = join(&mut reg, 2, "B");
    assert_eq!(a.handle_received_from_client(&mut reg, Inbound::Unreadable, 3), Err(HandleError::MalformedMessage));
    assert_eq!(a.current_phase(), SessionPhase::Active);
    assert!(drain(&mut rx_b).is_empty());
    assert_eq!(reg.len(), 2);
}

#[test]
fn queued_messages_become_wire_frames() {
    let mut reg = Registry::new();
    let (mut a, mut rx_a) = join(&mut reg, 1, "A");
    let (mut b, _rx_b) = join(&mut reg, 2, "B");
    assert_eq!(drain(&mut rx_a), vec![("SYSTEM".to_string(), "B has entered the channel".to_string())]);
    b.handle_received_from_client(&mut reg, text("to \"A\""), 77).unwrap();
    let queued = rx_a.try_recv().unwrap();
    let frame = a.handle_received_from_server(&mut reg, Some(queued), 78).unwrap();
    assert_eq!(frame, "{\"input_message\":\"to \\\"A\\\"\",\"from_username\":\"B\",\"timestamp\":77}");
    let back = decode(&frame).unwrap();
    assert_eq!(back.get_message(), "to \"A\"");
    assert_eq!(back.get_username(), "B");
    assert_eq!(back.get_timestamp(), 77);
}

#[test]
fn the_end_of_the_queue_ends_the_session() {
    let mut reg = Registry::new();
    let (mut a, _rx_a) = join(&mut reg, 1, "A");
    let (_b, mut rx_b) = join(&mut reg, 2, "B");
    assert_eq!(a.handle_received_from_server(&mut reg, None, 9), Err(HandleError::ConnectionDropped));
    assert_eq!(a.outcome(), Some(SessionError::PeerDisconnected));
    assert_eq!(reg.peer_ids(), vec![2]);
    assert_eq!(drain(&mut rx_b), vec![("SYSTEM".to_string(), "A has exited the channel".to_string())]);
    assert_eq!(a.handle_received_from_client(&mut reg, text("late"), 10), Err(HandleError::ConnectionDropped));
    assert!(drain(&mut rx_b).is_empty());
}

#[test]
fn nothing_is_queued_for_a_session_before_its_name() {
    let mut reg = Registry::new();
    let (tx, _rx) = unbounded_channel();
    let mut s = Session::new(5, tx);
    let m = ChatMessage::build_at(1, "X".to_string(), "y".to_string(), 0);
    assert_eq!(s.handle_received_from_server(&mut reg, Some(m), 1), Err(HandleError::UnknownClient));
    assert_eq!(s.current_phase(), SessionPhase::Handshaking);
    assert_eq!(s.get_id(), 5);
    assert_eq!(s.get_username(), "");
}
