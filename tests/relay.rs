use chatey::{broadcast_message, ChatMessage, Delivery, Registry, RegistryError};
use tokio::sync::mpsc::{unbounded_channel, UnboundedReceiver};

fn drain(rx: &mut UnboundedReceiver<ChatMessage>) -> Vec<(String, String)> {
    let mut out = Vec::new();
    while let Ok(m) = rx.try_recv() {
        out.push((m.get_username(), m.get_message()));
    }
    out
}

fn message(from: u64, name: &str, body: &str) -> ChatMessage {
    ChatMessage::build_at(from, name.to_string(), body.to_string(), 1)
}

#[test]
fn register_refuses_a_duplicate_id() {
    let mut reg = Registry::new();
    let (tx1, _rx1) = unbounded_channel();
    let (tx2, mut rx2) = unbounded_channel();
    assert_eq!(reg.register(1, tx1), Ok(()));
    assert_eq!(reg.register(1, tx2), Err(RegistryError::DuplicateRegistration));
    assert_eq!(reg.len(), 1);
    assert_eq!(reg.peer_ids(), vec![1]);
    assert!(rx2.try_recv().is_err());
}

#[test]
fn deregister_is_idempotent() {
    let mut reg = Registry::new();
    let (tx1, _rx1) = unbounded_channel();
    let (tx2, _rx2) = unbounded_channel();
    reg.register(1, tx1).unwrap();
    reg.register(2, tx2).unwrap();
    assert!(!reg.deregister(7));
    assert_eq!(reg.peer_ids(), vec![1, 2]);
    assert!(reg.deregister(1));
    assert!(!reg.deregister(1));
    assert_eq!(reg.peer_ids(), vec![2]);
    assert!(!reg.contains(1));
    assert!(reg.contains(2));
}

#[test]
fn snapshot_excludes_the_given_id() {
    let mut reg = Registry::new();
    for id in [5u64, 3, 9] {
        let (tx, rx) = unbounded_channel();
        std::mem::forget(rx);
        reg.register(id, tx).unwrap();
    }
    let ids: Vec<u64> = reg.snapshot_targets(3).into_iter().map(|(id, _)| id).collect();
    assert_eq!(ids, vec![5, 9]);
    let all: Vec<u64> = reg.snapshot_targets(42).into_iter().map(|(id, _)| id).collect();
    assert_eq!(all, vec![5, 3, 9]);
}

#[test]
fn a_message_reaches_every_other_peer_once() {
    let mut reg = Registry::new();
    let mut rxs = Vec::new();
    for id in 0..5u64 {
        let (tx, rx) = unbounded_channel();
        reg.register(id, tx).unwrap();
        rxs.push(rx);
    }
    let report = broadcast_message(message(2, "P", "hello"), &mut reg);
    let peers: Vec<u64> = report.iter().map(|d| d.peer).collect();
    assert_eq!(peers, vec![0, 1, 3, 4]);
    assert!(report.iter().all(|d| d.delivered));
    for (id, rx) in rxs.iter_mut().enumerate() {
        let got = drain(rx);
        if id == 2 {
            assert!(got.is_empty());
        } else {
            assert_eq!(got, vec![("P".to_string(), "hello".to_string())]);
        }
    }
    assert_eq!(reg.len(), 5);
}

#[test]
fn a_closed_peer_is_pruned_and_the_rest_still_receive() {
    let mut reg = Registry::new();
    let (tx_a, rx_a) = unbounded_channel();
    let (tx_b, mut rx_b) = unbounded_channel();
    let (tx_c, mut rx_c) = unbounded_channel();
    reg.register(1, tx_a).unwrap();
    reg.register(2, tx_b).unwrap();
    reg.register(3, tx_c).unwrap();
    drop(rx_a);
    let report = broadcast_message(message(3, "C", "ping"), &mut reg);
    assert_eq!(
        report,
        vec![Delivery { peer: 1, delivered: false }, Delivery { peer: 2, delivered: true }]
    );
    assert_eq!(reg.peer_ids(), vec![2, 3]);
    assert_eq!(drain(&mut rx_b), vec![("C".to_string(), "ping".to_string())]);
    assert!(drain(&mut rx_c).is_empty());
    // the peer's own teardown afterwards is harmless
    assert!(!reg.deregister(1));
}

#[test]
fn a_sole_peer_gets_nothing() {
    let mut reg = Registry::new();
    let (tx, mut rx) = unbounded_channel();
    reg.register(8, tx).unwrap();
    let report = broadcast_message(message(8, "Me", "echo?"), &mut reg);
    assert!(report.is_empty());
    assert!(drain(&mut rx).is_empty());
    let mut empty = Registry::new();
    assert!(broadcast_message(message(1, "x", "y"), &mut empty).is_empty());
}

#[test]
fn messages_from_one_peer_keep_their_order() {
    let mut reg = Registry::new();
    let (tx_a, mut rx_a) = unbounded_channel();
    let (tx_b, mut rx_b) = unbounded_channel();
    let (tx_c, _rx_c) = unbounded_channel();
    reg.register(1, tx_a).unwrap();
    reg.register(2, tx_b).unwrap();
    reg.register(3, tx_c).unwrap();
    broadcast_message(message(1, "A", "1"), &mut reg);
    broadcast_message(message(3, "C", "x"), &mut reg);
    broadcast_message(message(1, "A", "2"), &mut reg);
    let got = drain(&mut rx_b);
    assert_eq!(
        got,
        vec![
            ("A".to_string(), "1".to_string()),
            ("C".to_string(), "x".to_string()),
            ("A".to_string(), "2".to_string()),
        ]
    );
    assert_eq!(drain(&mut rx_a), vec![("C".to_string(), "x".to_string())]);
}

#[test]
fn snapshot_handles_reach_their_own_peers() {
    let mut reg = Registry::new();
    let (tx1, mut rx1) = unbounded_channel();
    let (tx2, mut rx2) = unbounded_channel();
    reg.register(1, tx1).unwrap();
    reg.register(2, tx2).unwrap();
    for (id, handle) in reg.snapshot_targets(0) {
        handle.send(message(0, "S", &id.to_string())).unwrap();
    }
    assert_eq!(drain(&mut rx1), vec![("S".to_string(), "1".to_string())]);
    assert_eq!(drain(&mut rx2), vec![("S".to_string(), "2".to_string())]);
}
