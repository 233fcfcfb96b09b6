//! Mailboxes.

use plasmoid::mailbox::{Mailbox, MailboxMessage, Received, SendError, SpawnFailure};
use plasmoid::message::{ExitReason, SystemMessage};
use plasmoid::pid::{NodeId, Pid};

fn make_pid() -> Pid {
    let node = NodeId::from_bytes(iroh::SecretKey::generate().public().as_bytes()).unwrap();
    Pid { node, seq: 1 }
}

fn message(r: Received) -> MailboxMessage {
    match r {
        Received::Message(m) => m,
        other => panic!("expected a message, got {:?}", other),
    }
}

#[test]
fn test_push_data_and_recv() {
    let mut mailbox = Mailbox::with_default_capacity();
    mailbox.push_data(b"hello".to_vec()).unwrap();
    match message(mailbox.recv()) {
        MailboxMessage::Data(data) => assert_eq!(data, b"hello"),
        other => panic!("expected Data, got {:?}", other),
    }
}

#[test]
fn test_push_tagged_and_recv_ref() {
    let mut mailbox = Mailbox::with_default_capacity();
    mailbox.push_data(b"unrelated".to_vec()).unwrap();
    mailbox.push_tagged(42, b"payload".to_vec()).unwrap();
    mailbox.push_data(b"also unrelated".to_vec()).unwrap();

    // recv_ref should skip unrelated and find the tagged message
    match message(mailbox.recv_ref(42)) {
        MailboxMessage::Tagged { ref_id, payload } => {
            assert_eq!(ref_id, 42);
            assert_eq!(payload, b"payload");
        }
        other => panic!("expected Tagged, got {:?}", other),
    }

    // The other messages should still be there
    match message(mailbox.recv()) {
        MailboxMessage::Data(data) => assert_eq!(data, b"unrelated"),
        other => panic!("expected Data, got {:?}", other),
    }
}

#[test]
fn test_system_messages_at_front() {
    let mut mailbox = Mailbox::with_default_capacity();
    let pid = make_pid();

    mailbox.push_data(b"user msg".to_vec()).unwrap();
    mailbox.push_system(SystemMessage::Exit { from: pid, reason: ExitReason::Normal });

    // System message should come first (pushed to front)
    match message(mailbox.recv()) {
        MailboxMessage::Exit { .. } => {}
        other => panic!("expected Exit, got {:?}", other),
    }

    // Then the data message
    match message(mailbox.recv()) {
        MailboxMessage::Data(data) => assert_eq!(data, b"user msg"),
        other => panic!("expected Data, got {:?}", other),
    }
}

#[test]
fn test_system_messages_bypass_capacity() {
    let mut mailbox = Mailbox::new(2);
    let pid = make_pid();

    // Fill to capacity
    mailbox.push_data(b"1".to_vec()).unwrap();
    mailbox.push_data(b"2".to_vec()).unwrap();

    // Data should fail
    assert!(mailbox.push_data(b"3".to_vec()).is_err());

    // System message should succeed (unbounded)
    mailbox.push_system(SystemMessage::Exit { from: pid, reason: ExitReason::Normal });
    assert!(matches!(mailbox.recv(), Received::Message(MailboxMessage::Exit { .. })));
}

#[test]
fn test_timeout_returns_none() {
    let mut mailbox = Mailbox::with_default_capacity();
    assert_eq!(mailbox.recv(), Received::Empty);
}

#[test]
fn test_capacity_enforcement() {
    let mut mailbox = Mailbox::new(2);
    mailbox.push_data(b"1".to_vec()).unwrap();
    mailbox.push_data(b"2".to_vec()).unwrap();

    match mailbox.push_data(b"3".to_vec()) {
        Err(SendError::MailboxFull) => {}
        other => panic!("expected MailboxFull, got {:?}", other.is_ok()),
    }

    // After consuming one, should be able to push again
    message(mailbox.recv());
    mailbox.push_data(b"3".to_vec()).unwrap();
}

#[test]
fn test_close_wakes_blocked_recv() {
    let mut mailbox = Mailbox::with_default_capacity();
    assert_eq!(mailbox.recv(), Received::Empty);
    mailbox.close();
    assert_eq!(mailbox.recv(), Received::Closed);
    assert_eq!(mailbox.recv_ref(1), Received::Closed);
}

#[test]
fn test_recv_ref_skips_non_matching() {
    let mut mailbox = Mailbox::with_default_capacity();
    let pid = make_pid();

    mailbox.push_tagged(1, b"wrong ref".to_vec()).unwrap();
    mailbox.push_data(b"data msg".to_vec()).unwrap();
    mailbox.push_system(SystemMessage::Down {
        from: pid,
        monitor_ref: 42,
        reason: ExitReason::Normal,
    });

    // recv_ref(42) should find the Down message
    match message(mailbox.recv_ref(42)) {
        MailboxMessage::Down { ref_id, .. } => assert_eq!(ref_id, 42),
        other => panic!("expected Down, got {:?}", other),
    }

    match message(mailbox.recv()) {
        MailboxMessage::Tagged { ref_id, .. } => assert_eq!(ref_id, 1),
        other => panic!("expected Tagged(1), got {:?}", other),
    }
}

#[test]
fn test_recv_ref_timeout_no_match() {
    let mut mailbox = Mailbox::with_default_capacity();
    mailbox.push_data(b"unrelated".to_vec()).unwrap();

    assert_eq!(mailbox.recv_ref(99), Received::Empty);
}

#[test]
fn a_closed_mailbox_takes_nothing_in() {
    let mut mailbox = Mailbox::with_default_capacity();
    mailbox.push_data(vec![1]).unwrap();
    mailbox.close();
    assert_eq!(mailbox.push_data(vec![2]), Err(SendError::NoProcess));
    assert_eq!(mailbox.push_tagged(1, vec![2]), Err(SendError::NoProcess));
}

#[test]
fn tagged_messages_count_against_the_capacity() {
    let mut mailbox = Mailbox::new(1);
    mailbox.push_tagged(1, vec![1]).unwrap();
    assert_eq!(mailbox.push_data(vec![2]), Err(SendError::MailboxFull));
    assert_eq!(mailbox.push_tagged(2, vec![2]), Err(SendError::MailboxFull));
    assert_eq!(mailbox.data_len(), 1);
}

#[test]
fn an_unbounded_mailbox_is_never_full() {
    let mut mailbox = Mailbox::unbounded();
    for i in 0..2000u32 {
        mailbox.push_data(i.to_le_bytes().to_vec()).unwrap();
    }
    assert_eq!(mailbox.data_len(), 2000);
    for i in 0..2000u32 {
        assert_eq!(message(mailbox.recv()), MailboxMessage::Data(i.to_le_bytes().to_vec()));
    }
}

#[test]
fn a_spawn_reply_is_found_by_its_reference() {
    let mut mailbox = Mailbox::new(1);
    mailbox.push_data(vec![1]).unwrap();
    mailbox.push_spawn_reply(7, Err(SpawnFailure::NodeUnreachable));
    assert_eq!(
        message(mailbox.recv_ref(7)),
        MailboxMessage::SpawnReply { ref_id: 7, outcome: Err(SpawnFailure::NodeUnreachable) }
    );
}

#[test]
fn messages_keep_their_order_whatever_the_system_tells() {
    let mut mailbox = Mailbox::unbounded();
    mailbox.push_data(b"first".to_vec()).unwrap();
    mailbox.push_system(SystemMessage::Exit { from: make_pid(), reason: ExitReason::Killed });
    mailbox.push_tagged(4, b"second".to_vec()).unwrap();
    mailbox.push_data(b"third".to_vec()).unwrap();
    assert!(matches!(message(mailbox.recv()), MailboxMessage::Exit { .. }));
    assert_eq!(message(mailbox.recv()), MailboxMessage::Data(b"first".to_vec()));
    assert_eq!(
        message(mailbox.recv()),
        MailboxMessage::Tagged { ref_id: 4, payload: b"second".to_vec() }
    );
    assert_eq!(message(mailbox.recv()), MailboxMessage::Data(b"third".to_vec()));
}
