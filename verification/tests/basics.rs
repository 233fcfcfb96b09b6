//! Reasons, pids, policies, frames, storage, log levels and manifests.

use plasmoid::app::{Manifest, ManifestError, RestartType};
use plasmoid::host::{Database, HostState, LogLevel};
use plasmoid::message::ExitReason;
use plasmoid::pid::{NodeId, Pid, PidGenerator, PidKeyError};
use plasmoid::policy::PolicySet;
use plasmoid::transport::{
    begin_delivery, continue_delivery, encode_frame, frame_body_len, read_frame, FrameError, Front,
    LinkAction, LinkEvent, MAX_FRAME_LEN,
};

fn a_node() -> NodeId {
    NodeId::from_bytes(iroh::SecretKey::generate().public().as_bytes()).unwrap()
}

#[test]
fn test_exit_reason_is_abnormal() {
    assert!(!ExitReason::Normal.is_abnormal());
    assert!(ExitReason::Kill.is_abnormal());
    assert!(ExitReason::Shutdown("reason".into()).is_abnormal());
    assert!(ExitReason::Exception("crash".into()).is_abnormal());
}

#[test]
fn test_registry_key_roundtrips_losslessly() {
    let node = a_node();
    let pid = Pid { node, seq: 42 };

    let parsed = Pid::from_key(&pid.to_key()).expect("key must parse");

    assert_eq!(parsed, pid, "the full node id must survive the round trip");
}

#[test]
fn test_registry_key_carries_the_whole_node_id() {
    let node = a_node();
    let pid = Pid { node, seq: 1 };

    let key = pid.to_key();
    let (node_hex, _) = key.rsplit_once('.').unwrap();
    assert_eq!(node_hex.len(), 64, "expected the full 32-byte node id");
    assert_eq!(node_hex, hex::encode(node.as_bytes()));

    // For contrast, the display form keeps only 4 of those bytes.
    assert_eq!(pid.node_prefix().len(), 8);
}

#[test]
fn test_bad_registry_keys_are_rejected() {
    assert!(Pid::from_key("nonsense").is_err());
    assert!(Pid::from_key("abcd.notanumber").is_err());
    assert!(Pid::from_key("").is_err());
    // A truncated display-style prefix must not parse as a full key.
    assert!(Pid::from_key("ec47b34e.1").is_err());
}

#[test]
fn each_fault_of_a_key_is_told_apart() {
    let hex_node = a_node().to_hex();
    assert_eq!(Pid::from_key("nonsense"), Err(PidKeyError::NoSeparator));
    assert_eq!(Pid::from_key("xyz.1"), Err(PidKeyError::BadHex));
    assert_eq!(Pid::from_key("ec47b34e.1"), Err(PidKeyError::BadLength));
    let mut not_a_key = [0u8; 32];
    not_a_key[0] = 2;
    assert!(NodeId::from_bytes(&not_a_key).is_none());
    assert_eq!(
        Pid::from_key(&format!("{}.1", hex::encode(not_a_key))),
        Err(PidKeyError::BadNode)
    );
    assert_eq!(
        Pid::from_key(&format!("{hex_node}.x")),
        Err(PidKeyError::BadSequence)
    );
    assert_eq!(
        Pid::from_key(&format!("{hex_node}.18446744073709551616")),
        Err(PidKeyError::BadSequence)
    );
    assert_eq!(
        Pid::from_key(&format!("{hex_node}.18446744073709551615")).unwrap().seq,
        u64::MAX
    );
    // Upper-case digits are hexadecimal too.
    assert_eq!(
        Pid::from_key(&format!("{}.7", hex_node.to_uppercase())).unwrap().node.to_hex(),
        hex_node
    );
}

#[test]
fn test_pid_display() {
    let node = a_node();
    let pid = Pid { node, seq: 42 };
    let display = pid.to_text();
    assert!(display.starts_with('<'));
    assert!(display.ends_with('>'));
    assert!(display.contains(".42"));
    // Prefix should be 8 hex chars
    let inner = &display[1..display.len() - 1];
    let parts: Vec<&str> = inner.rsplitn(2, '.').collect();
    assert_eq!(parts[0], "42");
    assert_eq!(parts[1].len(), 8);
    assert_eq!(parts[1], hex::encode(&node.as_bytes()[..4]));
}

#[test]
fn test_pid_generator() {
    let node = a_node();
    let mut pid_gen = PidGenerator::new(node);

    let p1 = pid_gen.next();
    let p2 = pid_gen.next();
    let p3 = pid_gen.next();

    assert_eq!(p1.seq, 1);
    assert_eq!(p2.seq, 2);
    assert_eq!(p3.seq, 3);
    assert_eq!(p1.node, node);
    assert_ne!(p1, p2);
    assert_eq!(pid_gen.node(), node);
}

#[test]
fn test_pid_is_local_to() {
    let node1 = a_node();
    let node2 = a_node();

    let pid = Pid {
        node: node1,
        seq: 1,
    };
    assert!(pid.is_local_to(&node1));
    assert!(!pid.is_local_to(&node2));
}

#[test]
fn test_pid_node_prefix() {
    let node = a_node();
    let pid = Pid { node, seq: 1 };
    let prefix = pid.node_prefix();
    assert_eq!(prefix.len(), 8);
    // Should be valid hex
    assert!(prefix.chars().all(|c| c.is_ascii_hexdigit()));
}

#[test]
fn node_ids_are_read_as_they_are_written() {
    let node = a_node();
    assert_eq!(NodeId::parse(&node.to_hex()), Some(node));
    assert_eq!(NodeId::parse("not a node"), None);
    assert_eq!(NodeId::from_bytes(node.as_bytes()), Some(node));
}

#[test]
fn pids_are_ordered_by_node_and_then_by_number() {
    let (a, b) = (a_node(), a_node());
    let (low, high) = if a.less(&b) { (a, b) } else { (b, a) };
    assert!(Pid { node: low, seq: 9 }.less(&Pid { node: high, seq: 1 }));
    assert!(!Pid { node: high, seq: 1 }.less(&Pid { node: low, seq: 9 }));
    assert!(Pid { node: low, seq: 1 }.less(&Pid { node: low, seq: 2 }));
    assert!(!Pid { node: low, seq: 2 }.less(&Pid { node: low, seq: 2 }));
    assert!(low.as_bytes() < high.as_bytes());
}

#[test]
fn test_frame_carries_its_length() {
    let body = b"hello".to_vec();
    let frame = encode_frame(&body).unwrap();

    let len = u32::from_le_bytes(frame[..4].try_into().unwrap()) as usize;
    assert_eq!(
        len,
        frame.len() - 4,
        "the prefix must describe exactly the body that follows"
    );
    assert_eq!(&frame[4..], &body[..]);
}

#[test]
fn test_frames_concatenate_without_ambiguity() {
    let a = b"first".to_vec();
    let b = b"second".to_vec();

    let mut buf = encode_frame(&a).unwrap();
    buf.extend_from_slice(&encode_frame(&b).unwrap());

    let Front::Whole(decoded_a, rest) = read_frame(&buf) else {
        panic!("the first frame is whole");
    };
    let Front::Whole(decoded_b, end) = read_frame(&rest) else {
        panic!("the second frame is whole");
    };

    assert_eq!(decoded_a, a);
    assert_eq!(decoded_b, b);
    assert!(end.is_empty());
}

#[test]
fn test_oversized_messages_are_refused_rather_than_sent() {
    assert_eq!(
        encode_frame(&vec![0u8; MAX_FRAME_LEN as usize + 1]),
        Err(FrameError::TooLarge),
        "a frame the receiver would reject must not be queued"
    );
    assert_eq!(
        encode_frame(&vec![0u8; MAX_FRAME_LEN as usize]).unwrap().len(),
        MAX_FRAME_LEN as usize + 4
    );
}

#[test]
fn readers_wait_for_whole_frames_and_refuse_long_ones() {
    let frame = encode_frame(b"abc").unwrap();
    for k in 0..frame.len() {
        assert_eq!(read_frame(&frame[..k]), Front::Incomplete);
    }
    let too_long = (MAX_FRAME_LEN + 1).to_le_bytes();
    assert_eq!(read_frame(&too_long), Front::Oversized);
    assert_eq!(frame_body_len(&too_long), Err(FrameError::TooLarge));
    assert_eq!(frame_body_len(&3u32.to_le_bytes()), Ok(3));
}

#[test]
fn a_message_is_tried_on_a_fresh_link_once() {
    // A stale link is replaced once, and the message is written again.
    let (d, action) = begin_delivery(true);
    assert_eq!(action, LinkAction::Write);
    let (d, action) = continue_delivery(d, LinkEvent::WriteFailed);
    assert_eq!(action, LinkAction::Open);
    let (d, action) = continue_delivery(d, LinkEvent::Opened);
    assert_eq!(action, LinkAction::Write);
    let (_, action) = continue_delivery(d, LinkEvent::WriteFailed);
    assert_eq!(action, LinkAction::Dropped);

    let (d, action) = begin_delivery(false);
    assert_eq!(action, LinkAction::Open);
    let (_, action) = continue_delivery(d, LinkEvent::OpenFailed);
    assert_eq!(action, LinkAction::Dropped);
    let (_, action) = continue_delivery(d, LinkEvent::WriteDone);
    assert_eq!(action, LinkAction::Written);
}

#[test]
fn test_database_get_set() {
    let mut db = Database::new();

    db.set("key1", b"value1".to_vec()).unwrap();
    let value = db.get("key1");

    assert_eq!(value, Some(b"value1".to_vec()));
}

#[test]
fn test_database_get_missing() {
    let db = Database::new();
    assert_eq!(db.get("nonexistent"), None);
}

#[test]
fn test_database_delete() {
    let mut db = Database::new();

    db.set("key1", b"value1".to_vec()).unwrap();
    assert!(db.delete("key1").unwrap());
    assert_eq!(db.get("key1"), None);
}

#[test]
fn other_keys_keep_their_values_when_one_is_deleted() {
    let mut db = Database::new();
    db.set("key1", b"value1".to_vec()).unwrap();
    db.set("key2", b"value2".to_vec()).unwrap();
    assert!(db.delete("key1").unwrap());
    assert_eq!(db.get("key2"), Some(b"value2".to_vec()));
}

#[test]
fn test_database_delete_missing() {
    let mut db = Database::new();
    assert!(!db.delete("nonexistent").unwrap());
}

#[test]
fn test_database_list_keys() {
    let mut db = Database::new();

    db.set("user:1", b"alice".to_vec()).unwrap();
    db.set("user:2", b"bob".to_vec()).unwrap();
    db.set("order:1", b"order-data".to_vec()).unwrap();

    let mut keys = db.list_keys("user:");
    keys.sort();

    assert_eq!(keys, vec!["user:1", "user:2"]);
}

#[test]
fn test_database_scoped_access() {
    let mut db = Database::new();

    db.set("actor1:data", b"actor1-value".to_vec()).unwrap();
    db.set("actor2:data", b"actor2-value".to_vec()).unwrap();

    assert_eq!(db.get("actor1:data"), Some(b"actor1-value".to_vec()));
    assert_eq!(db.get("actor2:data"), Some(b"actor2-value".to_vec()));
}

#[test]
fn a_later_write_wins() {
    let mut db = Database::new();
    db.set("k", vec![1]).unwrap();
    db.set("k", vec![2]).unwrap();
    assert_eq!(db.get("k"), Some(vec![2]));
    assert_eq!(db.list_keys(""), vec!["k"]);
}

#[test]
fn test_log_level_from_u32() {
    assert_eq!(LogLevel::from(0), LogLevel::Trace);
    assert_eq!(LogLevel::from(1), LogLevel::Debug);
    assert_eq!(LogLevel::from(2), LogLevel::Info);
    assert_eq!(LogLevel::from(3), LogLevel::Warn);
    assert_eq!(LogLevel::from(4), LogLevel::Error);
    assert_eq!(LogLevel::from(99), LogLevel::Error); // fallback
}

#[test]
fn test_host_state_creation() {
    let pid = Pid { node: a_node(), seq: 1 };
    let state = HostState::new(
        pid,
        Some("test-particle".to_string()),
        PolicySet::with_capabilities(&["logging"]),
    );

    assert_eq!(state.pid(), &pid);
    assert_eq!(state.name(), Some("test-particle"));
    assert!(state.capabilities().allows("logging"));
    assert!(!state.capabilities().allows("db:read"));
}

#[test]
fn test_host_state_no_name() {
    let pid = Pid { node: a_node(), seq: 1 };
    let state = HostState::new(pid, None, PolicySet::empty());

    assert!(state.name().is_none());
    assert!(state.endpoint().is_none());
    assert!(!state.has_peers());
}

#[test]
fn test_empty_policy_denies_all() {
    let policies = PolicySet::empty();
    assert!(!policies.allows("logging"));
    assert!(!policies.allows("particle:send"));
    assert!(!policies.allows("particle:spawn"));
}

#[test]
fn test_policy_with_capabilities() {
    let policies = PolicySet::with_capabilities(&["logging", "particle:send"]);
    assert!(policies.allows("logging"));
    assert!(policies.allows("particle:send"));
    assert!(!policies.allows("particle:spawn"));
    assert!(!policies.allows("particle:register"));
}

#[test]
fn test_policy_all_capabilities() {
    let policies = PolicySet::all();
    assert!(policies.allows("logging"));
    assert!(policies.allows("particle:send"));
    assert!(policies.allows("particle:spawn"));
    assert!(policies.allows("particle:link"));
    assert!(policies.allows("particle:monitor"));
    assert!(policies.allows("particle:register"));
    assert!(policies.allows("particle:lookup"));
}

#[test]
fn a_policy_and_its_copy_allow_the_same() {
    let policies = PolicySet::with_capabilities(&["logging"]).clone();
    assert!(policies.allows("logging"));
    assert!(!policies.allows("db:read"));
    assert!(!PolicySet::default().allows("logging"));
    assert!(!PolicySet::all().allows("no-such-capability"));
}

#[test]
fn test_a_minimal_manifest_defaults_to_permanent() {
    let m = Manifest::from_toml(
        r#"
            name = "my-app"
            root = "app"
        "#,
    )
    .unwrap();
    assert_eq!(m.name, "my-app");
    assert_eq!(m.root, "app");
    assert_eq!(m.restart_type, RestartType::Permanent);
    assert_eq!(m.init_args, "");
}

#[test]
fn test_every_restart_type_parses() {
    for (src, want) in [
        ("permanent", RestartType::Permanent),
        ("transient", RestartType::Transient),
        ("temporary", RestartType::Temporary),
    ] {
        let m = Manifest::from_toml(&format!("name = \"a\"\nroot = \"r\"\ntype = \"{src}\"\n"))
            .unwrap();
        assert_eq!(m.restart_type, want);
    }
}

#[test]
fn test_a_manifest_without_a_root_is_rejected() {
    assert!(
        Manifest::from_toml("name = \"a\"\n").is_err(),
        "a manifest that names no root describes nothing runnable"
    );
}

#[test]
fn other_faults_of_a_manifest_are_rejected_too() {
    for src in [
        "root = \"r\"\n",
        "name = 1\nroot = \"r\"\n",
        "name = \"a\"\nroot = \"r\"\ntype = \"sometimes\"\n",
        "name = \"a\"\nroot = \"r\"\ninit_args = 3\n",
        "this is not toml",
    ] {
        assert_eq!(Manifest::from_toml(src), Err(ManifestError::Invalid), "{src}");
    }
    let too_large = "9".repeat(50);
    for number in [
        too_large.clone(),
        format!("[{too_large}]"),
        format!("{{ n = {too_large} }}"),
        "1e999".to_string(),
    ] {
        let src = format!("name = \"a\"\nroot = \"r\"\nversion = {number}\n");
        assert_eq!(Manifest::from_toml(&src), Err(ManifestError::Invalid), "{src}");
    }
    for number in ["1", "-1.5", "170141183460469231731687303715884105727"] {
        let src = format!("name = \"a\"\nroot = \"r\"\nversion = {number}\n");
        assert!(Manifest::from_toml(&src).is_ok(), "{src}");
    }
    let m = Manifest::from_toml("name = \"a\"\nroot = \"r\"\ninit_args = '{\"x\":1}'\n").unwrap();
    assert_eq!(m.init_args, "{\"x\":1}");
    let request = m.root_request();
    assert_eq!(request.component, "r");
    assert_eq!(request.name.as_deref(), Some("a"));
    assert_eq!(request.init_args, "{\"x\":1}");
}

#[test]
fn test_permanent_stops_the_node_however_the_root_died() {
    assert!(RestartType::Permanent.should_stop_node(true));
    assert!(
        RestartType::Permanent.should_stop_node(false),
        "even a clean exit takes the node down -- the app it existed to run is gone"
    );
}

#[test]
fn test_transient_stops_only_on_an_abnormal_exit() {
    assert!(RestartType::Transient.should_stop_node(true));
    assert!(!RestartType::Transient.should_stop_node(false));
}

#[test]
fn test_temporary_never_stops_the_node() {
    assert!(!RestartType::Temporary.should_stop_node(true));
    assert!(!RestartType::Temporary.should_stop_node(false));
}

#[test]
fn a_node_stops_with_a_failure_unless_its_root_finished() {
    let collapsed = ExitReason::Shutdown("too many restarts".into());
    assert_eq!(RestartType::Permanent.exit_code(&collapsed), Some(1));
    assert_eq!(RestartType::Permanent.exit_code(&ExitReason::Normal), Some(0));
    assert_eq!(RestartType::Transient.exit_code(&ExitReason::Normal), None);
    assert_eq!(RestartType::Transient.exit_code(&collapsed), Some(1));
    assert_eq!(RestartType::Temporary.exit_code(&collapsed), None);
}
