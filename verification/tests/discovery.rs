//! The distributed registry: the shared document, and gossip.

use plasmoid::doc_registry::{
    registry_namespace_secret, DocEntry, DocRegistry, InsertStep, RegistryEntry, RegistryKey,
    RemoteCache, RemoteParticle, ResolvedParticle,
};
use plasmoid::gossip::{registry_topic, DistributedRegistry, RegistryMessage, ResolvedProcess};
use plasmoid::message::ExitReason;
use plasmoid::pid::{NodeId, Pid, PidGenerator};
use plasmoid::policy::PolicySet;
use plasmoid::registry::ParticleRegistry;

fn key_and_node() -> (iroh::PublicKey, NodeId) {
    let key = iroh::SecretKey::generate().public();
    (key, NodeId::from_bytes(key.as_bytes()).unwrap())
}

fn a_node() -> NodeId {
    key_and_node().1
}

fn make_entry(name: Option<&str>) -> RegistryEntry {
    let (key, node) = key_and_node();
    RegistryEntry {
        pid: PidGenerator::new(node).next(),
        name: name.map(|s| s.to_string()),
        component: "test".to_string(),
        node,
        addr: key.into(),
    }
}

fn make_remote(name: Option<&str>) -> (Pid, RemoteParticle) {
    let entry = make_entry(name);
    (entry.pid, entry.into())
}

#[test]
fn test_parse_registry_key() {
    assert_eq!(
        RegistryKey::parse("pid/abc.1"),
        Some(RegistryKey::Pid("abc.1"))
    );
    assert_eq!(
        RegistryKey::parse("name/counter"),
        Some(RegistryKey::Name("counter"))
    );
    assert_eq!(RegistryKey::parse("other/thing"), None);
    // A name containing a slash must not be truncated.
    assert_eq!(
        RegistryKey::parse("name/a/b"),
        Some(RegistryKey::Name("a/b"))
    );
}

#[test]
fn keys_are_written_as_they_are_read() {
    assert_eq!(RegistryKey::Pid("abc.1").render(), "pid/abc.1");
    assert_eq!(RegistryKey::Name("a/b").render(), "name/a/b");
    assert_eq!(RegistryKey::parse("name/"), Some(RegistryKey::Name("")));
    assert_eq!(RegistryKey::parse(""), None);
}

#[test]
fn test_tombstone_evicts_by_pid_key() {
    let (pid, remote) = make_remote(None);
    let mut cache = RemoteCache::default();
    cache.insert(RegistryKey::Pid(&pid.to_key()), remote);
    assert!(cache.get_pid(&pid).is_some());

    // A deletion arrives as an empty entry: only the key identifies it.
    cache.remove(RegistryKey::Pid(&pid.to_key()));

    assert!(
        cache.get_pid(&pid).is_none(),
        "a pid tombstone must evict the cached particle"
    );
}

#[test]
fn test_tombstone_evicts_by_name_key() {
    let (_pid, remote) = make_remote(Some("counter"));
    let mut cache = RemoteCache::default();
    cache.insert(RegistryKey::Name("counter"), remote);
    assert!(cache.get_name("counter").is_some());

    cache.remove(RegistryKey::Name("counter"));

    assert!(cache.get_name("counter").is_none());
}

#[test]
fn test_losing_a_peer_evicts_only_its_entries() {
    let mut cache = RemoteCache::default();

    let (gone_pid, gone_remote) = make_remote(Some("doomed"));
    let gone = gone_remote.node;
    cache.insert(RegistryKey::Pid(&gone_pid.to_key()), gone_remote.clone());
    cache.insert(RegistryKey::Name("doomed"), gone_remote);

    let (kept_pid, kept_remote) = make_remote(Some("survivor"));
    cache.insert(RegistryKey::Pid(&kept_pid.to_key()), kept_remote.clone());
    cache.insert(RegistryKey::Name("survivor"), kept_remote);
    assert_eq!(cache.len(), 4);

    let evicted = cache.remove_node(&gone);

    assert_eq!(evicted, 2, "both the pid and name entry should go");
    assert!(cache.get_pid(&gone_pid).is_none());
    assert!(cache.get_name("doomed").is_none());
    assert!(
        cache.get_pid(&kept_pid).is_some(),
        "another node's entries must survive"
    );
    assert!(cache.get_name("survivor").is_some());
}

#[test]
fn test_unparseable_pid_tombstone_is_ignored() {
    let mut cache = RemoteCache::default();
    // Must not panic on a malformed key from the wire.
    cache.remove(RegistryKey::Pid("not-a-pid"));
    assert_eq!(cache.len(), 0);
}

fn name_of(r: Option<ResolvedParticle>) -> Option<Pid> {
    match r {
        Some(ResolvedParticle::Remote(x)) => Some(x.pid),
        Some(ResolvedParticle::Local(_)) => panic!("expected a remote particle"),
        None => None,
    }
}

fn local_registry() -> ParticleRegistry {
    ParticleRegistry::new(PidGenerator::new(a_node()))
}

#[test]
fn a_spawn_becomes_visible_to_a_peer_and_a_death_retracts_it() {
    let local = local_registry();
    let mut peer = DocRegistry::new(local.node());
    let (key, node) = key_and_node();
    let there = DocRegistry::new(node);
    let pid = PidGenerator::new(node).next();

    let announced = there.announce_spawn(&pid, "test-component", Some("greeter"), key.into());
    assert_eq!(
        announced.keys,
        vec![format!("pid/{}", pid.to_key()), "name/greeter".to_string()]
    );
    for k in &announced.keys {
        assert_eq!(peer.begin_insert(k.as_bytes(), 10), InsertStep::Fetch);
        let entry = RegistryEntry {
            pid,
            name: Some("greeter".to_string()),
            component: "test-component".to_string(),
            node,
            addr: key.into(),
        };
        peer.finish_insert(k.as_bytes(), entry);
    }
    assert_eq!(name_of(peer.resolve_name(&local, "greeter")), Some(pid));
    assert_eq!(name_of(peer.resolve_pid(&local, &pid)), Some(pid));

    for k in there.announce_down(&pid, Some("greeter")) {
        assert_eq!(peer.begin_insert(k.as_bytes(), 0), InsertStep::Evicted);
    }
    assert!(peer.resolve_name(&local, "greeter").is_none());
    assert!(peer.resolve_pid(&local, &pid).is_none());
}

#[test]
fn foreign_and_unreadable_entries_are_left_alone() {
    let local = local_registry();
    let mut doc = DocRegistry::new(local.node());
    assert_eq!(doc.begin_insert(b"other/thing", 5), InsertStep::NotOurs);
    assert_eq!(doc.begin_insert(&[0xff, 0xfe], 5), InsertStep::BadKey);
    doc.finish_insert(b"other/thing", make_entry(Some("x")));
    doc.finish_insert(&[0xff], make_entry(Some("x")));
    assert!(doc.resolve_name(&local, "x").is_none());
}

#[test]
fn a_node_does_not_cache_itself() {
    let (key, node) = key_and_node();
    let local = ParticleRegistry::new(PidGenerator::new(node));
    let mut doc = DocRegistry::new(node);
    let own = || RegistryEntry {
        pid: Pid { node, seq: 8 },
        name: Some("mine".to_string()),
        component: "c".to_string(),
        node,
        addr: key.into(),
    };
    doc.finish_insert(b"name/mine", own());
    doc.content_ready(own());
    doc.reload_from_doc(vec![DocEntry {
        key: b"name/mine".to_vec(),
        content_len: 4,
        content: Some(own()),
    }]);
    assert!(doc.resolve_name(&local, "mine").is_none());
    assert!(doc.resolve_pid(&local, &Pid { node, seq: 8 }).is_none());
}

#[test]
fn late_content_is_filed_under_its_pid_and_its_name() {
    let local = local_registry();
    let mut doc = DocRegistry::new(local.node());
    let entry = make_entry(Some("late"));
    let pid = entry.pid;
    doc.content_ready(entry);
    assert_eq!(name_of(doc.resolve_name(&local, "late")), Some(pid));
    assert_eq!(name_of(doc.resolve_pid(&local, &pid)), Some(pid));
}

#[test]
fn evicting_a_peer_is_recoverable() {
    let local = local_registry();
    let mut doc = DocRegistry::new(local.node());
    let entry = make_entry(Some("greeter"));
    let (pid, node, addr) = (entry.pid, entry.node, entry.addr.clone());
    doc.content_ready(entry);
    assert!(doc.countable());
    assert_eq!(doc.evict_node(&node), 2);
    assert!(doc.resolve_name(&local, "greeter").is_none());

    let again = |name: Option<&str>| RegistryEntry {
        pid,
        name: name.map(|s| s.to_string()),
        component: "test".to_string(),
        node,
        addr: addr.clone(),
    };
    let count = doc.reload_from_doc(vec![
        DocEntry {
            key: RegistryKey::Pid(&pid.to_key()).render().into_bytes(),
            content_len: 9,
            content: Some(again(Some("greeter"))),
        },
        DocEntry {
            key: b"name/greeter".to_vec(),
            content_len: 9,
            content: Some(again(Some("greeter"))),
        },
        // A deletion, one whose content is not here yet, one that is not ours.
        DocEntry { key: b"name/gone".to_vec(), content_len: 0, content: Some(again(None)) },
        DocEntry { key: b"name/slow".to_vec(), content_len: 9, content: None },
        DocEntry { key: b"what".to_vec(), content_len: 9, content: Some(again(None)) },
    ]);
    assert_eq!(count, 2);
    assert_eq!(name_of(doc.resolve_name(&local, "greeter")), Some(pid));
    assert_eq!(name_of(doc.resolve_pid(&local, &pid)), Some(pid));
}

#[test]
fn what_runs_here_is_resolved_here_first() {
    let (_, node) = key_and_node();
    let mut local = ParticleRegistry::new(PidGenerator::new(node));
    local.register_component("c", PolicySet::all());
    let here = local.spawn("c", Some("svc"), None).unwrap();
    let mut doc = DocRegistry::new(node);
    doc.content_ready(make_entry(Some("svc")));
    assert!(matches!(
        doc.resolve_name(&local, "svc"),
        Some(ResolvedParticle::Local(p)) if p == here
    ));
    assert!(matches!(
        doc.resolve_pid(&local, &here),
        Some(ResolvedParticle::Local(p)) if p == here
    ));

    let downs = doc.announce_all_down(&local);
    assert_eq!(
        downs,
        vec![(
            here,
            vec![format!("pid/{}", here.to_key()), "name/svc".to_string()]
        )]
    );
    local.exit_particle(&here, ExitReason::Normal);
    assert!(doc.announce_all_down(&local).is_empty());
}

#[test]
fn every_node_derives_the_same_namespace_and_topic() {
    let expected = *blake3::hash(b"plasmoid-registry-v1").as_bytes();
    assert_eq!(registry_namespace_secret(), expected);
    assert_eq!(registry_topic(), expected);
}

fn remote_of(r: Option<ResolvedProcess>) -> Option<Pid> {
    match r {
        Some(ResolvedProcess::Remote(x)) => Some(x.pid),
        Some(ResolvedProcess::Local(_)) => panic!("expected a remote process"),
        None => None,
    }
}

#[test]
fn gossip_makes_processes_known_and_unknown() {
    let local = local_registry();
    let mut here = DistributedRegistry::new(local.node());
    let (key, node) = key_and_node();
    let there = DistributedRegistry::new(node);
    let pid = PidGenerator::new(node).next();

    here.handle_message(&local, there.announce_spawn(&pid, "echo", Some("svc"), key.into()));
    assert_eq!(remote_of(here.resolve_name(&local, "svc")), Some(pid));
    assert_eq!(remote_of(here.resolve_pid(&local, &pid)), Some(pid));

    here.handle_message(&local, there.announce_down(&pid));
    assert!(here.resolve_name(&local, "svc").is_none());
    assert!(here.resolve_pid(&local, &pid).is_none());
}

#[test]
fn gossip_from_oneself_is_ignored() {
    let (key, node) = key_and_node();
    let local = ParticleRegistry::new(PidGenerator::new(node));
    let mut here = DistributedRegistry::new(node);
    let pid = Pid { node, seq: 77 };
    let up = here.announce_spawn(&pid, "echo", Some("svc"), key.into());
    here.handle_message(&local, up);
    assert!(here.resolve_name(&local, "svc").is_none());
    assert!(here.resolve_pid(&local, &pid).is_none());
}

#[test]
fn the_first_claim_on_a_name_wins() {
    let local = local_registry();
    let mut here = DistributedRegistry::new(local.node());
    let mut claimants: Vec<Pid> = Vec::new();
    for timestamp in [5, 0] {
        let (key, node) = key_and_node();
        let pid = PidGenerator::new(node).next();
        let there = DistributedRegistry::new(node);
        here.handle_message(&local, there.announce_spawn(&pid, "echo", None, key.into()));
        here.handle_message(
            &local,
            RegistryMessage::ClaimName { name: "svc".to_string(), pid, node, timestamp },
        );
        claimants.push(pid);
    }
    assert_eq!(remote_of(here.resolve_name(&local, "svc")), Some(claimants[0]));

    here.handle_message(
        &local,
        RegistryMessage::ReleaseName { name: "svc".to_string(), node: claimants[0].node },
    );
    here.handle_message(
        &local,
        RegistryMessage::ClaimName {
            name: "svc".to_string(),
            pid: claimants[1],
            node: claimants[1].node,
            timestamp: 9,
        },
    );
    assert_eq!(
        remote_of(here.resolve_name(&local, "svc")),
        Some(claimants[1]),
        "a name that was released can be claimed again"
    );
}

#[test]
fn names_are_claimed_by_known_processes_and_released_by_their_node() {
    let mut local = local_registry();
    local.register_component("c", PolicySet::all());
    let mut here = DistributedRegistry::new(local.node());
    let (key, node) = key_and_node();
    let pid = PidGenerator::new(node).next();
    let claim = |name: &str, pid: Pid| RegistryMessage::ClaimName {
        name: name.to_string(),
        pid,
        node,
        timestamp: 0,
    };

    here.handle_message(&local, claim("svc", pid));
    assert!(here.resolve_name(&local, "svc").is_none(), "the claimant is not known");

    let there = DistributedRegistry::new(node);
    here.handle_message(&local, there.announce_spawn(&pid, "echo", None, key.into()));
    here.handle_message(&local, claim("svc", pid));
    assert_eq!(remote_of(here.resolve_name(&local, "svc")), Some(pid));

    here.handle_message(
        &local,
        RegistryMessage::ReleaseName { name: "svc".to_string(), node: a_node() },
    );
    assert_eq!(remote_of(here.resolve_name(&local, "svc")), Some(pid));
    here.handle_message(&local, RegistryMessage::ReleaseName { name: "svc".to_string(), node });
    assert!(here.resolve_name(&local, "svc").is_none());

    let mine = local.spawn("c", Some("svc"), None).unwrap();
    here.handle_message(&local, claim("svc", pid));
    assert!(matches!(
        here.resolve_name(&local, "svc"),
        Some(ResolvedProcess::Local(p)) if p == mine
    ));
    local.exit_particle(&mine, ExitReason::Normal);
    assert!(
        here.resolve_name(&local, "svc").is_none(),
        "a name that is taken here is not claimed from elsewhere"
    );
}
