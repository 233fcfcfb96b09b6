//! Whole stories, across several parts of the library.

use plasmoid::app::Manifest;
use plasmoid::cluster::Cluster;
use plasmoid::doc_registry::{Announcement, DocEntry, DocRegistry, InsertStep, ResolvedParticle};
use plasmoid::host::{Destination, HostState};
use plasmoid::invoke::{
    begin_child_spawn, begin_linked_spawn, begin_local_spawn, finish_local_spawn,
    remote_spawn_outcome, route_spawn, SpawnRoute,
};
use plasmoid::mailbox::{MailboxMessage, Received, SpawnFailure};
use plasmoid::message::ExitReason;
use plasmoid::partitions::{report_loss, Partitions};
use plasmoid::pid::{NodeId, Pid, PidGenerator};
use plasmoid::policy::PolicySet;
use plasmoid::protocol::{finish_spawn, handle_spawn, join, on_connection, SpawnBegun};
use plasmoid::registry::ParticleRegistry;
use plasmoid::signals::on_node_lost;
use plasmoid::supervise::{Driver, Step};
use plasmoid::supervised::{children, flags, ChildDecl};
use plasmoid::transport::{
    begin_delivery, continue_delivery, Addressee, Effect, LinkAction, LinkEvent, PeerMessage,
};
use plasmoid::wire::{spawn_outcome, CommandResponse, SpawnRequest};

fn key_and_node() -> (iroh::PublicKey, NodeId) {
    let key = iroh::SecretKey::generate().public();
    (key, NodeId::from_bytes(key.as_bytes()).unwrap())
}

fn a_node() -> NodeId {
    key_and_node().1
}

fn a_registry(node: NodeId) -> ParticleRegistry {
    ParticleRegistry::new(PidGenerator::new(node))
}

fn request(component: &str, name: Option<&str>) -> SpawnRequest {
    SpawnRequest {
        component: component.to_string(),
        name: name.map(|s| s.to_string()),
        init_args: String::new(),
    }
}

/// Writes an announcement to a document, as a peer sees it.
fn publish(doc: &mut DocRegistry, announcement: Announcement) {
    for key in &announcement.keys {
        assert_eq!(doc.begin_insert(key.as_bytes(), 1), InsertStep::Fetch);
        doc.finish_insert(key.as_bytes(), copy(&announcement));
    }
}

fn copy(a: &Announcement) -> plasmoid::doc_registry::RegistryEntry {
    plasmoid::doc_registry::RegistryEntry {
        pid: a.entry.pid,
        name: a.entry.name.clone(),
        component: a.entry.component.clone(),
        node: a.entry.node,
        addr: a.entry.addr.clone(),
    }
}

/// Deletes keys from a document, as a peer sees it.
fn retract(doc: &mut DocRegistry, keys: Vec<String>) {
    for key in &keys {
        assert_eq!(doc.begin_insert(key.as_bytes(), 0), InsertStep::Evicted);
    }
}

#[test]
fn test_spawn_is_visible_to_a_peer_and_death_retracts_it() {
    let ((key, a), b) = (key_and_node(), a_node());
    let (on_a, mut on_b, local) = (DocRegistry::new(a), DocRegistry::new(b), a_registry(b));
    let pid = PidGenerator::new(a).next();
    publish(&mut on_b, on_a.announce_spawn(&pid, "test-component", Some("greeter"), key.into()));
    assert!(matches!(
        on_b.resolve_name(&local, "greeter"),
        Some(ResolvedParticle::Remote(_))
    ));
    retract(&mut on_b, on_a.announce_down(&pid, Some("greeter")));
    assert!(on_b.resolve_name(&local, "greeter").is_none());
}

#[test]
fn test_peer_resolves_dead_particle_by_pid_too() {
    let ((key, a), b) = (key_and_node(), a_node());
    let (on_a, mut on_b, local) = (DocRegistry::new(a), DocRegistry::new(b), a_registry(b));
    let pid = PidGenerator::new(a).next();
    publish(&mut on_b, on_a.announce_spawn(&pid, "test-component", None, key.into()));
    assert!(matches!(on_b.resolve_pid(&local, &pid), Some(ResolvedParticle::Remote(_))));
    retract(&mut on_b, on_a.announce_down(&pid, None));
    assert!(on_b.resolve_pid(&local, &pid).is_none());
}

#[test]
fn test_a_real_particle_death_deregisters_it_on_peers() {
    let ((key, a), b) = (key_and_node(), a_node());
    let (on_a, mut on_b, local) = (DocRegistry::new(a), DocRegistry::new(b), a_registry(b));
    let mut registry = a_registry(a);
    registry.register_component("echo", PolicySet::all());
    let pid = registry.spawn("echo", Some("dying-echo"), None).unwrap();
    publish(&mut on_b, on_a.announce_spawn(&pid, "echo", Some("dying-echo"), key.into()));
    assert!(matches!(
        on_b.resolve_name(&local, "dying-echo"),
        Some(ResolvedParticle::Remote(_))
    ));

    registry.exit_particle(&pid, ExitReason::Kill);
    for death in registry.take_deaths() {
        retract(&mut on_b, on_a.announce_down(&death.pid, death.name.as_deref()));
    }
    assert!(on_b.resolve_name(&local, "dying-echo").is_none());
}

#[test]
fn test_evicting_a_peer_is_recoverable() {
    let ((key, a), b) = (key_and_node(), a_node());
    let (on_a, mut on_b, local) = (DocRegistry::new(a), DocRegistry::new(b), a_registry(b));
    let pid = PidGenerator::new(a).next();
    let announcement = on_a.announce_spawn(&pid, "test-component", Some("flapper"), key.into());
    let document: Vec<DocEntry> = announcement
        .keys
        .iter()
        .map(|key| DocEntry {
            key: key.as_bytes().to_vec(),
            content_len: 1,
            content: Some(copy(&announcement)),
        })
        .collect();
    publish(&mut on_b, announcement);
    assert!(on_b.resolve_name(&local, "flapper").is_some());

    let evicted = on_b.evict_node(&a);
    assert!(evicted > 0, "eviction should have removed something");
    assert!(on_b.resolve_name(&local, "flapper").is_none());

    on_b.reload_from_doc(document);
    assert!(on_b.resolve_name(&local, "flapper").is_some());
}

#[test]
fn test_remote_spawn_returns_a_pid_belonging_to_the_target() {
    let (a, b) = (a_node(), a_node());
    let mut on_b = a_registry(b);
    on_b.register_component("echo", PolicySet::all());

    assert_eq!(route_spawn(Some(a), &b.to_hex()), SpawnRoute::Remote(b));
    let req = request("echo", Some("remote-echo"));
    let begun = match handle_spawn(&req, &mut on_b) {
        SpawnBegun::Start(pid) => pid,
        SpawnBegun::Refused(r) => panic!("refused: {r:?}"),
    };
    let response = finish_spawn(req, begun, true);
    let answer = spawn_outcome(CommandResponse::Spawn(response)).unwrap();
    let pid = remote_spawn_outcome(Some(Ok(answer))).expect("remote spawn should succeed");

    assert!(!pid.is_local_to(&a), "the pid must belong to the target node, not the caller");
    assert!(pid.is_local_to(&b));
    assert!(on_b.particle_exists(&pid), "the particle should really be running on B");
}

#[test]
fn test_remote_spawn_to_an_unreachable_node_reports_rather_than_hanging() {
    let (a, nowhere) = (a_node(), a_node());
    assert_eq!(route_spawn(Some(a), &nowhere.to_hex()), SpawnRoute::Remote(nowhere));
    assert_eq!(remote_spawn_outcome(None), Err(SpawnFailure::NodeUnreachable));
}

#[test]
fn test_spawning_on_your_own_node_works() {
    let a = a_node();
    let mut registry = a_registry(a);
    registry.register_component("echo", PolicySet::all());
    assert_eq!(route_spawn(Some(a), &a.to_hex()), SpawnRoute::Local);
    let pid = begin_local_spawn(&mut registry, "echo", Some("self-spawned")).unwrap();
    let pid = finish_local_spawn(pid, true).unwrap();
    assert!(pid.is_local_to(&a));
    assert!(registry.particle_exists(&pid));
}

#[test]
fn test_a_lost_node_leaves_the_cluster() {
    let (a, b) = (a_node(), a_node());
    let (mut on_a, mut on_b) = (Cluster::new(a), Cluster::new(b));
    let mut partitions = Partitions::new(a);
    let mut registry = a_registry(a);
    join(&mut on_b, a, 0);
    on_connection(&mut on_a, b, 0);
    assert!(on_a.contains(&b), "B should have joined A's cluster");

    report_loss(b, &mut on_a, &mut partitions, 1);
    on_a.forget(&b);
    on_node_lost(&mut registry, &b);
    assert!(!on_a.contains(&b), "a lost node must leave the cluster");
}

#[test]
fn test_killing_into_an_unreachable_node_is_silent() {
    let (a, b) = (a_node(), a_node());
    let mut registry = a_registry(a);
    let killer = registry.insert_test_particle();
    let victim = PidGenerator::new(b).next();
    let mut host = HostState::new(killer, None, PolicySet::empty());
    host.set_endpoint(Some(a));
    host.set_peers(true);

    let effects =
        host.exit_signal(&mut registry, &Destination::Pid(Some(victim)), ExitReason::Kill);
    assert_eq!(
        effects,
        vec![Effect::Send(
            b,
            PeerMessage::ExitSignal {
                from: killer,
                to: Addressee::Pid(victim),
                reason: ExitReason::Kill,
            }
        )]
    );
    let (delivery, action) = begin_delivery(false);
    assert_eq!(action, LinkAction::Open);
    let (_, action) = continue_delivery(delivery, LinkEvent::OpenFailed);
    assert_eq!(action, LinkAction::Dropped);
    assert!(registry.particle_exists(&killer), "the sender is unaffected");
}

/// A supervised application, run to the point where the supervisor only waits, or has given up.
struct Tree {
    registry: ParticleRegistry,
    root: Pid,
    driver: Driver,
}

impl Tree {
    fn start(intensity: u32, decls: Vec<ChildDecl>) -> Tree {
        let mut registry = a_registry(a_node());
        registry.register_component("supervised", PolicySet::all());
        let root = begin_child_spawn(&mut registry, "supervised", Some("root")).unwrap();
        registry.set_trap_exit(&root, true);
        let driver = Driver::new(flags("one-for-one", intensity), children(&decls));
        Tree { registry, root, driver }
    }

    fn run(&mut self) {
        loop {
            match self.driver.next_step(0) {
                Step::Spawn(spec) => {
                    let pid =
                        begin_linked_spawn(&mut self.registry, &self.root, "supervised", None)
                            .unwrap();
                    self.driver.child_spawned(spec.id, pid.to_text());
                    if spec.start.init_args.contains("crasher") {
                        let reason = ExitReason::Exception("deliberate".to_string());
                        self.registry.exit_particle(&pid, reason);
                    } else if spec.start.init_args.contains("finisher") {
                        self.registry.exit_particle(&pid, ExitReason::Normal);
                    }
                }
                Step::Kill(_) | Step::AskToStop(_) | Step::Skip => {}
                Step::GiveUp => {
                    let reason = ExitReason::Shutdown("shutdown".to_string());
                    self.registry.exit_particle(&self.root, reason);
                    return;
                }
                Step::Wait(_) => match self.registry.recv(&self.root) {
                    Received::Message(MailboxMessage::Exit { from, reason }) => {
                        self.driver.on_exit(&from.to_text(), &reason, 0);
                    }
                    Received::Message(_) => {}
                    Received::Closed | Received::Empty => return,
                },
            }
        }
    }
}

fn decl(id: &str, role: &str, restart: &str) -> ChildDecl {
    ChildDecl { id: id.to_string(), role: role.to_string(), restart: restart.to_string() }
}

#[test]
fn test_a_supervisor_starts_its_children() {
    let mut tree = Tree::start(
        5,
        vec![decl("a", "worker", "permanent"), decl("b", "worker", "permanent")],
    );
    tree.run();
    assert!(tree.registry.particle_count() >= 3);
}

#[test]
fn test_a_crashed_child_is_restarted() {
    let mut tree = Tree::start(3, vec![decl("boom", "crasher", "permanent")]);
    tree.run();
    assert_eq!(tree.registry.particle_count(), 0, "the supervisor should have given up");
    let deaths = tree.registry.take_deaths();
    assert_eq!(deaths.len(), 5, "the child, three restarts, and the supervisor");
}

#[test]
fn test_a_finished_temporary_child_is_not_restarted() {
    let mut tree = Tree::start(
        5,
        vec![decl("keeper", "worker", "permanent"), decl("once", "finisher", "temporary")],
    );
    tree.run();
    assert_eq!(tree.registry.particle_count(), 2);
}

fn collapse(restart_type: &str) -> Option<u8> {
    let manifest = Manifest::from_toml(&format!(
        "name = \"demo\"\nroot = \"supervised\"\ntype = \"{restart_type}\"\ninit_args = ''\n"
    ))
    .unwrap();
    let mut tree = Tree::start(1, vec![decl("boom", "crasher", "permanent")]);
    tree.run();
    let deaths = tree.registry.take_deaths();
    let root = deaths.iter().find(|d| d.pid == tree.root).expect("the root exited");
    manifest.restart_type.exit_code(&root.reason)
}

#[test]
fn test_a_collapsed_tree_exits_the_node_non_zero() {
    assert_eq!(collapse("permanent"), Some(1));
}

#[test]
fn test_a_temporary_root_leaves_the_node_running() {
    assert_eq!(collapse("temporary"), None);
}

#[test]
fn a_host_knows_its_particle() {
    let a = a_node();
    let pid = PidGenerator::new(a).next();
    let mut host = HostState::new(pid, None, PolicySet::with_capabilities(&["log"]));
    assert_eq!(host.name(), None);
    host.set_name(Some("echo".to_string()));
    assert_eq!(host.name(), Some("echo"));
    assert_eq!(*host.pid(), pid);
    assert!(host.capabilities().allows("log"));
    assert_eq!(host.endpoint(), None);
    assert_eq!(host.self_node(), "");
    host.set_endpoint(Some(a));
    assert_eq!(host.endpoint(), Some(a));
    assert_eq!(host.self_node(), a.to_hex());
    assert!(!host.has_peers());
}
