//! Membership, overlapping partitions, and nodes that talk to each other.

use plasmoid::cluster::{Cluster, QUARANTINE};
use plasmoid::host::{Destination, HostState};
use plasmoid::invoke::{route_spawn, SpawnRoute};
use plasmoid::mailbox::{MailboxMessage, Received};
use plasmoid::message::ExitReason;
use plasmoid::partitions::{Partitions, SEEN_RETENTION};
use plasmoid::pid::{NodeId, Pid, PidGenerator};
use plasmoid::policy::PolicySet;
use plasmoid::protocol::{handle_peer_message, join, on_connection};
use plasmoid::registry::ParticleRegistry;
use plasmoid::signals::{forward_death, on_node_lost};
use plasmoid::transport::{Addressee, Effect, Envelope, PeerMessage};

fn a_node() -> NodeId {
    NodeId::from_bytes(iroh::SecretKey::generate().public().as_bytes()).unwrap()
}

#[test]
fn test_learning_reports_only_what_was_new() {
    let me = a_node();
    let mut cluster = Cluster::new(me);
    let a = a_node();
    let b = a_node();

    assert_eq!(cluster.learn(&vec![a], 0), vec![a]);
    assert!(
        cluster.learn(&vec![a], 0).is_empty(),
        "re-learning a known node must report nothing, or announcements circulate forever"
    );

    let new = cluster.learn(&vec![a, b], 0);
    assert_eq!(new, vec![b], "only the genuinely new node is reported");
}

#[test]
fn test_a_node_is_never_its_own_peer() {
    let me = a_node();
    let mut cluster = Cluster::new(me);

    assert!(
        cluster.learn(&vec![me], 0).is_empty(),
        "learning about ourselves must be a no-op"
    );
    assert!(cluster.nodes().is_empty());
    assert!(!cluster.contains(&me));
}

#[test]
fn test_forgetting_a_lost_node() {
    let mut cluster = Cluster::new(a_node());
    let gone = a_node();
    let kept = a_node();
    cluster.learn(&vec![gone, kept], 0);

    assert!(cluster.forget(&gone));
    assert!(
        !cluster.forget(&gone),
        "forgetting twice reports nothing the second time"
    );

    assert!(!cluster.contains(&gone));
    assert!(cluster.contains(&kept), "others are unaffected");
}

#[test]
fn test_a_quarantined_node_cannot_be_relearned() {
    let mut cluster = Cluster::new(a_node());
    let dropped = a_node();
    let other = a_node();
    cluster.learn(&vec![dropped, other], 0);

    assert!(cluster.quarantine(&dropped, 0), "it had been a member");
    assert!(!cluster.contains(&dropped));

    assert!(
        cluster.learn(&vec![dropped], 0).is_empty(),
        "an Announce naming it must not bring it back"
    );
    assert!(!cluster.contains(&dropped));

    assert_eq!(
        cluster.learn(&vec![dropped, other, a_node()], 0).len(),
        1,
        "only the quarantined node is filtered; others learn normally"
    );
}

#[test]
fn test_quarantine_expires() {
    let mut cluster = Cluster::new(a_node());
    let node = a_node();

    cluster.quarantine(&node, 0);
    assert!(cluster.is_quarantined(&node, 0));
    assert!(cluster.is_quarantined(&node, QUARANTINE - 1));

    assert!(!cluster.is_quarantined(&node, QUARANTINE + 1));
    assert_eq!(
        cluster.learn(&vec![node], QUARANTINE + 1),
        vec![node],
        "once the window passes the node is learnable again"
    );
}

#[test]
fn test_quarantining_a_node_we_never_knew() {
    let mut cluster = Cluster::new(a_node());
    let stranger = a_node();

    assert!(
        !cluster.quarantine(&stranger, 0),
        "it was not a member, and saying so is how the caller logs honestly"
    );
    assert!(cluster.learn(&vec![stranger], 0).is_empty());
}

#[test]
fn test_a_forgotten_node_can_rejoin() {
    let mut cluster = Cluster::new(a_node());
    let node = a_node();

    cluster.learn(&vec![node], 0);
    cluster.forget(&node);

    assert_eq!(
        cluster.learn(&vec![node], 0),
        vec![node],
        "a returning node is new again, with no trace of having left"
    );
}

#[test]
fn test_a_flooded_report_is_acted_on_once() {
    let mut partitions = Partitions::new(a_node());
    let (reporter, lost) = (a_node(), a_node());

    assert!(partitions.accept(reporter, lost, 1, 0));
    assert!(
        !partitions.accept(reporter, lost, 1, 0),
        "flooding delivers the same report many times; acting twice would re-broadcast forever"
    );
    assert!(!partitions.accept(reporter, lost, 1, 0));
}

#[test]
fn test_a_later_loss_between_the_same_pair_is_acted_on() {
    let mut partitions = Partitions::new(a_node());
    let (reporter, lost) = (a_node(), a_node());

    assert!(partitions.accept(reporter, lost, 1, 0));
    assert!(partitions.accept(reporter, lost, 2, 0));
}

#[test]
fn test_a_stale_report_is_ignored() {
    let mut partitions = Partitions::new(a_node());
    let (reporter, lost) = (a_node(), a_node());

    assert!(partitions.accept(reporter, lost, 5, 0));
    assert!(
        !partitions.accept(reporter, lost, 4, 0),
        "an op id we have already passed must not re-trigger"
    );
}

#[test]
fn test_reports_about_different_pairs_are_independent() {
    let mut partitions = Partitions::new(a_node());
    let (a, b, c) = (a_node(), a_node(), a_node());

    assert!(partitions.accept(a, b, 1, 0));
    assert!(
        partitions.accept(a, c, 1, 0),
        "the same op id from one reporter about a different node is a different loss"
    );
    assert!(partitions.accept(c, b, 1, 0));
}

#[test]
fn test_op_ids_are_monotonic() {
    let mut partitions = Partitions::new(a_node());
    let first = partitions.next_op_id();
    let second = partitions.next_op_id();
    assert!(second > first);
}

#[test]
fn an_old_report_is_forgotten_in_the_end() {
    let mut partitions = Partitions::new(a_node());
    let (reporter, lost) = (a_node(), a_node());
    assert!(partitions.accept(reporter, lost, 5, 0));
    assert!(!partitions.accept(reporter, lost, 5, SEEN_RETENTION - 1));
    let mut partitions = Partitions::new(a_node());
    assert!(partitions.accept(reporter, lost, 5, 0));
    assert!(partitions.accept(reporter, lost, 5, SEEN_RETENTION + 1));
}

/// A node, without its network.
struct Node {
    id: NodeId,
    registry: ParticleRegistry,
    cluster: Cluster,
    partitions: Partitions,
    dropped: Vec<NodeId>,
}

impl Node {
    fn new() -> Node {
        let id = a_node();
        Node {
            id,
            registry: ParticleRegistry::new(PidGenerator::new(id)),
            cluster: Cluster::new(id),
            partitions: Partitions::new(id),
            dropped: Vec::new(),
        }
    }

    fn hear(&mut self, msg: PeerMessage) -> Vec<Effect> {
        handle_peer_message(
            msg,
            &mut self.registry,
            &mut self.cluster,
            &mut self.partitions,
            0,
        )
    }
}

/// Carries messages between nodes until nothing more is said.
fn settle(nodes: &mut [&mut Node], from: NodeId, effects: Vec<Effect>) {
    let mut queue: Vec<(NodeId, Effect)> = effects.into_iter().map(|e| (from, e)).collect();
    let mut steps = 0;
    while !queue.is_empty() {
        steps += 1;
        assert!(steps < 10_000, "messages circulate for ever");
        let (sender, effect) = queue.remove(0);
        match effect {
            Effect::Send(to, msg) => {
                for node in nodes.iter_mut() {
                    if node.id == to {
                        for e in on_connection(&mut node.cluster, sender, 0) {
                            queue.push((to, e));
                        }
                        let more = node.hear(clone_of(&msg));
                        for e in more {
                            queue.push((to, e));
                        }
                    }
                }
            }
            Effect::Disconnect(other) => {
                for node in nodes.iter_mut() {
                    if node.id == sender {
                        node.dropped.push(other);
                    }
                }
            }
        }
    }
}

fn clone_of(msg: &PeerMessage) -> PeerMessage {
    match msg {
        PeerMessage::Announce { nodes } => PeerMessage::Announce { nodes: nodes.clone() },
        PeerMessage::Exit { from, to, reason } => PeerMessage::Exit {
            from: *from,
            to: *to,
            reason: reason.clone(),
        },
        PeerMessage::Down { from, to, ref_id, reason } => PeerMessage::Down {
            from: *from,
            to: *to,
            ref_id: *ref_id,
            reason: reason.clone(),
        },
        PeerMessage::LostConnection { reporter, lost, op_id } => PeerMessage::LostConnection {
            reporter: *reporter,
            lost: *lost,
            op_id: *op_id,
        },
        PeerMessage::RemoveConnection { from } => PeerMessage::RemoveConnection { from: *from },
        other => panic!("not carried here: {other:?}"),
    }
}

#[test]
fn test_one_introduction_converges_a_full_mesh() {
    let (mut a, mut b, mut c) = (Node::new(), Node::new(), Node::new());
    let (ai, bi, ci) = (a.id, b.id, c.id);

    // B is introduced to A. C is introduced to A only, and is never told about B.
    let effects = join(&mut b.cluster, ai, 0);
    settle(&mut [&mut a, &mut b, &mut c], bi, effects);
    let effects = join(&mut c.cluster, ai, 0);
    settle(&mut [&mut a, &mut b, &mut c], ci, effects);

    assert!(b.cluster.contains(&ci) && c.cluster.contains(&bi));
    for (node, name) in [(&a, "A"), (&b, "B"), (&c, "C")] {
        let seen = node.cluster.nodes();
        assert_eq!(seen.len(), 2, "{name} should see exactly the other two");
        assert!(!seen.contains(&node.id), "{name} must not be its own peer");
    }
}

#[test]
fn test_a_remote_kill_is_untrappable() {
    let (mut a, mut b) = (Node::new(), Node::new());
    let killer = a.registry.insert_test_particle();
    let victim = b.registry.insert_test_particle();
    b.registry.set_trap_exit(&victim, true);

    b.hear(PeerMessage::ExitSignal {
        from: killer,
        to: Addressee::Pid(victim),
        reason: ExitReason::Kill,
    });

    assert!(
        !b.registry.particle_exists(&victim),
        "trapping exits must not survive a kill sent from another node"
    );
}

#[test]
fn a_monitor_from_another_node_can_be_given_up() {
    let (mut a, mut b) = (Node::new(), Node::new());
    let watcher = a.registry.insert_test_particle();
    let target = b.registry.insert_test_particle();
    let (given_up, kept) = (a.registry.make_ref(), a.registry.make_ref());
    for ref_id in [given_up, kept] {
        b.hear(PeerMessage::Monitor { watcher, target: Addressee::Pid(target), ref_id });
    }

    b.hear(PeerMessage::Demonitor { watcher, ref_id: given_up });
    b.registry.exit_particle(&target, ExitReason::Normal);

    let deaths = b.registry.take_deaths();
    assert_eq!(deaths.len(), 1);
    assert_eq!(deaths[0].remote_monitors, vec![(watcher, kept)]);
}

#[test]
fn test_a_remote_kill_can_name_its_target() {
    let (mut a, mut b) = (Node::new(), Node::new());
    let killer = a.registry.insert_test_particle();
    let victim = b.registry.insert_test_particle();
    b.registry.set_trap_exit(&victim, true);
    b.registry.register_name(&victim, "doomed").unwrap();

    b.hear(PeerMessage::ExitSignal {
        from: killer,
        to: Addressee::Name("doomed".to_string()),
        reason: ExitReason::Kill,
    });

    assert!(!b.registry.particle_exists(&victim), "a named target must be killable");
    assert!(
        b.registry.lookup_name("doomed").is_none(),
        "the name must go with the particle"
    );
}

#[test]
fn test_a_remote_shutdown_is_still_trappable() {
    let (mut a, mut b) = (Node::new(), Node::new());
    let sender = a.registry.insert_test_particle();
    let target = b.registry.insert_test_particle();
    b.registry.set_trap_exit(&target, true);

    b.hear(PeerMessage::ExitSignal {
        from: sender,
        to: Addressee::Pid(target),
        reason: ExitReason::Shutdown("please stop".into()),
    });

    assert_eq!(
        b.registry.recv(&target),
        Received::Message(MailboxMessage::Exit {
            from: sender,
            reason: ExitReason::Shutdown("please stop".into())
        })
    );
    assert!(b.registry.particle_exists(&target), "and it should still be running");
}

#[test]
fn test_a_remote_kill_propagates_killed_to_links() {
    let (mut a, mut b) = (Node::new(), Node::new());
    let killer = a.registry.insert_test_particle();
    let victim = b.registry.insert_test_particle();
    let watcher = b.registry.insert_test_particle();
    b.registry.set_trap_exit(&watcher, true);
    b.registry.link(&victim, &watcher).unwrap();

    b.hear(PeerMessage::ExitSignal {
        from: killer,
        to: Addressee::Pid(victim),
        reason: ExitReason::Kill,
    });

    assert_eq!(
        b.registry.recv(&watcher),
        Received::Message(MailboxMessage::Exit { from: victim, reason: ExitReason::Killed }),
        "links inherit `killed`, not `kill` and not `shutdown`"
    );
}

#[test]
fn a_link_to_a_missing_particle_ends_as_a_death_would() {
    let (mut a, mut b) = (Node::new(), Node::new());
    let watcher = a.registry.insert_test_particle();
    a.registry.set_trap_exit(&watcher, true);

    let effects = b.hear(PeerMessage::Link {
        from: watcher,
        to: Addressee::Name("nobody".to_string()),
    });
    let bi = b.id;
    settle(&mut [&mut a, &mut b], bi, effects);

    match a.registry.recv(&watcher) {
        Received::Message(MailboxMessage::Exit { reason, .. }) => {
            assert_eq!(reason, ExitReason::NoProc)
        }
        other => panic!("expected an exit signal carrying noproc, got {other:?}"),
    }
}

#[test]
fn test_monitoring_a_missing_remote_particle_yields_noproc() {
    let (mut a, mut b) = (Node::new(), Node::new());
    let watcher = a.registry.insert_test_particle();

    let effects = b.hear(PeerMessage::Monitor {
        watcher,
        target: Addressee::Name("nobody".to_string()),
        ref_id: 42,
    });
    let bi = b.id;
    settle(&mut [&mut a, &mut b], bi, effects);

    match a.registry.recv(&watcher) {
        Received::Message(MailboxMessage::Down { ref_id, reason, .. }) => {
            assert_eq!(ref_id, 42, "the down must carry the ref the caller was given");
            assert_eq!(reason, ExitReason::NoProc);
        }
        other => panic!("expected a down signal carrying noproc, got {other:?}"),
    }
}

#[test]
fn ties_to_a_particle_that_is_gone_are_answered_like_ties_to_a_missing_name() {
    let (mut a, mut b) = (Node::new(), Node::new());
    let watcher = a.registry.insert_test_particle();
    a.registry.set_trap_exit(&watcher, true);
    let gone = b.registry.insert_test_particle();
    b.registry.exit_particle(&gone, ExitReason::Normal);

    let mut effects = b.hear(PeerMessage::Link { from: watcher, to: Addressee::Pid(gone) });
    effects.extend(b.hear(PeerMessage::Monitor {
        watcher,
        target: Addressee::Pid(gone),
        ref_id: 8,
    }));
    let bi = b.id;
    settle(&mut [&mut a, &mut b], bi, effects);
    assert_eq!(
        a.registry.recv_ref(&watcher, 8),
        Received::Message(MailboxMessage::Down {
            from: watcher,
            ref_id: 8,
            reason: ExitReason::NoProc
        })
    );
    assert_eq!(
        a.registry.recv(&watcher),
        Received::Message(MailboxMessage::Exit { from: watcher, reason: ExitReason::NoProc })
    );

    // And so it is on one node.
    let mut state = HostState::new(watcher, None, PolicySet::all());
    state.set_endpoint(Some(a.id));
    let here = a.registry.insert_test_particle();
    a.registry.exit_particle(&here, ExitReason::Normal);
    let (r, effects) = state.monitor(&mut a.registry, &Destination::Pid(Some(here)));
    assert!(effects.is_empty());
    assert_eq!(
        a.registry.recv_ref(&watcher, r),
        Received::Message(MailboxMessage::Down {
            from: watcher,
            ref_id: r,
            reason: ExitReason::NoProc
        })
    );
    state.link(&mut a.registry, &Destination::Pid(Some(here)));
    assert_eq!(
        a.registry.recv(&watcher),
        Received::Message(MailboxMessage::Exit { from: watcher, reason: ExitReason::NoProc })
    );
}

#[test]
fn a_remote_death_reaches_a_linked_particle_that_traps() {
    let (mut a, mut b) = (Node::new(), Node::new());
    let watcher = a.registry.insert_test_particle();
    a.registry.set_trap_exit(&watcher, true);
    let target = b.registry.insert_test_particle();

    // Both halves, as the runtime records them.
    a.registry.link_remote(&watcher, target);
    b.registry.link_remote(&target, watcher);

    b.registry.exit_particle(&target, ExitReason::Exception("boom".into()));
    let deaths = b.registry.take_deaths();
    let effects = forward_death(&deaths[0]);
    let bi = b.id;
    settle(&mut [&mut a, &mut b], bi, effects);

    assert_eq!(
        a.registry.recv(&watcher),
        Received::Message(MailboxMessage::Exit {
            from: target,
            reason: ExitReason::Exception("boom".into())
        })
    );
}

#[test]
fn test_a_remote_monitor_fires_on_death() {
    let (mut a, mut b) = (Node::new(), Node::new());
    let watcher = a.registry.insert_test_particle();
    let target = b.registry.insert_test_particle();

    a.registry.monitor_remote(&watcher, target, 7);
    b.registry.monitor_remote(&watcher, target, 7);

    b.registry.exit_particle(&target, ExitReason::Normal);
    let deaths = b.registry.take_deaths();
    let effects = forward_death(&deaths[0]);
    let bi = b.id;
    settle(&mut [&mut a, &mut b], bi, effects);

    match a.registry.recv(&watcher) {
        Received::Message(MailboxMessage::Down { ref_id, reason, .. }) => {
            assert_eq!(ref_id, 7);
            assert_eq!(reason, ExitReason::Normal);
        }
        other => panic!("a monitor must fire on a remote death, got {other:?}"),
    }
}

#[test]
fn losing_a_node_fires_every_relationship_of_a_particle_that_traps() {
    let (mut a, mut b) = (Node::new(), Node::new());
    let watcher = a.registry.insert_test_particle();
    a.registry.set_trap_exit(&watcher, true);
    let t1 = b.registry.insert_test_particle();
    let t2 = b.registry.insert_test_particle();
    a.registry.link_remote(&watcher, t1);
    a.registry.link_remote(&watcher, t2);
    a.registry.monitor_remote(&watcher, t1, 11);

    on_node_lost(&mut a.registry, &b.id);

    let mut exits = 0;
    let mut downs = 0;
    for _ in 0..3 {
        match a.registry.recv(&watcher) {
            Received::Message(MailboxMessage::Exit { reason, .. }) => {
                assert_eq!(reason, ExitReason::NoConnection);
                exits += 1;
            }
            Received::Message(MailboxMessage::Down { reason, .. }) => {
                assert_eq!(reason, ExitReason::NoConnection);
                downs += 1;
            }
            other => panic!("expected a noconnection signal, got {other:?}"),
        }
    }
    assert_eq!(exits, 2, "both links should fire");
    assert_eq!(downs, 1, "the monitor should fire too");
    assert_eq!(a.registry.recv(&watcher), Received::Empty);
}

#[test]
fn losing_a_node_kills_a_linked_particle_that_does_not_trap() {
    let mut a = Node::new();
    let here = a.registry.insert_test_particle();
    let there = Pid { node: a_node(), seq: 1 };
    a.registry.link_remote(&here, there);
    on_node_lost(&mut a.registry, &there.node);
    assert!(!a.registry.particle_exists(&here));
}

fn deliver(to: Addressee, ref_id: Option<u64>, payload: &[u8]) -> PeerMessage {
    PeerMessage::Deliver(Envelope { target: to, ref_id, payload: payload.to_vec() })
}

#[test]
fn test_message_reaches_a_particle_on_another_node() {
    let mut b = Node::new();
    let target = b.registry.insert_test_particle();
    b.hear(deliver(Addressee::Pid(target), None, b"hello across the wire"));
    assert_eq!(
        b.registry.recv(&target),
        Received::Message(MailboxMessage::Data(b"hello across the wire".to_vec()))
    );
}

#[test]
fn test_cross_node_messages_arrive_in_send_order() {
    let mut b = Node::new();
    let target = b.registry.insert_test_particle();
    for i in 0..500u32 {
        b.hear(deliver(Addressee::Pid(target), None, &i.to_le_bytes()));
    }
    for expected in 0..500u32 {
        assert_eq!(
            b.registry.recv(&target),
            Received::Message(MailboxMessage::Data(expected.to_le_bytes().to_vec()))
        );
    }
}

#[test]
fn test_tagged_messages_cross_the_boundary_too() {
    let mut b = Node::new();
    let target = b.registry.insert_test_particle();
    b.hear(deliver(Addressee::Pid(target), Some(99), b"reply-to-me"));
    assert_eq!(
        b.registry.recv(&target),
        Received::Message(MailboxMessage::Tagged {
            ref_id: 99,
            payload: b"reply-to-me".to_vec()
        })
    );
}

#[test]
fn test_sending_to_a_dead_remote_particle_is_silently_dropped() {
    let mut b = Node::new();
    let ghost = Pid { node: b.id, seq: u64::MAX };
    assert!(b.hear(deliver(Addressee::Pid(ghost), None, b"into the void")).is_empty());
    let live = b.registry.insert_test_particle();
    b.hear(deliver(Addressee::Pid(live), None, b"still here"));
    assert_eq!(
        b.registry.recv(&live),
        Received::Message(MailboxMessage::Data(b"still here".to_vec()))
    );
}

#[test]
fn test_a_named_destination_is_resolved_on_the_receiving_node() {
    let mut b = Node::new();
    let pid = b.registry.insert_test_particle();
    b.registry.register_name(&pid, "counter").unwrap();
    b.hear(deliver(Addressee::Name("counter".to_string()), None, b"by name"));
    assert_eq!(
        b.registry.recv(&pid),
        Received::Message(MailboxMessage::Data(b"by name".to_vec()))
    );
}

#[test]
fn test_an_unregistered_name_is_dropped_not_errored() {
    let mut b = Node::new();
    let effects = b.hear(deliver(
        Addressee::Name("nobody-here".to_string()),
        None,
        b"into the void",
    ));
    assert!(effects.is_empty());
}

#[test]
fn test_runtime_routes_a_particle_send_to_the_right_node() {
    let (mut a, mut b) = (Node::new(), Node::new());
    let me = a.registry.insert_test_particle();
    let local = a.registry.insert_test_particle();
    let remote = b.registry.insert_test_particle();
    let mut state = HostState::new(me, None, PolicySet::all());
    state.set_endpoint(Some(a.id));
    state.set_peers(true);

    let effects = state.deliver_to(
        &mut a.registry,
        &Destination::Pid(Some(local)),
        None,
        b"local delivery".to_vec(),
    );
    assert!(effects.is_empty());
    assert_eq!(
        a.registry.recv(&local),
        Received::Message(MailboxMessage::Data(b"local delivery".to_vec()))
    );

    let effects = state.deliver_to(
        &mut a.registry,
        &Destination::Pid(Some(remote)),
        None,
        b"remote delivery".to_vec(),
    );
    assert_eq!(
        effects,
        vec![Effect::Send(b.id, deliver(Addressee::Pid(remote), None, b"remote delivery"))]
    );
}

#[test]
fn test_a_pid_knows_which_node_it_belongs_to() {
    let mut a = Node::new();
    let pid = a.registry.insert_test_particle();
    let mut state = HostState::new(pid, None, PolicySet::all());
    state.set_endpoint(Some(a.id));
    let hex = state.node_of(Some(pid));
    assert_eq!(hex.len(), 64, "node-of must expose the full 32-byte node id");
    assert_eq!(hex, a.id.to_hex());
    assert_eq!(state.self_node(), hex);
}

#[test]
fn a_spawn_goes_to_the_node_that_it_names() {
    let (me, other) = (a_node(), a_node());
    assert_eq!(route_spawn(Some(me), &me.to_hex()), SpawnRoute::Local);
    assert_eq!(route_spawn(Some(me), &other.to_hex()), SpawnRoute::Remote(other));
    assert_eq!(route_spawn(Some(me), "nowhere"), SpawnRoute::Unreachable);
    assert_eq!(route_spawn(None, &other.to_hex()), SpawnRoute::Unreachable);
}

/// C, clustered with A and B.
fn clustered() -> (Node, NodeId, NodeId) {
    let mut c = Node::new();
    let (a, b) = (a_node(), a_node());
    c.cluster.learn(&vec![a, b], 0);
    (c, a, b)
}

#[test]
fn test_a_reported_loss_ejects_the_node_reported_lost() {
    let (mut c, a, b) = clustered();
    c.hear(PeerMessage::LostConnection { reporter: a, lost: b, op_id: 1 });
    assert!(
        !c.cluster.contains(&b),
        "C must drop the node reported lost, or it bridges an overlapping partition"
    );
    assert!(c.cluster.contains(&a), "the reporter is not the one dropped");
}

#[test]
fn test_both_endpoints_are_ejected_when_both_report() {
    let (mut c, a, b) = clustered();
    c.hear(PeerMessage::LostConnection { reporter: a, lost: b, op_id: 1 });
    c.hear(PeerMessage::LostConnection { reporter: b, lost: a, op_id: 1 });
    assert!(c.cluster.nodes().is_empty(), "one broken link ejects both of its endpoints");
}

#[test]
fn test_an_ejected_node_is_not_relearned_from_an_announce() {
    let (mut c, a, b) = clustered();
    c.hear(PeerMessage::LostConnection { reporter: a, lost: b, op_id: 1 });
    for _ in 0..3 {
        c.hear(PeerMessage::Announce { nodes: vec![b] });
    }
    assert!(
        !c.cluster.contains(&b),
        "an Announce naming a quarantined node must not bring it back"
    );
}

#[test]
fn test_a_repeated_report_does_not_amplify() {
    let (mut c, a, b) = clustered();
    let first = c.hear(PeerMessage::LostConnection { reporter: a, lost: b, op_id: 1 });
    assert!(!first.is_empty());
    for _ in 0..9 {
        let more = c.hear(PeerMessage::LostConnection { reporter: a, lost: b, op_id: 1 });
        assert!(more.is_empty(), "a copy of a report is not passed on");
    }
    assert_eq!(c.cluster.nodes(), vec![a]);
}

#[test]
fn test_a_node_told_it_was_lost_drops_the_reporter() {
    let (mut c, a, _) = clustered();
    let me = c.id;
    c.hear(PeerMessage::LostConnection { reporter: a, lost: me, op_id: 1 });
    assert!(
        !c.cluster.contains(&a),
        "being reported lost must drop the reporter, not be ignored"
    );
}

#[test]
fn test_remove_connection_drops_the_sender() {
    let (mut c, a, _) = clustered();
    let effects = c.hear(PeerMessage::RemoveConnection { from: a });
    assert!(!c.cluster.contains(&a), "a peer asking to be dropped must be dropped");
    let me = c.id;
    assert_eq!(
        effects,
        vec![
            Effect::Send(a, PeerMessage::RemoveConnection { from: me }),
            Effect::Disconnect(a),
        ]
    );
    assert_eq!(
        c.hear(PeerMessage::RemoveConnection { from: a }),
        vec![Effect::Disconnect(a)],
        "one that was dropped already is not asked again"
    );
}

#[test]
fn nodes_that_drop_each_other_come_to_rest() {
    let (mut a, mut b) = (Node::new(), Node::new());
    let (ai, bi) = (a.id, b.id);
    let effects = join(&mut b.cluster, ai, 0);
    settle(&mut [&mut a, &mut b], bi, effects);
    let stranger = a_node();
    let effects = a.hear(PeerMessage::LostConnection { reporter: stranger, lost: bi, op_id: 1 });
    settle(&mut [&mut a, &mut b], ai, effects);
    assert!(!a.cluster.contains(&bi) && !b.cluster.contains(&ai));
    assert!(a.dropped.contains(&bi) && b.dropped.contains(&ai));
}
