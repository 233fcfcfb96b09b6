//! The local registry: particles, names, links, monitors and deaths.

use plasmoid::mailbox::{MailboxMessage, Received, SpawnFailure};
use plasmoid::message::{ExitReason, SystemMessage};
use plasmoid::pid::{NodeId, Pid, PidGenerator};
use plasmoid::policy::PolicySet;
use plasmoid::registry::{ParticleRegistry, RegistryError, SendError};

fn a_node() -> NodeId {
    NodeId::from_bytes(iroh::SecretKey::generate().public().as_bytes()).unwrap()
}

fn make_registry() -> ParticleRegistry {
    ParticleRegistry::new(PidGenerator::new(a_node()))
}

fn message(r: Received) -> MailboxMessage {
    match r {
        Received::Message(m) => m,
        other => panic!("expected a message, got {:?}", other),
    }
}

fn next_exit_reason(registry: &mut ParticleRegistry, pid: &Pid) -> ExitReason {
    match message(registry.recv(pid)) {
        MailboxMessage::Exit { reason, .. } => reason,
        other => panic!("expected an Exit message, got {other:?}"),
    }
}

#[test]
fn test_exit_broadcasts_death() {
    let mut registry = make_registry();
    let pid = registry.insert_test_particle();

    registry.exit_particle(&pid, ExitReason::Normal);

    let deaths = registry.take_deaths();
    assert_eq!(deaths.len(), 1);
    assert_eq!(deaths[0].pid, pid);
    assert_eq!(deaths[0].name, None);
}

#[test]
fn test_death_carries_registered_name() {
    let mut registry = make_registry();
    registry.register_component("test", PolicySet::all());
    let pid = registry.spawn("test", Some("counter"), None).unwrap();

    registry.exit_particle(&pid, ExitReason::Normal);

    // The name must ride along on the event: by the time a subscriber reacts,
    // it cannot be looked up any more.
    let deaths = registry.take_deaths();
    assert_eq!(deaths[0].name.as_deref(), Some("counter"));
    assert_eq!(registry.lookup_name("counter"), None);
}

#[test]
fn test_exiting_twice_broadcasts_once() {
    let mut registry = make_registry();
    let pid = registry.insert_test_particle();

    registry.exit_particle(&pid, ExitReason::Normal);
    registry.exit_particle(&pid, ExitReason::Normal);

    assert_eq!(
        registry.take_deaths().len(),
        1,
        "a second exit of the same pid must not broadcast again"
    );
    assert!(registry.take_deaths().is_empty());
}

#[test]
fn test_cascading_exit_broadcasts_each_death() {
    let mut registry = make_registry();
    let pid_a = registry.insert_test_particle();
    let pid_b = registry.insert_test_particle();
    registry.link(&pid_a, &pid_b).unwrap();

    // b is not trapping exits, so an abnormal exit of a cascades into b.
    registry.exit_particle(&pid_a, ExitReason::Exception("crash".into()));

    let dead: Vec<Pid> = registry.take_deaths().iter().map(|d| d.pid).collect();
    assert!(dead.contains(&pid_a), "origin death should broadcast");
    assert!(
        dead.contains(&pid_b),
        "link-propagated death should broadcast too"
    );
}

#[test]
fn test_a_remote_exit_kills_a_non_trapping_particle() {
    let mut registry = make_registry();
    let pid = registry.insert_test_particle();
    let remote = Pid { node: a_node(), seq: 1 };

    registry.apply_inherited_exit(&pid, &remote, ExitReason::Exception("boom".into()));

    assert!(
        !registry.particle_exists(&pid),
        "a non-trapping particle must die on an abnormal remote exit"
    );
}

#[test]
fn test_a_trapping_particle_receives_a_remote_exit_instead() {
    let mut registry = make_registry();
    let pid = registry.insert_test_particle();
    registry.set_trap_exit(&pid, true);
    let remote = Pid { node: a_node(), seq: 1 };

    registry.apply_inherited_exit(&pid, &remote, ExitReason::Exception("boom".into()));

    assert!(registry.particle_exists(&pid), "a trapping particle survives");
    match message(registry.recv(&pid)) {
        MailboxMessage::Exit { from, .. } => assert_eq!(from, remote),
        other => panic!("expected an exit message, got {other:?}"),
    }
}

#[test]
fn test_a_normal_remote_exit_does_not_kill_a_non_trapping_particle() {
    let mut registry = make_registry();
    let pid = registry.insert_test_particle();
    let remote = Pid { node: a_node(), seq: 1 };

    registry.apply_inherited_exit(&pid, &remote, ExitReason::Normal);

    assert!(
        registry.particle_exists(&pid),
        "a normal exit is ignored by a non-trapping particle, as locally"
    );
}

#[test]
fn test_spawn_returns_mailbox() {
    let mut registry = make_registry();
    let pid = registry.insert_test_particle();
    assert!(registry.particle_exists(&pid));
    assert_eq!(registry.recv(&pid), Received::Empty);
}

#[test]
fn test_send_and_receive() {
    let mut registry = make_registry();
    let pid = registry.insert_test_particle();

    registry.send_to_pid(&pid, b"hello".to_vec()).unwrap();

    match message(registry.recv(&pid)) {
        MailboxMessage::Data(data) => assert_eq!(data, b"hello"),
        other => panic!("expected Data, got {:?}", other),
    }
}

#[test]
fn test_link_and_exit_propagation() {
    let mut registry = make_registry();
    let pid_a = registry.insert_test_particle();
    let pid_b = registry.insert_test_particle();

    registry.link(&pid_a, &pid_b).unwrap();
    registry.exit_particle(&pid_a, ExitReason::Exception("crash".into()));

    // b should be killed (cascade) since it doesn't trap exits
    assert!(!registry.particle_exists(&pid_b));
}

#[test]
fn test_normal_exit_no_propagation() {
    let mut registry = make_registry();
    let pid_a = registry.insert_test_particle();
    let pid_b = registry.insert_test_particle();

    registry.link(&pid_a, &pid_b).unwrap();
    registry.exit_particle(&pid_a, ExitReason::Normal);

    // b should still be alive (normal exit doesn't kill non-trapping peers)
    assert!(registry.particle_exists(&pid_b));
}

#[test]
fn test_trap_exit() {
    let mut registry = make_registry();
    let pid_a = registry.insert_test_particle();
    let pid_b = registry.insert_test_particle();

    registry.set_trap_exit(&pid_b, true);
    assert!(registry.traps_exits(&pid_b));
    registry.link(&pid_a, &pid_b).unwrap();
    registry.exit_particle(&pid_a, ExitReason::Exception("crash".into()));

    // b should still be alive (trapping)
    assert!(registry.particle_exists(&pid_b));

    // b should have received an Exit system message
    match message(registry.recv(&pid_b)) {
        MailboxMessage::Exit { from, reason } => {
            assert_eq!(from, pid_a);
            assert_eq!(reason, ExitReason::Exception("crash".into()));
        }
        other => panic!("expected Exit, got {:?}", other),
    }
}

#[test]
fn test_monitor_down() {
    let mut registry = make_registry();
    let target_pid = registry.insert_test_particle();
    let watcher_pid = registry.insert_test_particle();

    let monitor_ref = registry.monitor(&watcher_pid, &target_pid).unwrap();
    registry.exit_particle(&target_pid, ExitReason::Shutdown("bye".into()));

    match message(registry.recv(&watcher_pid)) {
        MailboxMessage::Down { from, ref_id, reason } => {
            assert_eq!(from, target_pid);
            assert_eq!(ref_id, monitor_ref);
            assert_eq!(reason, ExitReason::Shutdown("bye".into()));
        }
        other => panic!("expected Down, got {:?}", other),
    }
}

#[test]
fn test_register_unregister_name() {
    let mut registry = make_registry();
    let pid = registry.insert_test_particle();

    // Register
    registry.register_name(&pid, "test_proc").unwrap();
    assert_eq!(registry.lookup_name("test_proc"), Some(pid));

    // Duplicate registration should fail
    let pid2 = registry.insert_test_particle();
    assert_eq!(
        registry.register_name(&pid2, "test_proc"),
        Err(RegistryError::NameTaken)
    );

    // Unregister by wrong particle should fail
    assert_eq!(
        registry.unregister_name(&pid2, "test_proc"),
        Err(RegistryError::NotOwner)
    );

    // Unregister by owner should succeed
    registry.unregister_name(&pid, "test_proc").unwrap();
    assert_eq!(registry.lookup_name("test_proc"), None);

    // Unregister nonexistent should fail
    assert_eq!(
        registry.unregister_name(&pid, "test_proc"),
        Err(RegistryError::UnknownName)
    );
}

#[test]
fn test_name_uniqueness() {
    let mut registry = make_registry();

    // Without a registered behavior, spawn should fail
    assert_eq!(
        registry.spawn("echo", Some("echo"), None),
        Err(RegistryError::UnknownComponent)
    );

    registry.register_component("echo", PolicySet::empty());
    let pid = registry.spawn("echo", Some("echo"), None).unwrap();
    assert_eq!(
        registry.spawn("echo", Some("echo"), None),
        Err(RegistryError::NameTaken)
    );
    assert_eq!(registry.get_by_name("echo"), Some(pid));
}

#[test]
fn test_send_no_particle() {
    let mut registry = make_registry();
    let fake_pid = registry.next_pid();

    let result = registry.send_to_pid(&fake_pid, b"hello".to_vec());
    assert_eq!(result, Err(SendError::NoParticle));
    assert_eq!(
        registry.send_tagged_to_pid(&fake_pid, 1, b"hello".to_vec()),
        Err(SendError::NoParticle)
    );
}

#[test]
fn test_monitor_dead_particle() {
    let mut registry = make_registry();
    let watcher_pid = registry.insert_test_particle();
    let dead_pid = registry.next_pid();

    // Monitor a particle that doesn't exist
    let monitor_ref = registry.monitor(&watcher_pid, &dead_pid).unwrap();

    // Should immediately receive Down
    match message(registry.recv(&watcher_pid)) {
        MailboxMessage::Down { from, ref_id, reason } => {
            assert_eq!(from, dead_pid);
            assert_eq!(ref_id, monitor_ref);
            assert_eq!(reason, ExitReason::Normal);
        }
        other => panic!("expected Down, got {:?}", other),
    }
}

#[test]
fn test_an_inherited_kill_is_trappable() {
    let mut registry = make_registry();
    let pid_a = registry.insert_test_particle();
    let pid_b = registry.insert_test_particle();

    registry.set_trap_exit(&pid_b, true);
    registry.link(&pid_a, &pid_b).unwrap();

    registry.exit_particle(&pid_a, ExitReason::Kill);

    assert!(
        registry.particle_exists(&pid_b),
        "trapping the signal is what keeps b alive"
    );
    assert_eq!(
        next_exit_reason(&mut registry, &pid_b),
        ExitReason::Kill,
        "the reason reaches links unchanged"
    );
}

#[test]
fn test_a_directed_kill_is_untrappable() {
    let mut registry = make_registry();
    let killer = registry.insert_test_particle();
    let victim = registry.insert_test_particle();

    registry.set_trap_exit(&victim, true);

    registry.apply_directed_exit(&victim, &killer, ExitReason::Kill);

    assert!(
        !registry.particle_exists(&victim),
        "trapping exits must not survive a directed kill"
    );
}

#[test]
fn test_a_directed_kill_propagates_killed() {
    let mut registry = make_registry();
    let killer = registry.insert_test_particle();
    let victim = registry.insert_test_particle();
    let watcher = registry.insert_test_particle();

    registry.set_trap_exit(&watcher, true);
    registry.link(&victim, &watcher).unwrap();

    registry.apply_directed_exit(&victim, &killer, ExitReason::Kill);

    assert_eq!(
        next_exit_reason(&mut registry, &watcher),
        ExitReason::Killed,
        "kill becomes killed when sent, hinting to links how the particle died"
    );
    assert!(
        registry.particle_exists(&watcher),
        "an inherited killed is trappable like any other reason"
    );
}

#[test]
fn test_a_directed_shutdown_is_still_trappable() {
    let mut registry = make_registry();
    let from = registry.insert_test_particle();
    let target = registry.insert_test_particle();

    registry.set_trap_exit(&target, true);

    registry.apply_directed_exit(&target, &from, ExitReason::Shutdown("stop".into()));

    assert!(registry.particle_exists(&target));
    assert_eq!(
        next_exit_reason(&mut registry, &target),
        ExitReason::Shutdown("stop".into())
    );
}

#[test]
fn test_a_directed_normal_does_not_kill_a_trapping_particle() {
    let mut registry = make_registry();
    let target = registry.insert_test_particle();
    registry.set_trap_exit(&target, true);

    registry.apply_directed_exit(&target, &target, ExitReason::Normal);

    assert!(
        registry.particle_exists(&target),
        "a trapping particle survives a normal signal aimed at itself"
    );
    assert_eq!(
        next_exit_reason(&mut registry, &target),
        ExitReason::Normal,
        "and hears about it"
    );

    // Whereas exit() on the same particle is unconditional.
    registry.exit_particle(&target, ExitReason::Normal);
    assert!(!registry.particle_exists(&target));
}

#[test]
fn test_killing_a_dead_particle_is_a_no_op() {
    let mut registry = make_registry();
    let from = registry.insert_test_particle();
    let target = registry.insert_test_particle();

    registry.exit_particle(&target, ExitReason::Normal);
    registry.apply_directed_exit(&target, &from, ExitReason::Kill);

    assert!(!registry.particle_exists(&target));
    assert_eq!(registry.take_deaths().len(), 1);
}

#[test]
fn a_chain_of_links_falls_as_far_as_the_first_that_traps() {
    let mut registry = make_registry();
    let pids: Vec<Pid> = (0..5).map(|_| registry.insert_test_particle()).collect();
    for pair in pids.windows(2) {
        registry.link(&pair[0], &pair[1]).unwrap();
    }
    registry.set_trap_exit(&pids[3], true);

    registry.exit_particle(&pids[0], ExitReason::Exception("crash".into()));

    assert!(!registry.particle_exists(&pids[1]));
    assert!(!registry.particle_exists(&pids[2]));
    assert!(registry.particle_exists(&pids[3]));
    assert!(registry.particle_exists(&pids[4]));
    match message(registry.recv(&pids[3])) {
        MailboxMessage::Exit { from, reason } => {
            assert_eq!(from, pids[2]);
            assert_eq!(reason, ExitReason::Exception("crash".into()));
        }
        other => panic!("expected Exit, got {:?}", other),
    }
    assert_eq!(registry.take_deaths().len(), 3);
}

#[test]
fn unlinking_and_demonitoring_undo_their_opposites() {
    let mut registry = make_registry();
    let a = registry.insert_test_particle();
    let b = registry.insert_test_particle();
    registry.link(&a, &b).unwrap();
    registry.unlink(&a, &b);
    let r = registry.monitor(&b, &a).unwrap();
    registry.demonitor(&b, r);

    registry.exit_particle(&a, ExitReason::Exception("crash".into()));

    assert!(registry.particle_exists(&b));
    assert_eq!(registry.recv(&b), Received::Empty);
}

#[test]
fn giving_up_one_monitor_leaves_the_others() {
    let mut registry = make_registry();
    let (w, t) = (registry.insert_test_particle(), registry.insert_test_particle());
    let given_up = registry.monitor(&w, &t).unwrap();
    let kept = registry.monitor(&w, &t).unwrap();
    registry.demonitor(&w, given_up);
    registry.demonitor(&w, 999);
    let away = Pid { node: a_node(), seq: 5 };
    registry.monitor_remote(&away, t, 1);
    registry.monitor_remote(&away, t, 2);
    registry.demonitor(&away, 2);

    registry.exit_particle(&t, ExitReason::Killed);

    match message(registry.recv(&w)) {
        MailboxMessage::Down { from, ref_id, reason } => {
            assert_eq!((from, ref_id), (t, kept));
            assert_eq!(reason, ExitReason::Killed);
        }
        other => panic!("expected Down, got {other:?}"),
    }
    assert_eq!(registry.recv(&w), Received::Empty);
    assert_eq!(registry.take_deaths()[0].remote_monitors, vec![(away, 1)]);
}

#[test]
fn survivors_hear_of_each_death_exactly_once() {
    let mut registry = make_registry();
    let pids: Vec<Pid> = (0..4).map(|_| registry.insert_test_particle()).collect();
    let (a, b, peer, watcher) = (pids[0], pids[1], pids[2], pids[3]);
    registry.link(&a, &b).unwrap();
    registry.link(&a, &peer).unwrap();
    registry.link(&b, &peer).unwrap();
    registry.set_trap_exit(&peer, true);
    let r = registry.monitor(&watcher, &b).unwrap();

    registry.exit_particle(&a, ExitReason::Exception("crash".into()));

    let mut dead: Vec<Pid> = Vec::new();
    while let Received::Message(m) = registry.recv(&peer) {
        match m {
            MailboxMessage::Exit { from, .. } => dead.push(from),
            other => panic!("expected Exit, got {other:?}"),
        }
    }
    assert_eq!(dead.len(), 2);
    assert!(dead.contains(&a) && dead.contains(&b));
    match message(registry.recv(&watcher)) {
        MailboxMessage::Down { from, ref_id, .. } => assert_eq!((from, ref_id), (b, r)),
        other => panic!("expected Down, got {other:?}"),
    }
    assert_eq!(registry.recv(&watcher), Received::Empty);
}

#[test]
fn a_survivor_keeps_a_name_that_another_was_spawned_under() {
    let mut registry = make_registry();
    registry.register_component("test", PolicySet::all());
    let first = registry.spawn("test", Some("counter"), None).unwrap();
    let second = registry.insert_test_particle();
    registry.unregister_name(&first, "counter").unwrap();
    registry.register_name(&second, "counter").unwrap();
    registry.register_name(&first, "other").unwrap();

    registry.exit_particle(&first, ExitReason::Normal);

    assert_eq!(registry.lookup_name("counter"), Some(second));
    assert_eq!(registry.lookup_name("other"), None);
}

#[test]
fn pids_and_references_come_once() {
    let mut registry = make_registry();
    let mut pids: Vec<Pid> = Vec::new();
    let mut refs: Vec<u64> = Vec::new();
    for _ in 0..20 {
        let p = registry.insert_test_particle();
        let r = registry.make_ref();
        assert!(!pids.contains(&p));
        assert!(!refs.contains(&r));
        registry.exit_particle(&p, ExitReason::Normal);
        registry.discard_mailbox(&p);
        pids.push(p);
        refs.push(r);
    }
}

#[test]
fn linking_to_nobody_is_an_error() {
    let mut registry = make_registry();
    let a = registry.insert_test_particle();
    let nobody = registry.next_pid();
    assert_eq!(registry.link(&a, &nobody), Err(RegistryError::NoParticle(nobody)));
    assert_eq!(registry.link(&nobody, &a), Err(RegistryError::NoParticle(nobody)));
}

#[test]
fn ties_to_other_nodes_ride_along_on_a_death() {
    let mut registry = make_registry();
    let here = registry.insert_test_particle();
    let there = Pid { node: a_node(), seq: 9 };
    registry.link_remote(&here, there);
    registry.monitor_remote(&there, here, 5);

    let (links, monitors) = registry.relationships_with_node(&there.node);
    assert_eq!(links, vec![(here, there)]);
    assert!(monitors.is_empty());

    registry.exit_particle(&here, ExitReason::Shutdown("x".into()));
    let deaths = registry.take_deaths();
    assert_eq!(deaths[0].remote_links, vec![there]);
    assert_eq!(deaths[0].remote_monitors, vec![(there, 5)]);
    assert_eq!(deaths[0].reason, ExitReason::Shutdown("x".into()));
}

#[test]
fn a_forgotten_node_leaves_no_tie() {
    let mut registry = make_registry();
    let here = registry.insert_test_particle();
    let there = Pid { node: a_node(), seq: 9 };
    registry.link_remote(&here, there);
    registry.monitor_remote(&here, there, 5);
    registry.forget_node(&there.node);
    let (links, monitors) = registry.relationships_with_node(&there.node);
    assert!(links.is_empty() && monitors.is_empty());
    registry.link_remote(&here, there);
    registry.unlink_remote(&here, &there);
    assert!(registry.relationships_with_node(&there.node).0.is_empty());
}

#[test]
fn monitors_under_a_given_reference_fire_with_it() {
    let mut registry = make_registry();
    let watcher = registry.insert_test_particle();
    let target = registry.insert_test_particle();
    registry.monitor_with_ref(&watcher, &target, 77);
    registry.exit_particle(&target, ExitReason::Normal);
    assert_eq!(
        registry.recv_ref(&watcher, 77),
        Received::Message(MailboxMessage::Down {
            from: target,
            ref_id: 77,
            reason: ExitReason::Normal
        })
    );
}

#[test]
fn signals_from_elsewhere_reach_the_mailbox() {
    let mut registry = make_registry();
    let here = registry.insert_test_particle();
    let there = Pid { node: a_node(), seq: 9 };
    registry.deliver_exit(&here, &there, ExitReason::NoProc);
    registry.deliver_down(&here, &there, 3, ExitReason::NoConnection);
    registry.push_spawn_reply(&here, 4, Err(SpawnFailure::InitFailed));
    assert_eq!(
        registry.send_system(&here, SystemMessage::Exit { from: there, reason: ExitReason::Kill }),
        Ok(())
    );
    let nobody = registry.next_pid();
    assert_eq!(
        registry.send_system(
            &nobody,
            SystemMessage::Exit { from: there, reason: ExitReason::Kill }
        ),
        Err(RegistryError::NoParticle(nobody))
    );
    let mut seen = 0;
    while let Received::Message(_) = registry.recv(&here) {
        seen += 1;
    }
    assert_eq!(seen, 4);
}

#[test]
fn what_runs_can_be_listed_and_found() {
    let mut registry = make_registry();
    registry.register_component("echo", PolicySet::with_capabilities(&["logging"]));
    assert_eq!(registry.list_components(), vec!["echo"]);
    assert!(registry.get_component("echo").unwrap().allows("logging"));
    assert!(registry.get_component("other").is_none());

    let named = registry.spawn("echo", Some("greeter"), None).unwrap();
    let unnamed = registry
        .spawn("echo", None, Some(PolicySet::with_capabilities(&["db:read"])))
        .unwrap();
    let mut listed = registry.list_particles();
    listed.sort_by_key(|x| x.0.seq);
    assert_eq!(
        listed,
        vec![
            (named, "echo".to_string(), Some("greeter".to_string())),
            (unnamed, "echo".to_string(), None),
        ]
    );
    assert!(registry.get_by_pid(&named).unwrap().capabilities.allows("logging"));
    assert!(!registry.get_by_pid(&unnamed).unwrap().capabilities.allows("logging"));
    assert!(registry.get_by_pid(&unnamed).unwrap().capabilities.allows("db:read"));

    assert_eq!(registry.resolve_target("greeter"), Some(named));
    assert_eq!(registry.resolve_target(&unnamed.to_text()), Some(unnamed));
    assert_eq!(registry.resolve_target("nobody"), None);
    assert_eq!(registry.node(), named.node);
}

#[test]
fn references_and_pids_are_not_handed_out_twice() {
    let mut registry = make_registry();
    let (r1, r2) = (registry.make_ref(), registry.make_ref());
    assert_ne!(r1, r2);
    let p1 = registry.insert_test_particle();
    registry.exit_particle(&p1, ExitReason::Normal);
    let p2 = registry.insert_test_particle();
    assert_ne!(p1, p2);
}

#[test]
fn the_mailbox_of_a_dead_particle_says_so() {
    let mut registry = make_registry();
    let pid = registry.insert_test_particle();
    registry.exit_particle(&pid, ExitReason::Normal);
    assert_eq!(registry.recv(&pid), Received::Closed);
    registry.discard_mailbox(&pid);
    assert_eq!(registry.recv(&pid), Received::Closed);
}
