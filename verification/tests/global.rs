//! Cluster-wide names.

use plasmoid::cluster::Cluster;
use plasmoid::global::{
    after_attempt, answer_sync, begin_sync, claim_members, finish_sync, merge, register, Claim,
    ClaimError, ClaimNext, ClaimOutcome, GlobalNames, LookupError, CLAIM_RETRIES,
};
use plasmoid::message::ExitReason;
use plasmoid::pid::{NodeId, Pid, PidGenerator};
use plasmoid::registry::ParticleRegistry;
use plasmoid::wire::{GlobalRequest, GlobalResponse};

fn a_node() -> NodeId {
    NodeId::from_bytes(iroh::SecretKey::generate().public().as_bytes()).unwrap()
}

/// Two pids on distinct nodes, lowest first.
fn ordered_pids() -> (Pid, Pid) {
    let a = PidGenerator::new(a_node()).next();
    let b = PidGenerator::new(a_node()).next();
    if a.less(&b) {
        (a, b)
    } else {
        (b, a)
    }
}

#[test]
fn test_the_lower_pid_wins_a_clash() {
    let me = a_node();
    let mut g = GlobalNames::new(me);
    let (low, high) = ordered_pids();

    g.commit("svc", high);
    merge(&mut g, vec![("svc".into(), low)], me);

    assert_eq!(
        g.peek("svc"),
        Some(low),
        "min(pid) wins, and both sides compute it alone"
    );
}

#[test]
fn test_both_sides_reach_the_same_verdict() {
    let (low, high) = ordered_pids();
    let me = a_node();

    let mut a = GlobalNames::new(me);
    a.commit("svc", low);
    merge(&mut a, vec![("svc".into(), high)], me);

    let mut b = GlobalNames::new(me);
    b.commit("svc", high);
    merge(&mut b, vec![("svc".into(), low)], me);

    assert_eq!(a.peek("svc"), b.peek("svc"));
    assert_eq!(a.peek("svc"), Some(low));
}

#[test]
fn test_the_loser_is_reported_only_by_the_node_hosting_it() {
    let (low, high) = ordered_pids();

    let mut hosting = GlobalNames::new(high.node);
    hosting.commit("svc", high);
    let losers = merge(&mut hosting, vec![("svc".into(), low)], high.node);
    assert_eq!(losers.len(), 1, "the host of the loser reports it");
    assert_eq!(losers[0].1, high);
    assert_eq!(losers[0].2, low);

    let mut bystander = GlobalNames::new(a_node());
    let me = bystander.me();
    bystander.commit("svc", high);
    let losers = merge(&mut bystander, vec![("svc".into(), low)], me);
    assert!(
        losers.is_empty(),
        "a bystander updates its table but kills nothing"
    );
}

#[test]
fn test_the_same_pid_on_both_sides_is_not_a_conflict() {
    let me = a_node();
    let mut g = GlobalNames::new(me);
    let pid = PidGenerator::new(me).next();

    g.commit("svc", pid);
    let losers = merge(&mut g, vec![("svc".into(), pid)], me);

    assert!(losers.is_empty(), "nothing may be killed");
    assert_eq!(g.peek("svc"), Some(pid));
}

#[test]
fn test_a_name_only_one_side_had_is_adopted() {
    let me = a_node();
    let mut g = GlobalNames::new(me);
    let theirs = PidGenerator::new(a_node()).next();

    merge(&mut g, vec![("theirs".into(), theirs)], me);
    assert_eq!(g.peek("theirs"), Some(theirs));
}

#[test]
fn test_a_lock_is_exclusive_but_reentrant_for_its_holder() {
    let mut g = GlobalNames::new(a_node());
    let (first, second) = (a_node(), a_node());

    assert_eq!(g.lock("svc", first), GlobalResponse::Locked);
    assert_eq!(
        g.lock("svc", second),
        GlobalResponse::Busy,
        "a second claimant must be refused, or both could commit"
    );
    assert_eq!(
        g.lock("svc", first),
        GlobalResponse::Locked,
        "the holder retrying is not contention"
    );

    g.unlock("svc", second);
    assert_eq!(
        g.lock("svc", second),
        GlobalResponse::Busy,
        "only the holder may release the lock"
    );
    g.unlock("svc", first);
    assert_eq!(g.lock("svc", second), GlobalResponse::Locked);
}

#[test]
fn test_locking_a_registered_name_reports_who_holds_it() {
    let mut g = GlobalNames::new(a_node());
    let pid = PidGenerator::new(a_node()).next();
    g.commit("svc", pid);

    assert_eq!(g.lock("svc", a_node()), GlobalResponse::Taken(pid));
}

#[test]
fn test_releasing_is_guarded_by_ownership() {
    let mut g = GlobalNames::new(a_node());
    let (low, high) = ordered_pids();
    g.commit("svc", low);

    assert!(!g.release("svc", &high), "not the owner");
    assert_eq!(g.peek("svc"), Some(low));
    assert!(g.release("svc", &low));
    assert_eq!(g.peek("svc"), None);
}

#[test]
fn test_a_lookup_during_a_merge_gives_up_rather_than_hanging() {
    let mut g = GlobalNames::new(a_node());
    g.merge_begin();
    assert!(!g.is_settled());
    assert_eq!(g.lookup("nothing"), Err(LookupError::Unsettled));

    g.merge_end();
    assert!(g.is_settled(), "lookups go on once the merge finishes");
    assert_eq!(g.lookup("nothing"), Ok(None));
}

/// A node, without its network.
struct Node {
    registry: ParticleRegistry,
    cluster: Cluster,
    global: GlobalNames,
}

impl Node {
    fn new() -> Node {
        let id = a_node();
        Node {
            registry: ParticleRegistry::new(PidGenerator::new(id)),
            cluster: Cluster::new(id),
            global: GlobalNames::new(id),
        }
    }

    fn id(&self) -> NodeId {
        self.global.me()
    }
}

/// Runs a claim to its end, asking each node in turn.
fn run(mut claim: Claim, nodes: &mut [&mut Node]) -> ClaimOutcome {
    loop {
        match claim.next_request() {
            Some((to, req)) => {
                let reply = nodes
                    .iter_mut()
                    .find(|n| n.id() == to)
                    .map(|n| n.global.apply(req));
                claim.on_reply(reply);
            }
            None => {
                return outcome(&claim);
            }
        }
    }
}

fn outcome(claim: &Claim) -> ClaimOutcome {
    claim.outcome().expect("the claim is over")
}

#[test]
fn test_a_claim_is_visible_on_every_node() {
    let (mut a, mut b) = (Node::new(), Node::new());
    let bi = b.id();
    a.cluster.learn(&vec![bi], 0);
    let pid = a.registry.insert_test_particle();

    let claim = register(&a.global, "service", &pid, &a.cluster).unwrap();
    assert_eq!(run(claim, &mut [&mut a, &mut b]), ClaimOutcome::Claimed);

    assert_eq!(a.global.lookup("service"), Ok(Some(pid)));
    assert_eq!(b.global.peek("service"), Some(pid));
    // And no lock is left behind.
    assert_eq!(a.global.name_of(&pid), Some("service".to_string()));
    assert!(b.global.release("service", &pid));
    assert_eq!(b.global.lock("service", a_node()), GlobalResponse::Locked);
}

#[test]
fn test_a_second_claimant_is_refused_without_anything_dying() {
    let (mut a, mut b) = (Node::new(), Node::new());
    let (ai, bi) = (a.id(), b.id());
    a.cluster.learn(&vec![bi], 0);
    b.cluster.learn(&vec![ai], 0);
    let first = a.registry.insert_test_particle();
    let second = b.registry.insert_test_particle();

    let claim = register(&a.global, "only-one", &first, &a.cluster).unwrap();
    assert_eq!(run(claim, &mut [&mut a, &mut b]), ClaimOutcome::Claimed);
    let claim = register(&b.global, "only-one", &second, &b.cluster).unwrap();
    let refused = run(claim, &mut [&mut a, &mut b]);

    assert_eq!(
        after_attempt(refused, 1),
        ClaimNext::Finish(Err(ClaimError::Taken(first))),
        "the second claimant must be told who holds it"
    );
    assert!(
        b.registry.particle_exists(&second),
        "losing a simultaneous claim is an error return, not a death sentence"
    );
}

#[test]
fn test_a_particle_may_hold_only_one_global_name() {
    let mut a = Node::new();
    let pid = a.registry.insert_test_particle();

    let claim = register(&a.global, "first", &pid, &a.cluster).unwrap();
    assert_eq!(run(claim, &mut [&mut a]), ClaimOutcome::Claimed);
    assert_eq!(
        register(&a.global, "second", &pid, &a.cluster).err(),
        Some(ClaimError::AlreadyNamed("first".into()))
    );
}

#[test]
fn test_a_name_is_released_when_its_particle_dies() {
    let mut a = Node::new();
    let b = a_node();
    let pid = a.registry.insert_test_particle();
    let claim = register(&a.global, "transient", &pid, &a.cluster).unwrap();
    assert_eq!(run(claim, &mut [&mut a]), ClaimOutcome::Claimed);
    a.cluster.learn(&vec![b], 0);

    a.registry.exit_particle(&pid, ExitReason::Normal);
    for death in a.registry.take_deaths() {
        let requests = a.global.on_death(&death.pid, &a.cluster);
        assert_eq!(
            requests,
            vec![(b, GlobalRequest::Release { name: "transient".to_string(), pid })]
        );
    }

    assert_eq!(a.global.peek("transient"), None, "a dead particle must not keep a global name");

    a.cluster.forget(&b);
    let successor = a.registry.insert_test_particle();
    let claim = register(&a.global, "transient", &successor, &a.cluster).unwrap();
    assert_eq!(
        run(claim, &mut [&mut a]),
        ClaimOutcome::Claimed,
        "and the name must be claimable again"
    );
}

/// Has A and B exchange their tables.
fn meet(a: &mut Node, b: &mut Node) {
    let request = begin_sync(&mut a.global);
    let GlobalRequest::Sync { names } = request else {
        panic!("a sync carries the table");
    };
    let reply = answer_sync(&mut b.global, &mut b.registry, names);
    finish_sync(&mut a.global, &mut a.registry, Some(reply));
}

#[test]
fn test_merging_two_claims_kills_the_higher_pid() {
    let (mut a, mut b) = (Node::new(), Node::new());
    let on_a = a.registry.insert_test_particle();
    let on_b = b.registry.insert_test_particle();
    a.registry.set_trap_exit(&on_a, true);
    b.registry.set_trap_exit(&on_b, true);

    // Claimed independently, as two partitions would.
    let claim = register(&a.global, "contested", &on_a, &a.cluster).unwrap();
    assert_eq!(run(claim, &mut [&mut a]), ClaimOutcome::Claimed);
    let claim = register(&b.global, "contested", &on_b, &b.cluster).unwrap();
    assert_eq!(run(claim, &mut [&mut b]), ClaimOutcome::Claimed);

    meet(&mut a, &mut b);

    let (winner, loser) = if on_a.less(&on_b) { (on_a, on_b) } else { (on_b, on_a) };
    let alive = |p: &Pid| a.registry.particle_exists(p) || b.registry.particle_exists(p);
    assert!(!alive(&loser), "the loser must be killed");
    assert!(alive(&winner));
    assert_eq!(a.global.peek("contested"), Some(winner));
    assert_eq!(b.global.peek("contested"), Some(winner));
    assert!(a.global.is_settled() && b.global.is_settled());
}

#[test]
fn test_a_merge_of_identical_claims_kills_nothing() {
    let (mut a, mut b) = (Node::new(), Node::new());
    let pid = a.registry.insert_test_particle();
    let claim = register(&a.global, "agreed", &pid, &a.cluster).unwrap();
    assert_eq!(run(claim, &mut [&mut a]), ClaimOutcome::Claimed);
    b.global.commit("agreed", pid);

    meet(&mut a, &mut b);

    assert!(
        a.registry.particle_exists(&pid),
        "nothing may be killed when both sides already agree"
    );
    assert_eq!(a.global.peek("agreed"), Some(pid));
    assert_eq!(b.global.peek("agreed"), Some(pid));
}

#[test]
fn test_lookup_reports_unsettled_rather_than_lying() {
    let mut a = Node::new();
    let pid = a.registry.insert_test_particle();
    a.global.commit("x", pid);
    begin_sync(&mut a.global);
    assert_eq!(a.global.lookup("x"), Err(LookupError::Unsettled));
    let pid2 = a.registry.insert_test_particle();
    assert_eq!(
        register(&a.global, "y", &pid2, &a.cluster).err(),
        Some(ClaimError::Unsettled)
    );
    // An exchange that came to nothing is over all the same.
    finish_sync(&mut a.global, &mut a.registry, None);
    assert_eq!(a.global.lookup("x"), Ok(Some(pid)));
}

#[test]
fn members_are_locked_in_the_order_of_their_ids() {
    let me = a_node();
    let mut cluster = Cluster::new(me);
    let others: Vec<NodeId> = (0..6).map(|_| a_node()).collect();
    cluster.learn(&others, 0);
    let members = claim_members(me, &cluster);
    assert_eq!(members.len(), 7);
    for pair in members.windows(2) {
        assert!(pair[0].less(&pair[1]));
    }
    assert!(members.contains(&me));
}

#[test]
fn a_refusal_gives_back_what_was_locked() {
    let (mut a, mut b) = (Node::new(), Node::new());
    let rival = a_node();
    let (ai, bi) = (a.id(), b.id());
    a.cluster.learn(&vec![bi], 0);
    let last = if ai.less(&bi) { &mut b } else { &mut a };
    assert_eq!(last.global.lock("svc", rival), GlobalResponse::Locked);
    let pid = a.registry.insert_test_particle();

    let claim = register(&a.global, "svc", &pid, &a.cluster).unwrap();
    assert_eq!(run(claim, &mut [&mut a, &mut b]), ClaimOutcome::Unsettled);

    let first = if ai.less(&bi) { &mut a } else { &mut b };
    assert_eq!(first.global.lock("svc", rival), GlobalResponse::Locked, "nothing is left locked");
    assert_eq!(a.global.peek("svc"), None);
    assert_eq!(b.global.peek("svc"), None);
}

#[test]
fn a_claim_on_an_unreachable_member_is_tried_again_and_given_up() {
    let mut a = Node::new();
    a.cluster.learn(&vec![a_node()], 0);
    let pid = a.registry.insert_test_particle();
    let claim = register(&a.global, "svc", &pid, &a.cluster).unwrap();
    assert_eq!(run(claim, &mut [&mut a]), ClaimOutcome::Unsettled);
    assert_eq!(after_attempt(ClaimOutcome::Unsettled, 1), ClaimNext::Retry);
    assert_eq!(
        after_attempt(ClaimOutcome::Unsettled, CLAIM_RETRIES),
        ClaimNext::Finish(Err(ClaimError::Unsettled))
    );
    assert_eq!(after_attempt(ClaimOutcome::Claimed, 1), ClaimNext::Finish(Ok(())));
}

#[test]
fn only_an_owner_gives_a_name_up() {
    let mut a = Node::new();
    let b = a_node();
    a.cluster.learn(&vec![b], 0);
    let (low, high) = ordered_pids();
    a.global.commit("svc", low);
    assert!(a.global.unregister("svc", &high, &a.cluster).is_empty());
    assert_eq!(
        a.global.unregister("svc", &low, &a.cluster),
        vec![(b, GlobalRequest::Release { name: "svc".to_string(), pid: low })]
    );
    assert_eq!(a.global.peek("svc"), None);
}

#[test]
fn requests_are_answered_step_by_step() {
    let mut g = GlobalNames::new(a_node());
    let holder = a_node();
    let pid = PidGenerator::new(holder).next();
    let name = "svc".to_string();
    assert_eq!(
        g.apply(GlobalRequest::Lock { name: name.clone(), holder }),
        GlobalResponse::Locked
    );
    assert_eq!(
        g.apply(GlobalRequest::Commit { name: name.clone(), pid, holder }),
        GlobalResponse::Done
    );
    assert_eq!(
        g.apply(GlobalRequest::Unlock { name: name.clone(), holder }),
        GlobalResponse::Done
    );
    assert_eq!(
        g.apply(GlobalRequest::Sync { names: vec![] }),
        GlobalResponse::Names(vec![(name.clone(), pid)])
    );
    assert_eq!(
        g.apply(GlobalRequest::Release { name: name.clone(), pid }),
        GlobalResponse::Done
    );
    assert!(g.snapshot().is_empty());
}
