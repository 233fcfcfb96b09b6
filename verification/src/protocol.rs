//! Acting on what other nodes and clients say.

use crate::cluster;
use crate::cluster::{Cluster, ClusterView};
use crate::mailbox::MailboxMessage;
use crate::message::{ExitReason, SystemMessage};
use crate::partitions;
use crate::partitions::{Partitions, PartitionsView};
use crate::pid::{NodeId, Pid};
use crate::registry;
use crate::registry::{ParticleRegistry, RegistryView, SendError};
use crate::transport;
use crate::transport::{
    Addressee, AddresseeView, Effect, EffectView, Envelope, PeerMessage, PeerMessageView,
};
use crate::wire::{
    SendRequest, SendResponse, SpawnFailureWire, SpawnRequest, SpawnResponse,
    SpawnResult, Target,
};
use vstd::prelude::*;
use vstd::string::*;

verus! {

/// The particle that an addressee is: a name is looked up here.
pub open spec fn resolved(m: RegistryView, a: AddresseeView) -> Option<Pid> {
    match a {
        AddresseeView::Pid(p) => Some(p),
        AddresseeView::Name(n) => if m.names.contains_key(n) {
            Some(m.names[n])
        } else {
            None
        },
    }
}

/// Resolves an addressee on this node.
pub fn resolve(registry: &ParticleRegistry, a: &Addressee) -> (r: Option<Pid>)
    requires
        registry.wf(),
    ensures
        r == resolved(registry@, a@),
{
    match a {
        Addressee::Pid(p) => Some(*p),
        Addressee::Name(name) => registry.get_by_name(name.as_str()),
    }
}

/// The running particle that an addressee is.
pub open spec fn reached(m: RegistryView, a: AddresseeView) -> Option<Pid> {
    match resolved(m, a) {
        Some(p) => if m.states.contains_key(p) {
            Some(p)
        } else {
            None
        },
        None => None,
    }
}

/// Finds the running particle that an addressee is.
pub fn reach(registry: &ParticleRegistry, a: &Addressee) -> (r: Option<Pid>)
    requires
        registry.wf(),
    ensures
        r == reached(registry@, a@),
{
    match resolve(registry, a) {
        Some(p) => if registry.particle_exists(&p) {
            Some(p)
        } else {
            None
        },
        None => None,
    }
}

/// The queued form of a delivered message.
pub open spec fn delivered(ref_id: Option<u64>, payload: Vec<u8>) -> MailboxMessage {
    match ref_id {
        Some(r) => MailboxMessage::Tagged { ref_id: r, payload },
        None => MailboxMessage::Data(payload),
    }
}

/// The announcements that tell some nodes of a roster, none of its own name.
pub open spec fn announcements(roster: Seq<NodeId>, to: Seq<NodeId>) -> Seq<EffectView> {
    to.map_values(
        |n: NodeId|
            EffectView::Send(
                n,
                PeerMessageView::Announce { nodes: roster.filter(cluster::node_other_than(n)) },
            ),
    )
}

/// Tells some nodes about the whole cluster.
pub fn announce_to(cluster: &Cluster, to: &Vec<NodeId>) -> (r: Vec<Effect>)
    ensures
        transport::effects_view(r@) == announcements(cluster@.members, to@),
{
    broadcast use {transport::lemma_effects_push, transport::lemma_effects_empty};

    let roster = cluster.nodes();
    let mut r: Vec<Effect> = Vec::new();
    let mut i: usize = 0;
    while i < to.len()
        invariant
            i <= to@.len(),
            roster@ == cluster@.members,
            transport::effects_view(r@) == announcements(cluster@.members, to@.take(i as int)),
        decreases to@.len() - i,
    {
        let node = to[i];
        let ghost before = transport::effects_view(r@);
        let nodes = cluster::other_nodes(&roster, &node);
        r.push(Effect::Send(node, PeerMessage::Announce { nodes }));
        proof {
            let word = EffectView::Send(
                node,
                PeerMessageView::Announce {
                    nodes: cluster@.members.filter(cluster::node_other_than(node)),
                },
            );
            assert(transport::effects_view(r@) == before.push(word));
        }
        i += 1;
    }
    r
}

/// What is sent when nodes were heard of: those that are new are told of the whole cluster, and
/// nothing is said where there is nothing new.
pub open spec fn on_announce(c: ClusterView, nodes: Seq<NodeId>, now_ms: u64) -> Seq<EffectView> {
    announcements(c.learned(nodes, now_ms).members, c.news(nodes, now_ms))
}

/// A node that dials this one is a member, and is told who else is.
pub fn on_connection(cluster: &mut Cluster, remote: NodeId, now_ms: u64) -> (r: Vec<Effect>)
    requires
        old(cluster).wf(),
    ensures
        final(cluster).wf(),
        final(cluster)@ == old(cluster)@.learned(seq![remote], now_ms),
        transport::effects_view(r@) == on_announce(old(cluster)@, seq![remote], now_ms),
{
    let mut nodes: Vec<NodeId> = Vec::new();
    nodes.push(remote);
    let learned = cluster.learn(&nodes, now_ms);
    announce_to(cluster, &learned)
}

/// Introduces this node to a cluster through one of its members.
pub fn join(cluster: &mut Cluster, peer: NodeId, now_ms: u64) -> (r: Vec<Effect>)
    requires
        old(cluster).wf(),
    ensures
        final(cluster).wf(),
        final(cluster)@ == old(cluster)@.learned(seq![peer], now_ms),
        transport::effects_view(r@) == announcements(
            old(cluster)@.learned(seq![peer], now_ms).members,
            seq![peer],
        ),
{
    let mut nodes: Vec<NodeId> = Vec::new();
    nodes.push(peer);
    cluster.learn(&nodes, now_ms);
    announce_to(cluster, &nodes)
}

/// The registry after a peer message.
pub open spec fn registry_after(m: RegistryView, msg: PeerMessage) -> RegistryView {
    match msg {
        PeerMessage::Deliver(e) => match resolved(m, e.target@) {
            Some(p) => m.sent(p, delivered(e.ref_id, e.payload)),
            None => m,
        },
        PeerMessage::Link { from, to } => match reached(m, to@) {
            Some(p) => m.half_linked(p, from),
            None => m,
        },
        PeerMessage::Unlink { from, to } => match resolved(m, to@) {
            Some(p) => m.half_unlinked(p, from),
            None => m,
        },
        PeerMessage::Monitor { watcher, target, ref_id } => match reached(m, target@) {
            Some(p) => m.monitoring(watcher, p, ref_id).watched(p, watcher, ref_id),
            None => m,
        },
        PeerMessage::Demonitor { watcher, ref_id } => registry::demonitored(m, watcher, ref_id),
        PeerMessage::Exit { from, to, reason } => registry::inherited(m, to, from, reason),
        PeerMessage::ExitSignal { from, to, reason } => match resolved(m, to@) {
            Some(p) => registry::directed(m, p, from, reason),
            None => m,
        },
        PeerMessage::Down { from, to, ref_id, reason } => m.told(
            to,
            SystemMessage::Down { from, monitor_ref: ref_id, reason },
        ),
        _ => m,
    }
}

/// The cluster after a peer message.
pub open spec fn cluster_after(
    c: ClusterView,
    p: PartitionsView,
    msg: PeerMessage,
    now_ms: u64,
) -> ClusterView {
    match msg {
        PeerMessage::Announce { nodes } => c.learned(nodes@, now_ms),
        PeerMessage::LostConnection { reporter, lost, op_id } => partitions::cluster_after_report(
            c,
            p,
            reporter,
            lost,
            op_id,
            now_ms,
        ),
        PeerMessage::RemoveConnection { from } => c.barring(from, now_ms),
        _ => c,
    }
}

/// The remembered reports after a peer message.
pub open spec fn partitions_after(p: PartitionsView, msg: PeerMessage, now_ms: u64) -> PartitionsView {
    match msg {
        PeerMessage::LostConnection { reporter, lost, op_id } => p.accepted(
            reporter,
            lost,
            op_id,
            now_ms,
        ),
        _ => p,
    }
}

/// What a peer message makes this node send. Whoever links to or monitors a particle that does
/// not run is told as a death would tell it.
pub open spec fn answer_to(
    m: RegistryView,
    c: ClusterView,
    p: PartitionsView,
    msg: PeerMessage,
    now_ms: u64,
) -> Seq<EffectView> {
    match msg {
        PeerMessage::Announce { nodes } => on_announce(c, nodes@, now_ms),
        PeerMessage::Link { from, to } => match reached(m, to@) {
            Some(_) => Seq::empty(),
            None => seq![
                EffectView::Send(
                    from.node,
                    PeerMessageView::Exit { from, to: from, reason: ExitReason::NoProc },
                ),
            ],
        },
        PeerMessage::Monitor { watcher, target, ref_id } => match reached(m, target@) {
            Some(_) => Seq::empty(),
            None => seq![
                EffectView::Send(
                    watcher.node,
                    PeerMessageView::Down {
                        from: watcher,
                        to: watcher,
                        ref_id,
                        reason: ExitReason::NoProc,
                    },
                ),
            ],
        },
        PeerMessage::LostConnection { reporter, lost, op_id } => partitions::loss_reaction(
            c,
            p,
            reporter,
            lost,
            op_id,
            now_ms,
        ),
        PeerMessage::RemoveConnection { from } => partitions::removal_reaction(c, from, now_ms),
        _ => Seq::empty(),
    }
}

/// Acts on one message from a peer.
pub fn handle_peer_message(
    msg: PeerMessage,
    registry: &mut ParticleRegistry,
    cluster: &mut Cluster,
    partitions: &mut Partitions,
    now_ms: u64,
) -> (r: Vec<Effect>)
    requires
        old(registry).wf(),
        old(cluster).wf(),
        old(partitions).wf(),
        now_ms + cluster::QUARANTINE <= u64::MAX,
    ensures
        final(registry).wf(),
        final(cluster).wf(),
        final(partitions).wf(),
        final(registry)@ == registry_after(old(registry)@, msg),
        final(cluster)@ == cluster_after(old(cluster)@, old(partitions)@, msg, now_ms),
        final(partitions)@ == partitions_after(old(partitions)@, msg, now_ms),
        transport::effects_view(r@) == answer_to(
            old(registry)@,
            old(cluster)@,
            old(partitions)@,
            msg,
            now_ms,
        ),
{
    broadcast use {transport::lemma_effects_push, transport::lemma_effects_empty};

    match msg {
        PeerMessage::Announce { nodes } => {
            let learned = cluster.learn(&nodes, now_ms);
            announce_to(cluster, &learned)
        },
        PeerMessage::Deliver(envelope) => {
            match resolve(registry, &envelope.target) {
                Some(pid) => {
                    match envelope.ref_id {
                        Some(ref_id) => {
                            let _ = registry.send_tagged_to_pid(&pid, ref_id, envelope.payload);
                        },
                        None => {
                            let _ = registry.send_to_pid(&pid, envelope.payload);
                        },
                    }
                },
                None => {},
            }
            Vec::new()
        },
        PeerMessage::Link { from, to } => match reach(registry, &to) {
            Some(target) => {
                registry.link_remote(&target, from);
                Vec::new()
            },
            None => {
                let mut r: Vec<Effect> = Vec::new();
                r.push(
                    Effect::Send(
                        from.node,
                        PeerMessage::Exit { from, to: from, reason: ExitReason::NoProc },
                    ),
                );
                r
            },
        },
        PeerMessage::Unlink { from, to } => {
            match resolve(registry, &to) {
                Some(target) => {
                    registry.unlink_remote(&target, &from);
                },
                None => {},
            }
            Vec::new()
        },
        PeerMessage::Monitor { watcher, target, ref_id } => match reach(registry, &target) {
            Some(pid) => {
                registry.monitor_remote(&watcher, pid, ref_id);
                Vec::new()
            },
            None => {
                let mut r: Vec<Effect> = Vec::new();
                r.push(
                    Effect::Send(
                        watcher.node,
                        PeerMessage::Down {
                            from: watcher,
                            to: watcher,
                            ref_id,
                            reason: ExitReason::NoProc,
                        },
                    ),
                );
                r
            },
        },
        PeerMessage::Demonitor { watcher, ref_id } => {
            registry.demonitor(&watcher, ref_id);
            Vec::new()
        },
        PeerMessage::Exit { from, to, reason } => {
            registry.apply_inherited_exit(&to, &from, reason);
            Vec::new()
        },
        PeerMessage::ExitSignal { from, to, reason } => {
            match resolve(registry, &to) {
                Some(target) => {
                    registry.apply_directed_exit(&target, &from, reason);
                },
                None => {},
            }
            Vec::new()
        },
        PeerMessage::Down { from, to, ref_id, reason } => {
            registry.deliver_down(&to, &from, ref_id, reason);
            Vec::new()
        },
        PeerMessage::LostConnection { reporter, lost, op_id } => partitions::on_lost_connection(
            reporter,
            lost,
            op_id,
            cluster,
            partitions,
            now_ms,
        ),
        PeerMessage::RemoveConnection { from } => partitions::on_remove_connection(
            from,
            cluster,
            now_ms,
        ),
    }
}

/// The text that `format!` makes of a string with `{:?}`: in quotes, with escapes.
pub uninterp spec fn quoted(s: Seq<char>) -> Seq<char>;

/// `format!` with `{:?}` on a string.
#[verifier::external_body]
pub(crate) fn quote(s: &str) -> (r: String)
    ensures
        r@ == quoted(s@),
{
    format!("{:?}", s)
}

/// The particle that a request is for.
pub open spec fn target_pid(m: RegistryView, t: Target) -> Option<Pid> {
    match t {
        Target::Pid(p) => Some(p),
        Target::Name(n) => if m.names.contains_key(n@) {
            Some(m.names[n@])
        } else {
            None
        },
    }
}

/// The answer to a send request: delivered exactly when the target is a running particle, else
/// the reason.
pub open spec fn send_answer(m: RegistryView, t: Target) -> Result<(), Seq<char>> {
    match target_pid(m, t) {
        Some(p) => if m.states.contains_key(p) {
            Ok(())
        } else {
            Err("no particle"@)
        },
        None => Err(
            "no particle found for target Name("@ + quoted(t->Name_0@) + ")"@,
        ),
    }
}

/// What a textual result says.
pub open spec fn result_text(r: Result<(), String>) -> Result<(), Seq<char>> {
    match r {
        Ok(_) => Ok(()),
        Err(e) => Err(e@),
    }
}

/// Answers a request to send a message.
pub fn handle_send(request: SendRequest, registry: &mut ParticleRegistry) -> (r: SendResponse)
    requires
        old(registry).wf(),
    ensures
        final(registry).wf(),
        result_text(r.result) == send_answer(old(registry)@, request.target),
        final(registry)@ == (match target_pid(old(registry)@, request.target) {
            Some(p) => old(registry)@.sent(p, MailboxMessage::Data(request.msg)),
            None => old(registry)@,
        }),
{
    let pid = match &request.target {
        Target::Pid(pid) => *pid,
        Target::Name(name) => match registry.get_by_name(name.as_str()) {
            Some(pid) => pid,
            None => {
                let mut why = "no particle found for target Name(".to_owned();
                why.append(quote(name.as_str()).as_str());
                why.append(")");
                return SendResponse { result: Err(why) };
            },
        },
    };
    match registry.send_to_pid(&pid, request.msg) {
        Ok(()) => SendResponse { result: Ok(()) },
        Err(SendError::NoParticle) => SendResponse { result: Err("no particle".to_owned()) },
    }
}

/// Why a particle could not be registered for a spawn.
#[derive(Clone, Copy, PartialEq, Eq, Structural, Debug)]
pub enum SpawnRefusal {
    UnknownComponent,
    /// The name is taken.
    Refused,
}

/// What a spawn is refused for: the component is looked up before the name.
pub open spec fn spawn_refused(m: RegistryView, component: Seq<char>, name: Option<Seq<char>>) -> Option<
    SpawnRefusal,
> {
    if !m.components.contains_key(component) {
        Some(SpawnRefusal::UnknownComponent)
    } else if name matches Some(n) && m.names.contains_key(n) {
        Some(SpawnRefusal::Refused)
    } else {
        None
    }
}

/// Registers a particle that is about to be started, with its component's capabilities.
pub fn begin_spawn(registry: &mut ParticleRegistry, component: &str, name: Option<&str>) -> (r: Result<
    Pid,
    SpawnRefusal,
>)
    requires
        old(registry).wf(),
    ensures
        final(registry).wf(),
        match spawn_refused(old(registry)@, component@, registry::opt_str(name)) {
            Some(e) => r == Err::<Pid, SpawnRefusal>(e) && final(registry)@ == old(registry)@,
            None => r == Ok::<Pid, SpawnRefusal>(old(registry)@.next_pid()) && final(registry)@
                == old(registry)@.spawned(component@, registry::opt_str(name), None),
        },
{
    let caps = match registry.get_component(component) {
        Some(caps) => caps,
        None => return Err(SpawnRefusal::UnknownComponent),
    };
    match registry.spawn(component, name, Some(caps)) {
        Ok(pid) => Ok(pid),
        Err(_) => Err(SpawnRefusal::Refused),
    }
}

/// The answer to a spawn request that was refused before anything was started.
pub fn refuse_spawn(refusal: SpawnRefusal) -> (r: SpawnResponse)
    ensures
        r.result == Err::<SpawnResult, SpawnFailureWire>(
            match refusal {
                SpawnRefusal::UnknownComponent => SpawnFailureWire::ComponentNotFound,
                SpawnRefusal::Refused => SpawnFailureWire::ResourceLimit,
            },
        ),
{
    SpawnResponse {
        result: Err(
            match refusal {
                SpawnRefusal::UnknownComponent => SpawnFailureWire::ComponentNotFound,
                SpawnRefusal::Refused => SpawnFailureWire::ResourceLimit,
            },
        ),
    }
}

/// The answer to a spawn request once its particle was started, or failed to start.
pub fn finish_spawn(request: SpawnRequest, pid: Pid, started: bool) -> (r: SpawnResponse)
    ensures
        r.result == (if started {
            Ok::<SpawnResult, SpawnFailureWire>(
                SpawnResult { pid, component: request.component, name: request.name },
            )
        } else {
            Err(SpawnFailureWire::InitFailed)
        }),
{
    if started {
        SpawnResponse {
            result: Ok(SpawnResult { pid, component: request.component, name: request.name }),
        }
    } else {
        SpawnResponse { result: Err(SpawnFailureWire::InitFailed) }
    }
}

/// What follows from a spawn request: either it is refused, or a particle is registered and to be
/// started.
#[derive(PartialEq, Debug)]
pub enum SpawnBegun {
    Refused(SpawnResponse),
    Start(Pid),
}

/// Acts on a spawn request, up to starting the particle.
pub fn handle_spawn(request: &SpawnRequest, registry: &mut ParticleRegistry) -> (r: SpawnBegun)
    requires
        old(registry).wf(),
    ensures
        final(registry).wf(),
        match spawn_refused(
            old(registry)@,
            request.component@,
            registry::opt_text(request.name),
        ) {
            Some(e) => final(registry)@ == old(registry)@ && r == SpawnBegun::Refused(
                SpawnResponse {
                    result: Err(
                        match e {
                            SpawnRefusal::UnknownComponent => SpawnFailureWire::ComponentNotFound,
                            SpawnRefusal::Refused => SpawnFailureWire::ResourceLimit,
                        },
                    ),
                },
            ),
            None => r == SpawnBegun::Start(old(registry)@.next_pid()) && final(registry)@ == old(
                registry,
            )@.spawned(request.component@, registry::opt_text(request.name), None),
        },
{
    let name = match &request.name {
        Some(n) => Some(n.as_str()),
        None => None,
    };
    match begin_spawn(registry, request.component.as_str(), name) {
        Ok(pid) => SpawnBegun::Start(pid),
        Err(e) => SpawnBegun::Refused(refuse_spawn(e)),
    }
}

/// Nodes that already agree fall silent: an announcement of nothing new is not passed on.
pub proof fn law_announcements_end(c: ClusterView, nodes: Seq<NodeId>, now_ms: u64)
    requires
        c.sound(),
    ensures
        on_announce(c.learned(nodes, now_ms), nodes, now_ms) == Seq::<EffectView>::empty(),
{
    cluster::law_known_nodes_are_no_news(c, nodes, now_ms);
}

/// One introduction is enough for two nodes to learn of each other through a third: when B has
/// joined A and C dials A, A's announcement to C names B, and C takes B in.
pub proof fn law_introductions_are_transitive(
    a: ClusterView,
    b: NodeId,
    c: ClusterView,
    now_ms: u64,
)
    requires
        a.sound(),
        c.sound(),
        a.members.contains(b),
        b != c.me,
        a.takes_in(c.me, now_ms),
        !c.barred(b, now_ms),
    ensures
        ({
            let roster = a.learned(seq![c.me], now_ms).members.filter(
                cluster::node_other_than(c.me),
            );
            &&& on_announce(a, seq![c.me], now_ms) == seq![
                EffectView::Send(c.me, PeerMessageView::Announce { nodes: roster }),
            ]
            &&& c.learned(roster, now_ms).members.contains(b)
        }),
{
    let one = seq![c.me];
    assert(one.drop_last() =~= Seq::<NodeId>::empty());
    assert(a.news(Seq::empty(), now_ms) == Seq::<NodeId>::empty());
    let after = a.learned(one, now_ms);
    let roster = after.members.filter(cluster::node_other_than(c.me));
    assert(on_announce(a, one, now_ms) =~= seq![
        EffectView::Send(c.me, PeerMessageView::Announce { nodes: roster }),
    ]);
    registry::lemma_push_contains(a.members, c.me);
    assert(a.members.push(c.me).contains(b));
    let i = choose|i: int| 0 <= i < after.members.len() && after.members[i] == b;
    after.members.lemma_filter_contains(cluster::node_other_than(c.me), i);
    cluster::lemma_learned(c, roster, now_ms);
}

/// A message for a particle that has died is dropped, from another node as from this one.
pub proof fn law_messages_for_the_dead_are_dropped(m: RegistryView, e: Envelope, p: Pid)
    requires
        resolved(m, e.target@) == Some(p),
        !m.states.contains_key(p),
    ensures
        registry_after(m, PeerMessage::Deliver(e)) == m,
{
}

/// Whoever links to or monitors what is already gone hears of it at once, on the way that a later
/// death would take; nothing else changes.
pub proof fn law_ties_to_the_gone_are_answered(
    m: RegistryView,
    c: ClusterView,
    p: PartitionsView,
    from: Pid,
    to: Addressee,
    ref_id: u64,
    now_ms: u64,
)
    requires
        reached(m, to@) is None,
    ensures
        ({
            let link = PeerMessage::Link { from, to };
            &&& registry_after(m, link) == m
            &&& answer_to(m, c, p, link, now_ms) == seq![
                EffectView::Send(
                    from.node,
                    PeerMessageView::Exit { from, to: from, reason: ExitReason::NoProc },
                ),
            ]
        }),
        ({
            let monitor = PeerMessage::Monitor { watcher: from, target: to, ref_id };
            &&& registry_after(m, monitor) == m
            &&& answer_to(m, c, p, monitor, now_ms) == seq![
                EffectView::Send(
                    from.node,
                    PeerMessageView::Down {
                        from,
                        to: from,
                        ref_id,
                        reason: ExitReason::NoProc,
                    },
                ),
            ]
        }),
{
}

} // verus!
