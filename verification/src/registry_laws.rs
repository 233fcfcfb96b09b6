//! What spawning, monitoring and sending do to a registry, what a mailbox takes in, and what a
//! roster keeps.

use crate::cluster;
use crate::cluster::ClusterView;
use crate::exit_laws;
use crate::host_laws;
use crate::invoke;
use crate::mailbox;
use crate::mailbox::{MailboxMessage, MailboxView, SendError};
use crate::message::{ExitReason, SystemMessage};
use crate::pid;
use crate::pid::{NodeId, Pid};
use crate::protocol;
use crate::protocol::SpawnRefusal;
use crate::registry;
use crate::registry::{RegistryError, RegistryView};
use crate::transport::{EffectView, PeerMessageView};
use crate::wire::Target;
use vstd::prelude::*;

verus! {

/// A name is one that a particle has.
pub open spec fn name_taken(m: RegistryView, name: Option<Seq<char>>) -> bool {
    name matches Some(n) && m.names.contains_key(n)
}

/// A spawned particle runs under a pid of its node, with nothing in its mailbox and no ties. It is
/// listed with its component, its name and what it may do, and found under its name. Nobody else
/// is changed by it.
pub proof fn law_a_spawned_particle_is_there(
    m: RegistryView,
    component: Seq<char>,
    name: Option<Seq<char>>,
    capabilities: Option<Set<Seq<char>>>,
    q: Pid,
    other: Seq<char>,
)
    ensures
        ({
            let p = Pid { node: m.node, seq: m.next_seq };
            let after = m.spawned(component, name, capabilities);
            &&& m.next_pid() == p
            &&& after.states.contains_key(p)
            &&& after.states[p].links.len() == 0 && after.states[p].monitored_by.len() == 0
            &&& after.states[p].monitors.dom() == Set::<u64>::empty()
            &&& !after.states[p].trap_exit
            &&& after.mailboxes.contains_key(p) && after.mailboxes[p].queue.len() == 0
            &&& !after.mailboxes[p].closed && after.mailboxes[p].capacity is None
            &&& after.entries.contains_key(p)
            &&& after.entries[p].pid == p && after.entries[p].component_name == component
            &&& after.entries[p].name == name
            &&& capabilities matches Some(c) ==> after.entries[p].capabilities == c
            &&& capabilities is None ==> after.entries[p].capabilities == m.components[component]
            &&& name matches Some(n) ==> after.names.contains_key(n) && after.names[n] == p
            &&& name != Some(other) ==> (after.names.contains_key(other) <==> m.names.contains_key(
                other,
            )) && after.names[other] == m.names[other]
            &&& q != p ==> {
                &&& after.states.contains_key(q) <==> m.states.contains_key(q)
                &&& after.states[q] == m.states[q]
                &&& after.mailboxes.contains_key(q) <==> m.mailboxes.contains_key(q)
                &&& after.mailboxes[q] == m.mailboxes[q]
                &&& after.entries.contains_key(q) <==> m.entries.contains_key(q)
                &&& after.entries[q] == m.entries[q]
            }
            &&& after.deaths == m.deaths && after.components == m.components && after.node == m.node
                && after.next_ref == m.next_ref
            &&& m.next_seq < u64::MAX ==> after.next_seq == m.next_seq + 1
        }),
{
    let after = m.spawned(component, name, capabilities);
    assert(after.states[m.next_pid()].monitors.dom() =~= Set::<u64>::empty());
}

/// A spawn is refused exactly where its name is taken or its component is not known, and for what
/// of the two comes first.
pub proof fn law_spawns_are_refused_for_cause(
    m: RegistryView,
    component: Seq<char>,
    name: Option<Seq<char>>,
)
    ensures
        m.spawn_refusal(component, name) is None <==> !name_taken(m, name)
            && m.components.contains_key(component),
        m.spawn_refusal(component, name) == Some(RegistryError::NameTaken) <==> name_taken(m, name),
        m.spawn_refusal(component, name) == Some(RegistryError::UnknownComponent) <==> !name_taken(
            m,
            name,
        ) && !m.components.contains_key(component),
        protocol::spawn_refused(m, component, name) is None <==> !name_taken(m, name)
            && m.components.contains_key(component),
        protocol::spawn_refused(m, component, name) == Some(SpawnRefusal::UnknownComponent)
            <==> !m.components.contains_key(component),
        protocol::spawn_refused(m, component, name) == Some(SpawnRefusal::Refused)
            <==> m.components.contains_key(component) && name_taken(m, name),
{
}

/// A child that is spawned linked and the parent that runs are tied to each other; everybody
/// else keeps the ties that it has. Where the parent does not run the child has no tie.
pub proof fn law_a_linked_child_is_tied_to_its_parent(
    m: RegistryView,
    parent: Pid,
    component: Seq<char>,
    name: Option<Seq<char>>,
    q: Pid,
)
    requires
        !m.states.contains_key(m.next_pid()),
    ensures
        ({
            let child = m.next_pid();
            let after = invoke::linked_spawn(m, parent, component, name);
            &&& after.states.contains_key(child)
            &&& m.states.contains_key(parent) ==> after.states[child].links.contains(parent)
                && after.states[parent].links.contains(child)
            &&& !m.states.contains_key(parent) && parent != child
                ==> after.states[child].links.len() == 0
            &&& q != child && q != parent && m.states.contains_key(q) ==> after.states[q]
                == m.states[q]
            &&& q != child && m.states.contains_key(q) ==> after.states.contains_key(q)
            &&& name matches Some(n) ==> after.names.contains_key(n) && after.names[n] == child
            &&& after.entries.contains_key(child) && after.entries[child].component_name
                == component && after.entries[child].name == name
        }),
{
    let child = m.next_pid();
    let spawned = m.spawned(component, name, None);
    if m.states.contains_key(parent) {
        registry::lemma_push_contains(m.states[parent].links, child);
        registry::lemma_push_contains(Seq::<Pid>::empty(), parent);
    }
}

/// A parent that does not trap exits dies of the abnormal death of a child that it spawned linked.
pub proof fn law_a_linked_child_takes_its_parent_along(
    m: RegistryView,
    parent: Pid,
    component: Seq<char>,
    name: Option<Seq<char>>,
    reason: ExitReason,
)
    requires
        m.sound(),
        m.states.contains_key(parent),
        !m.states[parent].trap_exit,
        !m.states.contains_key(m.next_pid()),
        reason !is Normal,
    ensures
        !registry::exited(
            invoke::linked_spawn(m, parent, component, name),
            seq![m.next_pid()],
            reason,
        ).states.contains_key(parent),
{
    let child = m.next_pid();
    let linked = invoke::linked_spawn(m, parent, component, name);
    law_a_linked_child_is_tied_to_its_parent(m, parent, component, name, parent);
    assert(linked.states.dom() =~= m.states.dom().insert(child));
    assert(linked.sound());
    exit_laws::law_abnormal_exit_spreads(linked, child, reason);
    let after = registry::exited(linked, seq![child], reason);
    assert(exit_laws::perished(linked, after, child));
    assert(linked.states[child].links.contains(parent));
    assert(exit_laws::perished(linked, after, parent));
}

/// To monitor a particle that runs is to be noted with it under a new reference, and to hear of
/// its end under that reference, with the reason.
pub proof fn law_monitoring_is_hearing_of_the_end(
    m: RegistryView,
    watcher: Pid,
    target: Pid,
    reason: ExitReason,
)
    requires
        m.sound(),
        m.states.contains_key(watcher),
        m.states.contains_key(target),
    ensures
        ({
            let r = m.next_ref;
            let watching = registry::monitored(m, watcher, target);
            let after = registry::exited(watching, seq![target], reason);
            &&& watching.mailboxes == m.mailboxes
            &&& watching.states.dom() == m.states.dom()
            &&& watching.states[watcher].monitors.contains_key(r)
            &&& watching.states[watcher].monitors[r] == target
            &&& watching.states[target].monitored_by.contains((watcher, r))
            &&& m.next_ref < u64::MAX ==> watching.next_ref == r + 1
            &&& after.states.contains_key(watcher) ==> after.mailboxes[watcher].queue.contains(
                MailboxMessage::Down { from: target, ref_id: r, reason },
            )
        }),
{
    let r = m.next_ref;
    let watching = registry::monitored(m, watcher, target);
    registry::lemma_push_contains(m.states[target].monitored_by, (watcher, r));
    assert(watching.states.dom() =~= m.states.dom());
    assert(watching.sound());
    let after = registry::exited(watching, seq![target], reason);
    exit_laws::law_exit_is_final(watching, target, reason, reason);
    if after.states.contains_key(watcher) {
        exit_laws::law_watchers_hear(watching, target, reason, target, watcher, r);
    }
}

/// To monitor a particle that does not run is to hear at once that it has ended.
pub proof fn law_monitoring_the_gone_is_answered_at_once(m: RegistryView, watcher: Pid, target: Pid)
    requires
        m.states.contains_key(watcher),
        !m.states.contains_key(target),
    ensures
        ({
            let after = registry::monitored(m, watcher, target);
            &&& after.states == m.states
            &&& after.mailboxes[watcher].queue.len() == m.mailboxes[watcher].queue.len() + 1
            &&& after.mailboxes[watcher].queue[0] == MailboxMessage::Down {
                from: target,
                ref_id: m.next_ref,
                reason: ExitReason::Normal,
            }
            &&& after.mailboxes[watcher].queue.skip(1) == m.mailboxes[watcher].queue
            &&& forall|q: Pid| q != watcher ==> #[trigger] after.mailboxes[q] == m.mailboxes[q]
        }),
{
    let after = registry::monitored(m, watcher, target);
    assert(after.mailboxes[watcher].queue.skip(1) =~= m.mailboxes[watcher].queue);
}

/// What is sent stands last in the mailbox, as it was sent, and what the system says stands first;
/// no other mailbox changes.
pub proof fn law_sends_go_to_one_mailbox(
    m: RegistryView,
    p: Pid,
    msg: MailboxMessage,
    word: SystemMessage,
)
    requires
        m.states.contains_key(p),
    ensures
        host_laws::only_mailbox_differs(m.sent(p, msg), m, p),
        m.sent(p, msg).mailboxes[p].queue.last() == msg,
        m.sent(p, msg).mailboxes[p].queue.drop_last() == m.mailboxes[p].queue,
        m.sent(p, msg).mailboxes[p].queue.len() == m.mailboxes[p].queue.len() + 1,
        host_laws::only_mailbox_differs(m.told(p, word), m, p),
        m.told(p, word).mailboxes[p].queue.len() == m.mailboxes[p].queue.len() + 1,
        m.told(p, word).mailboxes[p].queue.skip(1) == m.mailboxes[p].queue,
        match word {
            SystemMessage::Exit { from, reason } => m.told(p, word).mailboxes[p].queue[0]
                == MailboxMessage::Exit { from, reason },
            SystemMessage::Down { from, monitor_ref, reason } => m.told(
                p,
                word,
            ).mailboxes[p].queue[0] == MailboxMessage::Down { from, ref_id: monitor_ref, reason },
        },
{
    assert(m.sent(p, msg).mailboxes[p].queue.drop_last() =~= m.mailboxes[p].queue);
    assert(m.told(p, word).mailboxes[p].queue.skip(1) =~= m.mailboxes[p].queue);
}

/// Nothing is sent or told to one who does not run.
pub proof fn law_the_dead_are_sent_nothing(
    m: RegistryView,
    p: Pid,
    msg: MailboxMessage,
    word: SystemMessage,
)
    requires
        !m.states.contains_key(p),
    ensures
        m.sent(p, msg) == m,
        m.told(p, word) == m,
{
}

/// A send that a client asks for goes to the particle that it names, by pid or by name; it fails
/// exactly where no such particle runs.
pub proof fn law_clients_reach_who_they_name(m: RegistryView, t: Target, p: Pid)
    ensures
        (t == Target::Pid(p) || (t matches Target::Name(n) && m.names.contains_key(n@)
            && m.names[n@] == p)) ==> protocol::target_pid(m, t) == Some(p) && (protocol::send_answer(
            m,
            t,
        ) is Ok <==> m.states.contains_key(p)),
        (t matches Target::Name(n) && !m.names.contains_key(n@)) ==> protocol::target_pid(m, t)
            is None && protocol::send_answer(m, t) is Err,
{
}

/// A particle is listed by its pid, its component and the name that it was spawned under.
pub proof fn law_particles_are_listed_as_spawned(
    m: RegistryView,
    component: Seq<char>,
    name: Option<Seq<char>>,
    capabilities: Option<Set<Seq<char>>>,
)
    ensures
        registry::is_listed(
            m.spawned(component, name, capabilities),
            (Pid { node: m.node, seq: m.next_seq }, component, name),
        ),
        forall|x: (Pid, Seq<char>, Option<Seq<char>>)| #[trigger]
            registry::is_listed(m, x) ==> exists|p: Pid| #[trigger]
                m.entries.contains_key(p) && m.entries[p].pid == x.0 && m.entries[p].component_name
                    == x.1 && m.entries[p].name == x.2,
{
    let after = m.spawned(component, name, capabilities);
    assert(after.entries.contains_key(m.next_pid()));
}

/// An open mailbox takes in what is sent while it holds fewer messages from particles than it may;
/// a full or a closed one takes in nothing and says which it is.
pub proof fn law_mailboxes_take_in_what_they_can_hold(m: MailboxView, msg: MailboxMessage)
    ensures
        ({
            let full = m.capacity matches Some(most) && mailbox::sent_ones(m.queue).len() >= most;
            &&& m.closed ==> m.admits() == Err::<(), SendError>(SendError::NoProcess)
            &&& !m.closed && full ==> m.admits() == Err::<(), SendError>(SendError::MailboxFull)
            &&& !m.closed && !full ==> m.admits() is Ok
            &&& m.admits() is Err ==> m.sent(msg) == m
            &&& m.admits() is Ok ==> {
                &&& m.sent(msg).queue.len() == m.queue.len() + 1
                &&& m.sent(msg).queue.last() == msg
                &&& m.sent(msg).queue.drop_last() == m.queue
                &&& m.sent(msg).closed == m.closed && m.sent(msg).capacity == m.capacity
            }
        }),
{
    assert(m.with_back(msg).queue.drop_last() =~= m.queue);
}

/// A capacity counts what particles send, under a reference or not, and nothing that the system
/// says.
pub proof fn law_what_a_capacity_counts(queue: Seq<MailboxMessage>, msg: MailboxMessage)
    ensures
        mailbox::sent_ones(Seq::<MailboxMessage>::empty()).len() == 0,
        mailbox::sent_ones(queue.push(msg)).len() == mailbox::sent_ones(queue).len() + (if msg
            is Data || msg is Tagged {
            1nat
        } else {
            0nat
        }),
{
    reveal(Seq::filter);
    assert(queue.push(msg).drop_last() =~= queue);
}

/// Whoever waits for a reference is given what came under it: a message, the end of a monitor or
/// the outcome of a spawn; and nothing that came under another one or none.
pub proof fn law_what_a_reference_answers_to(msg: MailboxMessage, r: u64)
    ensures
        mailbox::answers(msg, r) <==> match msg {
            MailboxMessage::Tagged { ref_id, .. } => ref_id == r,
            MailboxMessage::Down { ref_id, .. } => ref_id == r,
            MailboxMessage::SpawnReply { ref_id, .. } => ref_id == r,
            MailboxMessage::Data(_) => false,
            MailboxMessage::Exit { .. } => false,
        },
{
}

/// A closed mailbox keeps what it holds.
pub proof fn law_closing_keeps_the_messages(m: MailboxView)
    ensures
        m.shut().closed,
        m.shut().queue == m.queue,
        m.shut().capacity == m.capacity,
{
}

/// To forget a node is to have it among the members no more; everybody else stays, and so does
/// who is kept out.
pub proof fn law_forgetting_takes_one_node_out(c: ClusterView, node: NodeId, n: NodeId)
    requires
        c.sound(),
    ensures
        c.without(node).sound(),
        !c.without(node).members.contains(node),
        n != node ==> (c.without(node).members.contains(n) <==> c.members.contains(n)),
        c.without(node).quarantined == c.quarantined,
        c.without(node).me == c.me,
{
    registry::lemma_filter_contains(c.members, cluster::node_other_than(node));
    cluster::lemma_without(c, node);
}

/// A quarantine that has run out can be struck off: it kept nobody out, and who is a member stays
/// one.
pub proof fn law_striking_off_changes_nobody(
    c: ClusterView,
    node: NodeId,
    n: NodeId,
    now_ms: u64,
    later_ms: u64,
)
    requires
        now_ms <= later_ms,
    ensures
        c.lifted(node, now_ms).members == c.members,
        c.lifted(node, now_ms).me == c.me,
        c.lifted(node, now_ms).barred(n, later_ms) == c.barred(n, later_ms),
        c.barred(n, now_ms) <==> c.quarantined.contains_key(n) && c.quarantined[n] > now_ms,
{
}

/// To join through a peer is to take it in and to tell it, once, of everybody else that is known.
pub proof fn law_joining_introduces_the_others(c: ClusterView, peer: NodeId, now_ms: u64, n: NodeId)
    requires
        c.sound(),
        peer != c.me,
        !(c.quarantined.contains_key(peer) && c.quarantined[peer] > now_ms),
    ensures
        ({
            let after = c.learned(seq![peer], now_ms);
            let sent = protocol::announcements(after.members, seq![peer]);
            &&& after.members.contains(peer)
            &&& n != peer ==> (after.members.contains(n) <==> c.members.contains(n))
            &&& sent.len() == 1
            &&& sent[0] matches EffectView::Send(to, PeerMessageView::Announce { nodes }) && to
                == peer && (nodes.contains(n) <==> c.members.contains(n) && n != peer)
        }),
{
    let one = seq![peer];
    assert(one.drop_last() =~= Seq::<NodeId>::empty());
    assert(one.last() == peer);
    assert(c.learned(Seq::empty(), now_ms) == c);
    let after = c.learned(one, now_ms);
    assert(after == c.heard(peer, now_ms));
    registry::lemma_push_contains(c.members, peer);
    registry::lemma_filter_contains(after.members, cluster::node_other_than(peer));
}

} // verus!
