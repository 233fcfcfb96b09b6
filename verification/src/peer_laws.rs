//! What the messages of other nodes do here, told from whom they address.

use crate::cluster::ClusterView;
use crate::death_laws;
use crate::exit_laws;
use crate::host_laws;
use crate::mailbox::MailboxMessage;
use crate::message::ExitReason;
use crate::particle;
use crate::partitions::PartitionsView;
use crate::pid::{NodeId, Pid};
use crate::protocol;
use crate::registry;
use crate::registry::RegistryView;
use crate::signals;
use crate::transport::{Addressee, AddresseeView, EffectView, Envelope, PeerMessage, PeerMessageView};
use vstd::prelude::*;

verus! {

/// A message addresses a particle of this node: by its pid, or by a name that it has.
pub open spec fn addresses(m: RegistryView, a: AddresseeView, p: Pid) -> bool {
    match a {
        AddresseeView::Pid(q) => q == p,
        AddresseeView::Name(n) => m.names.contains_key(n) && m.names[n] == p,
    }
}

/// Two registries differ in no more than the links of one particle, and there only as to one peer.
pub open spec fn only_tie_differs(a: RegistryView, b: RegistryView, p: Pid, peer: Pid) -> bool {
    &&& a.node == b.node && a.next_seq == b.next_seq && a.next_ref == b.next_ref
    &&& a.mailboxes == b.mailboxes && a.entries == b.entries && a.names == b.names
    &&& a.components == b.components && a.deaths == b.deaths
    &&& a.states.dom() == b.states.dom()
    &&& forall|q: Pid| q != p ==> #[trigger] a.states[q] == b.states[q]
    &&& a.states[p].monitors == b.states[p].monitors
    &&& a.states[p].monitored_by == b.states[p].monitored_by
    &&& a.states[p].trap_exit == b.states[p].trap_exit
    &&& forall|l: Pid|
        l != peer ==> (#[trigger] a.states[p].links.contains(l) <==> b.states[p].links.contains(l))
}

/// A message that comes from another node stands last in the mailbox of the particle that it
/// addresses, under its reference where it has one, else as plain data. Nothing is sent back.
pub proof fn law_messages_arrive(
    m: RegistryView,
    c: ClusterView,
    parts: PartitionsView,
    e: Envelope,
    p: Pid,
    now_ms: u64,
)
    requires
        addresses(m, e.target@, p),
        m.states.contains_key(p),
    ensures
        ({
            let after = protocol::registry_after(m, PeerMessage::Deliver(e));
            let now = after.mailboxes[p];
            &&& host_laws::only_mailbox_differs(after, m, p)
            &&& now.queue.len() == m.mailboxes[p].queue.len() + 1
            &&& now.queue.drop_last() == m.mailboxes[p].queue
            &&& match e.ref_id {
                Some(r) => now.queue.last() == MailboxMessage::Tagged {
                    ref_id: r,
                    payload: e.payload,
                },
                None => now.queue.last() == MailboxMessage::Data(e.payload),
            }
        }),
        protocol::answer_to(m, c, parts, PeerMessage::Deliver(e), now_ms).len() == 0,
{
    let after = protocol::registry_after(m, PeerMessage::Deliver(e));
    assert(after.mailboxes[p].queue.drop_last() =~= m.mailboxes[p].queue);
}

/// A link that a particle of another node asks for is recorded with the particle that it
/// addresses, and nothing else changes. When that particle then exits, its death names the peer,
/// and the peer's node is sent the exit with its reason.
pub proof fn law_a_remote_link_fires(
    m: RegistryView,
    c: ClusterView,
    parts: PartitionsView,
    from: Pid,
    to: Addressee,
    p: Pid,
    reason: ExitReason,
    now_ms: u64,
)
    requires
        m.sound(),
        addresses(m, to@, p),
        m.states.contains_key(p),
        from.node != m.node,
        !m.states.contains_key(from),
    ensures
        ({
            let linked = protocol::registry_after(m, PeerMessage::Link { from, to });
            let after = registry::exited(linked, seq![p], reason);
            let d = after.deaths[m.deaths.len() as int];
            &&& only_tie_differs(linked, m, p, from)
            &&& linked.states[p].links.contains(from)
            &&& after.deaths.len() > m.deaths.len()
            &&& d.pid == p && d.reason == reason
            &&& d.remote_links.contains(from)
            &&& signals::death_signals(d).contains(
                EffectView::Send(from.node, PeerMessageView::Exit { from: p, to: from, reason }),
            )
        }),
        protocol::answer_to(m, c, parts, PeerMessage::Link { from, to }, now_ms).len() == 0,
{
    let linked = protocol::registry_after(m, PeerMessage::Link { from, to });
    registry::lemma_push_contains(m.states[p].links, from);
    assert(linked.states.dom() =~= m.states.dom());
    assert(linked.sound());
    let after = registry::exited(linked, seq![p], reason);
    death_laws::law_the_first_death_is_its_own(linked, p, reason);
    let d = after.deaths[m.deaths.len() as int];
    let e = EffectView::Send(from.node, PeerMessageView::Exit { from: p, to: from, reason });
    death_laws::law_deaths_are_signalled(d, e);
    assert(d.remote_links.contains(from));
}

/// A link that a particle of another node gives up is recorded no more, and nothing else changes.
/// When the particle here then exits, its death does not name the peer, and the peer is sent no
/// exit.
pub proof fn law_a_given_up_remote_link_is_silent(
    m: RegistryView,
    c: ClusterView,
    parts: PartitionsView,
    from: Pid,
    to: Addressee,
    p: Pid,
    reason: ExitReason,
    why: ExitReason,
    now_ms: u64,
)
    requires
        m.sound(),
        addresses(m, to@, p),
        m.states.contains_key(p),
        !m.states.contains_key(from),
    ensures
        ({
            let unlinked = protocol::registry_after(m, PeerMessage::Unlink { from, to });
            let after = registry::exited(unlinked, seq![p], reason);
            let d = after.deaths[m.deaths.len() as int];
            &&& only_tie_differs(unlinked, m, p, from)
            &&& !unlinked.states[p].links.contains(from)
            &&& after.deaths.len() > m.deaths.len()
            &&& d.pid == p
            &&& !d.remote_links.contains(from)
            &&& !signals::death_signals(d).contains(
                EffectView::Send(
                    from.node,
                    PeerMessageView::Exit { from: p, to: from, reason: why },
                ),
            )
        }),
        protocol::answer_to(m, c, parts, PeerMessage::Unlink { from, to }, now_ms).len() == 0,
{
    let unlinked = protocol::registry_after(m, PeerMessage::Unlink { from, to });
    registry::lemma_filter_contains(m.states[p].links, particle::other_than(from));
    assert(unlinked.states.dom() =~= m.states.dom());
    assert(unlinked.sound());
    let after = registry::exited(unlinked, seq![p], reason);
    death_laws::law_the_first_death_is_its_own(unlinked, p, reason);
    let d = after.deaths[m.deaths.len() as int];
    let e = EffectView::Send(from.node, PeerMessageView::Exit { from: p, to: from, reason: why });
    death_laws::law_deaths_are_signalled(d, e);
    assert(!d.remote_links.contains(from));
}

/// A monitor that a particle of another node asks for is recorded with the particle that it
/// addresses. When that particle then exits, its death names the watcher, and the watcher's node
/// is sent the end of the monitor, under its reference and with the reason.
pub proof fn law_a_remote_monitor_fires(
    m: RegistryView,
    c: ClusterView,
    parts: PartitionsView,
    watcher: Pid,
    target: Addressee,
    ref_id: u64,
    p: Pid,
    reason: ExitReason,
    now_ms: u64,
)
    requires
        m.sound(),
        addresses(m, target@, p),
        m.states.contains_key(p),
        watcher.node != m.node,
        !m.states.contains_key(watcher),
    ensures
        ({
            let msg = PeerMessage::Monitor { watcher, target, ref_id };
            let watched = protocol::registry_after(m, msg);
            let after = registry::exited(watched, seq![p], reason);
            let d = after.deaths[m.deaths.len() as int];
            &&& watched.states[p].monitored_by.contains((watcher, ref_id))
            &&& watched.states[p].links == m.states[p].links
            &&& watched.states[p].trap_exit == m.states[p].trap_exit
            &&& watched.mailboxes == m.mailboxes
            &&& forall|q: Pid| q != p ==> #[trigger] watched.states[q] == m.states[q]
            &&& after.deaths.len() > m.deaths.len()
            &&& d.pid == p && d.reason == reason
            &&& d.remote_monitors.contains((watcher, ref_id))
            &&& signals::death_signals(d).contains(
                EffectView::Send(
                    watcher.node,
                    PeerMessageView::Down { from: p, to: watcher, ref_id, reason },
                ),
            )
        }),
        protocol::answer_to(
            m,
            c,
            parts,
            PeerMessage::Monitor { watcher, target, ref_id },
            now_ms,
        ).len() == 0,
{
    let msg = PeerMessage::Monitor { watcher, target, ref_id };
    let watched = protocol::registry_after(m, msg);
    registry::lemma_push_contains(m.states[p].monitored_by, (watcher, ref_id));
    assert(watched.states.dom() =~= m.states.dom());
    assert(watched.sound());
    let after = registry::exited(watched, seq![p], reason);
    death_laws::law_the_first_death_is_its_own(watched, p, reason);
    let d = after.deaths[m.deaths.len() as int];
    let e = EffectView::Send(
        watcher.node,
        PeerMessageView::Down { from: p, to: watcher, ref_id, reason },
    );
    death_laws::law_deaths_are_signalled(d, e);
    assert(d.remote_monitors.contains((watcher, ref_id)));
}

/// A monitor that a particle of another node gives up is recorded with nobody any more, and every
/// other one still is. Whoever exits then, no death names it.
pub proof fn law_a_given_up_remote_monitor_is_silent(
    m: RegistryView,
    watcher: Pid,
    ref_id: u64,
    p: Pid,
    q: Pid,
    reason: ExitReason,
)
    requires
        m.sound(),
        m.states.contains_key(q),
    ensures
        ({
            let given_up = protocol::registry_after(m, PeerMessage::Demonitor { watcher, ref_id });
            let after = registry::exited(given_up, seq![p], reason);
            &&& given_up.states.contains_key(q)
            &&& !given_up.states[q].monitored_by.contains((watcher, ref_id))
            &&& given_up.states[q].links == m.states[q].links
            &&& given_up.mailboxes == m.mailboxes
            &&& forall|x: (Pid, u64)|
                x != (watcher, ref_id) ==> (#[trigger] given_up.states[q].monitored_by.contains(x)
                    <==> m.states[q].monitored_by.contains(x))
            &&& forall|i: int|
                m.deaths.len() <= i < after.deaths.len() ==> !(
                #[trigger] after.deaths[i]).remote_monitors.contains((watcher, ref_id))
        }),
{
    exit_laws::law_demonitor_keeps_the_others(m, watcher, ref_id, q);
    exit_laws::law_given_up_monitor_is_silent(m, watcher, ref_id, p, reason);
}

/// The exit of a linked particle on another node is inherited here: a particle that traps exits
/// finds it at the front of its mailbox, with the pid and the reason; another one dies of it, with
/// the same reason, unless it was a normal exit.
pub proof fn law_remote_exits_are_inherited(
    m: RegistryView,
    c: ClusterView,
    parts: PartitionsView,
    from: Pid,
    to: Pid,
    reason: ExitReason,
    now_ms: u64,
)
    requires
        m.sound(),
        m.states.contains_key(to),
    ensures
        ({
            let after = protocol::registry_after(m, PeerMessage::Exit { from, to, reason });
            &&& m.states[to].trap_exit ==> {
                &&& host_laws::only_mailbox_differs(after, m, to)
                &&& after.mailboxes[to].queue.len() == m.mailboxes[to].queue.len() + 1
                &&& after.mailboxes[to].queue[0] == MailboxMessage::Exit { from, reason }
                &&& after.mailboxes[to].queue.skip(1) == m.mailboxes[to].queue
            }
            &&& !m.states[to].trap_exit && reason !is Normal ==> {
                &&& !after.states.contains_key(to)
                &&& after.deaths.len() > m.deaths.len()
                &&& after.deaths[m.deaths.len() as int].pid == to
                &&& forall|i: int|
                    m.deaths.len() <= i < after.deaths.len() ==> (
                    #[trigger] after.deaths[i]).reason == reason
            }
            &&& !m.states[to].trap_exit && reason is Normal ==> after == m
        }),
        protocol::answer_to(m, c, parts, PeerMessage::Exit { from, to, reason }, now_ms).len() == 0,
{
    let after = protocol::registry_after(m, PeerMessage::Exit { from, to, reason });
    if m.states[to].trap_exit {
        assert(after.mailboxes[to].queue.skip(1) =~= m.mailboxes[to].queue);
    } else if reason !is Normal {
        exit_laws::law_exit_is_final(m, to, reason, reason);
        exit_laws::law_each_death_is_published_once(m, to, reason);
        death_laws::law_the_first_death_is_its_own(m, to, reason);
    }
}

/// A kill that comes from another node ends the particle that it addresses, whether or not it
/// traps exits, and those linked to it inherit that it was killed.
pub proof fn law_remote_kills_kill(
    m: RegistryView,
    from: Pid,
    to: Addressee,
    p: Pid,
    q: Pid,
)
    requires
        m.sound(),
        addresses(m, to@, p),
        m.states.contains_key(p),
    ensures
        ({
            let msg = PeerMessage::ExitSignal { from, to, reason: ExitReason::Kill };
            let after = protocol::registry_after(m, msg);
            &&& !after.states.contains_key(p)
            &&& after.deaths.len() > m.deaths.len()
            &&& after.deaths[m.deaths.len() as int].pid == p
            &&& forall|i: int|
                m.deaths.len() <= i < after.deaths.len() ==> (#[trigger] after.deaths[i]).reason
                    is Killed
            &&& m.states.contains_key(q) && q != p && m.states[p].links.contains(q)
                && m.states[q].trap_exit ==> after.states.contains_key(q)
                && after.mailboxes[q].queue.contains(
                MailboxMessage::Exit { from: p, reason: ExitReason::Killed },
            )
            &&& m.states.contains_key(q) && q != p && m.states[p].links.contains(q)
                && !m.states[q].trap_exit ==> !after.states.contains_key(q)
        }),
{
    exit_laws::law_directed_kill_is_untrappable(m, p, from);
    exit_laws::law_each_death_is_published_once(m, p, ExitReason::Killed);
    death_laws::law_the_first_death_is_its_own(m, p, ExitReason::Killed);
    if m.states.contains_key(q) && q != p && m.states[p].links.contains(q) {
        if m.states[q].trap_exit {
            exit_laws::law_directed_kill_is_inherited_as_killed(m, p, from, q);
        } else {
            exit_laws::law_abnormal_exit_spreads(m, p, ExitReason::Killed);
        }
    }
}

/// Any other signal from another node is trapped by a particle that traps exits; another one dies
/// of it unless the reason is normal.
pub proof fn law_other_remote_signals_can_be_trapped(
    m: RegistryView,
    c: ClusterView,
    parts: PartitionsView,
    from: Pid,
    to: Addressee,
    reason: ExitReason,
    p: Pid,
    now_ms: u64,
)
    requires
        m.sound(),
        addresses(m, to@, p),
        m.states.contains_key(p),
        reason !is Kill,
    ensures
        ({
            let after = protocol::registry_after(m, PeerMessage::ExitSignal { from, to, reason });
            &&& m.states[p].trap_exit ==> {
                &&& host_laws::only_mailbox_differs(after, m, p)
                &&& after.mailboxes[p].queue.len() == m.mailboxes[p].queue.len() + 1
                &&& after.mailboxes[p].queue[0] == MailboxMessage::Exit { from, reason }
                &&& after.mailboxes[p].queue.skip(1) == m.mailboxes[p].queue
            }
            &&& !m.states[p].trap_exit && reason !is Normal ==> {
                &&& !after.states.contains_key(p)
                &&& after.deaths.len() > m.deaths.len()
                &&& after.deaths[m.deaths.len() as int].pid == p
                &&& forall|i: int|
                    m.deaths.len() <= i < after.deaths.len() ==> (
                    #[trigger] after.deaths[i]).reason == reason
            }
            &&& !m.states[p].trap_exit && reason is Normal ==> after == m
        }),
        protocol::answer_to(
            m,
            c,
            parts,
            PeerMessage::ExitSignal { from, to, reason },
            now_ms,
        ).len() == 0,
{
    let after = protocol::registry_after(m, PeerMessage::ExitSignal { from, to, reason });
    if m.states[p].trap_exit {
        assert(after.mailboxes[p].queue.skip(1) =~= m.mailboxes[p].queue);
    } else if reason !is Normal {
        exit_laws::law_exit_is_final(m, p, reason, reason);
        exit_laws::law_each_death_is_published_once(m, p, reason);
        death_laws::law_the_first_death_is_its_own(m, p, reason);
    }
}

/// The end of a monitor that comes from another node stands at the front of the watcher's
/// mailbox, under its reference and with the reason.
pub proof fn law_remote_ends_are_heard(
    m: RegistryView,
    c: ClusterView,
    parts: PartitionsView,
    from: Pid,
    to: Pid,
    ref_id: u64,
    reason: ExitReason,
    now_ms: u64,
)
    requires
        m.states.contains_key(to),
    ensures
        ({
            let after = protocol::registry_after(m, PeerMessage::Down { from, to, ref_id, reason });
            &&& host_laws::only_mailbox_differs(after, m, to)
            &&& after.mailboxes[to].queue.len() == m.mailboxes[to].queue.len() + 1
            &&& after.mailboxes[to].queue[0] == MailboxMessage::Down { from, ref_id, reason }
            &&& after.mailboxes[to].queue.skip(1) == m.mailboxes[to].queue
        }),
        protocol::answer_to(
            m,
            c,
            parts,
            PeerMessage::Down { from, to, ref_id, reason },
            now_ms,
        ).len() == 0,
{
    let after = protocol::registry_after(m, PeerMessage::Down { from, to, ref_id, reason });
    assert(after.mailboxes[to].queue.skip(1) =~= m.mailboxes[to].queue);
}

/// What concerns particles changes nobody's roster, and what concerns rosters changes no
/// particle.
pub proof fn law_concerns_are_kept_apart(
    m: RegistryView,
    c: ClusterView,
    parts: PartitionsView,
    msg: PeerMessage,
    now_ms: u64,
)
    ensures
        msg is Announce || msg is LostConnection || msg is RemoveConnection
            ==> protocol::registry_after(m, msg) == m,
        msg !is Announce && msg !is LostConnection && msg !is RemoveConnection
            ==> protocol::cluster_after(c, parts, msg, now_ms) == c,
        msg !is LostConnection ==> protocol::partitions_after(parts, msg, now_ms) == parts,
{
}

/// A message for nobody changes nothing here.
pub proof fn law_messages_for_strangers_do_nothing(
    m: RegistryView,
    from: Pid,
    a: Addressee,
    p: Pid,
    reason: ExitReason,
    ref_id: u64,
)
    requires
        m.sound(),
        addresses(m, a@, p) && !m.states.contains_key(p) || (a@ matches AddresseeView::Name(n)
            && !m.names.contains_key(n)),
    ensures
        protocol::registry_after(m, PeerMessage::Link { from, to: a }) == m,
        protocol::registry_after(m, PeerMessage::Unlink { from, to: a }) == m,
        protocol::registry_after(m, PeerMessage::Monitor { watcher: from, target: a, ref_id }) == m,
        protocol::registry_after(m, PeerMessage::ExitSignal { from, to: a, reason }) == m,
{
    if addresses(m, a@, p) {
        exit_laws::law_exit_of_nobody(m, p, ExitReason::Killed);
    }
}

/// Whoever hears of a node that is new to it tells that node, and only such nodes, of all the
/// members that it has then but the node itself, once each. It has taken in all of them and
/// dropped nobody.
pub proof fn law_new_nodes_are_told_of_the_others(
    m: RegistryView,
    c: ClusterView,
    parts: PartitionsView,
    nodes: Vec<NodeId>,
    now_ms: u64,
    n: NodeId,
)
    requires
        c.sound(),
    ensures
        ({
            let msg = PeerMessage::Announce { nodes };
            let after = protocol::cluster_after(c, parts, msg, now_ms);
            let sent = protocol::answer_to(m, c, parts, msg, now_ms);
            let is_new = nodes@.contains(n) && n != c.me && !c.members.contains(n) && !(
            c.quarantined.contains_key(n) && c.quarantined[n] > now_ms);
            &&& after.members.contains(n) <==> c.members.contains(n) || is_new
            &&& is_new <==> exists|i: int|
                0 <= i < sent.len() && (#[trigger] sent[i] matches EffectView::Send(to, _) && to
                    == n)
            &&& forall|i: int|
                0 <= i < sent.len() ==> (#[trigger] sent[i] matches EffectView::Send(
                    to,
                    PeerMessageView::Announce { nodes: told },
                ) && !told.contains(to) && (forall|k: NodeId|
                    k != to ==> (#[trigger] told.contains(k) <==> after.members.contains(k))))
            &&& forall|i: int, j: int|
                0 <= i < j < sent.len() ==> #[trigger] sent[i]->Send_0 != #[trigger] sent[j]->Send_0
        }),
{
    let msg = PeerMessage::Announce { nodes };
    let after = protocol::cluster_after(c, parts, msg, now_ms);
    let sent = protocol::answer_to(m, c, parts, msg, now_ms);
    let news = c.news(nodes@, now_ms);
    lemma_news(c, nodes@, now_ms, n);
    assert(sent.len() == news.len());
    assert forall|i: int| 0 <= i < sent.len() implies (#[trigger] sent[i] matches EffectView::Send(
        to,
        PeerMessageView::Announce { nodes: told },
    ) && !told.contains(to) && (forall|k: NodeId|
        k != to ==> (#[trigger] told.contains(k) <==> after.members.contains(k)))) by {
        registry::lemma_filter_contains(
            after.members,
            crate::cluster::node_other_than(news[i]),
        );
    }
    if news.contains(n) {
        let i = choose|i: int| 0 <= i < news.len() && news[i] == n;
        assert(sent[i] matches EffectView::Send(to, _) && to == n);
    }
    if exists|i: int|
        0 <= i < sent.len() && (#[trigger] sent[i] matches EffectView::Send(to, _) && to == n) {
        let i = choose|i: int|
            0 <= i < sent.len() && (#[trigger] sent[i] matches EffectView::Send(to, _) && to == n);
        assert(news[i] == n);
    }
    assert forall|i: int, j: int| 0 <= i < j < sent.len() implies #[trigger] sent[i]->Send_0
        != #[trigger] sent[j]->Send_0 by {
        assert(news[i] != news[j]);
    }
}

/// Who is new, and who is a member afterwards.
proof fn lemma_news(c: ClusterView, nodes: Seq<NodeId>, now_ms: u64, n: NodeId)
    requires
        c.sound(),
    ensures
        ({
            let is_new = nodes.contains(n) && n != c.me && !c.members.contains(n) && !(
            c.quarantined.contains_key(n) && c.quarantined[n] > now_ms);
            let after = c.learned(nodes, now_ms);
            &&& after.me == c.me
            &&& after.sound()
            &&& after.members.contains(n) <==> c.members.contains(n) || is_new
            &&& after.barred(n, now_ms) <==> c.barred(n, now_ms)
            &&& c.news(nodes, now_ms).contains(n) <==> is_new
            &&& c.news(nodes, now_ms).no_duplicates()
        }),
    decreases nodes.len(),
{
    if nodes.len() > 0 {
        let init = nodes.drop_last();
        let last = nodes.last();
        lemma_news(c, init, now_ms, n);
        lemma_news(c, init, now_ms, last);
        assert(nodes =~= init.push(last));
        registry::lemma_push_contains(init, last);
        let before = c.learned(init, now_ms);
        registry::lemma_push_contains(before.members, last);
        registry::lemma_push_contains(c.news(init, now_ms), last);
    }
}

} // verus!
