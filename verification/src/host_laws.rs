//! What a particle's calls do, told from where their destination is.

use crate::death_laws;
use crate::exit_laws;
use crate::host;
use crate::host::{DestinationView, LocalTargetView};
use crate::mailbox::MailboxMessage;
use crate::message::ExitReason;
use crate::particle;
use crate::pid;
use crate::pid::{NodeId, Pid};
use crate::registry;
use crate::registry::RegistryView;
use crate::text;
use crate::transport::{AddresseeView, EffectView, PeerMessageView};
use vstd::prelude::*;

verus! {

/// A destination is a particle of this node: by its pid, or by a name that it has here.
pub open spec fn is_here(m: RegistryView, me: Option<NodeId>, dest: DestinationView, p: Pid) -> bool {
    match dest {
        DestinationView::Pid(Some(q)) => q == p && (me is None || me == Some(p.node)),
        DestinationView::Pid(None) => false,
        DestinationView::LocalNamed(n) => m.names.contains_key(n) && m.names[n] == p,
        DestinationView::Named(node, n) => me is Some && host::spells_node(node, me->0)
            && m.names.contains_key(n) && m.names[n] == p,
    }
}

/// A destination is on this node, and nothing of that name is there.
pub open spec fn is_nobody_here(m: RegistryView, me: Option<NodeId>, dest: DestinationView) -> bool {
    match dest {
        DestinationView::LocalNamed(n) => !m.names.contains_key(n),
        DestinationView::Named(node, n) => me is Some && host::spells_node(node, me->0)
            && !m.names.contains_key(n),
        _ => false,
    }
}

/// A destination is a pid of another node.
pub open spec fn is_pid_away(me: Option<NodeId>, dest: DestinationView, p: Pid) -> bool {
    me is Some && me->0 != p.node && dest == DestinationView::Pid(Some(p))
}

/// A destination is a name on another node.
pub open spec fn is_name_away(me: Option<NodeId>, dest: DestinationView, node: NodeId, n: Seq<char>) -> bool {
    dest matches DestinationView::Named(s, name) && name == n && host::spells_node(s, node) && me
        != Some(node)
}

/// A destination is no particle at all: a stale handle, or a name on what is no node.
pub open spec fn is_nowhere(dest: DestinationView) -> bool {
    match dest {
        DestinationView::Pid(None) => true,
        DestinationView::Named(node, _) => host::spells_no_node(node),
        _ => false,
    }
}

/// Two registries differ in nothing but one mailbox.
pub open spec fn only_mailbox_differs(a: RegistryView, b: RegistryView, p: Pid) -> bool {
    &&& a.node == b.node && a.next_seq == b.next_seq && a.next_ref == b.next_ref
    &&& a.states == b.states && a.entries == b.entries && a.names == b.names
    &&& a.components == b.components && a.deaths == b.deaths
    &&& forall|q: Pid|
        q != p ==> (#[trigger] a.mailboxes.contains_key(q) <==> b.mailboxes.contains_key(q))
            && a.mailboxes[q] == b.mailboxes[q]
}

/// What a destination on another node is asked for there.
pub open spec fn asks(sent: Seq<EffectView>, peers: bool, node: NodeId, msg: PeerMessageView) -> bool {
    if peers {
        sent.len() == 1 && sent[0] == EffectView::Send(node, msg)
    } else {
        sent.len() == 0
    }
}

proof fn lemma_points_here(m: RegistryView, me: Option<NodeId>, dest: DestinationView, t: LocalTargetView)
    requires
        host::points_to(me, dest, t),
    ensures
        forall|p: Pid| #[trigger]
            is_here(m, me, dest, p) ==> t is Here && (t == LocalTargetView::Here(
                AddresseeView::Pid(p),
            ) || exists|n: Seq<char>| #[trigger]
                m.names.contains_key(n) && m.names[n] == p && t == LocalTargetView::Here(
                    AddresseeView::Name(n),
                )),
        is_nobody_here(m, me, dest) ==> exists|n: Seq<char>|
            !(#[trigger] m.names.contains_key(n)) && t == LocalTargetView::Here(
                AddresseeView::Name(n),
            ),
        forall|p: Pid| #[trigger]
            is_pid_away(me, dest, p) ==> t == LocalTargetView::Elsewhere(
                p.node,
                AddresseeView::Pid(p),
            ),
        forall|node: NodeId, n: Seq<char>| #[trigger]
            is_name_away(me, dest, node, n) ==> t == LocalTargetView::Elsewhere(
                node,
                AddresseeView::Name(n),
            ),
        is_nowhere(dest) ==> t is Unknown,
{
}

/// A node is spelled by its bytes, two digits each: that text spells it, no text spells two nodes,
/// and what spells none spells none.
pub proof fn law_how_nodes_are_spelled(node: NodeId, other: NodeId, s: Seq<char>)
    ensures
        pid::is_public_key(node.bytes()) ==> host::spells_node(text::hex_text(node.bytes()), node),
        host::spells_node(s, node) && host::spells_node(s, other) ==> node == other,
        host::spells_no_node(s) ==> !host::spells_node(s, node),
        host::spells_node(s, node) ==> s.len() == 64 && pid::is_public_key(node.bytes()),
        s.len() != 64 ==> host::spells_no_node(s),
{
    broadcast use pid::lemma_node_bytes;

    text::lemma_hex_roundtrip(node.bytes());
    assert(node.bytes().len() == 32 && other.bytes().len() == 32);
}

/// A text that begins with another is that one and something more.
pub proof fn law_what_a_prefix_is(s: Seq<char>, prefix: Seq<char>, rest: Seq<char>)
    ensures
        host::has_prefix(prefix + rest, prefix),
        host::has_prefix(s, prefix) ==> s == prefix + s.skip(prefix.len() as int),
{
    assert((prefix + rest).take(prefix.len() as int) =~= prefix);
    if host::has_prefix(s, prefix) {
        assert(s =~= prefix + s.skip(prefix.len() as int));
    }
}

/// Levels are numbered from the most talkative on, and whatever is beyond the last is an error.
pub proof fn law_how_levels_are_numbered(value: u32)
    ensures
        host::level_of(value) is Trace <==> value == 0,
        host::level_of(value) is Debug <==> value == 1,
        host::level_of(value) is Info <==> value == 2,
        host::level_of(value) is Warn <==> value == 3,
        host::level_of(value) is Error <==> value > 3,
{
}

/// A message for a particle that runs here stands last in its mailbox and nowhere else: under its
/// reference where it has one, else as plain data. Nothing goes to another node.
pub proof fn law_messages_reach_the_particle(
    m: RegistryView,
    me: Option<NodeId>,
    peers: bool,
    dest: DestinationView,
    t: LocalTargetView,
    p: Pid,
    ref_id: Option<u64>,
    payload: Vec<u8>,
)
    requires
        host::points_to(me, dest, t),
        is_here(m, me, dest, p),
        m.states.contains_key(p),
    ensures
        ({
            let after = host::delivered_here(m, t, ref_id, payload);
            let was = m.mailboxes[p];
            let now = after.mailboxes[p];
            &&& only_mailbox_differs(after, m, p)
            &&& after.mailboxes.contains_key(p)
            &&& now.closed == was.closed && now.capacity == was.capacity
            &&& now.queue.len() == was.queue.len() + 1
            &&& now.queue.drop_last() == was.queue
            &&& match ref_id {
                Some(r) => now.queue.last() == MailboxMessage::Tagged { ref_id: r, payload },
                None => now.queue.last() == MailboxMessage::Data(payload),
            }
        }),
        host::sent_for(
            peers,
            t,
            |a: AddresseeView| PeerMessageView::Deliver { target: a, ref_id, payload: payload@ },
        ).len() == 0,
{
    lemma_points_here(m, me, dest, t);
    let after = host::delivered_here(m, t, ref_id, payload);
    assert(after.mailboxes[p].queue.drop_last() =~= m.mailboxes[p].queue);
}

/// A message that finds nobody here is dropped.
pub proof fn law_messages_for_nobody_are_dropped(
    m: RegistryView,
    me: Option<NodeId>,
    peers: bool,
    dest: DestinationView,
    t: LocalTargetView,
    p: Pid,
    ref_id: Option<u64>,
    payload: Vec<u8>,
)
    requires
        host::points_to(me, dest, t),
        is_nobody_here(m, me, dest) || is_nowhere(dest) || (is_here(m, me, dest, p)
            && !m.states.contains_key(p)),
    ensures
        host::delivered_here(m, t, ref_id, payload) == m,
        host::sent_for(
            peers,
            t,
            |a: AddresseeView| PeerMessageView::Deliver { target: a, ref_id, payload: payload@ },
        ).len() == 0,
{
    lemma_points_here(m, me, dest, t);
}

/// A message for another node changes nothing here and goes there as it is, with its reference
/// and its payload, once, where there are links.
pub proof fn law_messages_travel(
    m: RegistryView,
    me: Option<NodeId>,
    peers: bool,
    dest: DestinationView,
    t: LocalTargetView,
    p: Pid,
    node: NodeId,
    n: Seq<char>,
    ref_id: Option<u64>,
    payload: Vec<u8>,
)
    requires
        host::points_to(me, dest, t),
    ensures
        ({
            let sent = host::sent_for(
                peers,
                t,
                |a: AddresseeView| PeerMessageView::Deliver { target: a, ref_id, payload: payload@ },
            );
            &&& is_pid_away(me, dest, p) ==> host::delivered_here(m, t, ref_id, payload) == m
                && asks(
                sent,
                peers,
                p.node,
                PeerMessageView::Deliver {
                    target: AddresseeView::Pid(p),
                    ref_id,
                    payload: payload@,
                },
            )
            &&& is_name_away(me, dest, node, n) ==> host::delivered_here(m, t, ref_id, payload)
                == m && asks(
                sent,
                peers,
                node,
                PeerMessageView::Deliver {
                    target: AddresseeView::Name(n),
                    ref_id,
                    payload: payload@,
                },
            )
        }),
{
    lemma_points_here(m, me, dest, t);
}

/// A kill that is sent to a particle of this node ends it, whether or not it traps exits. Whoever
/// is linked to it and traps exits is told that it was killed; whoever is linked to it and does
/// not dies too. Every death that it brings is published as a killing.
pub proof fn law_a_sent_kill_kills(
    m: RegistryView,
    me: Option<NodeId>,
    from: Pid,
    dest: DestinationView,
    t: LocalTargetView,
    p: Pid,
    q: Pid,
)
    requires
        m.sound(),
        host::points_to(me, dest, t),
        is_here(m, me, dest, p),
        m.states.contains_key(p),
    ensures
        ({
            let after = host::signalled_here(m, from, t, ExitReason::Kill);
            &&& !after.states.contains_key(p)
            &&& after.deaths.len() > m.deaths.len()
            &&& after.deaths[m.deaths.len() as int].pid == p
            &&& forall|i: int|
                m.deaths.len() <= i < after.deaths.len() ==> (#[trigger] after.deaths[i]).reason
                    is Killed
            &&& m.states.contains_key(q) && q != p && m.states[p].links.contains(q)
                && m.states[q].trap_exit ==> after.states.contains_key(q)
                && after.mailboxes[q].queue.contains(
                MailboxMessage::Exit { from: p, reason: ExitReason::Killed },
            )
            &&& m.states.contains_key(q) && q != p && m.states[p].links.contains(q)
                && !m.states[q].trap_exit ==> !after.states.contains_key(q)
        }),
{
    lemma_points_here(m, me, dest, t);
    exit_laws::law_directed_kill_is_untrappable(m, p, from);
    exit_laws::law_each_death_is_published_once(m, p, ExitReason::Killed);
    death_laws::law_the_first_death_is_its_own(m, p, ExitReason::Killed);
    if m.states.contains_key(q) && q != p && m.states[p].links.contains(q) {
        if m.states[q].trap_exit {
            exit_laws::law_directed_kill_is_inherited_as_killed(m, p, from, q);
        } else {
            exit_laws::law_abnormal_exit_spreads(m, p, ExitReason::Killed);
        }
    }
}

/// Any signal but a kill is a message to a particle that traps exits, at the front of its mailbox
/// and naming the sender and the reason. Another particle dies of it, with that reason, unless the
/// reason is normal.
pub proof fn law_other_sent_signals_can_be_trapped(
    m: RegistryView,
    me: Option<NodeId>,
    from: Pid,
    dest: DestinationView,
    t: LocalTargetView,
    p: Pid,
    reason: ExitReason,
)
    requires
        m.sound(),
        host::points_to(me, dest, t),
        is_here(m, me, dest, p),
        m.states.contains_key(p),
        reason !is Kill,
    ensures
        ({
            let after = host::signalled_here(m, from, t, reason);
            &&& m.states[p].trap_exit ==> {
                &&& only_mailbox_differs(after, m, p)
                &&& after.mailboxes[p].queue.len() == m.mailboxes[p].queue.len() + 1
                &&& after.mailboxes[p].queue[0] == MailboxMessage::Exit { from, reason }
                &&& after.mailboxes[p].queue.skip(1) == m.mailboxes[p].queue
            }
            &&& !m.states[p].trap_exit && reason is Normal ==> after == m
            &&& !m.states[p].trap_exit && reason !is Normal ==> {
                &&& !after.states.contains_key(p)
                &&& after.deaths.len() > m.deaths.len()
                &&& after.deaths[m.deaths.len() as int].pid == p
                &&& forall|i: int|
                    m.deaths.len() <= i < after.deaths.len() ==> (
                    #[trigger] after.deaths[i]).reason == reason
            }
        }),
{
    lemma_points_here(m, me, dest, t);
    let after = host::signalled_here(m, from, t, reason);
    if m.states[p].trap_exit {
        assert(after.mailboxes[p].queue.skip(1) =~= m.mailboxes[p].queue);
    } else if reason !is Normal {
        exit_laws::law_exit_is_final(m, p, reason, reason);
        exit_laws::law_each_death_is_published_once(m, p, reason);
        death_laws::law_the_first_death_is_its_own(m, p, reason);
    }
}

/// A signal for another node changes nothing here and goes there, once; one for nobody does
/// nothing.
pub proof fn law_signals_travel(
    m: RegistryView,
    me: Option<NodeId>,
    peers: bool,
    from: Pid,
    dest: DestinationView,
    t: LocalTargetView,
    p: Pid,
    node: NodeId,
    n: Seq<char>,
    reason: ExitReason,
)
    requires
        m.sound(),
        host::points_to(me, dest, t),
    ensures
        ({
            let after = host::signalled_here(m, from, t, reason);
            let sent = host::sent_for(
                peers,
                t,
                |a: AddresseeView| PeerMessageView::ExitSignal { from, to: a, reason },
            );
            &&& is_pid_away(me, dest, p) ==> after == m && asks(
                sent,
                peers,
                p.node,
                PeerMessageView::ExitSignal { from, to: AddresseeView::Pid(p), reason },
            )
            &&& is_name_away(me, dest, node, n) ==> after == m && asks(
                sent,
                peers,
                node,
                PeerMessageView::ExitSignal { from, to: AddresseeView::Name(n), reason },
            )
            &&& is_nobody_here(m, me, dest) || is_nowhere(dest) || (is_here(m, me, dest, p)
                && !m.states.contains_key(p)) ==> after == m && sent.len() == 0
            &&& is_here(m, me, dest, p) ==> sent.len() == 0
        }),
{
    lemma_points_here(m, me, dest, t);
    if is_here(m, me, dest, p) && !m.states.contains_key(p) {
        exit_laws::law_exit_of_nobody(m, p, ExitReason::Killed);
    }
}

/// Linking to a particle that runs here ties the two to each other, and touches no other tie.
pub proof fn law_a_link_ties_both(
    m: RegistryView,
    me: Option<NodeId>,
    peers: bool,
    from: Pid,
    dest: DestinationView,
    t: LocalTargetView,
    p: Pid,
)
    requires
        host::points_to(me, dest, t),
        is_here(m, me, dest, p),
        m.states.contains_key(p),
        m.states.contains_key(from),
    ensures
        ({
            let after = host::linked_here(m, from, t);
            &&& after.states.dom() == m.states.dom()
            &&& after.states[from].links.contains(p)
            &&& after.states[p].links.contains(from)
            &&& after.mailboxes == m.mailboxes
            &&& forall|q: Pid, l: Pid|
                (q != from || l != p) && (q != p || l != from) && m.states.contains_key(q) ==> (
                #[trigger] after.states[q].links.contains(l) <==> m.states[q].links.contains(l))
            &&& forall|q: Pid|
                m.states.contains_key(q) ==> (#[trigger] after.states[q]).monitors
                    == m.states[q].monitors && after.states[q].monitored_by
                    == m.states[q].monitored_by && after.states[q].trap_exit
                    == m.states[q].trap_exit
        }),
        host::sent_for(
            peers,
            t,
            |a: AddresseeView| PeerMessageView::Link { from, to: a },
        ).len() == 0,
{
    lemma_points_here(m, me, dest, t);
    lemma_with(m.states[from].links, p);
    lemma_with(m.states[p].links, from);
    lemma_with(m.half_linked(from, p).states[p].links, from);
}

proof fn lemma_with(pids: Seq<Pid>, p: Pid)
    ensures
        particle::with_pid(pids, p).contains(p),
        forall|l: Pid|
            l != p ==> (#[trigger] particle::with_pid(pids, p).contains(l) <==> pids.contains(l)),
{
    registry::lemma_push_contains(pids, p);
}

/// Linking to what is not there ties nobody, and the linker hears of it as of a death.
pub proof fn law_a_link_to_nobody_is_answered(
    m: RegistryView,
    me: Option<NodeId>,
    peers: bool,
    from: Pid,
    dest: DestinationView,
    t: LocalTargetView,
    p: Pid,
)
    requires
        host::points_to(me, dest, t),
        m.states.contains_key(from),
        is_nobody_here(m, me, dest) || (is_here(m, me, dest, p) && !m.states.contains_key(p)),
    ensures
        ({
            let after = host::linked_here(m, from, t);
            &&& only_mailbox_differs(after, m, from)
            &&& after.mailboxes[from].queue.len() == m.mailboxes[from].queue.len() + 1
            &&& after.mailboxes[from].queue[0] == MailboxMessage::Exit {
                from,
                reason: ExitReason::NoProc,
            }
            &&& after.mailboxes[from].queue.skip(1) == m.mailboxes[from].queue
        }),
        host::sent_for(
            peers,
            t,
            |a: AddresseeView| PeerMessageView::Link { from, to: a },
        ).len() == 0,
{
    lemma_points_here(m, me, dest, t);
    let after = host::linked_here(m, from, t);
    assert(after.mailboxes[from].queue.skip(1) =~= m.mailboxes[from].queue);
}

/// One who does not run any more is linked to nobody, and hears nothing.
pub proof fn law_the_dead_are_not_linked(
    m: RegistryView,
    me: Option<NodeId>,
    from: Pid,
    dest: DestinationView,
    t: LocalTargetView,
)
    requires
        host::points_to(me, dest, t),
        !m.states.contains_key(from),
    ensures
        host::linked_here(m, from, t) == m,
{
}

/// A link to a particle of another node is recorded here, and asked for there; a link to a name
/// there is only asked for.
pub proof fn law_links_travel(
    m: RegistryView,
    me: Option<NodeId>,
    peers: bool,
    from: Pid,
    dest: DestinationView,
    t: LocalTargetView,
    p: Pid,
    node: NodeId,
    n: Seq<char>,
)
    requires
        host::points_to(me, dest, t),
        m.states.contains_key(from),
    ensures
        ({
            let after = host::linked_here(m, from, t);
            let sent = host::sent_for(
                peers,
                t,
                |a: AddresseeView| PeerMessageView::Link { from, to: a },
            );
            &&& is_pid_away(me, dest, p) ==> {
                &&& after.states[from].links.contains(p)
                &&& forall|l: Pid|
                    l != p ==> (#[trigger] after.states[from].links.contains(l)
                        <==> m.states[from].links.contains(l))
                &&& after.mailboxes == m.mailboxes
                &&& asks(
                    sent,
                    peers,
                    p.node,
                    PeerMessageView::Link { from, to: AddresseeView::Pid(p) },
                )
            }
            &&& is_name_away(me, dest, node, n) ==> after == m && asks(
                sent,
                peers,
                node,
                PeerMessageView::Link { from, to: AddresseeView::Name(n) },
            )
            &&& is_nowhere(dest) ==> after == m && sent.len() == 0
        }),
{
    lemma_points_here(m, me, dest, t);
    lemma_with(m.states[from].links, p);
}

/// Unlinking leaves neither tied to the other, and touches no other tie. The half on another node
/// is given up there.
pub proof fn law_unlinking_unties_both(
    m: RegistryView,
    me: Option<NodeId>,
    peers: bool,
    from: Pid,
    dest: DestinationView,
    t: LocalTargetView,
    p: Pid,
    node: NodeId,
    n: Seq<char>,
)
    requires
        host::points_to(me, dest, t),
        m.states.contains_key(from),
    ensures
        ({
            let after = host::unlinked_here(m, from, t);
            let sent = host::sent_for(
                peers,
                t,
                |a: AddresseeView| PeerMessageView::Unlink { from, to: a },
            );
            &&& is_here(m, me, dest, p) ==> {
                &&& sent.len() == 0
                &&& !after.states[from].links.contains(p)
                &&& m.states.contains_key(p) ==> !after.states[p].links.contains(from)
                &&& forall|q: Pid, l: Pid|
                    (q != from || l != p) && (q != p || l != from) && m.states.contains_key(q)
                        ==> (#[trigger] after.states[q].links.contains(l)
                        <==> m.states[q].links.contains(l))
            }
            &&& is_pid_away(me, dest, p) ==> {
                &&& !after.states[from].links.contains(p)
                &&& forall|l: Pid|
                    l != p ==> (#[trigger] after.states[from].links.contains(l)
                        <==> m.states[from].links.contains(l))
                &&& asks(
                    sent,
                    peers,
                    p.node,
                    PeerMessageView::Unlink { from, to: AddresseeView::Pid(p) },
                )
            }
            &&& is_name_away(me, dest, node, n) ==> after == m && asks(
                sent,
                peers,
                node,
                PeerMessageView::Unlink { from, to: AddresseeView::Name(n) },
            )
            &&& after.mailboxes == m.mailboxes
        }),
{
    lemma_points_here(m, me, dest, t);
    registry::lemma_filter_contains(m.states[from].links, particle::other_than(p));
    registry::lemma_filter_contains(m.states[p].links, particle::other_than(from));
    registry::lemma_filter_contains(
        m.half_unlinked(from, p).states[p].links,
        particle::other_than(from),
    );
}

/// Monitoring a particle that runs here is noted on both sides under the reference; when the
/// particle then exits, the watcher, if it lives on, has the end of that monitor in its mailbox,
/// with the reason.
pub proof fn law_a_monitor_fires(
    m: RegistryView,
    me: Option<NodeId>,
    peers: bool,
    from: Pid,
    dest: DestinationView,
    t: LocalTargetView,
    p: Pid,
    r: u64,
    reason: ExitReason,
)
    requires
        m.sound(),
        host::points_to(me, dest, t),
        is_here(m, me, dest, p),
        m.states.contains_key(p),
        m.states.contains_key(from),
    ensures
        ({
            let watching = host::monitored_here(m, from, t, r);
            let after = registry::exited(watching, seq![p], reason);
            &&& watching.mailboxes == m.mailboxes
            &&& watching.states.dom() == m.states.dom()
            &&& watching.states[from].monitors.contains_key(r)
            &&& watching.states[from].monitors[r] == p
            &&& watching.states[p].monitored_by.contains((from, r))
            &&& after.states.contains_key(from) ==> after.mailboxes[from].queue.contains(
                MailboxMessage::Down { from: p, ref_id: r, reason },
            )
        }),
        host::sent_for(
            peers,
            t,
            |a: AddresseeView|
                PeerMessageView::Monitor { watcher: from, target: a, ref_id: r },
        ).len() == 0,
{
    lemma_points_here(m, me, dest, t);
    let watching = host::monitored_here(m, from, t, r);
    registry::lemma_push_contains(m.states[p].monitored_by, (from, r));
    registry::lemma_push_contains(m.monitoring(from, p, r).states[p].monitored_by, (from, r));
    assert(watching.states.dom() =~= m.states.dom());
    let after = registry::exited(watching, seq![p], reason);
    exit_laws::law_exit_is_final(watching, p, reason, reason);
    if after.states.contains_key(from) {
        exit_laws::law_watchers_hear(watching, p, reason, p, from, r);
    }
}

/// Monitoring what is not there ends at once: the watcher has the end of the monitor in its
/// mailbox, under the reference that it was given.
pub proof fn law_a_monitor_of_nobody_ends_at_once(
    m: RegistryView,
    me: Option<NodeId>,
    peers: bool,
    from: Pid,
    dest: DestinationView,
    t: LocalTargetView,
    p: Pid,
    r: u64,
)
    requires
        host::points_to(me, dest, t),
        m.states.contains_key(from),
        is_nobody_here(m, me, dest) || is_nowhere(dest) || (is_here(m, me, dest, p)
            && !m.states.contains_key(p)),
    ensures
        ({
            let after = host::monitored_here(m, from, t, r);
            &&& only_mailbox_differs(after, m, from)
            &&& after.mailboxes[from].queue.len() == m.mailboxes[from].queue.len() + 1
            &&& after.mailboxes[from].queue[0] == MailboxMessage::Down {
                from,
                ref_id: r,
                reason: ExitReason::NoProc,
            }
            &&& after.mailboxes[from].queue.skip(1) == m.mailboxes[from].queue
        }),
        host::sent_for(
            peers,
            t,
            |a: AddresseeView|
                PeerMessageView::Monitor { watcher: from, target: a, ref_id: r },
        ).len() == 0,
{
    lemma_points_here(m, me, dest, t);
    let after = host::monitored_here(m, from, t, r);
    assert(after.mailboxes[from].queue.skip(1) =~= m.mailboxes[from].queue);
}

/// A monitor of a particle on another node is noted here and asked for there, under the same
/// reference; one of a name there is only asked for.
pub proof fn law_monitors_travel(
    m: RegistryView,
    me: Option<NodeId>,
    peers: bool,
    from: Pid,
    dest: DestinationView,
    t: LocalTargetView,
    p: Pid,
    node: NodeId,
    n: Seq<char>,
    r: u64,
)
    requires
        host::points_to(me, dest, t),
        m.states.contains_key(from),
    ensures
        ({
            let after = host::monitored_here(m, from, t, r);
            let sent = host::sent_for(
                peers,
                t,
                |a: AddresseeView|
                    PeerMessageView::Monitor { watcher: from, target: a, ref_id: r },
            );
            &&& is_pid_away(me, dest, p) ==> {
                &&& after.states[from].monitors.contains_key(r)
                &&& after.states[from].monitors[r] == p
                &&& after.mailboxes == m.mailboxes
                &&& asks(
                    sent,
                    peers,
                    p.node,
                    PeerMessageView::Monitor {
                        watcher: from,
                        target: AddresseeView::Pid(p),
                        ref_id: r,
                    },
                )
            }
            &&& is_name_away(me, dest, node, n) ==> after == m && asks(
                sent,
                peers,
                node,
                PeerMessageView::Monitor { watcher: from, target: AddresseeView::Name(n), ref_id: r },
            )
        }),
{
    lemma_points_here(m, me, dest, t);
}

} // verus!
