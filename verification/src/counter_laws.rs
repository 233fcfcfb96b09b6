//! What holds of the numbers that a registry hands out: no pid and no reference comes twice.

use crate::exit_laws;
use crate::mailbox::{MailboxMessage, MailboxView};
use crate::message::{ExitReason, SystemMessage};
use crate::particle::ParticleView;
use crate::pid;
use crate::pid::{NodeId, Pid};
use crate::registry;
use crate::registry::RegistryView;
use vstd::prelude::*;

verus! {

/// Every pid in use belongs to the node and is below the next one; every reference that one of
/// the node's particles waits for is below the next one.
pub open spec fn counted(m: RegistryView) -> bool {
    &&& forall|p: Pid| #[trigger]
        m.mailboxes.contains_key(p) ==> p.node == m.node && p.seq < m.next_seq
    &&& forall|p: Pid| #[trigger] m.states.contains_key(p) ==> refs_counted(m, m.states[p])
}

/// The references among the ties of a particle are below the next one. Watchers on other nodes
/// bring their own.
pub open spec fn refs_counted(m: RegistryView, s: ParticleView) -> bool {
    &&& forall|r: u64| #[trigger] s.monitors.contains_key(r) ==> r < m.next_ref
    &&& forall|x: (Pid, u64)| #[trigger]
        s.monitored_by.contains(x) && x.0.node == m.node ==> x.1 < m.next_ref
}

/// One change to a registry. Every operation makes one of them, or a few in a row.
pub enum Step {
    /// The next pid is handed out.
    TakePid,
    /// The next reference is handed out.
    TakeRef,
    Start,
    Spawn {
        component: Seq<char>,
        name: Option<Seq<char>>,
        capabilities: Option<Set<Seq<char>>>,
    },
    Link { p: Pid, q: Pid },
    Unlink { p: Pid, q: Pid },
    /// A watcher notes whom it monitors.
    Monitor { w: Pid, t: Pid, r: u64 },
    /// A particle notes who monitors it.
    Watch { t: Pid, w: Pid, r: u64 },
    Demonitor { w: Pid, r: u64 },
    TrapExit { p: Pid, enabled: bool },
    Tell { p: Pid, signal: SystemMessage },
    Send { p: Pid, msg: MailboxMessage },
    /// A message is taken out of a mailbox that is there; the rest stays.
    Receive { p: Pid, rest: MailboxView },
    /// The mailbox of a dead particle is let go of.
    Discard { p: Pid },
    Exit { p: Pid, reason: ExitReason },
    Inherit { to: Pid, from: Pid, reason: ExitReason },
    Direct { to: Pid, from: Pid, reason: ExitReason },
    ForgetNode { node: NodeId },
    /// Names, components and published deaths change.
    Tables {
        names: Map<Seq<char>, Pid>,
        components: Map<Seq<char>, Set<Seq<char>>>,
        deaths: Seq<registry::DeathView>,
    },
}

/// After a change.
pub open spec fn stepped(m: RegistryView, step: Step) -> RegistryView {
    match step {
        Step::TakePid => m.pid_taken(),
        Step::TakeRef => RegistryView { next_ref: pid::next_counter(m.next_ref), ..m },
        Step::Start => m.started(),
        Step::Spawn { component, name, capabilities } => m.spawned(component, name, capabilities),
        Step::Link { p, q } => m.half_linked(p, q),
        Step::Unlink { p, q } => m.half_unlinked(p, q),
        Step::Monitor { w, t, r } => m.monitoring(w, t, r),
        Step::Watch { t, w, r } => m.watched(t, w, r),
        Step::Demonitor { w, r } => registry::demonitored(m, w, r),
        Step::TrapExit { p, enabled } => if m.states.contains_key(p) {
            m.with_state(p, ParticleView { trap_exit: enabled, ..m.states[p] })
        } else {
            m
        },
        Step::Tell { p, signal } => m.told(p, signal),
        Step::Send { p, msg } => m.sent(p, msg),
        Step::Receive { p, rest } => if m.mailboxes.contains_key(p) {
            m.with_mailbox(p, rest)
        } else {
            m
        },
        Step::Discard { p } => if m.states.contains_key(p) {
            m
        } else {
            RegistryView { mailboxes: m.mailboxes.remove(p), ..m }
        },
        Step::Exit { p, reason } => registry::exited(m, seq![p], reason),
        Step::Inherit { to, from, reason } => registry::inherited(m, to, from, reason),
        Step::Direct { to, from, reason } => registry::directed(m, to, from, reason),
        Step::ForgetNode { node } => registry::node_forgotten(m, node),
        Step::Tables { names, components, deaths } => RegistryView {
            names,
            components,
            deaths,
            ..m
        },
    }
}

/// A change that does not use a counter up, and that names no reference of this node which was
/// not handed out.
pub open spec fn within_counters(m: RegistryView, step: Step) -> bool {
    match step {
        Step::TakePid | Step::Start | Step::Spawn { .. } => m.next_seq < u64::MAX,
        Step::TakeRef => m.next_ref < u64::MAX,
        Step::Monitor { w, r, .. } => w.node == m.node ==> r < m.next_ref,
        Step::Watch { w, r, .. } => w.node == m.node ==> r < m.next_ref,
        _ => true,
    }
}

proof fn lemma_exited_counted(m: RegistryView, work: Seq<Pid>, reason: ExitReason)
    requires
        m.sound(),
        counted(m),
    ensures
        ({
            let after = registry::exited(m, work, reason);
            &&& counted(after)
            &&& after.node == m.node
            &&& after.next_seq == m.next_seq
            &&& after.next_ref == m.next_ref
        }),
    decreases m.states.dom().len(), work.len(),
{
    if work.len() > 0 {
        let p = work[0];
        let end = registry::exited(m, work, reason);
        if m.states.contains_key(p) {
            registry::lemma_died_states(m, p, reason);
            exit_laws::lemma_died_ties(m, p, reason);
            let after = registry::died(m, p, reason);
            let more = registry::heirs(m, p, reason) + work.skip(1);
            assert(counted(after)) by {
                assert forall|q: Pid| #[trigger] after.states.contains_key(q) implies refs_counted(
                    after,
                    after.states[q],
                ) by {
                    assert(refs_counted(m, m.states[q]));
                }
            }
            lemma_exited_counted(after, more, reason);
            assert(end == registry::exited(after, more, reason));
        } else {
            lemma_exited_counted(m, work.skip(1), reason);
            assert(end == registry::exited(m, work.skip(1), reason));
        }
    }
}

/// In a new registry no pid and no reference is in use.
pub proof fn law_fresh_registry_is_counted(node: NodeId, next_seq: u64)
    ensures
        RegistryView::fresh(node, next_seq).sound(),
        counted(RegistryView::fresh(node, next_seq)),
{
}

/// No change puts a pid or a reference to use that was not handed out, and no counter goes back,
/// until one is used up.
pub proof fn law_every_step_keeps_count(m: RegistryView, step: Step)
    requires
        m.sound(),
        counted(m),
        within_counters(m, step),
    ensures
        ({
            let after = stepped(m, step);
            &&& counted(after)
            &&& after.node == m.node
            &&& after.next_seq >= m.next_seq
            &&& after.next_ref >= m.next_ref
        }),
{
    let after = stepped(m, step);
    match step {
        Step::Exit { p, reason } => {
            lemma_exited_counted(m, seq![p], reason);
        },
        Step::Inherit { to, from, reason } => {
            lemma_exited_counted(m, seq![to], reason);
        },
        Step::Direct { to, from, reason } => {
            lemma_exited_counted(m, seq![to], reason);
            lemma_exited_counted(m, seq![to], ExitReason::Killed);
        },
        _ => {
            assert forall|q: Pid| #[trigger] after.states.contains_key(q) implies refs_counted(
                after,
                after.states[q],
            ) by {
                if m.states.contains_key(q) {
                    assert(refs_counted(m, m.states[q]));
                }
                match step {
                    Step::Watch { w, r, .. } => {
                        registry::lemma_push_contains(m.states[q].monitored_by, (w, r));
                    },
                    Step::Demonitor { w, r } => {
                        registry::lemma_filter_contains(
                            m.states[q].monitored_by,
                            |x: (Pid, u64)| x != (w, r),
                        );
                    },
                    Step::ForgetNode { node } => {
                        registry::lemma_filter_contains(
                            m.states[q].monitored_by,
                            |x: (Pid, u64)| x.0.node != node,
                        );
                    },
                    _ => {},
                }
            }
        },
    }
}

/// Asking for a monitor uses a reference that was handed out for it.
pub proof fn law_monitor_keeps_count(m: RegistryView, w: Pid, t: Pid)
    requires
        m.sound(),
        counted(m),
        m.next_ref < u64::MAX,
    ensures
        counted(registry::monitored(m, w, t)),
{
    let r = m.next_ref;
    let m1 = stepped(m, Step::TakeRef);
    law_every_step_keeps_count(m, Step::TakeRef);
    let signal = SystemMessage::Down { from: t, monitor_ref: r, reason: ExitReason::Normal };
    law_every_step_keeps_count(m1, Step::Tell { p: w, signal });
    law_every_step_keeps_count(m1, Step::Watch { t, w, r });
    law_every_step_keeps_count(m1.watched(t, w, r), Step::Monitor { w, t, r });
}

/// A new particle gets a pid that nothing had before.
pub proof fn law_pids_are_not_reused(m: RegistryView)
    requires
        m.sound(),
        counted(m),
    ensures
        !m.states.contains_key(m.next_pid()),
        !m.mailboxes.contains_key(m.next_pid()),
        m.next_seq < u64::MAX ==> m.pid_taken().next_seq > m.next_pid().seq,
{
}

/// A new reference is one that no particle of the node waits for, and the next one is higher.
pub proof fn law_refs_are_not_reused(m: RegistryView, w: Pid)
    requires
        m.sound(),
        counted(m),
        w.node == m.node,
    ensures
        m.states.contains_key(w) ==> !m.states[w].monitors.contains_key(m.next_ref),
        exit_laws::unwatched(m, w, m.next_ref),
        m.next_ref < u64::MAX ==> stepped(m, Step::TakeRef).next_ref > m.next_ref,
{
}

} // verus!
