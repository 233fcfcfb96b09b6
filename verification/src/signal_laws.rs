//! How often a death is heard of, and what is left of the ties to the dead.

use crate::exit_laws;
use crate::mailbox::{MailboxMessage, MailboxView};
use crate::message::ExitReason;
use crate::particle;
use crate::particle::ParticleView;
use crate::pid::Pid;
use crate::registry;
use crate::registry::RegistryView;
use vstd::prelude::*;

verus! {

/// How often a message is in a mailbox.
pub open spec fn times(m: MailboxView, msg: MailboxMessage) -> nat {
    m.queue.to_multiset().count(msg)
}

/// How often a watcher is on a list under a reference.
pub open spec fn watches(watch: Seq<(Pid, u64)>, w: Pid, r: u64) -> nat {
    watch.to_multiset().count((w, r))
}

/// One, if something holds.
pub open spec fn once_if(b: bool) -> nat {
    if b {
        1
    } else {
        0
    }
}

proof fn lemma_front(b: MailboxView, msg: MailboxMessage, x: MailboxMessage)
    ensures
        times(b.with_front(msg), x) == times(b, x) + once_if(msg == x),
{
    broadcast use vstd::seq_lib::group_to_multiset_ensures;

    vstd::seq_lib::lemma_multiset_commutative(seq![msg], b.queue);
    let none = Seq::<MailboxMessage>::empty();
    assert(seq![msg] =~= none.push(msg));
    assert(none.to_multiset() =~= vstd::multiset::Multiset::empty());
}

proof fn lemma_downs_times(
    states: Map<Pid, ParticleView>,
    mailboxes: Map<Pid, MailboxView>,
    watch: Seq<(Pid, u64)>,
    pid: Pid,
    reason: ExitReason,
    w: Pid,
    x: MailboxMessage,
)
    requires
        states.contains_key(w),
    ensures
        times(registry::downs_told(states, mailboxes, watch, pid, reason)[w], x) == times(
            mailboxes[w],
            x,
        ) + match x {
            MailboxMessage::Down { from, ref_id, reason: why } => if from == pid && why == reason {
                watches(watch, w, ref_id)
            } else {
                0
            },
            _ => 0,
        },
    decreases watch.len(),
{
    broadcast use vstd::seq_lib::group_to_multiset_ensures;

    if watch.len() == 0 {
        assert(watch.to_multiset() =~= vstd::multiset::Multiset::empty());
    } else {
        let front = watch.drop_last();
        let before = registry::downs_told(states, mailboxes, front, pid, reason);
        lemma_downs_times(states, mailboxes, front, pid, reason, w, x);
        let (v, r) = watch.last();
        assert(watch =~= front.push((v, r)));
        lemma_front(before[w], MailboxMessage::Down { from: pid, ref_id: r, reason }, x);
    }
}

/// How often a survivor hears of one death, and what it keeps of its ties.
proof fn lemma_died_heard(
    m: RegistryView,
    pid: Pid,
    reason: ExitReason,
    q: Pid,
    x: MailboxMessage,
)
    requires
        m.sound(),
        m.states.contains_key(pid),
        m.states.contains_key(q),
        q != pid,
    ensures
        ({
            let after = registry::died(m, pid, reason);
            &&& times(after.mailboxes[q], x) == times(m.mailboxes[q], x) + match x {
                MailboxMessage::Exit { from, reason: why } => once_if(
                    from == pid && why == reason && m.states[pid].links.contains(q)
                        && m.states[q].trap_exit,
                ),
                MailboxMessage::Down { from, ref_id, reason: why } => if from == pid && why
                    == reason {
                    watches(m.states[pid].monitored_by, q, ref_id)
                } else {
                    0
                },
                _ => 0,
            }
            &&& forall|l: Pid| #[trigger]
                after.states[q].links.contains(l) ==> m.states[q].links.contains(l)
            &&& m.states[pid].links.contains(q) ==> !after.states[q].links.contains(pid)
            &&& forall|r: u64| #[trigger]
                after.states[q].monitors.contains_key(r) ==> m.states[q].monitors.contains_key(r)
                    && !m.states[pid].monitored_by.contains((q, r))
        }),
{
    let after = registry::died(m, pid, reason);
    let gone = m.states[pid];
    let others = m.states.remove(pid);
    let closed = m.mailboxes.insert(pid, m.mailboxes[pid].shut());
    let told = registry::exits_told(others, closed, gone.links, pid, reason);
    exit_laws::lemma_died_ties(m, pid, reason);
    assert(after.states.contains_key(q));
    lemma_downs_times(others, told, gone.monitored_by, pid, reason, q, x);
    lemma_front(m.mailboxes[q], MailboxMessage::Exit { from: pid, reason }, x);
    registry::lemma_filter_contains(m.states[q].links, particle::other_than(pid));
}

/// How often a survivor hears of the deaths of a cascade, and what it keeps of its ties.
proof fn lemma_heard(
    m: RegistryView,
    work: Seq<Pid>,
    reason: ExitReason,
    dead: Pid,
    q: Pid,
    r: u64,
)
    requires
        m.sound(),
        registry::exited(m, work, reason).states.contains_key(q),
    ensures
        ({
            let after = registry::exited(m, work, reason);
            let died = exit_laws::perished(m, after, dead);
            let exit = MailboxMessage::Exit { from: dead, reason };
            let down = MailboxMessage::Down { from: dead, ref_id: r, reason };
            &&& m.states.contains_key(q)
            &&& times(after.mailboxes[q], exit) == times(m.mailboxes[q], exit) + once_if(
                died && m.states[dead].links.contains(q) && m.states[q].trap_exit,
            )
            &&& times(after.mailboxes[q], down) == times(m.mailboxes[q], down) + if died {
                watches(m.states[dead].monitored_by, q, r)
            } else {
                0
            }
            &&& forall|l: Pid| #[trigger]
                after.states[q].links.contains(l) ==> m.states[q].links.contains(l)
            &&& died && m.states[dead].links.contains(q) ==> !after.states[q].links.contains(dead)
            &&& after.states[q].monitors.contains_key(r) ==> m.states[q].monitors.contains_key(r)
            &&& died && m.states[dead].monitored_by.contains((q, r))
                ==> !after.states[q].monitors.contains_key(r)
        }),
    decreases m.states.dom().len(), work.len(),
{
    if work.len() > 0 {
        let p = work[0];
        let after = registry::exited(m, work, reason);
        if m.states.contains_key(p) {
            registry::lemma_died_states(m, p, reason);
            exit_laws::lemma_died_ties(m, p, reason);
            let m1 = registry::died(m, p, reason);
            let more = registry::heirs(m, p, reason) + work.skip(1);
            assert(after == registry::exited(m1, more, reason));
            lemma_heard(m1, more, reason, dead, q, r);
            assert(m1.states.contains_key(q));
            lemma_died_heard(m, p, reason, q, MailboxMessage::Exit { from: dead, reason });
            lemma_died_heard(
                m,
                p,
                reason,
                q,
                MailboxMessage::Down { from: dead, ref_id: r, reason },
            );
            exit_laws::lemma_survivors(m1, more, reason, p);
        } else {
            assert(after == registry::exited(m, work.skip(1), reason));
            lemma_heard(m, work.skip(1), reason, dead, q, r);
        }
    }
}

/// Of every death that an exit brings, whoever is linked to the dead particle and lives on hears
/// exactly once if it traps exits, and not at all if it does not. Either way its link to the dead
/// is gone.
pub proof fn law_peers_hear_exactly_once(
    m: RegistryView,
    p: Pid,
    reason: ExitReason,
    dead: Pid,
    q: Pid,
)
    requires
        m.sound(),
        exit_laws::perished(m, registry::exited(m, seq![p], reason), dead),
        m.states[dead].links.contains(q),
        registry::exited(m, seq![p], reason).states.contains_key(q),
    ensures
        ({
            let after = registry::exited(m, seq![p], reason);
            let word = MailboxMessage::Exit { from: dead, reason };
            &&& times(after.mailboxes[q], word) == times(m.mailboxes[q], word) + once_if(
                m.states[q].trap_exit,
            )
            &&& !after.states[q].links.contains(dead)
        }),
{
    lemma_heard(m, seq![p], reason, dead, q, 0);
}

/// Of every death that an exit brings, whoever monitors the dead particle and lives on hears
/// exactly once for each monitor, and does not hold the monitor any more.
pub proof fn law_watchers_hear_exactly_once(
    m: RegistryView,
    p: Pid,
    reason: ExitReason,
    dead: Pid,
    q: Pid,
    r: u64,
)
    requires
        m.sound(),
        exit_laws::perished(m, registry::exited(m, seq![p], reason), dead),
        watches(m.states[dead].monitored_by, q, r) == 1,
        registry::exited(m, seq![p], reason).states.contains_key(q),
    ensures
        ({
            let after = registry::exited(m, seq![p], reason);
            let word = MailboxMessage::Down { from: dead, ref_id: r, reason };
            &&& times(after.mailboxes[q], word) == times(m.mailboxes[q], word) + 1
            &&& !after.states[q].monitors.contains_key(r)
        }),
{
    broadcast use vstd::seq_lib::group_to_multiset_ensures;

    lemma_heard(m, seq![p], reason, dead, q, r);
    assert(m.states[dead].monitored_by.contains((q, r)));
}

/// Nobody hears of the death of a particle that lives on, nor of that of one that it has no tie
/// to.
pub proof fn law_nothing_else_is_heard(
    m: RegistryView,
    p: Pid,
    reason: ExitReason,
    other: Pid,
    q: Pid,
    r: u64,
)
    requires
        m.sound(),
        registry::exited(m, seq![p], reason).states.contains_key(q),
        exit_laws::perished(m, registry::exited(m, seq![p], reason), other) ==> !m.states[other].links.contains(
            q,
        ) && !m.states[other].monitored_by.contains((q, r)),
    ensures
        ({
            let after = registry::exited(m, seq![p], reason);
            let exit = MailboxMessage::Exit { from: other, reason };
            let down = MailboxMessage::Down { from: other, ref_id: r, reason };
            &&& times(after.mailboxes[q], exit) == times(m.mailboxes[q], exit)
            &&& times(after.mailboxes[q], down) == times(m.mailboxes[q], down)
        }),
{
    broadcast use vstd::seq_lib::group_to_multiset_ensures;

    lemma_heard(m, seq![p], reason, other, q, r);
}

} // verus!
