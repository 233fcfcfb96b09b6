//! What holds of exits, links and monitors as a whole.

use crate::counter_laws;
use crate::mailbox;
use crate::mailbox::{MailboxMessage, MailboxView};
use crate::message::{ExitReason, SystemMessage};
use crate::particle;
use crate::particle::ParticleView;
use crate::pid::{NodeId, Pid};
use crate::registry;
use crate::registry::RegistryView;
use vstd::prelude::*;

verus! {

/// A particle ran before and does not run after.
pub open spec fn perished(before: RegistryView, after: RegistryView, p: Pid) -> bool {
    before.states.contains_key(p) && !after.states.contains_key(p)
}

/// A set of particles from which no abnormal death leads out: whoever is linked to a member and
/// does not trap exits is a member too.
pub open spec fn closed_under_links(m: RegistryView, doomed: Set<Pid>) -> bool {
    forall|p: Pid, q: Pid|
        doomed.contains(p) && m.states.contains_key(p) && #[trigger] m.states[p].links.contains(q)
            && m.states.contains_key(q) && !m.states[q].trap_exit ==> doomed.contains(q)
}

/// What a death leaves of the others' ties.
pub proof fn lemma_died_ties(m: RegistryView, pid: Pid, reason: ExitReason)
    requires
        m.sound(),
        m.states.contains_key(pid),
    ensures
        ({
            let after = registry::died(m, pid, reason);
            &&& after.sound()
            &&& after.states.dom() == m.states.dom().remove(pid)
            &&& after.mailboxes.dom() == m.mailboxes.dom()
            &&& forall|q: Pid| #[trigger]
                after.states.contains_key(q) ==> {
                    &&& after.states[q].trap_exit == m.states[q].trap_exit
                    &&& after.states[q].monitored_by == m.states[q].monitored_by
                    &&& forall|l: Pid| #[trigger]
                        after.states[q].links.contains(l) ==> m.states[q].links.contains(l)
                    &&& forall|l: Pid| #[trigger]
                        m.states[q].links.contains(l) && l != pid
                            ==> after.states[q].links.contains(l)
                }
        }),
{
    let after = registry::died(m, pid, reason);
    registry::lemma_died_states(m, pid, reason);
    assert forall|q: Pid| #[trigger] after.states.contains_key(q) implies {
        &&& after.states[q].trap_exit == m.states[q].trap_exit
        &&& after.states[q].monitored_by == m.states[q].monitored_by
        &&& forall|l: Pid| #[trigger]
            after.states[q].links.contains(l) ==> m.states[q].links.contains(l)
        &&& forall|l: Pid| #[trigger]
            m.states[q].links.contains(l) && l != pid ==> after.states[q].links.contains(l)
    } by {
        let links = m.states[q].links;
        let keep = particle::other_than(pid);

        assert forall|l: Pid| #[trigger] after.states[q].links.contains(l) implies links.contains(
            l,
        ) by {
            if after.states[q].links != links {
                links.lemma_filter_contains_rev(keep, l);
            }
        }
    }
    let gone = m.states[pid];
    let others = m.states.remove(pid);
    let closed = m.mailboxes.insert(pid, m.mailboxes[pid].shut());
    let told = registry::exits_told(others, closed, gone.links, pid, reason);
    lemma_downs(others, told, gone.monitored_by, pid, reason);
}

/// A queue holds what another held, and perhaps more before it.
pub open spec fn extends(longer: MailboxView, shorter: MailboxView) -> bool {
    &&& longer.closed == shorter.closed
    &&& longer.capacity == shorter.capacity
    &&& longer.queue.len() >= shorter.queue.len()
    &&& longer.queue.skip(longer.queue.len() - shorter.queue.len()) == shorter.queue
}

proof fn lemma_extends_front(a: MailboxView, b: MailboxView, msg: MailboxMessage)
    requires
        extends(a, b),
    ensures
        extends(a.with_front(msg), b),
        a.with_front(msg).queue.contains(msg),
        forall|x: MailboxMessage| a.queue.contains(x) ==> a.with_front(msg).queue.contains(x),
{
    let q = a.with_front(msg).queue;
    assert(q.skip(q.len() - b.queue.len()) =~= a.queue.skip(a.queue.len() - b.queue.len()));
    assert(q[0] == msg);
    assert forall|x: MailboxMessage| a.queue.contains(x) implies q.contains(x) by {
        let i = choose|i: int| 0 <= i < a.queue.len() && a.queue[i] == x;
        assert(q[i + 1] == x);
    }
}

pub proof fn lemma_extends_trans(a: MailboxView, b: MailboxView, c: MailboxView)
    requires
        extends(a, b),
        extends(b, c),
    ensures
        extends(a, c),
{
    let d = a.queue.len() - b.queue.len();
    let e = b.queue.len() - c.queue.len();
    assert(a.queue.skip(d).skip(e) =~= a.queue.skip(d + e));
}

/// What telling the watchers does to the mailboxes.
proof fn lemma_downs(
    states: Map<Pid, ParticleView>,
    mailboxes: Map<Pid, MailboxView>,
    watch: Seq<(Pid, u64)>,
    pid: Pid,
    reason: ExitReason,
)
    requires
        forall|q: Pid| #[trigger] states.contains_key(q) ==> mailboxes.contains_key(q),
    ensures
        ({
            let after = registry::downs_told(states, mailboxes, watch, pid, reason);
            &&& after.dom() == mailboxes.dom()
            &&& forall|q: Pid| #[trigger]
                mailboxes.contains_key(q) ==> extends(after[q], mailboxes[q])
            &&& forall|q: Pid|
                !states.contains_key(q) ==> #[trigger] after[q] == mailboxes[q]
            &&& forall|i: int|
                0 <= i < watch.len() && states.contains_key((#[trigger] watch[i]).0)
                    ==> after[watch[i].0].queue.contains(
                    MailboxMessage::Down { from: pid, ref_id: watch[i].1, reason },
                )
        }),
    decreases watch.len(),
{
    let after = registry::downs_told(states, mailboxes, watch, pid, reason);
    if watch.len() == 0 {
        assert forall|q: Pid| #[trigger] mailboxes.contains_key(q) implies extends(
            after[q],
            mailboxes[q],
        ) by {
            assert(mailboxes[q].queue.skip(0) =~= mailboxes[q].queue);
        }
    } else {
        let before = registry::downs_told(states, mailboxes, watch.drop_last(), pid, reason);
        lemma_downs(states, mailboxes, watch.drop_last(), pid, reason);
        let (w, r) = watch.last();
        let msg = MailboxMessage::Down { from: pid, ref_id: r, reason };
        if states.contains_key(w) {
            lemma_extends_front(before[w], mailboxes[w], msg);
        }
        assert forall|i: int|
            0 <= i < watch.len() && states.contains_key((#[trigger] watch[i]).0) implies after[watch[i].0].queue.contains(
        MailboxMessage::Down { from: pid, ref_id: watch[i].1, reason }) by {
            if i < watch.len() - 1 {
                assert(watch.drop_last()[i] == watch[i]);
            }
        }
    }
}

/// What a death tells the survivors.
proof fn lemma_died_told(m: RegistryView, pid: Pid, reason: ExitReason)
    requires
        m.sound(),
        m.states.contains_key(pid),
    ensures
        ({
            let after = registry::died(m, pid, reason);
            &&& forall|q: Pid| #[trigger]
                after.states.contains_key(q) ==> {
                    &&& extends(after.mailboxes[q], m.mailboxes[q])
                    &&& m.states[pid].links.contains(q) && m.states[q].trap_exit
                        ==> after.mailboxes[q].queue.contains(
                        MailboxMessage::Exit { from: pid, reason },
                    )
                    &&& forall|r: u64| #[trigger]
                        m.states[pid].monitored_by.contains((q, r))
                            ==> after.mailboxes[q].queue.contains(
                            MailboxMessage::Down { from: pid, ref_id: r, reason },
                        )
                }
        }),
{
    let after = registry::died(m, pid, reason);
    let gone = m.states[pid];
    let others = m.states.remove(pid);
    let closed = m.mailboxes.insert(pid, m.mailboxes[pid].shut());
    let told = registry::exits_told(others, closed, gone.links, pid, reason);
    assert forall|q: Pid| #[trigger] others.contains_key(q) implies told.contains_key(q) by {}
    lemma_downs(others, told, gone.monitored_by, pid, reason);
    assert forall|q: Pid| #[trigger] after.states.contains_key(q) implies {
        &&& extends(after.mailboxes[q], m.mailboxes[q])
        &&& m.states[pid].links.contains(q) && m.states[q].trap_exit
            ==> after.mailboxes[q].queue.contains(MailboxMessage::Exit { from: pid, reason })
        &&& forall|r: u64| #[trigger]
            m.states[pid].monitored_by.contains((q, r)) ==> after.mailboxes[q].queue.contains(
                MailboxMessage::Down { from: pid, ref_id: r, reason },
            )
    } by {
        let msg = MailboxMessage::Exit { from: pid, reason };
        assert(extends(m.mailboxes[q], m.mailboxes[q])) by {
            assert(m.mailboxes[q].queue.skip(0) =~= m.mailboxes[q].queue);
        }
        lemma_extends_front(m.mailboxes[q], m.mailboxes[q], msg);
        lemma_extends_trans(after.mailboxes[q], told[q], m.mailboxes[q]);
    }
}

/// The particles that a list of exits takes along, and what they are told.
proof fn lemma_exited(m: RegistryView, work: Seq<Pid>, reason: ExitReason)
    requires
        m.sound(),
    ensures
        ({
            let after = registry::exited(m, work, reason);
            &&& after.sound()
            &&& forall|p: Pid| #[trigger] after.states.contains_key(p) ==> m.states.contains_key(p)
            &&& forall|i: int|
                0 <= i < work.len() ==> !after.states.contains_key(#[trigger] work[i])
            &&& forall|p: Pid| #[trigger]
                after.states.contains_key(p) ==> {
                    &&& after.states[p].trap_exit == m.states[p].trap_exit
                    &&& extends(after.mailboxes[p], m.mailboxes[p])
                }
        }),
    decreases m.states.dom().len(), work.len(),
{
    if work.len() == 0 {
        assert forall|p: Pid| #[trigger] m.states.contains_key(p) implies extends(
            m.mailboxes[p],
            m.mailboxes[p],
        ) by {
            assert(m.mailboxes[p].queue.skip(0) =~= m.mailboxes[p].queue);
        }
    } else {
        let p = work[0];
        let rest = work.skip(1);
        let after = registry::exited(m, work, reason);
        if m.states.contains_key(p) {
            lemma_died_ties(m, p, reason);
            lemma_died_told(m, p, reason);
            let m1 = registry::died(m, p, reason);
            let more = registry::heirs(m, p, reason) + rest;
            lemma_exited(m1, more, reason);
            assert forall|i: int| 0 <= i < work.len() implies !after.states.contains_key(
                #[trigger] work[i],
            ) by {
                if i != 0 {
                    let k = registry::heirs(m, p, reason).len() + i - 1;
                    assert(more[k] == work[i]);
                }
            }
            assert forall|q: Pid| #[trigger] after.states.contains_key(q) implies {
                &&& m.states.contains_key(q)
                &&& after.states[q].trap_exit == m.states[q].trap_exit
                &&& extends(after.mailboxes[q], m.mailboxes[q])
            } by {
                lemma_extends_trans(after.mailboxes[q], m1.mailboxes[q], m.mailboxes[q]);
            }
        } else {
            lemma_exited(m, rest, reason);
            assert forall|i: int| 0 <= i < work.len() implies !after.states.contains_key(
                #[trigger] work[i],
            ) by {
                if i > 0 {
                    assert(rest[i - 1] == work[i]);
                }
            }
        }
    }
}

/// An exited particle stays dead: exiting it again changes nothing, so that its death is
/// published once.
pub proof fn law_exit_is_final(m: RegistryView, p: Pid, reason: ExitReason, again: ExitReason)
    requires
        m.sound(),
    ensures
        ({
            let after = registry::exited(m, seq![p], reason);
            &&& !after.states.contains_key(p)
            &&& registry::exited(after, seq![p], again) == after
        }),
{
    lemma_exited(m, seq![p], reason);
    let after = registry::exited(m, seq![p], reason);
    reveal_with_fuel(registry::exited, 3);
}

/// Exiting one who does not run changes nothing.
pub proof fn law_exit_of_nobody(m: RegistryView, p: Pid, reason: ExitReason)
    requires
        m.sound(),
        !m.states.contains_key(p),
    ensures
        registry::exited(m, seq![p], reason) == m,
{
    reveal_with_fuel(registry::exited, 3);
}

/// A normal exit takes nobody along.
pub proof fn law_normal_exit_is_alone(m: RegistryView, p: Pid)
    requires
        m.sound(),
        m.states.contains_key(p),
    ensures
        registry::exited(m, seq![p], ExitReason::Normal) == registry::died(m, p, ExitReason::Normal),
        registry::exited(m, seq![p], ExitReason::Normal).states.dom() == m.states.dom().remove(p),
{
    let reason = ExitReason::Normal;
    let pred = |q: Pid| registry::drags_along(m.states.remove(p), q, reason);
    m.states[p].links.lemma_all_neg_filter_empty(pred);
    registry::lemma_died_states(m, p, reason);
    reveal_with_fuel(registry::exited, 3);
}

proof fn lemma_heirs(m: RegistryView, p: Pid, reason: ExitReason, q: Pid)
    ensures
        registry::heirs(m, p, reason).contains(q) <==> m.states[p].links.contains(q)
            && registry::drags_along(m.states.remove(p), q, reason),
{
    let pred = |x: Pid| registry::drags_along(m.states.remove(p), x, reason);
    let links = m.states[p].links;
    broadcast use vstd::seq_lib::group_filter_ensures;

    if links.contains(q) && pred(q) {
        let i = choose|i: int| 0 <= i < links.len() && links[i] == q;
    }
    if links.filter(pred).contains(q) {
        links.lemma_filter_contains_rev(pred, q);
        let i = choose|i: int| 0 <= i < links.filter(pred).len() && links.filter(pred)[i] == q;
    }
}

/// Every element of a list is in a set.
pub open spec fn all_in(work: Seq<Pid>, doomed: Set<Pid>) -> bool {
    forall|i: int| 0 <= i < work.len() ==> doomed.contains(#[trigger] work[i])
}

proof fn lemma_spreads(m: RegistryView, work: Seq<Pid>, reason: ExitReason, p: Pid, q: Pid)
    requires
        m.sound(),
        reason !is Normal,
        perished(m, registry::exited(m, work, reason), p),
        m.states[p].links.contains(q),
        m.states.contains_key(q),
        !m.states[q].trap_exit,
    ensures
        perished(m, registry::exited(m, work, reason), q),
    decreases m.states.dom().len(), work.len(),
{
    if work.len() > 0 {
        let p0 = work[0];
        let rest = work.skip(1);
        if m.states.contains_key(p0) {
            registry::lemma_died_states(m, p0, reason);
            lemma_died_ties(m, p0, reason);
            let m1 = registry::died(m, p0, reason);
            let heirs = registry::heirs(m, p0, reason);
            let more = heirs + rest;
            lemma_exited(m1, more, reason);
            if q != p0 && p == p0 {
                lemma_heirs(m, p0, reason, q);
                let k = choose|k: int| 0 <= k < heirs.len() && heirs[k] == q;
                assert(more[k] == q);
            } else if q != p0 {
                lemma_spreads(m1, more, reason, p, q);
            }
        } else {
            lemma_spreads(m, rest, reason, p, q);
        }
    }
}

proof fn lemma_stays_within(
    m: RegistryView,
    work: Seq<Pid>,
    reason: ExitReason,
    doomed: Set<Pid>,
    p: Pid,
)
    requires
        m.sound(),
        reason !is Normal,
        closed_under_links(m, doomed),
        all_in(work, doomed),
        perished(m, registry::exited(m, work, reason), p),
    ensures
        doomed.contains(p),
    decreases m.states.dom().len(), work.len(),
{
    if work.len() > 0 {
        let p0 = work[0];
        let rest = work.skip(1);
        if m.states.contains_key(p0) {
            registry::lemma_died_states(m, p0, reason);
            lemma_died_ties(m, p0, reason);
            let m1 = registry::died(m, p0, reason);
            let heirs = registry::heirs(m, p0, reason);
            let more = heirs + rest;
            assert forall|i: int| 0 <= i < more.len() implies doomed.contains(#[trigger] more[i]) by {
                if i < heirs.len() {
                    lemma_heirs(m, p0, reason, more[i]);
                }
            }
            if p != p0 {
                lemma_stays_within(m1, more, reason, doomed, p);
            }
        } else {
            lemma_stays_within(m, rest, reason, doomed, p);
        }
    }
}

/// An abnormal death takes along everyone whom links lead to, past nobody who traps exits:
/// whoever is linked to one who perished, and does not trap exits, perished too.
pub proof fn law_abnormal_exit_spreads(m: RegistryView, p: Pid, reason: ExitReason)
    requires
        m.sound(),
        m.states.contains_key(p),
        reason !is Normal,
    ensures
        ({
            let after = registry::exited(m, seq![p], reason);
            &&& perished(m, after, p)
            &&& forall|a: Pid, b: Pid|
                perished(m, after, a) && #[trigger] m.states[a].links.contains(b)
                    && m.states.contains_key(b) && !m.states[b].trap_exit ==> perished(m, after, b)
        }),
{
    lemma_exited(m, seq![p], reason);
    let after = registry::exited(m, seq![p], reason);
    assert forall|a: Pid, b: Pid|
        perished(m, after, a) && #[trigger] m.states[a].links.contains(b) && m.states.contains_key(
            b,
        ) && !m.states[b].trap_exit implies perished(m, after, b) by {
        lemma_spreads(m, seq![p], reason, a, b);
    }
}

/// An abnormal death takes along nobody else: whoever perished is in every set that holds the
/// first to die and everyone linked to a member who does not trap exits.
pub proof fn law_exit_spreads_no_further(
    m: RegistryView,
    p: Pid,
    reason: ExitReason,
    doomed: Set<Pid>,
)
    requires
        m.sound(),
        reason !is Normal,
        doomed.contains(p),
        closed_under_links(m, doomed),
    ensures
        forall|q: Pid| #[trigger]
            perished(m, registry::exited(m, seq![p], reason), q) ==> doomed.contains(q),
{
    assert forall|q: Pid| #[trigger] perished(
        m,
        registry::exited(m, seq![p], reason),
        q,
    ) implies doomed.contains(q) by {
        lemma_stays_within(m, seq![p], reason, doomed, q);
    }
}

/// A particle that traps exits survives the death of everyone else.
pub proof fn law_trapping_survives(m: RegistryView, p: Pid, q: Pid, reason: ExitReason)
    requires
        m.sound(),
        m.states.contains_key(q),
        m.states[q].trap_exit,
        p != q,
    ensures
        registry::exited(m, seq![p], reason).states.contains_key(q),
{
    if !m.states.contains_key(p) {
        law_exit_of_nobody(m, p, reason);
    } else if reason is Normal {
        law_normal_exit_is_alone(m, p);
    } else {
        let doomed = Set::new(|x: Pid| x != q);
        law_exit_spreads_no_further(m, p, reason, doomed);
        if !registry::exited(m, seq![p], reason).states.contains_key(q) {
            assert(perished(m, registry::exited(m, seq![p], reason), q));
        }
    }
}

proof fn lemma_exits_told(m: RegistryView, work: Seq<Pid>, reason: ExitReason)
    requires
        m.sound(),
    ensures
        ({
            let after = registry::exited(m, work, reason);
            forall|p: Pid, q: Pid|
                perished(m, after, p) && after.states.contains_key(q) ==> {
                    &&& #[trigger] m.states[p].links.contains(q) && m.states[q].trap_exit
                        ==> after.mailboxes[q].queue.contains(
                        MailboxMessage::Exit { from: p, reason },
                    )
                }
        }),
        ({
            let after = registry::exited(m, work, reason);
            forall|p: Pid, q: Pid, r: u64|
                perished(m, after, p) && after.states.contains_key(q)
                    && #[trigger] m.states[p].monitored_by.contains((q, r))
                    ==> after.mailboxes[q].queue.contains(
                    MailboxMessage::Down { from: p, ref_id: r, reason },
                )
        }),
    decreases m.states.dom().len(), work.len(),
{
    if work.len() > 0 {
        let p0 = work[0];
        let rest = work.skip(1);
        let after = registry::exited(m, work, reason);
        if m.states.contains_key(p0) {
            registry::lemma_died_states(m, p0, reason);
            lemma_died_ties(m, p0, reason);
            lemma_died_told(m, p0, reason);
            let m1 = registry::died(m, p0, reason);
            let more = registry::heirs(m, p0, reason) + rest;
            lemma_exited(m1, more, reason);
            lemma_exits_told(m1, more, reason);
        } else {
            lemma_exits_told(m, rest, reason);
        }
    }
}

/// Of every death that an exit brings, those hear who are linked to the dead particle, live on
/// and trap exits: the signal is in their mailbox.
pub proof fn law_linked_survivors_hear(m: RegistryView, p: Pid, reason: ExitReason, dead: Pid, q: Pid)
    requires
        m.sound(),
        perished(m, registry::exited(m, seq![p], reason), dead),
        m.states[dead].links.contains(q),
        registry::exited(m, seq![p], reason).states.contains_key(q),
        m.states[q].trap_exit,
    ensures
        registry::exited(m, seq![p], reason).mailboxes[q].queue.contains(
            MailboxMessage::Exit { from: dead, reason },
        ),
{
    lemma_exits_told(m, seq![p], reason);
}

/// Of every death that an exit brings, those hear who monitor the dead particle and live on.
pub proof fn law_watchers_hear(
    m: RegistryView,
    p: Pid,
    reason: ExitReason,
    dead: Pid,
    q: Pid,
    r: u64,
)
    requires
        m.sound(),
        perished(m, registry::exited(m, seq![p], reason), dead),
        m.states[dead].monitored_by.contains((q, r)),
        registry::exited(m, seq![p], reason).states.contains_key(q),
    ensures
        registry::exited(m, seq![p], reason).mailboxes[q].queue.contains(
            MailboxMessage::Down { from: dead, ref_id: r, reason },
        ),
{
    lemma_exits_told(m, seq![p], reason);
}

/// The deaths published beyond those that were published before.
pub open spec fn published(before: RegistryView, after: RegistryView, p: Pid, i: int) -> bool {
    before.deaths.len() <= i < after.deaths.len() && after.deaths[i].pid == p
}

proof fn lemma_deaths(m: RegistryView, work: Seq<Pid>, reason: ExitReason)
    requires
        m.sound(),
    ensures
        ({
            let after = registry::exited(m, work, reason);
            &&& after.deaths.len() >= m.deaths.len()
            &&& after.deaths.take(m.deaths.len() as int) == m.deaths
            &&& forall|i: int|
                m.deaths.len() <= i < after.deaths.len() ==> {
                    &&& perished(m, after, (#[trigger] after.deaths[i]).pid)
                    &&& after.deaths[i].reason == reason
                }
            &&& forall|p: Pid| #[trigger]
                perished(m, after, p) ==> exists|i: int| #[trigger] published(m, after, p, i)
            &&& forall|i: int, j: int|
                m.deaths.len() <= i < j < after.deaths.len() ==> (
                #[trigger] after.deaths[i]).pid != (#[trigger] after.deaths[j]).pid
        }),
    decreases m.states.dom().len(), work.len(),
{
    let after = registry::exited(m, work, reason);
    if work.len() != 0 {
        let p0 = work[0];
        let rest = work.skip(1);
        if m.states.contains_key(p0) {
            registry::lemma_died_states(m, p0, reason);
            lemma_died_ties(m, p0, reason);
            let m1 = registry::died(m, p0, reason);
            let more = registry::heirs(m, p0, reason) + rest;
            lemma_exited(m1, more, reason);
            lemma_deaths(m1, more, reason);
            let n = m.deaths.len() as int;
            assert(after.deaths[n] == m1.deaths[n]);
            assert forall|p: Pid| #[trigger] perished(m, after, p) implies exists|i: int|
                #[trigger] published(m, after, p, i) by {
                if p == p0 {
                    assert(published(m, after, p, n));
                } else {
                    assert(perished(m1, after, p));
                    let i = choose|i: int| published(m1, after, p, i);
                    assert(published(m, after, p, i));
                }
            }
        } else {
            lemma_deaths(m, rest, reason);
        }
    }
}

/// Every death that an exit brings is published exactly once, with the reason, and nothing else
/// is: deaths that spread through links are published as the first one is.
pub proof fn law_each_death_is_published_once(m: RegistryView, p: Pid, reason: ExitReason)
    requires
        m.sound(),
    ensures
        ({
            let after = registry::exited(m, seq![p], reason);
            &&& after.deaths.len() >= m.deaths.len()
            &&& after.deaths.take(m.deaths.len() as int) == m.deaths
            &&& forall|i: int|
                m.deaths.len() <= i < after.deaths.len() ==> {
                    &&& perished(m, after, (#[trigger] after.deaths[i]).pid)
                    &&& after.deaths[i].reason == reason
                }
            &&& forall|q: Pid| #[trigger]
                perished(m, after, q) ==> exists|i: int| #[trigger] published(m, after, q, i)
            &&& forall|i: int, j: int|
                m.deaths.len() <= i < j < after.deaths.len() ==> (
                #[trigger] after.deaths[i]).pid != (#[trigger] after.deaths[j]).pid
        }),
{
    lemma_deaths(m, seq![p], reason);
}

/// A kill that is sent at a particle cannot be trapped.
pub proof fn law_directed_kill_is_untrappable(m: RegistryView, to: Pid, from: Pid)
    requires
        m.sound(),
    ensures
        !registry::directed(m, to, from, ExitReason::Kill).states.contains_key(to),
{
    law_exit_is_final(m, to, ExitReason::Killed, ExitReason::Killed);
}

/// Whoever is linked to a particle that was killed, and traps exits, learns that it was killed,
/// and lives on.
pub proof fn law_directed_kill_is_inherited_as_killed(m: RegistryView, to: Pid, from: Pid, q: Pid)
    requires
        m.sound(),
        m.states.contains_key(to),
        m.states.contains_key(q),
        to != q,
        m.states[to].links.contains(q),
        m.states[q].trap_exit,
    ensures
        registry::directed(m, to, from, ExitReason::Kill).states.contains_key(q),
        registry::directed(m, to, from, ExitReason::Kill).mailboxes[q].queue.contains(
            MailboxMessage::Exit { from: to, reason: ExitReason::Killed },
        ),
{
    law_trapping_survives(m, to, q, ExitReason::Killed);
    law_exit_is_final(m, to, ExitReason::Killed, ExitReason::Killed);
    law_linked_survivors_hear(m, to, ExitReason::Killed, to, q);
}

/// Any signal but a kill that was sent is trapped by a particle that traps exits: it lives on,
/// and finds the signal at the front of its mailbox.
pub proof fn law_other_signals_are_trappable(
    m: RegistryView,
    to: Pid,
    from: Pid,
    reason: ExitReason,
)
    requires
        m.sound(),
        m.states.contains_key(to),
        m.states[to].trap_exit,
    ensures
        registry::inherited(m, to, from, reason).states == m.states,
        registry::inherited(m, to, from, reason).mailboxes[to].queue[0]
            == (MailboxMessage::Exit { from, reason }),
        reason !is Kill ==> registry::directed(m, to, from, reason) == registry::inherited(
            m,
            to,
            from,
            reason,
        ),
{
}

/// A death on another node does what one here would: of a signal that comes through a link a
/// particle dies exactly when it does not trap exits and the reason is abnormal.
pub proof fn law_remote_death_is_like_a_local_one(
    m: RegistryView,
    to: Pid,
    from: Pid,
    reason: ExitReason,
)
    requires
        m.sound(),
        m.states.contains_key(to),
    ensures
        registry::inherited(m, to, from, reason).states.contains_key(to) <==> m.states[to].trap_exit
            || reason is Normal,
{
    law_exit_is_final(m, to, reason, reason);
}

/// An inherited signal keeps the registry in order.
pub proof fn lemma_inherited_sound(m: RegistryView, to: Pid, from: Pid, reason: ExitReason)
    requires
        m.sound(),
    ensures
        registry::inherited(m, to, from, reason).sound(),
{
    lemma_exited(m, seq![to], reason);
}

/// Nobody runs after exits who did not run before.
pub proof fn lemma_survivors(m: RegistryView, work: Seq<Pid>, reason: ExitReason, q: Pid)
    requires
        m.sound(),
        !m.states.contains_key(q),
    ensures
        !registry::exited(m, work, reason).states.contains_key(q),
{
    lemma_exited(m, work, reason);
}

/// Whoever exits does not run any more.
pub proof fn lemma_exit_ends(m: RegistryView, p: Pid, reason: ExitReason)
    requires
        m.sound(),
    ensures
        registry::exited(m, seq![p], reason).sound(),
        !registry::exited(m, seq![p], reason).states.contains_key(p),
        forall|q: Pid| #[trigger]
            registry::exited(m, seq![p], reason).states.contains_key(q) ==> m.states.contains_key(
                q,
            ),
{
    lemma_exited(m, seq![p], reason);
    assert(seq![p][0] == p);
}

/// What stands in a mailbox stands in a longer one.
pub proof fn lemma_extends_contains(longer: MailboxView, shorter: MailboxView, x: MailboxMessage)
    requires
        extends(longer, shorter),
        shorter.queue.contains(x),
    ensures
        longer.queue.contains(x),
{
    let i = choose|i: int| 0 <= i < shorter.queue.len() && shorter.queue[i] == x;
    assert(longer.queue.skip(longer.queue.len() - shorter.queue.len())[i] == x);
}

/// Telling a particle something takes nothing out of any mailbox.
pub proof fn lemma_told_extends(m: RegistryView, to: Pid, msg: SystemMessage, p: Pid)
    ensures
        extends(m.told(to, msg).mailboxes[p], m.mailboxes[p]),
        m.states.contains_key(to) ==> m.told(to, msg).mailboxes[to].queue.contains(
            mailbox::queued(msg),
        ),
{
    let was = m.mailboxes[p];
    assert(was.queue.skip(0) =~= was.queue);
    lemma_extends_front(was, was, mailbox::queued(msg));
    let own = m.mailboxes[to];
    assert(own.queue.skip(0) =~= own.queue);
    lemma_extends_front(own, own, mailbox::queued(msg));
}

/// An inherited signal starts nobody, changes nobody's mind about trapping exits and takes
/// nothing out of the mailbox of anyone who lives on.
pub proof fn lemma_inherited_keeps(
    m: RegistryView,
    to: Pid,
    from: Pid,
    reason: ExitReason,
    p: Pid,
)
    requires
        m.sound(),
        registry::inherited(m, to, from, reason).states.contains_key(p),
    ensures
        m.states.contains_key(p),
        registry::inherited(m, to, from, reason).states[p].trap_exit == m.states[p].trap_exit,
        extends(registry::inherited(m, to, from, reason).mailboxes[p], m.mailboxes[p]),
{
    lemma_exited(m, seq![to], reason);
    lemma_told_extends(m, to, SystemMessage::Exit { from, reason }, p);
    assert(m.mailboxes[p].queue.skip(0) =~= m.mailboxes[p].queue);
}

proof fn lemma_names(m: RegistryView, work: Seq<Pid>, reason: ExitReason)
    requires
        m.sound(),
    ensures
        ({
            let after = registry::exited(m, work, reason);
            &&& forall|n: Seq<char>| #[trigger]
                after.names.contains_key(n) <==> m.names.contains_key(n) && !perished(
                    m,
                    after,
                    m.names[n],
                )
            &&& forall|n: Seq<char>| #[trigger]
                after.names.contains_key(n) ==> after.names[n] == m.names[n]
        }),
    decreases m.states.dom().len(), work.len(),
{
    if work.len() > 0 {
        let p = work[0];
        let end = registry::exited(m, work, reason);
        if m.states.contains_key(p) {
            registry::lemma_died_states(m, p, reason);
            lemma_died_ties(m, p, reason);
            let after = registry::died(m, p, reason);
            let more = registry::heirs(m, p, reason) + work.skip(1);
            lemma_names(after, more, reason);
            lemma_exited(after, more, reason);
            assert(end == registry::exited(after, more, reason));
        } else {
            lemma_names(m, work.skip(1), reason);
            assert(end == registry::exited(m, work.skip(1), reason));
        }
    }
}

/// A particle takes its names with it, and only its own: after an exit the names are those from
/// before whose particle the exit has not ended, and none has changed hands.
pub proof fn law_names_go_with_their_particle(m: RegistryView, p: Pid, reason: ExitReason, n: Seq<char>)
    requires
        m.sound(),
    ensures
        ({
            let after = registry::exited(m, seq![p], reason);
            &&& after.names.contains_key(n) <==> m.names.contains_key(n) && !perished(
                m,
                after,
                m.names[n],
            )
            &&& after.names.contains_key(n) ==> after.names[n] == m.names[n]
        }),
{
    lemma_names(m, seq![p], reason);
}

/// A survivor keeps its names, also one that an ended particle was once spawned under.
pub proof fn law_survivors_keep_their_names(m: RegistryView, p: Pid, reason: ExitReason, n: Seq<char>)
    requires
        m.sound(),
        m.names.contains_key(n),
        registry::exited(m, seq![p], reason).states.contains_key(m.names[n]),
    ensures
        registry::exited(m, seq![p], reason).names.contains_key(n),
        registry::exited(m, seq![p], reason).names[n] == m.names[n],
{
    lemma_names(m, seq![p], reason);
}

/// Linking makes each of two particles linked to the other, and unlinking undoes it where they
/// were not linked before.
pub proof fn law_unlink_undoes_link(m: RegistryView, a: Pid, b: Pid)
    requires
        m.states.contains_key(a),
        m.states.contains_key(b),
    ensures
        ({
            let linked = m.half_linked(a, b).half_linked(b, a);
            &&& linked.states[a].links.contains(b)
            &&& linked.states[b].links.contains(a)
            &&& !m.states[a].links.contains(b) && !m.states[b].links.contains(a)
                ==> linked.half_unlinked(a, b).half_unlinked(b, a) == m
        }),
{
    let linked = m.half_linked(a, b).half_linked(b, a);
    assert(m.states[a].links.push(b).last() == b);
    assert(linked.states[a].links.contains(b));
    assert(linked.states[b].links.contains(a)) by {
        if a != b && !m.states[b].links.contains(a) {
            assert(m.states[b].links.push(a)[m.states[b].links.len() as int] == a);
        }
    }
    if !m.states[a].links.contains(b) && !m.states[b].links.contains(a) {
        lemma_without_new(m.states[a].links, b);
        lemma_without_new(m.states[b].links, a);
        lemma_without_absent(m.states[a].links, b);
    }
}

proof fn lemma_without_absent(pids: Seq<Pid>, p: Pid)
    requires
        !pids.contains(p),
    ensures
        particle::without_pid(pids, p) == pids,
    decreases pids.len(),
{
    reveal(Seq::filter);
    if pids.len() > 0 {
        lemma_without_absent(pids.drop_last(), p);
    }
}

proof fn lemma_without_new(pids: Seq<Pid>, p: Pid)
    requires
        !pids.contains(p),
    ensures
        particle::without_pid(pids.push(p), p) == pids,
{
    reveal(Seq::filter);
    assert(pids.push(p).drop_last() =~= pids);
    lemma_without_absent(pids, p);
}

proof fn lemma_unwatch_absent(watch: Seq<(Pid, u64)>, w: Pid, r: u64)
    requires
        !watch.contains((w, r)),
    ensures
        particle::without_watch(watch, w, r) == watch,
    decreases watch.len(),
{
    reveal(Seq::filter);
    if watch.len() > 0 {
        lemma_unwatch_absent(watch.drop_last(), w, r);
    }
}

/// Nobody is watched by a watcher under a reference.
pub open spec fn unwatched(m: RegistryView, w: Pid, r: u64) -> bool {
    forall|p: Pid| #[trigger]
        m.states.contains_key(p) ==> !m.states[p].monitored_by.contains((w, r))
}

proof fn lemma_unwatch_new(watch: Seq<(Pid, u64)>, w: Pid, r: u64)
    requires
        !watch.contains((w, r)),
    ensures
        particle::without_watch(watch.push((w, r)), w, r) == watch,
{
    reveal(Seq::filter);
    assert(watch.push((w, r)).drop_last() =~= watch);
    lemma_unwatch_absent(watch, w, r);
}

/// Giving up a monitor undoes recording it, where its reference was in use nowhere before. The
/// watcher may run here or on another node, and so may the target.
pub proof fn law_demonitor_undoes_remote_monitor(m: RegistryView, w: Pid, t: Pid, r: u64)
    requires
        m.states.contains_key(w) ==> !m.states[w].monitors.contains_key(r),
        unwatched(m, w, r),
    ensures
        registry::demonitored(m.monitoring(w, t, r).watched(t, w, r), w, r) == m,
{
    let after = registry::demonitored(m.monitoring(w, t, r).watched(t, w, r), w, r);
    assert forall|p: Pid| m.states.contains_key(p) implies #[trigger] after.states[p]
        == m.states[p] by {
        lemma_unwatch_absent(m.states[p].monitored_by, w, r);
        lemma_unwatch_new(m.states[p].monitored_by, w, r);
        if p == w {
            assert(m.states[w].monitors.insert(r, t).remove(r) =~= m.states[w].monitors);
            assert(m.states[w].monitors.remove(r) =~= m.states[w].monitors);
        }
    }
}

/// Giving up a monitor undoes asking for it.
pub proof fn law_demonitor_undoes_monitor(m: RegistryView, w: Pid, t: Pid)
    requires
        m.sound(),
        counter_laws::counted(m),
        m.states.contains_key(w),
        m.states.contains_key(t),
    ensures
        registry::demonitored(registry::monitored(m, w, t), w, m.next_ref).states == m.states,
{
    let r = m.next_ref;
    let after = registry::demonitored(registry::monitored(m, w, t), w, r);
    assert forall|p: Pid| m.states.contains_key(p) implies #[trigger] after.states[p]
        == m.states[p] by {
        lemma_unwatch_absent(m.states[p].monitored_by, w, r);
        lemma_unwatch_new(m.states[p].monitored_by, w, r);
        if p == w {
            assert(m.states[w].monitors.insert(r, t).remove(r) =~= m.states[w].monitors);
        }
    }
}

/// Giving up a monitor touches no other tie.
pub proof fn law_demonitor_keeps_the_others(m: RegistryView, w: Pid, r: u64, p: Pid)
    requires
        m.states.contains_key(p),
    ensures
        ({
            let before = m.states[p];
            let after = registry::demonitored(m, w, r).states[p];
            &&& registry::demonitored(m, w, r).states.contains_key(p)
            &&& after.links == before.links
            &&& after.trap_exit == before.trap_exit
            &&& after.monitors == (if p == w {
                before.monitors.remove(r)
            } else {
                before.monitors
            })
            &&& !after.monitored_by.contains((w, r))
            &&& forall|x: (Pid, u64)|
                x != (w, r) ==> (#[trigger] after.monitored_by.contains(x)
                    <==> before.monitored_by.contains(x))
        }),
{
    registry::lemma_filter_contains(m.states[p].monitored_by, |x: (Pid, u64)| x != (w, r));
}

/// A message that says that a monitor has ended.
pub open spec fn ends_monitor(msg: MailboxMessage, r: u64) -> bool {
    msg matches MailboxMessage::Down { ref_id, .. } && ref_id == r
}

/// Every end of a monitor that is in the longer queue is in the shorter one.
pub open spec fn no_new_end(longer: MailboxView, shorter: MailboxView, r: u64) -> bool {
    forall|msg: MailboxMessage|
        ends_monitor(msg, r) && #[trigger] longer.queue.contains(msg) ==> shorter.queue.contains(msg)
}

proof fn lemma_front_contains(b: MailboxView, msg: MailboxMessage)
    ensures
        forall|x: MailboxMessage| #[trigger]
            b.with_front(msg).queue.contains(x) ==> x == msg || b.queue.contains(x),
{
    assert forall|x: MailboxMessage| #[trigger] b.with_front(msg).queue.contains(x) implies x == msg
        || b.queue.contains(x) by {
        let i = choose|i: int|
            0 <= i < b.with_front(msg).queue.len() && b.with_front(msg).queue[i] == x;
        if i > 0 {
            assert(b.queue[i - 1] == x);
        }
    }
}

proof fn lemma_downs_silent(
    states: Map<Pid, ParticleView>,
    mailboxes: Map<Pid, MailboxView>,
    watch: Seq<(Pid, u64)>,
    pid: Pid,
    reason: ExitReason,
    w: Pid,
    r: u64,
)
    requires
        !watch.contains((w, r)),
    ensures
        no_new_end(
            registry::downs_told(states, mailboxes, watch, pid, reason)[w],
            mailboxes[w],
            r,
        ),
    decreases watch.len(),
{
    if watch.len() > 0 {
        let before = registry::downs_told(states, mailboxes, watch.drop_last(), pid, reason);
        assert forall|x: (Pid, u64)| watch.drop_last().contains(x) implies watch.contains(x) by {
            let i = choose|i: int| 0 <= i < watch.drop_last().len() && watch.drop_last()[i] == x;
            assert(watch[i] == x);
        }
        lemma_downs_silent(states, mailboxes, watch.drop_last(), pid, reason, w, r);
        assert(watch.contains(watch.last()));
        lemma_front_contains(
            before[w],
            MailboxMessage::Down { from: pid, ref_id: watch.last().1, reason },
        );
    }
}

proof fn lemma_silent(m: RegistryView, work: Seq<Pid>, reason: ExitReason, w: Pid, r: u64)
    requires
        m.sound(),
        unwatched(m, w, r),
    ensures
        ({
            let after = registry::exited(m, work, reason);
            &&& m.mailboxes.contains_key(w) ==> no_new_end(after.mailboxes[w], m.mailboxes[w], r)
            &&& after.deaths.len() >= m.deaths.len()
            &&& forall|i: int|
                m.deaths.len() <= i < after.deaths.len() ==> !(
                #[trigger] after.deaths[i]).remote_monitors.contains((w, r))
        }),
    decreases m.states.dom().len(), work.len(),
{
    if work.len() > 0 {
        let p = work[0];
        let end = registry::exited(m, work, reason);
        if m.states.contains_key(p) {
            registry::lemma_died_states(m, p, reason);
            lemma_died_ties(m, p, reason);
            let after = registry::died(m, p, reason);
            let more = registry::heirs(m, p, reason) + work.skip(1);
            let gone = m.states[p];
            let others = m.states.remove(p);
            let closed = m.mailboxes.insert(p, m.mailboxes[p].shut());
            let told = registry::exits_told(others, closed, gone.links, p, reason);
            lemma_downs(others, told, gone.monitored_by, p, reason);
            lemma_downs_silent(others, told, gone.monitored_by, p, reason, w, r);
            lemma_front_contains(closed[w], MailboxMessage::Exit { from: p, reason });
            lemma_silent(after, more, reason, w, r);
            lemma_deaths(after, more, reason);
            assert(end == registry::exited(after, more, reason));
            assert(!registry::death_of(m, p, reason).remote_monitors.contains((w, r))) by {
                registry::lemma_filter_contains(
                    gone.monitored_by,
                    |x: (Pid, u64)| x.0.node != m.node,
                );
            }
            let n = m.deaths.len() as int;
            assert(end.deaths[n] == end.deaths.take(n + 1)[n]);
            assert(end.deaths[n] == registry::death_of(m, p, reason));
        } else {
            lemma_silent(m, work.skip(1), reason, w, r);
            assert(end == registry::exited(m, work.skip(1), reason));
        }
    }
}

/// A monitor that was given up does not fire: whoever exits then, the watcher is sent no end of
/// it, here or on another node.
pub proof fn law_given_up_monitor_is_silent(
    m: RegistryView,
    w: Pid,
    r: u64,
    p: Pid,
    reason: ExitReason,
)
    requires
        m.sound(),
    ensures
        ({
            let after = registry::exited(registry::demonitored(m, w, r), seq![p], reason);
            &&& m.mailboxes.contains_key(w) ==> no_new_end(after.mailboxes[w], m.mailboxes[w], r)
            &&& forall|i: int|
                m.deaths.len() <= i < after.deaths.len() ==> !(
                #[trigger] after.deaths[i]).remote_monitors.contains((w, r))
        }),
{
    let m1 = registry::demonitored(m, w, r);
    assert(m1.states.dom() =~= m.states.dom());
    assert forall|q: Pid| #[trigger] m1.states.contains_key(q) implies !m1.states[q].monitored_by.contains(
    (w, r)) by {
        law_demonitor_keeps_the_others(m, w, r, q);
    }
    lemma_silent(m1, seq![p], reason, w, r);
}

/// Once a node is forgotten no tie to any of its particles is left.
pub proof fn law_forgotten_node_leaves_no_tie(m: RegistryView, node: NodeId, p: Pid)
    requires
        m.states.contains_key(p),
    ensures
        ({
            let s = registry::node_forgotten(m, node).states[p];
            &&& forall|q: Pid| #[trigger] s.links.contains(q) ==> q.node != node
            &&& forall|r: u64| #[trigger] s.monitors.contains_key(r) ==> s.monitors[r].node != node
            &&& forall|x: (Pid, u64)| #[trigger] s.monitored_by.contains(x) ==> x.0.node != node
        }),
{
    let s = registry::node_forgotten(m, node).states[p];
    broadcast use vstd::seq_lib::group_filter_ensures;

}

} // verus!
