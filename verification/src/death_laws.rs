//! What is left of a particle that has died: what its death tells other nodes, what becomes of
//! its mailbox, its entry and its ties.

use crate::exit_laws;
use crate::mailbox::{MailboxMessage, MailboxView};
use crate::message::ExitReason;
use crate::particle;
use crate::particle::ParticleView;
use crate::pid::{NodeId, Pid};
use crate::registry;
use crate::registry::{DeathView, RegistryView};
use crate::signals;
use crate::transport::{EffectView, PeerMessageView};
use vstd::prelude::*;

verus! {

/// A death tells of the particle as it was: the name that it was spawned under, and everybody on
/// another node who was linked to it or monitored it.
pub open spec fn tells_of(m: RegistryView, d: DeathView) -> bool {
    &&& m.states.contains_key(d.pid)
    &&& d.name == (if m.entries.contains_key(d.pid) {
        m.entries[d.pid].name
    } else {
        None
    })
    &&& forall|l: Pid|
        !m.states.contains_key(l) ==> (#[trigger] d.remote_links.contains(l) <==> l.node != m.node
            && m.states[d.pid].links.contains(l))
    &&& forall|x: (Pid, u64)| #[trigger]
        d.remote_monitors.contains(x) <==> x.0.node != m.node
            && m.states[d.pid].monitored_by.contains(x)
}

proof fn lemma_death_tells(m: RegistryView, p: Pid, reason: ExitReason)
    requires
        m.states.contains_key(p),
    ensures
        tells_of(m, registry::death_of(m, p, reason)),
{
    registry::lemma_filter_contains(m.states[p].links, |q: Pid| q.node != m.node);
    registry::lemma_filter_contains(
        m.states[p].monitored_by,
        |x: (Pid, u64)| x.0.node != m.node,
    );
}

proof fn lemma_tell(m: RegistryView, work: Seq<Pid>, reason: ExitReason)
    requires
        m.sound(),
    ensures
        ({
            let after = registry::exited(m, work, reason);
            &&& after.node == m.node
            &&& after.deaths.len() >= m.deaths.len()
            &&& forall|i: int| 0 <= i < m.deaths.len() ==> #[trigger] after.deaths[i] == m.deaths[i]
            &&& forall|i: int|
                m.deaths.len() <= i < after.deaths.len() ==> tells_of(m, #[trigger] after.deaths[i])
            &&& work.len() > 0 && m.states.contains_key(work[0]) ==> after.deaths.len()
                > m.deaths.len() && after.deaths[m.deaths.len() as int] == registry::death_of(
                m,
                work[0],
                reason,
            )
        }),
    decreases m.states.dom().len(), work.len(),
{
    if work.len() > 0 {
        let p = work[0];
        let rest = work.skip(1);
        let after = registry::exited(m, work, reason);
        if m.states.contains_key(p) {
            registry::lemma_died_states(m, p, reason);
            exit_laws::lemma_died_ties(m, p, reason);
            lemma_death_tells(m, p, reason);
            let m1 = registry::died(m, p, reason);
            let more = registry::heirs(m, p, reason) + rest;
            lemma_tell(m1, more, reason);
            let n = m.deaths.len() as int;
            assert(m1.deaths[n] == registry::death_of(m, p, reason));
            assert forall|i: int| n <= i < after.deaths.len() implies tells_of(
                m,
                #[trigger] after.deaths[i],
            ) by {
                if i == n {
                    assert(after.deaths[n] == m1.deaths[n]);
                } else {
                    let d = after.deaths[i];
                    assert(tells_of(m1, d));
                    assert(m1.states.contains_key(d.pid));
                }
            }
        } else {
            lemma_tell(m, rest, reason);
        }
    }
}

/// Every death that an exit brings is published with all that other nodes must hear of it: who
/// was linked to the dead particle there, who monitored it there, and its name.
pub proof fn law_deaths_tell_all(m: RegistryView, p: Pid, reason: ExitReason)
    requires
        m.sound(),
    ensures
        ({
            let after = registry::exited(m, seq![p], reason);
            forall|i: int|
                m.deaths.len() <= i < after.deaths.len() ==> tells_of(m, #[trigger] after.deaths[i])
        }),
{
    lemma_tell(m, seq![p], reason);
}

/// The particle that exits is the first whose death is published.
pub proof fn law_the_first_death_is_its_own(m: RegistryView, p: Pid, reason: ExitReason)
    requires
        m.sound(),
        m.states.contains_key(p),
    ensures
        ({
            let after = registry::exited(m, seq![p], reason);
            let n = m.deaths.len() as int;
            &&& after.deaths.len() > n
            &&& after.deaths[n].pid == p
            &&& after.deaths[n].reason == reason
            &&& tells_of(m, after.deaths[n])
        }),
{
    lemma_tell(m, seq![p], reason);
    assert(seq![p][0] == p);
}

/// A published death goes to every node that must hear of it, and nothing else does: each remote
/// link is sent the exit and each remote monitor its end, with the pid and the reason.
pub proof fn law_deaths_are_signalled(d: DeathView, e: EffectView)
    ensures
        signals::death_signals(d).len() == d.remote_links.len() + d.remote_monitors.len(),
        signals::death_signals(d).contains(e) <==> (exists|p: Pid| #[trigger]
            d.remote_links.contains(p) && e == EffectView::Send(
                p.node,
                PeerMessageView::Exit { from: d.pid, to: p, reason: d.reason },
            )) || (exists|w: Pid, r: u64| #[trigger]
            d.remote_monitors.contains((w, r)) && e == EffectView::Send(
                w.node,
                PeerMessageView::Down { from: d.pid, to: w, ref_id: r, reason: d.reason },
            )),
{
    let all = signals::death_signals(d);
    let n = d.remote_links.len() as int;
    if all.contains(e) {
        let i = choose|i: int| 0 <= i < all.len() && all[i] == e;
        if i < n {
            assert(d.remote_links.contains(d.remote_links[i]));
        } else {
            let x = d.remote_monitors[i - n];
            assert(d.remote_monitors.contains((x.0, x.1)));
        }
    }
    assert forall|p: Pid| #[trigger] d.remote_links.contains(p) implies all.contains(
        EffectView::Send(p.node, PeerMessageView::Exit { from: d.pid, to: p, reason: d.reason }),
    ) by {
        let i = choose|i: int| 0 <= i < d.remote_links.len() && d.remote_links[i] == p;
        assert(all[i] == EffectView::Send(
            p.node,
            PeerMessageView::Exit { from: d.pid, to: p, reason: d.reason },
        ));
    }
    assert forall|w: Pid, r: u64| #[trigger] d.remote_monitors.contains((w, r)) implies all.contains(
        EffectView::Send(
            w.node,
            PeerMessageView::Down { from: d.pid, to: w, ref_id: r, reason: d.reason },
        ),
    ) by {
        let i = choose|i: int| 0 <= i < d.remote_monitors.len() && d.remote_monitors[i] == (w, r);
        assert(all[n + i] == EffectView::Send(
            w.node,
            PeerMessageView::Down { from: d.pid, to: w, ref_id: r, reason: d.reason },
        ));
    }
}

proof fn lemma_downs_elsewhere(
    states: Map<Pid, ParticleView>,
    mailboxes: Map<Pid, MailboxView>,
    watch: Seq<(Pid, u64)>,
    pid: Pid,
    reason: ExitReason,
    q: Pid,
)
    requires
        !states.contains_key(q),
    ensures
        ({
            let after = registry::downs_told(states, mailboxes, watch, pid, reason);
            &&& after.contains_key(q) <==> mailboxes.contains_key(q)
            &&& after[q] == mailboxes[q]
        }),
    decreases watch.len(),
{
    if watch.len() > 0 {
        lemma_downs_elsewhere(states, mailboxes, watch.drop_last(), pid, reason, q);
    }
}

/// Dying does to the dead particle's mailbox nothing but close it, and nothing to the mailbox of
/// one who did not run.
proof fn lemma_dead_mailbox(m: RegistryView, p: Pid, reason: ExitReason, q: Pid)
    requires
        m.sound(),
        m.states.contains_key(p),
        q == p || (!m.states.contains_key(q) && m.mailboxes.contains_key(q)),
    ensures
        ({
            let after = registry::died(m, p, reason);
            &&& after.mailboxes.contains_key(q)
            &&& after.mailboxes[q].queue == m.mailboxes[q].queue
            &&& after.mailboxes[q].closed == (q == p || m.mailboxes[q].closed)
        }),
{
    let others = m.states.remove(p);
    let closed = m.mailboxes.insert(p, m.mailboxes[p].shut());
    let told = registry::exits_told(others, closed, m.states[p].links, p, reason);
    lemma_downs_elsewhere(others, told, m.states[p].monitored_by, p, reason, q);
}

proof fn lemma_rest_after(m: RegistryView, work: Seq<Pid>, reason: ExitReason, q: Pid)
    requires
        m.sound(),
        !m.states.contains_key(q),
        m.mailboxes.contains_key(q),
    ensures
        ({
            let after = registry::exited(m, work, reason);
            &&& after.mailboxes.contains_key(q)
            &&& after.mailboxes[q].queue == m.mailboxes[q].queue
            &&& after.mailboxes[q].closed == m.mailboxes[q].closed
        }),
    decreases m.states.dom().len(), work.len(),
{
    if work.len() > 0 {
        let p = work[0];
        if m.states.contains_key(p) {
            registry::lemma_died_states(m, p, reason);
            exit_laws::lemma_died_ties(m, p, reason);
            lemma_dead_mailbox(m, p, reason, q);
            lemma_rest_after(
                registry::died(m, p, reason),
                registry::heirs(m, p, reason) + work.skip(1),
                reason,
                q,
            );
        } else {
            lemma_rest_after(m, work.skip(1), reason, q);
        }
    }
}

/// A particle that exits leaves its mailbox closed, with what was in it: nothing more comes in,
/// and what came before can still be taken out.
pub proof fn law_a_dead_mailbox_is_closed(m: RegistryView, p: Pid, reason: ExitReason)
    requires
        m.sound(),
        m.states.contains_key(p),
    ensures
        ({
            let after = registry::exited(m, seq![p], reason);
            &&& after.mailboxes.contains_key(p)
            &&& after.mailboxes[p].closed
            &&& after.mailboxes[p].queue == m.mailboxes[p].queue
        }),
{
    let work = seq![p];
    registry::lemma_died_states(m, p, reason);
    exit_laws::lemma_died_ties(m, p, reason);
    lemma_dead_mailbox(m, p, reason, p);
    lemma_rest_after(
        registry::died(m, p, reason),
        registry::heirs(m, p, reason) + work.skip(1),
        reason,
        p,
    );
}

proof fn lemma_entries(m: RegistryView, work: Seq<Pid>, reason: ExitReason)
    requires
        m.sound(),
    ensures
        ({
            let after = registry::exited(m, work, reason);
            &&& after.node == m.node && after.next_seq == m.next_seq && after.next_ref == m.next_ref
            &&& after.components == m.components
            &&& forall|q: Pid| #[trigger]
                after.entries.contains_key(q) <==> m.entries.contains_key(q)
                    && !exit_laws::perished(m, after, q)
            &&& forall|q: Pid| #[trigger]
                after.entries.contains_key(q) ==> after.entries[q] == m.entries[q]
        }),
    decreases m.states.dom().len(), work.len(),
{
    if work.len() > 0 {
        let p = work[0];
        if m.states.contains_key(p) {
            registry::lemma_died_states(m, p, reason);
            exit_laws::lemma_died_ties(m, p, reason);
            let m1 = registry::died(m, p, reason);
            let more = registry::heirs(m, p, reason) + work.skip(1);
            lemma_entries(m1, more, reason);
            exit_laws::lemma_survivors(m1, more, reason, p);
        } else {
            lemma_entries(m, work.skip(1), reason);
        }
    }
}

/// The entries of the dead go, those of the others stay as they were, and no component is
/// forgotten.
pub proof fn law_the_dead_are_listed_no_more(m: RegistryView, p: Pid, reason: ExitReason, q: Pid)
    requires
        m.sound(),
    ensures
        ({
            let after = registry::exited(m, seq![p], reason);
            &&& after.components == m.components
            &&& after.entries.contains_key(q) <==> m.entries.contains_key(q)
                && !exit_laws::perished(m, after, q)
            &&& after.entries.contains_key(q) ==> after.entries[q] == m.entries[q]
        }),
{
    lemma_entries(m, seq![p], reason);
}

proof fn lemma_survivors_ties(m: RegistryView, work: Seq<Pid>, reason: ExitReason, q: Pid)
    requires
        m.sound(),
        registry::exited(m, work, reason).states.contains_key(q),
    ensures
        ({
            let after = registry::exited(m, work, reason);
            &&& m.states.contains_key(q)
            &&& after.states[q].trap_exit == m.states[q].trap_exit
            &&& after.states[q].monitored_by == m.states[q].monitored_by
            &&& forall|l: Pid|
                !exit_laws::perished(m, after, l) ==> (#[trigger] after.states[q].links.contains(l)
                    <==> m.states[q].links.contains(l))
        }),
    decreases m.states.dom().len(), work.len(),
{
    if work.len() > 0 {
        let p = work[0];
        let after = registry::exited(m, work, reason);
        if m.states.contains_key(p) {
            registry::lemma_died_states(m, p, reason);
            exit_laws::lemma_died_ties(m, p, reason);
            let m1 = registry::died(m, p, reason);
            let more = registry::heirs(m, p, reason) + work.skip(1);
            lemma_survivors_ties(m1, more, reason, q);
            exit_laws::lemma_survivors(m1, more, reason, p);
            assert forall|l: Pid| !exit_laws::perished(m, after, l) implies (
            #[trigger] after.states[q].links.contains(l) <==> m.states[q].links.contains(l)) by {
                assert(l != p);
                assert(!exit_laws::perished(m1, after, l));
                assert(m1.states[q].links.contains(l) <==> m.states[q].links.contains(l));
            }
        } else {
            lemma_survivors_ties(m, work.skip(1), reason, q);
        }
    }
}

/// Whoever lives on keeps its ties to everybody who has not died, here and elsewhere.
pub proof fn law_survivors_keep_their_ties(m: RegistryView, p: Pid, reason: ExitReason, q: Pid)
    requires
        m.sound(),
        registry::exited(m, seq![p], reason).states.contains_key(q),
    ensures
        ({
            let after = registry::exited(m, seq![p], reason);
            &&& m.states.contains_key(q)
            &&& after.states[q].trap_exit == m.states[q].trap_exit
            &&& after.states[q].monitored_by == m.states[q].monitored_by
            &&& forall|l: Pid|
                !exit_laws::perished(m, after, l) ==> (#[trigger] after.states[q].links.contains(l)
                    <==> m.states[q].links.contains(l))
        }),
{
    lemma_survivors_ties(m, seq![p], reason, q);
}

proof fn lemma_ties_shrink(m: RegistryView, work: Seq<Pid>, reason: ExitReason, q: Pid)
    requires
        m.sound(),
        registry::exited(m, work, reason).states.contains_key(q),
    ensures
        ({
            let after = registry::exited(m, work, reason);
            &&& m.states.contains_key(q)
            &&& forall|l: Pid| #[trigger]
                after.states[q].links.contains(l) ==> m.states[q].links.contains(l)
            &&& forall|r: u64| #[trigger]
                after.states[q].monitors.contains_key(r) ==> m.states[q].monitors.contains_key(r)
                    && after.states[q].monitors[r] == m.states[q].monitors[r]
        }),
    decreases m.states.dom().len(), work.len(),
{
    if work.len() > 0 {
        let p = work[0];
        if m.states.contains_key(p) {
            registry::lemma_died_states(m, p, reason);
            exit_laws::lemma_died_ties(m, p, reason);
            let m1 = registry::died(m, p, reason);
            let more = registry::heirs(m, p, reason) + work.skip(1);
            let after = registry::exited(m, work, reason);
            assert(after == registry::exited(m1, more, reason));
            lemma_ties_shrink(m1, more, reason, q);
            assert(m1.states.contains_key(q));
            assert forall|l: Pid| #[trigger] after.states[q].links.contains(l) implies
                m.states[q].links.contains(l) by {
                assert(m1.states[q].links.contains(l));
            }
            assert forall|r: u64| #[trigger] after.states[q].monitors.contains_key(r) implies
                m.states[q].monitors.contains_key(r) && after.states[q].monitors[r]
                == m.states[q].monitors[r] by {
                assert(m1.states[q].monitors.contains_key(r));
            }
        } else {
            lemma_ties_shrink(m, work.skip(1), reason, q);
        }
    }
}

proof fn lemma_ties_gone(m: RegistryView, work: Seq<Pid>, reason: ExitReason, dead: Pid, q: Pid, r: u64)
    requires
        m.sound(),
        registry::exited(m, work, reason).states.contains_key(q),
        exit_laws::perished(m, registry::exited(m, work, reason), dead),
    ensures
        ({
            let after = registry::exited(m, work, reason);
            &&& m.states[dead].links.contains(q) ==> !after.states[q].links.contains(dead)
            &&& m.states[dead].monitored_by.contains((q, r))
                ==> !after.states[q].monitors.contains_key(r)
        }),
    decreases m.states.dom().len(), work.len(),
{
    if work.len() > 0 {
        let p = work[0];
        let after = registry::exited(m, work, reason);
        if m.states.contains_key(p) {
            registry::lemma_died_states(m, p, reason);
            exit_laws::lemma_died_ties(m, p, reason);
            let m1 = registry::died(m, p, reason);
            let more = registry::heirs(m, p, reason) + work.skip(1);
            lemma_ties_shrink(m1, more, reason, q);
            exit_laws::lemma_survivors(m1, more, reason, p);
            if dead == p {
                registry::lemma_filter_contains(m.states[q].links, particle::other_than(p));
            } else {
                assert(m1.states.contains_key(dead));
                assert(exit_laws::perished(m1, after, dead));
                lemma_ties_gone(m1, more, reason, dead, q, r);
            }
        } else {
            lemma_ties_gone(m, work.skip(1), reason, dead, q, r);
        }
    }
}

/// Whoever lives on is tied no more to the dead that were tied to it: neither by a link nor by a
/// monitor that has fired.
pub proof fn law_ties_to_the_dead_are_gone(
    m: RegistryView,
    p: Pid,
    reason: ExitReason,
    dead: Pid,
    q: Pid,
    r: u64,
)
    requires
        m.sound(),
        registry::exited(m, seq![p], reason).states.contains_key(q),
        exit_laws::perished(m, registry::exited(m, seq![p], reason), dead),
    ensures
        ({
            let after = registry::exited(m, seq![p], reason);
            &&& m.states[dead].links.contains(q) ==> !after.states[q].links.contains(dead)
            &&& m.states[dead].monitored_by.contains((q, r))
                ==> !after.states[q].monitors.contains_key(r)
        }),
{
    lemma_ties_gone(m, seq![p], reason, dead, q, r);
}

proof fn lemma_monitors_stay(m: RegistryView, work: Seq<Pid>, reason: ExitReason, q: Pid, r: u64)
    requires
        m.sound(),
        registry::exited(m, work, reason).states.contains_key(q),
        m.states[q].monitors.contains_key(r),
        forall|d: Pid| #[trigger]
            m.states.contains_key(d) ==> !m.states[d].monitored_by.contains((q, r)) || !(
            exit_laws::perished(m, registry::exited(m, work, reason), d)),
    ensures
        registry::exited(m, work, reason).states[q].monitors.contains_key(r),
    decreases m.states.dom().len(), work.len(),
{
    if work.len() > 0 {
        let p = work[0];
        let after = registry::exited(m, work, reason);
        if m.states.contains_key(p) {
            registry::lemma_died_states(m, p, reason);
            exit_laws::lemma_died_ties(m, p, reason);
            let m1 = registry::died(m, p, reason);
            let more = registry::heirs(m, p, reason) + work.skip(1);
            lemma_ties_shrink(m1, more, reason, q);
            exit_laws::lemma_survivors(m1, more, reason, p);
            assert(exit_laws::perished(m, after, p));
            assert forall|d: Pid| #[trigger] m1.states.contains_key(d) implies
                !m1.states[d].monitored_by.contains((q, r)) || !(exit_laws::perished(m1, after, d)) by {
                assert(m.states.contains_key(d));
                assert(m1.states[d].monitored_by == m.states[d].monitored_by);
            }
            lemma_monitors_stay(m1, more, reason, q, r);
        } else {
            lemma_monitors_stay(m, work.skip(1), reason, q, r);
        }
    }
}

/// A monitor that has not fired stays.
pub proof fn law_other_monitors_stay(m: RegistryView, p: Pid, reason: ExitReason, q: Pid, r: u64)
    requires
        m.sound(),
        registry::exited(m, seq![p], reason).states.contains_key(q),
        m.states[q].monitors.contains_key(r),
        forall|d: Pid| #[trigger]
            m.states.contains_key(d) ==> !m.states[d].monitored_by.contains((q, r)) || !(
            exit_laws::perished(m, registry::exited(m, seq![p], reason), d)),
    ensures
        registry::exited(m, seq![p], reason).states[q].monitors.contains_key(r),
        registry::exited(m, seq![p], reason).states[q].monitors[r] == m.states[q].monitors[r],
{
    lemma_monitors_stay(m, seq![p], reason, q, r);
    lemma_ties_shrink(m, seq![p], reason, q);
}

/// When a node is lost, whoever is linked to one of its particles dies, or hears that the
/// connection is gone if it traps exits.
pub proof fn law_a_lost_node_ends_its_links(
    m: RegistryView,
    node: NodeId,
    links: Seq<(Pid, Pid)>,
    monitors: Seq<(Pid, Pid, u64)>,
    p: Pid,
    q: Pid,
)
    requires
        m.sound(),
        signals::ties_with(m, node, links, monitors),
        m.states.contains_key(p),
        m.states[p].links.contains(q),
        q.node == node,
    ensures
        ({
            let after = signals::node_lost(m, node, links, monitors);
            &&& !m.states[p].trap_exit ==> !after.states.contains_key(p)
            &&& m.states[p].trap_exit ==> after.states.contains_key(p)
                && after.mailboxes[p].queue.contains(
                MailboxMessage::Exit { from: q, reason: ExitReason::NoConnection },
            )
        }),
{
    if m.states[p].trap_exit {
        signals::law_lost_links_are_heard(m, node, links, monitors, p, q);
    } else {
        signals::law_lost_links_kill(m, node, links, monitors, p, q);
    }
}

proof fn lemma_fired_reasons(m: RegistryView, links: Seq<(Pid, Pid)>)
    requires
        m.sound(),
    ensures
        ({
            let after = signals::links_fired(m, links);
            &&& after.sound()
            &&& after.deaths.len() >= m.deaths.len()
            &&& forall|i: int| 0 <= i < m.deaths.len() ==> #[trigger] after.deaths[i] == m.deaths[i]
            &&& forall|i: int|
                m.deaths.len() <= i < after.deaths.len() ==> (#[trigger] after.deaths[i]).reason
                    is NoConnection
        }),
    decreases links.len(),
{
    if links.len() > 0 {
        let before = signals::links_fired(m, links.drop_last());
        let (local, remote) = links.last();
        lemma_fired_reasons(m, links.drop_last());
        exit_laws::lemma_inherited_sound(before, local, remote, ExitReason::NoConnection);
        exit_laws::law_each_death_is_published_once(before, local, ExitReason::NoConnection);
        let after = signals::links_fired(m, links);
        assert forall|i: int| 0 <= i < before.deaths.len() implies #[trigger] after.deaths[i]
            == before.deaths[i] by {
            if after.deaths != before.deaths {
                assert(after.deaths.take(before.deaths.len() as int)[i] == before.deaths[i]);
            }
        }
    }
}

proof fn lemma_monitors_bring_no_death(m: RegistryView, monitors: Seq<(Pid, Pid, u64)>)
    ensures
        signals::monitors_fired(m, monitors).deaths == m.deaths,
    decreases monitors.len(),
{
    if monitors.len() > 0 {
        lemma_monitors_bring_no_death(m, monitors.drop_last());
    }
}

/// Every death that the loss of a node brings is published as a lost connection.
pub proof fn law_deaths_of_a_lost_node(
    m: RegistryView,
    node: NodeId,
    links: Seq<(Pid, Pid)>,
    monitors: Seq<(Pid, Pid, u64)>,
    i: int,
)
    requires
        m.sound(),
    ensures
        ({
            let after = signals::node_lost(m, node, links, monitors);
            &&& after.deaths.len() >= m.deaths.len()
            &&& 0 <= i < m.deaths.len() ==> after.deaths[i] == m.deaths[i]
            &&& m.deaths.len() <= i < after.deaths.len() ==> after.deaths[i].reason is NoConnection
        }),
{
    lemma_fired_reasons(m, links);
    lemma_monitors_bring_no_death(signals::links_fired(m, links), monitors);
}

/// When a node is lost, whoever monitors one of its particles, and lives on, hears the end of that
/// monitor.
pub proof fn law_a_lost_node_ends_its_monitors(
    m: RegistryView,
    node: NodeId,
    links: Seq<(Pid, Pid)>,
    monitors: Seq<(Pid, Pid, u64)>,
    w: Pid,
    r: u64,
)
    requires
        m.sound(),
        signals::ties_with(m, node, links, monitors),
        m.states.contains_key(w),
        m.states[w].monitors.contains_key(r),
        m.states[w].monitors[r].node == node,
        signals::node_lost(m, node, links, monitors).states.contains_key(w),
    ensures
        signals::node_lost(m, node, links, monitors).mailboxes[w].queue.contains(
            MailboxMessage::Down {
                from: m.states[w].monitors[r],
                ref_id: r,
                reason: ExitReason::NoConnection,
            },
        ),
{
    signals::law_lost_monitors_are_heard(
        m,
        node,
        links,
        monitors,
        w,
        m.states[w].monitors[r],
        r,
    );
}

/// Once a node is lost nobody has a link to it or monitors any of it; and where nobody had, nothing
/// changes.
pub proof fn law_a_lost_node_leaves_no_tie(
    m: RegistryView,
    node: NodeId,
    links: Seq<(Pid, Pid)>,
    monitors: Seq<(Pid, Pid, u64)>,
    p: Pid,
    q: Pid,
    r: u64,
)
    requires
        signals::ties_with(m, node, links, monitors),
    ensures
        ({
            let after = signals::node_lost(m, node, links, monitors);
            &&& after.states.contains_key(p) && q.node == node ==> !after.states[p].links.contains(q)
            &&& after.states.contains_key(p) && after.states[p].monitors.contains_key(r)
                ==> after.states[p].monitors[r].node != node
            &&& (forall|x: Pid, y: Pid|
                m.states.contains_key(x) && #[trigger] m.states[x].links.contains(y) ==> y.node
                    != node) && (forall|x: Pid, k: u64|
                m.states.contains_key(x) && #[trigger] m.states[x].monitors.contains_key(k)
                    ==> m.states[x].monitors[k].node != node) ==> after == m
        }),
{
    let after = signals::node_lost(m, node, links, monitors);
    if links.len() == 0 && monitors.len() == 0 {
        if m.states.contains_key(p) && q.node == node && m.states[p].links.contains(q) {
            assert(registry::is_link_to(m, node, (p, q)));
            assert(links.contains((p, q)));
        }
        if m.states.contains_key(p) && m.states[p].monitors.contains_key(r)
            && m.states[p].monitors[r].node == node {
            assert(registry::is_monitor_of(m, node, (p, m.states[p].monitors[r], r)));
            assert(monitors.contains((p, m.states[p].monitors[r], r)));
        }
    } else {
        if after.states.contains_key(p) {
            let before = signals::monitors_fired(signals::links_fired(m, links), monitors);
            exit_laws::law_forgotten_node_leaves_no_tie(before, node, p);
        }
        if links.len() > 0 {
            assert(links.contains(links[0]));
        } else {
            assert(monitors.contains(monitors[0]));
        }
    }
}

/// Forgetting a node leaves every tie with the particles of other nodes as it was.
pub proof fn law_forgetting_a_node_keeps_the_other_ties(m: RegistryView, node: NodeId, p: Pid)
    requires
        m.states.contains_key(p),
    ensures
        ({
            let after = registry::node_forgotten(m, node);
            let s = after.states[p];
            let was = m.states[p];
            &&& after.states.contains_key(p)
            &&& after.mailboxes == m.mailboxes && after.names == m.names && after.entries
                == m.entries && after.deaths == m.deaths
            &&& s.trap_exit == was.trap_exit
            &&& forall|q: Pid|
                q.node != node ==> (#[trigger] s.links.contains(q) <==> was.links.contains(q))
            &&& forall|x: (Pid, u64)|
                x.0.node != node ==> (#[trigger] s.monitored_by.contains(x)
                    <==> was.monitored_by.contains(x))
            &&& forall|r: u64| #[trigger]
                was.monitors.contains_key(r) && was.monitors[r].node != node
                    ==> s.monitors.contains_key(r) && s.monitors[r] == was.monitors[r]
        }),
{
    registry::lemma_filter_contains(m.states[p].links, |q: Pid| q.node != node);
    registry::lemma_filter_contains(m.states[p].monitored_by, |x: (Pid, u64)| x.0.node != node);
}

} // verus!
