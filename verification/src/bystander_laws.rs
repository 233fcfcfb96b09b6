//! Whom a death does not concern: whoever has no tie to the dead is left as it was.

use crate::exit_laws;
use crate::global;
use crate::host;
use crate::host::{DestinationView, LocalTargetView};
use crate::host_laws;
use crate::mailbox::MailboxView;
use crate::message::ExitReason;
use crate::particle::ParticleView;
use crate::peer_laws;
use crate::pid::{NodeId, Pid};
use crate::protocol;
use crate::registry;
use crate::registry::RegistryView;
use crate::signals;
use crate::transport::{Addressee, PeerMessage};
use vstd::prelude::*;

verus! {

/// A particle runs as it did, with the ties and the messages that it had.
pub open spec fn untouched(after: RegistryView, m: RegistryView, q: Pid) -> bool {
    &&& after.states.contains_key(q)
    &&& after.states[q] == m.states[q]
    &&& after.mailboxes[q] == m.mailboxes[q]
}

/// Nobody in a set is linked to a particle or watched by it, and the particle is not in it.
pub open spec fn apart(m: RegistryView, doomed: Set<Pid>, q: Pid) -> bool {
    &&& !doomed.contains(q)
    &&& forall|d: Pid|
        #![trigger m.states[d]]
        doomed.contains(d) && m.states.contains_key(d) ==> !m.states[d].links.contains(q) && (
        forall|r: u64| !(#[trigger] m.states[d].monitored_by.contains((q, r))))
}

proof fn lemma_unwatched(
    states: Map<Pid, ParticleView>,
    mailboxes: Map<Pid, MailboxView>,
    watch: Seq<(Pid, u64)>,
    pid: Pid,
    reason: ExitReason,
    q: Pid,
)
    requires
        forall|r: u64| !(#[trigger] watch.contains((q, r))),
    ensures
        registry::downs_told(states, mailboxes, watch, pid, reason)[q] == mailboxes[q],
    decreases watch.len(),
{
    if watch.len() > 0 {
        let init = watch.drop_last();
        assert forall|r: u64| !(#[trigger] init.contains((q, r))) by {
            if init.contains((q, r)) {
                let i = choose|i: int| 0 <= i < init.len() && init[i] == (q, r);
                assert(watch[i] == (q, r));
                assert(watch.contains((q, r)));
            }
        }
        lemma_unwatched(states, mailboxes, init, pid, reason, q);
        if watch.last().0 == q {
            assert(watch[watch.len() - 1] == (q, watch.last().1));
            assert(watch.contains((q, watch.last().1)));
        }
    }
}

proof fn lemma_died_apart(m: RegistryView, p: Pid, reason: ExitReason, doomed: Set<Pid>, q: Pid)
    requires
        m.sound(),
        m.states.contains_key(p),
        m.states.contains_key(q),
        doomed.contains(p),
        apart(m, doomed, q),
        exit_laws::closed_under_links(m, doomed),
    ensures
        ({
            let after = registry::died(m, p, reason);
            &&& after.sound()
            &&& untouched(after, m, q)
            &&& apart(after, doomed, q)
            &&& exit_laws::closed_under_links(after, doomed)
        }),
{
    let after = registry::died(m, p, reason);
    let gone = m.states[p];
    let others = m.states.remove(p);
    let closed = m.mailboxes.insert(p, m.mailboxes[p].shut());
    let told = registry::exits_told(others, closed, gone.links, p, reason);
    exit_laws::lemma_died_ties(m, p, reason);
    lemma_unwatched(others, told, gone.monitored_by, p, reason, q);
    assert(m.mailboxes.contains_key(q));
    assert(told[q] == m.mailboxes[q]);
    assert(after.states[q].monitors =~= m.states[q].monitors);
    assert(after.states[q] == m.states[q]);
    assert forall|d: Pid|
        #![trigger after.states[d]]
        doomed.contains(d) && after.states.contains_key(d) implies !after.states[d].links.contains(q)
        && (forall|r: u64| !(#[trigger] after.states[d].monitored_by.contains((q, r)))) by {
        assert(after.states[d].monitored_by == m.states[d].monitored_by);
        assert(after.states[d].links.contains(q) ==> m.states[d].links.contains(q));
    }
    assert forall|x: Pid, y: Pid|
        doomed.contains(x) && after.states.contains_key(x)
            && #[trigger] after.states[x].links.contains(y) && after.states.contains_key(y)
            && !after.states[y].trap_exit implies doomed.contains(y) by {
        assert(m.states[x].links.contains(y));
        assert(after.states[y].trap_exit == m.states[y].trap_exit);
    }
}

proof fn lemma_exited_apart(
    m: RegistryView,
    work: Seq<Pid>,
    reason: ExitReason,
    doomed: Set<Pid>,
    q: Pid,
)
    requires
        m.sound(),
        m.states.contains_key(q),
        apart(m, doomed, q),
        exit_laws::closed_under_links(m, doomed),
        forall|i: int| 0 <= i < work.len() ==> doomed.contains(#[trigger] work[i]),
    ensures
        ({
            let after = registry::exited(m, work, reason);
            &&& after.sound()
            &&& untouched(after, m, q)
            &&& apart(after, doomed, q)
            &&& exit_laws::closed_under_links(after, doomed)
        }),
    decreases m.states.dom().len(), work.len(),
{
    if work.len() > 0 {
        let p = work[0];
        let rest = work.skip(1);
        assert forall|i: int| 0 <= i < rest.len() implies doomed.contains(#[trigger] rest[i]) by {
            assert(rest[i] == work[i + 1]);
        }
        if m.states.contains_key(p) {
            registry::lemma_died_states(m, p, reason);
            lemma_died_apart(m, p, reason, doomed, q);
            let heirs = registry::heirs(m, p, reason);
            let more = heirs + rest;
            registry::lemma_filter_contains(
                m.states[p].links,
                |x: Pid| registry::drags_along(m.states.remove(p), x, reason),
            );
            assert forall|i: int| 0 <= i < more.len() implies doomed.contains(
                #[trigger] more[i],
            ) by {
                if i < heirs.len() {
                    assert(heirs.contains(heirs[i]));
                } else {
                    assert(more[i] == rest[i - heirs.len()]);
                }
            }
            lemma_exited_apart(registry::died(m, p, reason), more, reason, doomed, q);
        } else {
            lemma_exited_apart(m, rest, reason, doomed, q);
        }
    }
}

/// An exit leaves everybody alone to whom it has no way: whoever is in no set that holds the one
/// who exits and everyone that a death of a member drags along, and is tied to no member.
pub proof fn law_an_exit_leaves_bystanders_alone(
    m: RegistryView,
    p: Pid,
    reason: ExitReason,
    doomed: Set<Pid>,
    q: Pid,
)
    requires
        m.sound(),
        doomed.contains(p),
        exit_laws::closed_under_links(m, doomed),
        apart(m, doomed, q),
        m.states.contains_key(q),
    ensures
        untouched(registry::exited(m, seq![p], reason), m, q),
{
    lemma_exited_apart(m, seq![p], reason, doomed, q);
}

proof fn lemma_inherited_apart(
    m: RegistryView,
    to: Pid,
    from: Pid,
    reason: ExitReason,
    doomed: Set<Pid>,
    q: Pid,
)
    requires
        m.sound(),
        doomed.contains(to),
        exit_laws::closed_under_links(m, doomed),
        apart(m, doomed, q),
        m.states.contains_key(q),
    ensures
        ({
            let after = registry::inherited(m, to, from, reason);
            &&& after.sound()
            &&& untouched(after, m, q)
            &&& apart(after, doomed, q)
            &&& exit_laws::closed_under_links(after, doomed)
        }),
        ({
            let after = registry::directed(m, to, from, reason);
            &&& after.sound()
            &&& untouched(after, m, q)
            &&& apart(after, doomed, q)
            &&& exit_laws::closed_under_links(after, doomed)
        }),
{
    lemma_exited_apart(m, seq![to], reason, doomed, q);
    lemma_exited_apart(m, seq![to], ExitReason::Killed, doomed, q);
}

/// A signal that a particle sends leaves bystanders alone.
pub proof fn law_a_signal_leaves_bystanders_alone(
    m: RegistryView,
    me: Option<NodeId>,
    from: Pid,
    dest: DestinationView,
    t: LocalTargetView,
    p: Pid,
    reason: ExitReason,
    doomed: Set<Pid>,
    q: Pid,
)
    requires
        m.sound(),
        host::points_to(me, dest, t),
        host_laws::is_here(m, me, dest, p),
        doomed.contains(p),
        exit_laws::closed_under_links(m, doomed),
        apart(m, doomed, q),
        m.states.contains_key(q),
    ensures
        untouched(host::signalled_here(m, from, t, reason), m, q),
{
    lemma_inherited_apart(m, p, from, reason, doomed, q);
}

/// A signal or an exit that comes from another node leaves bystanders alone.
pub proof fn law_a_remote_signal_leaves_bystanders_alone(
    m: RegistryView,
    from: Pid,
    to: Addressee,
    p: Pid,
    reason: ExitReason,
    doomed: Set<Pid>,
    q: Pid,
)
    requires
        m.sound(),
        peer_laws::addresses(m, to@, p),
        doomed.contains(p),
        exit_laws::closed_under_links(m, doomed),
        apart(m, doomed, q),
        m.states.contains_key(q),
    ensures
        untouched(
            protocol::registry_after(m, PeerMessage::ExitSignal { from, to, reason }),
            m,
            q,
        ),
        untouched(
            protocol::registry_after(m, PeerMessage::Exit { from, to: p, reason }),
            m,
            q,
        ),
{
    lemma_inherited_apart(m, p, from, reason, doomed, q);
}

proof fn lemma_killed_apart(
    m: RegistryView,
    losers: Seq<(Seq<char>, Pid, Pid)>,
    doomed: Set<Pid>,
    q: Pid,
)
    requires
        m.sound(),
        forall|i: int| 0 <= i < losers.len() ==> doomed.contains((#[trigger] losers[i]).1),
        exit_laws::closed_under_links(m, doomed),
        apart(m, doomed, q),
        m.states.contains_key(q),
    ensures
        ({
            let after = global::losers_killed(m, losers);
            &&& after.sound()
            &&& untouched(after, m, q)
            &&& apart(after, doomed, q)
            &&& exit_laws::closed_under_links(after, doomed)
        }),
    decreases losers.len(),
{
    if losers.len() > 0 {
        let init = losers.drop_last();
        assert forall|i: int| 0 <= i < init.len() implies doomed.contains(
            (#[trigger] init[i]).1,
        ) by {
            assert(init[i] == losers[i]);
        }
        lemma_killed_apart(m, init, doomed, q);
        let (_, loser, winner) = losers[losers.len() - 1];
        lemma_inherited_apart(
            global::losers_killed(m, init),
            loser,
            winner,
            ExitReason::Kill,
            doomed,
            q,
        );
    }
}

/// When names are put together and the losers are killed, nobody else is: a winner too is left
/// alone, unless a loser's death drags it along.
pub proof fn law_only_losers_are_killed(
    m: RegistryView,
    losers: Seq<(Seq<char>, Pid, Pid)>,
    doomed: Set<Pid>,
    q: Pid,
)
    requires
        m.sound(),
        forall|i: int| 0 <= i < losers.len() ==> doomed.contains((#[trigger] losers[i]).1),
        exit_laws::closed_under_links(m, doomed),
        apart(m, doomed, q),
        m.states.contains_key(q),
    ensures
        untouched(global::losers_killed(m, losers), m, q),
{
    lemma_killed_apart(m, losers, doomed, q);
}

proof fn lemma_fired_apart(m: RegistryView, links: Seq<(Pid, Pid)>, doomed: Set<Pid>, q: Pid)
    requires
        m.sound(),
        forall|i: int| 0 <= i < links.len() ==> doomed.contains((#[trigger] links[i]).0),
        exit_laws::closed_under_links(m, doomed),
        apart(m, doomed, q),
        m.states.contains_key(q),
    ensures
        ({
            let after = signals::links_fired(m, links);
            &&& after.sound()
            &&& untouched(after, m, q)
            &&& apart(after, doomed, q)
            &&& exit_laws::closed_under_links(after, doomed)
        }),
    decreases links.len(),
{
    if links.len() > 0 {
        let init = links.drop_last();
        assert forall|i: int| 0 <= i < init.len() implies doomed.contains(
            (#[trigger] init[i]).0,
        ) by {
            assert(init[i] == links[i]);
        }
        lemma_fired_apart(m, init, doomed, q);
        let (local, remote) = links[links.len() - 1];
        lemma_inherited_apart(
            signals::links_fired(m, init),
            local,
            remote,
            ExitReason::NoConnection,
            doomed,
            q,
        );
    }
}

proof fn lemma_monitors_apart(m: RegistryView, monitors: Seq<(Pid, Pid, u64)>, q: Pid)
    requires
        forall|i: int| 0 <= i < monitors.len() ==> (#[trigger] monitors[i]).0 != q,
    ensures
        signals::monitors_fired(m, monitors).states == m.states,
        signals::monitors_fired(m, monitors).mailboxes[q] == m.mailboxes[q],
    decreases monitors.len(),
{
    if monitors.len() > 0 {
        let init = monitors.drop_last();
        assert forall|i: int| 0 <= i < init.len() implies (#[trigger] init[i]).0 != q by {
            assert(init[i] == monitors[i]);
        }
        lemma_monitors_apart(m, init, q);
        assert(monitors[monitors.len() - 1].0 != q);
    }
}

/// The loss of a node leaves everybody alone who has no tie to it and to whom no death that it
/// brings has a way: it runs on, hears nothing and keeps its links.
pub proof fn law_a_lost_node_leaves_bystanders_alone(
    m: RegistryView,
    node: NodeId,
    links: Seq<(Pid, Pid)>,
    monitors: Seq<(Pid, Pid, u64)>,
    doomed: Set<Pid>,
    q: Pid,
    l: Pid,
)
    requires
        m.sound(),
        signals::ties_with(m, node, links, monitors),
        forall|x: Pid, y: Pid|
            m.states.contains_key(x) && #[trigger] m.states[x].links.contains(y) && y.node == node
                ==> doomed.contains(x),
        forall|r: u64| #[trigger]
            m.states[q].monitors.contains_key(r) ==> m.states[q].monitors[r].node != node,
        exit_laws::closed_under_links(m, doomed),
        apart(m, doomed, q),
        m.states.contains_key(q),
    ensures
        ({
            let after = signals::node_lost(m, node, links, monitors);
            &&& after.states.contains_key(q)
            &&& after.mailboxes[q] == m.mailboxes[q]
            &&& after.states[q].links.contains(l) <==> m.states[q].links.contains(l)
            &&& after.states[q].trap_exit == m.states[q].trap_exit
        }),
{
    assert forall|i: int| 0 <= i < links.len() implies doomed.contains((#[trigger] links[i]).0) by {
        assert(links.contains(links[i]));
        assert(m.states[links[i].0].links.contains(links[i].1));
    }
    assert forall|i: int| 0 <= i < monitors.len() implies (#[trigger] monitors[i]).0 != q by {
        assert(monitors.contains(monitors[i]));
        if monitors[i].0 == q {
            assert(m.states[q].monitors.contains_key(monitors[i].2));
        }
    }
    lemma_fired_apart(m, links, doomed, q);
    lemma_monitors_apart(signals::links_fired(m, links), monitors, q);
    registry::lemma_filter_contains(m.states[q].links, |x: Pid| x.node != node);
    if m.states[q].links.contains(l) && l.node == node {
        assert(doomed.contains(q));
    }
}

} // verus!
