//! Exit and down signals that cross node boundaries.
//!
//! A particle that dies with ties to other nodes must tell them; a lost node must fire every tie
//! to it. Both end as ordinary signals in a mailbox.

use crate::exit_laws;
use crate::mailbox::MailboxMessage;
use crate::message::{ExitReason, SystemMessage};
use crate::pid::{NodeId, Pid};
use crate::registry;
use crate::registry::{DeathView, ParticleDeath, ParticleRegistry, RegistryView};
use crate::transport;
use crate::transport::{Effect, EffectView, PeerMessage, PeerMessageView};
use vstd::prelude::*;

verus! {

/// The signals to the linked particles of other nodes.
pub open spec fn link_signals(d: DeathView, links: Seq<Pid>) -> Seq<EffectView> {
    links.map_values(
        |p: Pid|
            EffectView::Send(
                p.node,
                PeerMessageView::Exit { from: d.pid, to: p, reason: d.reason },
            ),
    )
}

/// The signals to the watchers on other nodes.
pub open spec fn watch_signals(d: DeathView, watch: Seq<(Pid, u64)>) -> Seq<EffectView> {
    watch.map_values(
        |x: (Pid, u64)|
            EffectView::Send(
                x.0.node,
                PeerMessageView::Down { from: d.pid, to: x.0, ref_id: x.1, reason: d.reason },
            ),
    )
}

/// What other nodes are told of a death: the linked particles first, then the watchers.
pub open spec fn death_signals(d: DeathView) -> Seq<EffectView> {
    link_signals(d, d.remote_links) + watch_signals(d, d.remote_monitors)
}

/// The messages that a death makes for other nodes.
pub fn forward_death(death: &ParticleDeath) -> (r: Vec<Effect>)
    ensures
        transport::effects_view(r@) == death_signals(death@),
{
    broadcast use {transport::lemma_effects_push, transport::lemma_effects_empty};

    let ghost d = death@;
    let mut r: Vec<Effect> = Vec::new();
    let mut i: usize = 0;
    while i < death.remote_links.len()
        invariant
            i <= death.remote_links@.len(),
            d == death@,
            transport::effects_view(r@) == link_signals(d, d.remote_links.take(i as int)),
        decreases death.remote_links@.len() - i,
    {
        let linked = death.remote_links[i];
        let ghost before = transport::effects_view(r@);
        r.push(
            Effect::Send(
                linked.node,
                PeerMessage::Exit { from: death.pid, to: linked, reason: death.reason.clone() },
            ),
        );
        proof {
            let signal = EffectView::Send(
                linked.node,
                PeerMessageView::Exit { from: d.pid, to: linked, reason: d.reason },
            );
            assert(before.push(signal) =~= link_signals(d, d.remote_links.take(i + 1)));
        }
        i += 1;
    }
    let ghost links = link_signals(d, d.remote_links);
    let mut j: usize = 0;
    while j < death.remote_monitors.len()
        invariant
            j <= death.remote_monitors@.len(),
            d == death@,
            transport::effects_view(r@) == links + watch_signals(
                d,
                d.remote_monitors.take(j as int),
            ),
        decreases death.remote_monitors@.len() - j,
    {
        let (watcher, ref_id) = death.remote_monitors[j];
        let ghost before = transport::effects_view(r@);
        r.push(
            Effect::Send(
                watcher.node,
                PeerMessage::Down {
                    from: death.pid,
                    to: watcher,
                    ref_id,
                    reason: death.reason.clone(),
                },
            ),
        );
        proof {
            let signal = EffectView::Send(
                watcher.node,
                PeerMessageView::Down { from: d.pid, to: watcher, ref_id, reason: d.reason },
            );
            assert(before.push(signal) =~= links + watch_signals(
                d,
                d.remote_monitors.take(j + 1),
            ));
        }
        j += 1;
    }
    r
}

/// After links to lost particles have fired, one after the other, each as a separate death.
pub open spec fn links_fired(m: RegistryView, links: Seq<(Pid, Pid)>) -> RegistryView
    decreases links.len(),
{
    if links.len() == 0 {
        m
    } else {
        let (local, remote) = links.last();
        registry::inherited(
            links_fired(m, links.drop_last()),
            local,
            remote,
            ExitReason::NoConnection,
        )
    }
}

/// After monitors of lost particles have fired, one after the other.
pub open spec fn monitors_fired(m: RegistryView, monitors: Seq<(Pid, Pid, u64)>) -> RegistryView
    decreases monitors.len(),
{
    if monitors.len() == 0 {
        m
    } else {
        let (watcher, target, ref_id) = monitors.last();
        monitors_fired(m, monitors.drop_last()).told(
            watcher,
            SystemMessage::Down {
                from: target,
                monitor_ref: ref_id,
                reason: ExitReason::NoConnection,
            },
        )
    }
}

/// After the loss of a node with which particles had these links and monitors.
pub open spec fn node_lost(
    m: RegistryView,
    node: NodeId,
    links: Seq<(Pid, Pid)>,
    monitors: Seq<(Pid, Pid, u64)>,
) -> RegistryView {
    if links.len() == 0 && monitors.len() == 0 {
        m
    } else {
        registry::node_forgotten(monitors_fired(links_fired(m, links), monitors), node)
    }
}

/// Fires links and monitors of a lost node, and drops every tie to it.
pub fn fire_relationships(
    registry: &mut ParticleRegistry,
    node: &NodeId,
    links: &Vec<(Pid, Pid)>,
    monitors: &Vec<(Pid, Pid, u64)>,
)
    requires
        old(registry).wf(),
    ensures
        final(registry).wf(),
        final(registry)@ == node_lost(old(registry)@, *node, links@, monitors@),
{
    if links.len() == 0 && monitors.len() == 0 {
        return;
    }
    let mut i: usize = 0;
    while i < links.len()
        invariant
            i <= links@.len(),
            registry.wf(),
            registry@ == links_fired(old(registry)@, links@.take(i as int)),
        decreases links@.len() - i,
    {
        assert(links@.take(i + 1).drop_last() =~= links@.take(i as int));
        let (local, remote) = links[i];
        registry.apply_inherited_exit(&local, &remote, ExitReason::NoConnection);
        i += 1;
    }
    assert(links@.take(links@.len() as int) =~= links@);
    let ghost fired = registry@;
    let mut j: usize = 0;
    while j < monitors.len()
        invariant
            j <= monitors@.len(),
            registry.wf(),
            registry@ == monitors_fired(fired, monitors@.take(j as int)),
        decreases monitors@.len() - j,
    {
        assert(monitors@.take(j + 1).drop_last() =~= monitors@.take(j as int));
        let (watcher, target, ref_id) = monitors[j];
        registry.deliver_down(&watcher, &target, ref_id, ExitReason::NoConnection);
        j += 1;
    }
    assert(monitors@.take(monitors@.len() as int) =~= monitors@);
    registry.forget_node(node);
}

/// Lists that hold each link and each monitor with a node once.
pub open spec fn ties_with(
    m: RegistryView,
    node: NodeId,
    links: Seq<(Pid, Pid)>,
    monitors: Seq<(Pid, Pid, u64)>,
) -> bool {
    &&& links.no_duplicates()
    &&& monitors.no_duplicates()
    &&& forall|x: (Pid, Pid)| #[trigger] links.contains(x) <==> registry::is_link_to(m, node, x)
    &&& forall|x: (Pid, Pid, u64)| #[trigger]
        monitors.contains(x) <==> registry::is_monitor_of(m, node, x)
}

/// A node was lost: every link and every monitor with it fires, once each, in some order, with
/// `noconnection`; then the node is forgotten.
pub fn on_node_lost(registry: &mut ParticleRegistry, node: &NodeId)
    requires
        old(registry).wf(),
    ensures
        final(registry).wf(),
        exists|links: Seq<(Pid, Pid)>, monitors: Seq<(Pid, Pid, u64)>|
            #![trigger ties_with(old(registry)@, *node, links, monitors)]
            ties_with(old(registry)@, *node, links, monitors) && final(registry)@ == node_lost(
                old(registry)@,
                *node,
                links,
                monitors,
            ),
{
    let (links, monitors) = registry.relationships_with_node(node);
    assert(ties_with(registry@, *node, links@, monitors@));
    fire_relationships(registry, node, &links, &monitors);
}

proof fn lemma_links_fired_sound(m: RegistryView, links: Seq<(Pid, Pid)>)
    requires
        m.sound(),
    ensures
        links_fired(m, links).sound(),
    decreases links.len(),
{
    if links.len() > 0 {
        lemma_links_fired_sound(m, links.drop_last());
        let before = links_fired(m, links.drop_last());
        let (local, remote) = links.last();
        exit_laws::lemma_inherited_sound(before, local, remote, ExitReason::NoConnection);
    }
}

/// A particle that does not trap exits does not survive the loss of a node it has a link to.
pub proof fn law_lost_links_kill(
    m: RegistryView,
    node: NodeId,
    links: Seq<(Pid, Pid)>,
    monitors: Seq<(Pid, Pid, u64)>,
    p: Pid,
    q: Pid,
)
    requires
        m.sound(),
        ties_with(m, node, links, monitors),
        registry::is_link_to(m, node, (p, q)),
        !m.states[p].trap_exit,
    ensures
        !node_lost(m, node, links, monitors).states.contains_key(p),
{
    assert(links.contains((p, q)));
    let i = choose|i: int| 0 <= i < links.len() && links[i] == (p, q);
    lemma_link_kills(m, links, i);
    lemma_monitors_keep_states(links_fired(m, links), monitors);
}

proof fn lemma_monitors_keep_states(m: RegistryView, monitors: Seq<(Pid, Pid, u64)>)
    ensures
        monitors_fired(m, monitors).states == m.states,
    decreases monitors.len(),
{
    if monitors.len() > 0 {
        lemma_monitors_keep_states(m, monitors.drop_last());
    }
}

proof fn lemma_fired_keeps(m: RegistryView, links: Seq<(Pid, Pid)>, p: Pid)
    requires
        m.sound(),
    ensures
        links_fired(m, links).states.contains_key(p) ==> m.states.contains_key(p) && links_fired(
            m,
            links,
        ).states[p].trap_exit == m.states[p].trap_exit,
    decreases links.len(),
{
    if links.len() > 0 {
        lemma_fired_keeps(m, links.drop_last(), p);
        lemma_links_fired_sound(m, links.drop_last());
        let before = links_fired(m, links.drop_last());
        let (local, remote) = links.last();
        if links_fired(m, links).states.contains_key(p) {
            exit_laws::lemma_inherited_keeps(
                before,
                local,
                remote,
                ExitReason::NoConnection,
                p,
            );
        }
    }
}

proof fn lemma_link_kills(m: RegistryView, links: Seq<(Pid, Pid)>, i: int)
    requires
        m.sound(),
        0 <= i < links.len(),
        m.states.contains_key(links[i].0),
        !m.states[links[i].0].trap_exit,
    ensures
        !links_fired(m, links).states.contains_key(links[i].0),
    decreases links.len(),
{
    let p = links[i].0;
    let before = links_fired(m, links.drop_last());
    lemma_links_fired_sound(m, links.drop_last());
    lemma_fired_keeps(m, links.drop_last(), p);
    let (local, remote) = links.last();
    if links_fired(m, links).states.contains_key(p) {
        exit_laws::lemma_inherited_keeps(before, local, remote, ExitReason::NoConnection, p);
    }
    if i < links.len() - 1 {
        lemma_link_kills(m, links.drop_last(), i);
    } else if before.states.contains_key(p) {
        exit_laws::law_remote_death_is_like_a_local_one(
            before,
            p,
            remote,
            ExitReason::NoConnection,
        );
    }
}

/// A particle that traps exits outlives the loss of a node, and hears of every particle of the
/// node that it was linked to, as if each had died separately.
pub proof fn law_lost_links_are_heard(
    m: RegistryView,
    node: NodeId,
    links: Seq<(Pid, Pid)>,
    monitors: Seq<(Pid, Pid, u64)>,
    p: Pid,
    q: Pid,
)
    requires
        m.sound(),
        ties_with(m, node, links, monitors),
        registry::is_link_to(m, node, (p, q)),
        m.states[p].trap_exit,
    ensures
        ({
            let after = node_lost(m, node, links, monitors);
            &&& after.states.contains_key(p)
            &&& after.mailboxes[p].queue.contains(
                MailboxMessage::Exit { from: q, reason: ExitReason::NoConnection },
            )
        }),
{
    assert(links.contains((p, q)));
    let i = choose|i: int| 0 <= i < links.len() && links[i] == (p, q);
    lemma_link_heard(m, links, i);
    let fired = links_fired(m, links);
    lemma_monitors_keep_states(fired, monitors);
    lemma_monitors_keep_mail(fired, monitors, p);
    exit_laws::lemma_extends_contains(
        monitors_fired(fired, monitors).mailboxes[p],
        fired.mailboxes[p],
        MailboxMessage::Exit { from: q, reason: ExitReason::NoConnection },
    );
}

/// Whoever monitors a particle of a node and outlives the loss of the node hears of each such
/// monitor.
pub proof fn law_lost_monitors_are_heard(
    m: RegistryView,
    node: NodeId,
    links: Seq<(Pid, Pid)>,
    monitors: Seq<(Pid, Pid, u64)>,
    w: Pid,
    t: Pid,
    r: u64,
)
    requires
        m.sound(),
        ties_with(m, node, links, monitors),
        registry::is_monitor_of(m, node, (w, t, r)),
        node_lost(m, node, links, monitors).states.contains_key(w),
    ensures
        node_lost(m, node, links, monitors).mailboxes[w].queue.contains(
            MailboxMessage::Down { from: t, ref_id: r, reason: ExitReason::NoConnection },
        ),
{
    assert(monitors.contains((w, t, r)));
    let i = choose|i: int| 0 <= i < monitors.len() && monitors[i] == (w, t, r);
    let fired = links_fired(m, links);
    lemma_monitors_keep_states(fired, monitors);
    lemma_monitor_heard(fired, monitors, i);
}

proof fn lemma_link_heard(m: RegistryView, links: Seq<(Pid, Pid)>, i: int)
    requires
        m.sound(),
        0 <= i < links.len(),
        m.states.contains_key(links[i].0),
        m.states[links[i].0].trap_exit,
    ensures
        ({
            let after = links_fired(m, links);
            &&& after.states.contains_key(links[i].0)
            &&& after.mailboxes[links[i].0].queue.contains(
                MailboxMessage::Exit { from: links[i].1, reason: ExitReason::NoConnection },
            )
        }),
    decreases links.len(),
{
    let p = links[i].0;
    let signal = MailboxMessage::Exit { from: links[i].1, reason: ExitReason::NoConnection };
    let before = links_fired(m, links.drop_last());
    let (local, remote) = links.last();
    lemma_trapping_outlives(m, links.drop_last(), p);
    lemma_trapping_outlives(m, links, p);
    lemma_links_fired_sound(m, links.drop_last());
    exit_laws::lemma_inherited_keeps(before, local, remote, ExitReason::NoConnection, p);
    if i < links.len() - 1 {
        lemma_link_heard(m, links.drop_last(), i);
        exit_laws::lemma_extends_contains(
            links_fired(m, links).mailboxes[p],
            before.mailboxes[p],
            signal,
        );
    } else {
        exit_laws::lemma_told_extends(
            before,
            p,
            SystemMessage::Exit { from: remote, reason: ExitReason::NoConnection },
            p,
        );
    }
}

proof fn lemma_trapping_outlives(m: RegistryView, links: Seq<(Pid, Pid)>, p: Pid)
    requires
        m.sound(),
        m.states.contains_key(p),
        m.states[p].trap_exit,
    ensures
        links_fired(m, links).states.contains_key(p),
        links_fired(m, links).states[p].trap_exit,
    decreases links.len(),
{
    if links.len() > 0 {
        let before = links_fired(m, links.drop_last());
        let (local, remote) = links.last();
        lemma_trapping_outlives(m, links.drop_last(), p);
        lemma_links_fired_sound(m, links.drop_last());
        if local != p {
            exit_laws::law_trapping_survives(before, local, p, ExitReason::NoConnection);
        }
        exit_laws::lemma_inherited_keeps(before, local, remote, ExitReason::NoConnection, p);
    }
}

proof fn lemma_monitors_keep_mail(m: RegistryView, monitors: Seq<(Pid, Pid, u64)>, p: Pid)
    ensures
        exit_laws::extends(monitors_fired(m, monitors).mailboxes[p], m.mailboxes[p]),
    decreases monitors.len(),
{
    if monitors.len() > 0 {
        let before = monitors_fired(m, monitors.drop_last());
        let (watcher, target, ref_id) = monitors.last();
        lemma_monitors_keep_mail(m, monitors.drop_last(), p);
        exit_laws::lemma_told_extends(
            before,
            watcher,
            SystemMessage::Down {
                from: target,
                monitor_ref: ref_id,
                reason: ExitReason::NoConnection,
            },
            p,
        );
        exit_laws::lemma_extends_trans(
            monitors_fired(m, monitors).mailboxes[p],
            before.mailboxes[p],
            m.mailboxes[p],
        );
    } else {
        assert(m.mailboxes[p].queue.skip(0) =~= m.mailboxes[p].queue);
    }
}

proof fn lemma_monitor_heard(m: RegistryView, monitors: Seq<(Pid, Pid, u64)>, i: int)
    requires
        0 <= i < monitors.len(),
        m.states.contains_key(monitors[i].0),
    ensures
        monitors_fired(m, monitors).mailboxes[monitors[i].0].queue.contains(
            MailboxMessage::Down {
                from: monitors[i].1,
                ref_id: monitors[i].2,
                reason: ExitReason::NoConnection,
            },
        ),
    decreases monitors.len(),
{
    let w = monitors[i].0;
    let before = monitors_fired(m, monitors.drop_last());
    let (watcher, target, ref_id) = monitors.last();
    let word = SystemMessage::Down {
        from: target,
        monitor_ref: ref_id,
        reason: ExitReason::NoConnection,
    };
    lemma_monitors_keep_states(m, monitors.drop_last());
    exit_laws::lemma_told_extends(before, watcher, word, w);
    if i < monitors.len() - 1 {
        lemma_monitor_heard(m, monitors.drop_last(), i);
        exit_laws::lemma_extends_contains(
            monitors_fired(m, monitors).mailboxes[w],
            before.mailboxes[w],
            MailboxMessage::Down {
                from: monitors[i].1,
                ref_id: monitors[i].2,
                reason: ExitReason::NoConnection,
            },
        );
    }
}

} // verus!
