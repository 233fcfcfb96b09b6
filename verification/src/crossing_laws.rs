//! What two nodes do together: what is done on one arrives on the other.

use crate::death_laws;
use crate::exit_laws;
use crate::host;
use crate::host::{DestinationView, LocalTargetView};
use crate::host_laws;
use crate::mailbox::MailboxMessage;
use crate::message::ExitReason;
use crate::pid::{NodeId, Pid};
use crate::protocol;
use crate::registry;
use crate::registry::RegistryView;
use crate::signals;
use crate::transport::{AddresseeView, EffectView, PeerMessage, PeerMessageView};
use vstd::prelude::*;

verus! {

/// A message for a particle of another node stands last in that particle's mailbox once it has
/// crossed, with its reference and its payload.
pub proof fn law_messages_cross(
    here: RegistryView,
    there: RegistryView,
    me: NodeId,
    dest: DestinationView,
    t: LocalTargetView,
    p: Pid,
    ref_id: Option<u64>,
    payload: Vec<u8>,
    msg: PeerMessage,
)
    requires
        host::points_to(Some(me), dest, t),
        host_laws::is_pid_away(Some(me), dest, p),
        there.states.contains_key(p),
        host::sent_for(
            true,
            t,
            |a: AddresseeView| PeerMessageView::Deliver { target: a, ref_id, payload: payload@ },
        ).contains(EffectView::Send(p.node, msg@)),
    ensures
        ({
            let after = protocol::registry_after(there, msg);
            let queue = after.mailboxes[p].queue;
            &&& host::delivered_here(here, t, ref_id, payload) == here
            &&& queue.len() == there.mailboxes[p].queue.len() + 1
            &&& queue.drop_last() == there.mailboxes[p].queue
            &&& match ref_id {
                Some(r) => queue.last() matches MailboxMessage::Tagged { ref_id: k, payload: v } && k
                    == r && v@ == payload@,
                None => queue.last() matches MailboxMessage::Data(v) && v@ == payload@,
            }
        }),
{
    host_laws::law_messages_travel(
        here,
        Some(me),
        true,
        dest,
        t,
        p,
        p.node,
        Seq::empty(),
        ref_id,
        payload,
    );
    let after = protocol::registry_after(there, msg);
    assert(after.mailboxes[p].queue.drop_last() =~= there.mailboxes[p].queue);
}

/// A link between particles of two nodes is recorded on both once it has crossed.
pub proof fn law_links_cross(
    here: RegistryView,
    there: RegistryView,
    me: NodeId,
    from: Pid,
    dest: DestinationView,
    t: LocalTargetView,
    p: Pid,
    msg: PeerMessage,
)
    requires
        host::points_to(Some(me), dest, t),
        host_laws::is_pid_away(Some(me), dest, p),
        here.states.contains_key(from),
        there.states.contains_key(p),
        host::sent_for(
            true,
            t,
            |a: AddresseeView| PeerMessageView::Link { from, to: a },
        ).contains(EffectView::Send(p.node, msg@)),
    ensures
        host::linked_here(here, from, t).states[from].links.contains(p),
        protocol::registry_after(there, msg).states[p].links.contains(from),
{
    host_laws::law_links_travel(here, Some(me), true, from, dest, t, p, p.node, Seq::empty());
    registry::lemma_push_contains(there.states[p].links, from);
}

/// A particle that exits takes along those who are linked to it on other nodes, as it does those
/// on its own: once its death has crossed, each of them that traps exits has it in its mailbox,
/// and any other has died of it unless it was a normal exit.
pub proof fn law_deaths_cross(
    there: RegistryView,
    here: RegistryView,
    p: Pid,
    from: Pid,
    reason: ExitReason,
)
    requires
        there.sound(),
        here.sound(),
        there.states.contains_key(p),
        there.states[p].links.contains(from),
        from.node != there.node,
        !there.states.contains_key(from),
        here.states.contains_key(from),
    ensures
        ({
            let d = registry::exited(there, seq![p], reason).deaths[there.deaths.len() as int];
            let msg = PeerMessage::Exit { from: p, to: from, reason };
            let after = protocol::registry_after(here, msg);
            &&& signals::death_signals(d).contains(EffectView::Send(from.node, msg@))
            &&& here.states[from].trap_exit ==> after.states.contains_key(from)
                && after.mailboxes[from].queue[0] == MailboxMessage::Exit { from: p, reason }
            &&& !here.states[from].trap_exit && reason !is Normal ==> !after.states.contains_key(
                from,
            )
            &&& !here.states[from].trap_exit && reason is Normal ==> after == here
        }),
{
    let d = registry::exited(there, seq![p], reason).deaths[there.deaths.len() as int];
    let msg = PeerMessage::Exit { from: p, to: from, reason };
    death_laws::law_the_first_death_is_its_own(there, p, reason);
    assert(d.remote_links.contains(from));
    death_laws::law_deaths_are_signalled(d, EffectView::Send(from.node, msg@));
    if !here.states[from].trap_exit {
        exit_laws::law_exit_is_final(here, from, reason, reason);
    }
}

/// A monitor of a particle on another node ends for the watcher once the particle's death has
/// crossed: its end is at the front of the watcher's mailbox, under its reference and with the
/// reason.
pub proof fn law_monitors_cross(
    there: RegistryView,
    here: RegistryView,
    p: Pid,
    watcher: Pid,
    r: u64,
    reason: ExitReason,
)
    requires
        there.sound(),
        there.states.contains_key(p),
        there.states[p].monitored_by.contains((watcher, r)),
        watcher.node != there.node,
        here.states.contains_key(watcher),
    ensures
        ({
            let d = registry::exited(there, seq![p], reason).deaths[there.deaths.len() as int];
            let msg = PeerMessage::Down { from: p, to: watcher, ref_id: r, reason };
            let after = protocol::registry_after(here, msg);
            &&& signals::death_signals(d).contains(EffectView::Send(watcher.node, msg@))
            &&& after.states.contains_key(watcher)
            &&& after.mailboxes[watcher].queue[0] == MailboxMessage::Down {
                from: p,
                ref_id: r,
                reason,
            }
        }),
{
    let d = registry::exited(there, seq![p], reason).deaths[there.deaths.len() as int];
    let msg = PeerMessage::Down { from: p, to: watcher, ref_id: r, reason };
    death_laws::law_the_first_death_is_its_own(there, p, reason);
    assert(d.remote_monitors.contains((watcher, r)));
    death_laws::law_deaths_are_signalled(d, EffectView::Send(watcher.node, msg@));
}

/// A kill that is sent to a particle of another node ends it there once it has crossed.
pub proof fn law_kills_cross(
    here: RegistryView,
    there: RegistryView,
    me: NodeId,
    from: Pid,
    dest: DestinationView,
    t: LocalTargetView,
    p: Pid,
    msg: PeerMessage,
)
    requires
        here.sound(),
        there.sound(),
        host::points_to(Some(me), dest, t),
        host_laws::is_pid_away(Some(me), dest, p),
        there.states.contains_key(p),
        host::sent_for(
            true,
            t,
            |a: AddresseeView|
                PeerMessageView::ExitSignal { from, to: a, reason: ExitReason::Kill },
        ).contains(EffectView::Send(p.node, msg@)),
    ensures
        host::signalled_here(here, from, t, ExitReason::Kill) == here,
        !protocol::registry_after(there, msg).states.contains_key(p),
{
    host_laws::law_signals_travel(
        here,
        Some(me),
        true,
        from,
        dest,
        t,
        p,
        p.node,
        Seq::empty(),
        ExitReason::Kill,
    );
    exit_laws::law_directed_kill_is_untrappable(there, p, from);
}

} // verus!
