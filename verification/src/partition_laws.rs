//! Who is told of a lost connection, and who is dropped for it.

use crate::cluster;
use crate::cluster::ClusterView;
use crate::partitions;
use crate::partitions::PartitionsView;
use crate::pid;
use crate::pid::NodeId;
use crate::protocol;
use crate::registry;
use crate::registry::RegistryView;
use crate::transport::{EffectView, PeerMessage, PeerMessageView};
use vstd::prelude::*;

verus! {

/// An effect stands in a sequence exactly once.
pub open spec fn once(effects: Seq<EffectView>, e: EffectView) -> bool {
    exists|i: int| #[trigger] only_at(effects, e, i)
}

/// An effect stands at one place and at no other.
pub open spec fn only_at(effects: Seq<EffectView>, e: EffectView, i: int) -> bool {
    &&& 0 <= i < effects.len()
    &&& effects[i] == e
    &&& forall|j: int| 0 <= j < effects.len() && j != i ==> #[trigger] effects[j] != e
}

/// A node is kept out for the time being.
pub open spec fn shut_out(c: ClusterView, node: NodeId, now_ms: u64) -> bool {
    c.quarantined.contains_key(node) && c.quarantined[node] > now_ms
}

proof fn lemma_told(nodes: Seq<NodeId>, skip: Set<NodeId>, msg: PeerMessageView)
    requires
        nodes.no_duplicates(),
    ensures
        ({
            let told = partitions::told_to(nodes, skip, msg);
            &&& forall|n: NodeId|
                nodes.contains(n) && !skip.contains(n) ==> #[trigger] once(
                    told,
                    EffectView::Send(n, msg),
                )
            &&& forall|i: int|
                0 <= i < told.len() ==> (#[trigger] told[i] matches EffectView::Send(n, x) && x
                    == msg && nodes.contains(n) && !skip.contains(n))
        }),
    decreases nodes.len(),
{
    if nodes.len() > 0 {
        let init = nodes.drop_last();
        let last = nodes.last();
        let told = partitions::told_to(nodes, skip, msg);
        let before = partitions::told_to(init, skip, msg);
        lemma_told(init, skip, msg);
        assert(nodes =~= init.push(last));
        registry::lemma_push_contains(init, last);
        assert(!init.contains(last)) by {
            if init.contains(last) {
                let i = choose|i: int| 0 <= i < init.len() && init[i] == last;
                assert(nodes[i] == nodes[nodes.len() - 1]);
            }
        }
        assert forall|n: NodeId| nodes.contains(n) && !skip.contains(n) implies #[trigger] once(
            told,
            EffectView::Send(n, msg),
        ) by {
            let e = EffectView::Send(n, msg);
            if n == last {
                assert(only_at(told, e, before.len() as int));
            } else {
                assert(once(before, e));
                let i = choose|i: int| only_at(before, e, i);
                assert(only_at(told, e, i));
            }
        }
    }
}

/// When a node is lost that is not kept out, every other member is told so exactly once, by the
/// node itself and under the number of this loss, and nothing else is sent. When one is lost that
/// is kept out, nobody is told.
pub proof fn law_a_loss_is_told_to_everybody_else(
    c: ClusterView,
    p: PartitionsView,
    lost: NodeId,
    now_ms: u64,
    n: NodeId,
)
    requires
        c.sound(),
    ensures
        ({
            let sent = partitions::loss_report(c, p, lost, now_ms);
            let word = PeerMessageView::LostConnection { reporter: p.me, lost, op_id: p.next_op };
            &&& !shut_out(c, lost, now_ms) && c.members.contains(n) && n != lost ==> once(
                sent,
                EffectView::Send(n, word),
            )
            &&& forall|i: int|
                0 <= i < sent.len() ==> !shut_out(c, lost, now_ms) && (
                #[trigger] sent[i] matches EffectView::Send(k, x) && x == word
                    && c.members.contains(k) && k != lost)
        }),
{
    if !c.barred(lost, now_ms) {
        lemma_told(
            c.members,
            set![lost],
            PeerMessageView::LostConnection { reporter: p.me, lost, op_id: p.next_op },
        );
    }
}

/// Each loss that a node reports has a number of its own, higher than the last: whoever took in
/// one report takes in the next one too.
pub proof fn law_each_loss_is_news(
    p: PartitionsView,
    lost: NodeId,
    q: PartitionsView,
    now_ms: u64,
    later_ms: u64,
)
    requires
        p.next_op < u64::MAX,
        q.is_news(p.me, lost, p.next_op, now_ms),
        later_ms < now_ms + partitions::SEEN_RETENTION,
    ensures
        pid::next_counter(p.next_op) > p.next_op,
        q.accepted(p.me, lost, p.next_op, now_ms).is_news(
            p.me,
            lost,
            pid::next_counter(p.next_op),
            later_ms,
        ),
{
    partitions::law_later_losses_count(
        q,
        p.me,
        lost,
        p.next_op,
        pid::next_counter(p.next_op),
        now_ms,
        later_ms,
    );
}

/// A report is news exactly when none with its number or a higher one was taken in of the same
/// pair within the time that reports are remembered.
pub proof fn law_what_is_news(
    p: PartitionsView,
    reporter: NodeId,
    lost: NodeId,
    op_id: u64,
    now_ms: u64,
)
    ensures
        p.is_news(reporter, lost, op_id, now_ms) <==> !(p.seen.contains_key((reporter, lost))
            && now_ms < p.seen[(reporter, lost)].1 + 3_600_000 && op_id <= p.seen[(
            reporter,
            lost,
        )].0),
{
}

/// A report that is news is passed on, as it is and once, to every member but the reporter and the
/// lost node. Then the lost node (the reporter, where it is this node that was lost) is told that
/// it is removed, and disconnected. Nothing else is sent.
pub proof fn law_reports_are_passed_on(
    m: RegistryView,
    c: ClusterView,
    p: PartitionsView,
    reporter: NodeId,
    lost: NodeId,
    op_id: u64,
    now_ms: u64,
    n: NodeId,
)
    requires
        c.sound(),
        p.me == c.me,
        p.is_news(reporter, lost, op_id, now_ms),
        reporter != lost,
    ensures
        ({
            let msg = PeerMessage::LostConnection { reporter, lost, op_id };
            let sent = protocol::answer_to(m, c, p, msg, now_ms);
            let word = PeerMessageView::LostConnection { reporter, lost, op_id };
            let target = if lost == c.me {
                reporter
            } else {
                lost
            };
            &&& c.members.contains(n) && n != reporter && n != lost ==> once(
                sent,
                EffectView::Send(n, word),
            )
            &&& sent.len() >= 2
            &&& sent[sent.len() - 2] == EffectView::Send(
                target,
                PeerMessageView::RemoveConnection { from: c.me },
            )
            &&& sent[sent.len() - 1] == EffectView::Disconnect(target)
            &&& forall|i: int|
                0 <= i < sent.len() - 2 ==> (#[trigger] sent[i] matches EffectView::Send(k, x) && x
                    == word && c.members.contains(k) && k != reporter && k != lost)
        }),
{
    let msg = PeerMessage::LostConnection { reporter, lost, op_id };
    let sent = protocol::answer_to(m, c, p, msg, now_ms);
    let word = PeerMessageView::LostConnection { reporter, lost, op_id };
    let passed = partitions::told_to(c.members, set![reporter, lost], word);
    lemma_told(c.members, set![reporter, lost], word);
    if c.members.contains(n) && n != reporter && n != lost {
        let e = EffectView::Send(n, word);
        assert(once(passed, e));
        let i = choose|i: int| only_at(passed, e, i);
        assert(only_at(sent, e, i));
    }
}

/// A report that is no news does nothing at all.
pub proof fn law_old_reports_do_nothing(
    m: RegistryView,
    c: ClusterView,
    p: PartitionsView,
    reporter: NodeId,
    lost: NodeId,
    op_id: u64,
    now_ms: u64,
)
    requires
        !p.is_news(reporter, lost, op_id, now_ms),
    ensures
        ({
            let msg = PeerMessage::LostConnection { reporter, lost, op_id };
            &&& protocol::answer_to(m, c, p, msg, now_ms).len() == 0
            &&& protocol::cluster_after(c, p, msg, now_ms) == c
        }),
{
}

/// Whoever is dropped for a report leaves the members and is kept out for the quarantine; every
/// other node stays what it was.
pub proof fn law_the_dropped_are_kept_out(
    c: ClusterView,
    p: PartitionsView,
    reporter: NodeId,
    lost: NodeId,
    op_id: u64,
    now_ms: u64,
    n: NodeId,
    then_ms: u64,
)
    requires
        c.sound(),
        p.me == c.me,
        p.is_news(reporter, lost, op_id, now_ms),
        reporter != lost,
        now_ms + cluster::QUARANTINE <= u64::MAX,
    ensures
        ({
            let msg = PeerMessage::LostConnection { reporter, lost, op_id };
            let after = protocol::cluster_after(c, p, msg, now_ms);
            let target = if lost == c.me {
                reporter
            } else {
                lost
            };
            &&& after.me == c.me
            &&& !after.members.contains(target)
            &&& shut_out(after, target, then_ms) <==> then_ms < now_ms + 60_000
            &&& n != target ==> (after.members.contains(n) <==> c.members.contains(n))
            &&& n != target ==> (shut_out(after, n, then_ms) <==> shut_out(c, n, then_ms))
        }),
{
    let target = if lost == c.me {
        reporter
    } else {
        lost
    };
    registry::lemma_filter_contains(c.members, cluster::node_other_than(target));
}

/// Whoever asks to be removed leaves the members, is kept out for the quarantine and is
/// disconnected. It is asked to do the same, once: not where it was kept out already.
pub proof fn law_removals_are_mutual(
    m: RegistryView,
    c: ClusterView,
    p: PartitionsView,
    from: NodeId,
    now_ms: u64,
    n: NodeId,
    then_ms: u64,
)
    requires
        c.sound(),
        now_ms + cluster::QUARANTINE <= u64::MAX,
    ensures
        ({
            let msg = PeerMessage::RemoveConnection { from };
            let after = protocol::cluster_after(c, p, msg, now_ms);
            let sent = protocol::answer_to(m, c, p, msg, now_ms);
            &&& !after.members.contains(from)
            &&& shut_out(after, from, then_ms) <==> then_ms < now_ms + 60_000
            &&& n != from ==> (after.members.contains(n) <==> c.members.contains(n))
            &&& n != from ==> (shut_out(after, n, then_ms) <==> shut_out(c, n, then_ms))
            &&& sent.len() > 0 && sent.last() == EffectView::Disconnect(from)
            &&& shut_out(c, from, now_ms) ==> sent.len() == 1
            &&& !shut_out(c, from, now_ms) ==> sent.len() == 2 && sent[0] == EffectView::Send(
                from,
                PeerMessageView::RemoveConnection { from: c.me },
            )
        }),
{
    registry::lemma_filter_contains(c.members, cluster::node_other_than(from));
}

/// A lost node is dropped by everybody: what a node reports of a loss makes whoever takes it in
/// drop the same node.
pub proof fn law_everybody_drops_the_lost(
    c: ClusterView,
    p: PartitionsView,
    lost: NodeId,
    now_ms: u64,
    other: ClusterView,
    seen: PartitionsView,
    then_ms: u64,
)
    requires
        c.sound(),
        other.sound(),
        c.me == p.me,
        other.me == seen.me,
        !shut_out(c, lost, now_ms),
        c.members.contains(other.me),
        lost != other.me,
        lost != p.me,
        seen.is_news(p.me, lost, p.next_op, then_ms),
        then_ms + cluster::QUARANTINE <= u64::MAX,
    ensures
        ({
            let word = PeerMessageView::LostConnection { reporter: p.me, lost, op_id: p.next_op };
            let msg = PeerMessage::LostConnection { reporter: p.me, lost, op_id: p.next_op };
            let after = protocol::cluster_after(other, seen, msg, then_ms);
            &&& msg@ == word
            &&& partitions::loss_report(c, p, lost, now_ms).contains(
                EffectView::Send(other.me, word),
            )
            &&& !after.members.contains(lost)
            &&& other.members.contains(p.me) ==> after.members.contains(p.me)
        }),
{
    let word = PeerMessageView::LostConnection { reporter: p.me, lost, op_id: p.next_op };
    let sent = partitions::loss_report(c, p, lost, now_ms);
    law_a_loss_is_told_to_everybody_else(c, p, lost, now_ms, other.me);
    let i = choose|i: int| only_at(sent, EffectView::Send(other.me, word), i);
    assert(sent[i] == EffectView::Send(other.me, word));
    law_the_dropped_are_kept_out(other, seen, p.me, lost, p.next_op, then_ms, p.me, then_ms);
}

} // verus!
