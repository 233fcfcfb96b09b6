//! Keeping partitions fully connected, by disconnecting on purpose.
//!
//! A node that loses a link tells every member. A receiver passes the news on, drops the node
//! that was reported lost and asks it to drop back. The far side does so without reporting, which
//! is what makes the cascade end.

use crate::assoc;
use crate::assoc::{AssocMap, Held, Key};
use crate::cluster;
use crate::cluster::{Cluster, ClusterView};
use crate::pid;
use crate::pid::NodeId;
use crate::transport;
use crate::transport::{Effect, EffectView, PeerMessage, PeerMessageView};
use vstd::prelude::*;

verus! {

/// How long a handled report is remembered, in milliseconds.
pub const SEEN_RETENTION: u64 = 3_600_000;

impl Key for (NodeId, NodeId) {
    fn same(&self, other: &Self) -> (r: bool) {
        self.0.same(&other.0) && self.1.same(&other.1)
    }
}

impl Held for (u64, u64) {
    open spec fn valid(&self) -> bool {
        true
    }
}

/// What is known of reported losses.
#[verifier::ext_equal]
pub struct PartitionsView {
    pub me: NodeId,
    /// The number of the next loss to report.
    pub next_op: u64,
    /// By reporter and lost node: the highest number handled, and when.
    pub seen: Map<(NodeId, NodeId), (u64, u64)>,
}

/// A report was handled so recently that it is remembered.
pub open spec fn is_recent(at_ms: u64, now_ms: u64) -> bool {
    now_ms < at_ms + SEEN_RETENTION
}

impl PartitionsView {
    /// The reports that are still remembered.
    pub open spec fn remembered(self, now_ms: u64) -> Map<(NodeId, NodeId), (u64, u64)> {
        self.seen.restrict(
            Set::new(
                |k: (NodeId, NodeId)| self.seen.contains_key(k) && is_recent(self.seen[k].1, now_ms),
            ),
        )
    }

    /// Whether a report is new: none as late about the same pair is remembered.
    pub open spec fn is_news(self, reporter: NodeId, lost: NodeId, op_id: u64, now_ms: u64) -> bool {
        let seen = self.remembered(now_ms);
        seen.contains_key((reporter, lost)) ==> op_id > seen[(reporter, lost)].0
    }

    /// After a report has come in.
    pub open spec fn accepted(
        self,
        reporter: NodeId,
        lost: NodeId,
        op_id: u64,
        now_ms: u64,
    ) -> PartitionsView {
        let seen = self.remembered(now_ms);
        PartitionsView {
            seen: if self.is_news(reporter, lost, op_id, now_ms) {
                seen.insert((reporter, lost), (op_id, now_ms))
            } else {
                seen
            },
            ..self
        }
    }
}

/// Which connection losses this node has already acted on.
pub struct Partitions {
    me: NodeId,
    next_op: u64,
    seen: AssocMap<(NodeId, NodeId), (u64, u64)>,
}

impl View for Partitions {
    type V = PartitionsView;

    closed spec fn view(&self) -> PartitionsView {
        PartitionsView { me: self.me, next_op: self.next_op, seen: self.seen@ }
    }
}

impl Partitions {
    pub closed spec fn wf(&self) -> bool {
        self.seen.wf()
    }

    pub fn new(me: NodeId) -> (r: Self)
        ensures
            r.wf(),
            r@ == (PartitionsView { me, next_op: 1, seen: Map::empty() }),
    {
        Partitions { me, next_op: 1, seen: AssocMap::new() }
    }

    /// This node.
    pub fn me(&self) -> (r: NodeId)
        ensures
            r == self@.me,
    {
        self.me
    }

    /// The number of the next loss that this node reports.
    pub fn next_op_id(&mut self) -> (r: u64)
        requires
            old(self).wf(),
        ensures
            final(self).wf(),
            r == old(self)@.next_op,
            final(self)@ == (PartitionsView { next_op: pid::next_counter(r), ..old(self)@ }),
    {
        let r: u64 = self.next_op;
        self.next_op = r.wrapping_add(1);
        r
    }

    /// Records a report; tells whether it is new and should be acted on.
    pub fn accept(&mut self, reporter: NodeId, lost: NodeId, op_id: u64, now_ms: u64) -> (r: bool)
        requires
            old(self).wf(),
        ensures
            final(self).wf(),
            r == old(self)@.is_news(reporter, lost, op_id, now_ms),
            final(self)@ == old(self)@.accepted(reporter, lost, op_id, now_ms),
    {
        self.drop_stale(now_ms);
        let stale = match self.seen.get(&(reporter, lost)) {
            Some(entry) => op_id <= entry.0,
            None => false,
        };
        if stale {
            false
        } else {
            self.seen.insert((reporter, lost), (op_id, now_ms));
            true
        }
    }

    fn drop_stale(&mut self, now_ms: u64)
        requires
            old(self).wf(),
        ensures
            final(self).wf(),
            final(self)@ == (PartitionsView {
                seen: old(self)@.remembered(now_ms),
                ..old(self)@
            }),
    {
        let mut kept: AssocMap<(NodeId, NodeId), (u64, u64)> = AssocMap::new();
        let ghost items = self.seen.items();
        let mut i: usize = 0;
        while i < self.seen.len()
            invariant
                i <= items.len(),
                items == self.seen.items(),
                *self == *old(self),
                self.seen.wf(),
                kept.wf(),
                forall|k: (NodeId, NodeId)| #[trigger]
                    kept@.contains_key(k) <==> exists|n: int|
                        0 <= n < i && (#[trigger] items[n]).0 == k && is_recent(
                            items[n].1.1,
                            now_ms,
                        ),
                forall|k: (NodeId, NodeId)| #[trigger]
                    kept@.contains_key(k) ==> self.seen@.contains_key(k) && kept@[k]
                        == self.seen@[k],
            decreases items.len() - i,
        {
            let key = *self.seen.key_at(i);
            let value = *self.seen.value_at(i);
            proof {
                assoc::lemma_entry(items, i as int);
            }
            if now_ms < value.1 || now_ms - value.1 < SEEN_RETENTION {
                kept.insert(key, value);
            }
            i += 1;
        }
        self.seen = kept;
    }
}

/// The same message to every node of a list, but for those that are left out.
pub open spec fn told_to(
    nodes: Seq<NodeId>,
    skip: Set<NodeId>,
    msg: PeerMessageView,
) -> Seq<EffectView>
    decreases nodes.len(),
{
    if nodes.len() == 0 {
        Seq::empty()
    } else if skip.contains(nodes.last()) {
        told_to(nodes.drop_last(), skip, msg)
    } else {
        told_to(nodes.drop_last(), skip, msg).push(EffectView::Send(nodes.last(), msg))
    }
}

fn flood(
    nodes: &Vec<NodeId>,
    skip_a: &NodeId,
    skip_b: &NodeId,
    reporter: NodeId,
    lost: NodeId,
    op_id: u64,
) -> (r: Vec<Effect>)
    ensures
        transport::effects_view(r@) == told_to(
            nodes@,
            set![*skip_a, *skip_b],
            PeerMessageView::LostConnection { reporter, lost, op_id },
        ),
{
    broadcast use {transport::lemma_effects_push, transport::lemma_effects_empty};

    let ghost skip = set![*skip_a, *skip_b];
    let ghost msg = PeerMessageView::LostConnection { reporter, lost, op_id };
    let mut r: Vec<Effect> = Vec::new();
    let mut i: usize = 0;
    while i < nodes.len()
        invariant
            i <= nodes@.len(),
            skip == set![*skip_a, *skip_b],
            msg == (PeerMessageView::LostConnection { reporter, lost, op_id }),
            transport::effects_view(r@) == told_to(nodes@.take(i as int), skip, msg),
        decreases nodes@.len() - i,
    {
        assert(nodes@.take(i + 1).drop_last() =~= nodes@.take(i as int));
        let node = nodes[i];
        if !node.same(skip_a) && !node.same(skip_b) {
            r.push(Effect::Send(node, PeerMessage::LostConnection { reporter, lost, op_id }));
        }
        i += 1;
    }
    assert(nodes@.take(nodes@.len() as int) =~= nodes@);
    r
}

/// What is sent when a link was lost: nothing if the node was removed on purpose, else a numbered
/// report to every other member.
pub open spec fn loss_report(
    c: ClusterView,
    p: PartitionsView,
    lost: NodeId,
    now_ms: u64,
) -> Seq<EffectView> {
    if c.barred(lost, now_ms) {
        Seq::empty()
    } else {
        told_to(
            c.members,
            set![lost],
            PeerMessageView::LostConnection { reporter: p.me, lost, op_id: p.next_op },
        )
    }
}

/// A link was lost: what the other members are told.
pub fn report_loss(
    lost: NodeId,
    cluster: &mut Cluster,
    partitions: &mut Partitions,
    now_ms: u64,
) -> (r: Vec<Effect>)
    requires
        old(cluster).wf(),
        old(partitions).wf(),
    ensures
        final(cluster).wf(),
        final(partitions).wf(),
        final(cluster)@ == old(cluster)@.lifted(lost, now_ms),
        final(partitions)@ == (if old(cluster)@.barred(lost, now_ms) {
            old(partitions)@
        } else {
            PartitionsView {
                next_op: pid::next_counter(old(partitions)@.next_op),
                ..old(partitions)@
            }
        }),
        transport::effects_view(r@) == loss_report(
            old(cluster)@,
            old(partitions)@,
            lost,
            now_ms,
        ),
{
    broadcast use transport::lemma_effects_empty;

    if cluster.is_quarantined(&lost, now_ms) {
        return Vec::new();
    }
    let op_id: u64 = partitions.next_op_id();
    let nodes = cluster.nodes();
    assert(set![lost, lost] =~= set![lost]);
    flood(&nodes, &lost, &lost, partitions.me(), lost, op_id)
}

/// The node to drop on a report: the one reported lost, or the reporter if that is this node
/// itself; nobody if it is this node either way.
pub open spec fn to_drop(me: NodeId, reporter: NodeId, lost: NodeId) -> Option<NodeId> {
    let target = if lost == me {
        reporter
    } else {
        lost
    };
    if target == me {
        None
    } else {
        Some(target)
    }
}

/// What is done to drop a node on purpose, once it is barred: it is asked to drop back, then its
/// link is taken down.
pub open spec fn dropping(me: NodeId, target: NodeId) -> Seq<EffectView> {
    seq![
        EffectView::Send(target, PeerMessageView::RemoveConnection { from: me }),
        EffectView::Disconnect(target),
    ]
}

/// What is done when a peer asks to be dropped: it is asked to drop back, unless it is barred
/// already and so was asked before, and its link is taken down.
pub open spec fn removal_reaction(c: ClusterView, from: NodeId, now_ms: u64) -> Seq<EffectView> {
    if c.barred(from, now_ms) {
        seq![EffectView::Disconnect(from)]
    } else {
        dropping(c.me, from)
    }
}

/// What is done on a report: news is passed on to everyone else first, then the node is dropped.
pub open spec fn loss_reaction(
    c: ClusterView,
    p: PartitionsView,
    reporter: NodeId,
    lost: NodeId,
    op_id: u64,
    now_ms: u64,
) -> Seq<EffectView> {
    if !p.is_news(reporter, lost, op_id, now_ms) {
        Seq::empty()
    } else {
        let passed_on = told_to(
            c.members,
            set![reporter, lost],
            PeerMessageView::LostConnection { reporter, lost, op_id },
        );
        match to_drop(p.me, reporter, lost) {
            None => passed_on,
            Some(target) => passed_on + dropping(c.me, target),
        }
    }
}

/// The cluster after a report.
pub open spec fn cluster_after_report(
    c: ClusterView,
    p: PartitionsView,
    reporter: NodeId,
    lost: NodeId,
    op_id: u64,
    now_ms: u64,
) -> ClusterView {
    if !p.is_news(reporter, lost, op_id, now_ms) {
        c
    } else {
        match to_drop(p.me, reporter, lost) {
            None => c,
            Some(target) => c.barring(target, now_ms),
        }
    }
}

/// Someone lost a connection.
pub fn on_lost_connection(
    reporter: NodeId,
    lost: NodeId,
    op_id: u64,
    cluster: &mut Cluster,
    partitions: &mut Partitions,
    now_ms: u64,
) -> (r: Vec<Effect>)
    requires
        old(cluster).wf(),
        old(partitions).wf(),
        now_ms + cluster::QUARANTINE <= u64::MAX,
    ensures
        final(cluster).wf(),
        final(partitions).wf(),
        final(partitions)@ == old(partitions)@.accepted(reporter, lost, op_id, now_ms),
        final(cluster)@ == cluster_after_report(
            old(cluster)@,
            old(partitions)@,
            reporter,
            lost,
            op_id,
            now_ms,
        ),
        transport::effects_view(r@) == loss_reaction(
            old(cluster)@,
            old(partitions)@,
            reporter,
            lost,
            op_id,
            now_ms,
        ),
{
    broadcast use transport::lemma_effects_empty;

    if !partitions.accept(reporter, lost, op_id, now_ms) {
        return Vec::new();
    }
    let nodes = cluster.nodes();
    let mut r = flood(&nodes, &reporter, &lost, reporter, lost, op_id);
    let me = partitions.me();
    let target = if lost.same(&me) {
        reporter
    } else {
        lost
    };
    if target.same(&me) {
        return r;
    }
    disconnect_deliberately(target, cluster, now_ms, &mut r);
    r
}

/// A peer asks to be dropped. The loss is not reported.
pub fn on_remove_connection(from: NodeId, cluster: &mut Cluster, now_ms: u64) -> (r: Vec<Effect>)
    requires
        old(cluster).wf(),
        now_ms + cluster::QUARANTINE <= u64::MAX,
    ensures
        final(cluster).wf(),
        final(cluster)@ == old(cluster)@.barring(from, now_ms),
        transport::effects_view(r@) == removal_reaction(old(cluster)@, from, now_ms),
{
    broadcast use {transport::lemma_effects_empty, transport::lemma_effects_push};

    let mut r: Vec<Effect> = Vec::new();
    if cluster.is_quarantined(&from, now_ms) {
        cluster.quarantine(&from, now_ms);
        r.push(Effect::Disconnect(from));
    } else {
        disconnect_deliberately(from, cluster, now_ms, &mut r);
    }
    r
}

/// Bars a node first, so that taking its link down is not taken for a fresh loss.
fn disconnect_deliberately(
    target: NodeId,
    cluster: &mut Cluster,
    now_ms: u64,
    effects: &mut Vec<Effect>,
)
    requires
        old(cluster).wf(),
        now_ms + cluster::QUARANTINE <= u64::MAX,
    ensures
        final(cluster).wf(),
        final(cluster)@ == old(cluster)@.barring(target, now_ms),
        transport::effects_view(final(effects)@) == transport::effects_view(old(effects)@)
            + dropping(old(cluster)@.me, target),
{
    broadcast use transport::lemma_effects_push;

    cluster.quarantine(&target, now_ms);
    let me = cluster.me();
    effects.push(Effect::Send(target, PeerMessage::RemoveConnection { from: me }));
    effects.push(Effect::Disconnect(target));
}

/// A report is acted on once, however often it arrives: a copy that comes before it is forgotten
/// has no effect and is not passed on.
pub proof fn law_reports_are_handled_once(
    c: ClusterView,
    p: PartitionsView,
    reporter: NodeId,
    lost: NodeId,
    op_id: u64,
    now_ms: u64,
    c2: ClusterView,
    later_ms: u64,
)
    requires
        p.is_news(reporter, lost, op_id, now_ms),
        later_ms < now_ms + SEEN_RETENTION,
    ensures
        ({
            let q = p.accepted(reporter, lost, op_id, now_ms);
            &&& !q.is_news(reporter, lost, op_id, later_ms)
            &&& loss_reaction(c2, q, reporter, lost, op_id, later_ms) == Seq::<EffectView>::empty()
            &&& cluster_after_report(c2, q, reporter, lost, op_id, later_ms) == c2
        }),
{
}

/// A later loss between the same two nodes is acted on, and an earlier one that arrives late is
/// not.
pub proof fn law_later_losses_count(
    p: PartitionsView,
    reporter: NodeId,
    lost: NodeId,
    op_id: u64,
    other: u64,
    now_ms: u64,
    later_ms: u64,
)
    requires
        p.is_news(reporter, lost, op_id, now_ms),
        later_ms < now_ms + SEEN_RETENTION,
    ensures
        p.accepted(reporter, lost, op_id, now_ms).is_news(reporter, lost, other, later_ms) <==> other
            > op_id,
{
}

/// Reports about different pairs do not get in each other's way.
pub proof fn law_pairs_are_independent(
    p: PartitionsView,
    reporter: NodeId,
    lost: NodeId,
    op_id: u64,
    reporter2: NodeId,
    lost2: NodeId,
    op2: u64,
    now_ms: u64,
)
    requires
        (reporter, lost) != (reporter2, lost2),
    ensures
        p.accepted(reporter, lost, op_id, now_ms).is_news(reporter2, lost2, op2, now_ms)
            == p.is_news(reporter2, lost2, op2, now_ms),
{
}

/// A node that was dropped on a report is not reported lost by the one that dropped it: the
/// cascade ends.
pub proof fn law_deliberate_drops_are_not_reported(
    c: ClusterView,
    p: PartitionsView,
    reporter: NodeId,
    lost: NodeId,
    op_id: u64,
    now_ms: u64,
    later_ms: u64,
    target: NodeId,
)
    requires
        now_ms + cluster::QUARANTINE <= u64::MAX,
        p.is_news(reporter, lost, op_id, now_ms),
        to_drop(p.me, reporter, lost) == Some(target),
        later_ms < now_ms + cluster::QUARANTINE,
    ensures
        loss_report(
            cluster_after_report(c, p, reporter, lost, op_id, now_ms),
            p.accepted(reporter, lost, op_id, now_ms),
            target,
            later_ms,
        ) == Seq::<EffectView>::empty(),
{
}

/// Two nodes that drop each other come to rest: the one that dropped the other first answers the
/// other's request with none of its own.
pub proof fn law_mutual_removal_ends(
    first: ClusterView,
    second: ClusterView,
    now_ms: u64,
    later_ms: u64,
)
    requires
        now_ms + cluster::QUARANTINE <= u64::MAX,
        later_ms < now_ms + cluster::QUARANTINE,
        !second.barred(first.me, now_ms),
    ensures
        removal_reaction(second, first.me, now_ms) == dropping(second.me, first.me),
        removal_reaction(first.barring(second.me, now_ms), second.me, later_ms) == seq![
            EffectView::Disconnect(second.me),
        ],
{
}

/// On a report the node that was reported lost leaves the cluster, and the reporter stays in it,
/// if neither is this node and they differ.
pub proof fn law_the_lost_node_is_ejected(
    c: ClusterView,
    p: PartitionsView,
    reporter: NodeId,
    lost: NodeId,
    op_id: u64,
    now_ms: u64,
)
    requires
        c.sound(),
        p.is_news(reporter, lost, op_id, now_ms),
        lost != p.me,
        reporter != lost,
        c.members.contains(reporter),
    ensures
        !cluster_after_report(c, p, reporter, lost, op_id, now_ms).members.contains(lost),
        cluster_after_report(c, p, reporter, lost, op_id, now_ms).members.contains(reporter),
{
    cluster::lemma_without(c, lost);
}

/// A node that is told it was lost drops the reporter.
pub proof fn law_a_lost_node_drops_the_reporter(
    c: ClusterView,
    p: PartitionsView,
    reporter: NodeId,
    op_id: u64,
    now_ms: u64,
)
    requires
        c.sound(),
        p.is_news(reporter, p.me, op_id, now_ms),
        reporter != p.me,
    ensures
        !cluster_after_report(c, p, reporter, p.me, op_id, now_ms).members.contains(reporter),
{
    cluster::lemma_without(c, reporter);
}

} // verus!
