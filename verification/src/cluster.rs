//! Who is in the cluster: the nodes this node is connected to.

use crate::assoc::{AssocMap, Key};
use crate::pid::NodeId;
use crate::registry;
use vstd::prelude::*;

verus! {

/// How long a node that was removed on purpose stays unlearnable, in milliseconds.
pub const QUARANTINE: u64 = 60_000;

/// What a cluster holds.
#[verifier::ext_equal]
pub struct ClusterView {
    pub me: NodeId,
    /// The members, in the order in which they were learned, each once.
    pub members: Seq<NodeId>,
    /// Nodes that were removed on purpose, and when they may be learned again.
    pub quarantined: Map<NodeId, u64>,
}

/// Being another node than a given one.
pub open spec fn node_other_than(n: NodeId) -> spec_fn(NodeId) -> bool {
    |m: NodeId| m != n
}

impl ClusterView {
    pub open spec fn fresh(me: NodeId) -> ClusterView {
        ClusterView { me, members: Seq::empty(), quarantined: Map::empty() }
    }

    /// Every member is there once, and a node is not its own peer.
    pub open spec fn sound(self) -> bool {
        self.members.no_duplicates() && !self.members.contains(self.me)
    }

    /// Whether a node must not be learned now.
    pub open spec fn barred(self, node: NodeId, now_ms: u64) -> bool {
        self.quarantined.contains_key(node) && self.quarantined[node] > now_ms
    }

    /// Without a bar that is over.
    pub open spec fn lifted(self, node: NodeId, now_ms: u64) -> ClusterView {
        if self.quarantined.contains_key(node) && self.quarantined[node] <= now_ms {
            ClusterView { quarantined: self.quarantined.remove(node), ..self }
        } else {
            self
        }
    }

    /// Whether learning of a node makes it a member.
    pub open spec fn takes_in(self, node: NodeId, now_ms: u64) -> bool {
        node != self.me && !self.barred(node, now_ms) && !self.members.contains(node)
    }

    /// After a node was heard of.
    pub open spec fn heard(self, node: NodeId, now_ms: u64) -> ClusterView {
        if node == self.me {
            self
        } else if self.takes_in(node, now_ms) {
            ClusterView { members: self.members.push(node), ..self.lifted(node, now_ms) }
        } else {
            self.lifted(node, now_ms)
        }
    }

    /// After several nodes were heard of, one after the other.
    pub open spec fn learned(self, nodes: Seq<NodeId>, now_ms: u64) -> ClusterView
        decreases nodes.len(),
    {
        if nodes.len() == 0 {
            self
        } else {
            self.learned(nodes.drop_last(), now_ms).heard(nodes.last(), now_ms)
        }
    }

    /// Those of several nodes that were not known before.
    pub open spec fn news(self, nodes: Seq<NodeId>, now_ms: u64) -> Seq<NodeId>
        decreases nodes.len(),
    {
        if nodes.len() == 0 {
            Seq::empty()
        } else if self.learned(nodes.drop_last(), now_ms).takes_in(nodes.last(), now_ms) {
            self.news(nodes.drop_last(), now_ms).push(nodes.last())
        } else {
            self.news(nodes.drop_last(), now_ms)
        }
    }

    /// Without a member.
    pub open spec fn without(self, node: NodeId) -> ClusterView {
        ClusterView { members: self.members.filter(node_other_than(node)), ..self }
    }

    /// After a node was removed on purpose.
    pub open spec fn barring(self, node: NodeId, now_ms: u64) -> ClusterView {
        ClusterView {
            quarantined: self.quarantined.insert(node, (now_ms + QUARANTINE) as u64),
            ..self.without(node)
        }
    }
}

/// Whether a node is in a list.
pub fn has_node(nodes: &Vec<NodeId>, node: &NodeId) -> (r: bool)
    ensures
        r == nodes@.contains(*node),
{
    let mut i: usize = 0;
    while i < nodes.len()
        invariant
            i <= nodes@.len(),
            forall|j: int| 0 <= j < i ==> nodes@[j] != *node,
        decreases nodes@.len() - i,
    {
        if nodes[i].same(node) {
            return true;
        }
        i += 1;
    }
    false
}

/// The nodes of a list other than one.
pub fn other_nodes(nodes: &Vec<NodeId>, node: &NodeId) -> (r: Vec<NodeId>)
    ensures
        r@ == nodes@.filter(node_other_than(*node)),
{
    let mut r: Vec<NodeId> = Vec::new();
    let mut i: usize = 0;
    let ghost keep = node_other_than(*node);
    assert(nodes@.take(0).filter(keep) =~= Seq::<NodeId>::empty());
    while i < nodes.len()
        invariant
            i <= nodes@.len(),
            keep == node_other_than(*node),
            r@ == nodes@.take(i as int).filter(keep),
        decreases nodes@.len() - i,
    {
        proof {
            assert(nodes@.take(i + 1).drop_last() =~= nodes@.take(i as int));
            reveal(Seq::filter);
        }
        if !nodes[i].same(node) {
            r.push(nodes[i]);
        }
        i += 1;
    }
    assert(nodes@.take(nodes@.len() as int) =~= nodes@);
    r
}

/// A list of nodes with the same nodes.
pub fn copy_nodes(nodes: &Vec<NodeId>) -> (r: Vec<NodeId>)
    ensures
        r@ == nodes@,
{
    let mut r: Vec<NodeId> = Vec::new();
    let mut i: usize = 0;
    while i < nodes.len()
        invariant
            i <= nodes@.len(),
            r@ == nodes@.take(i as int),
        decreases nodes@.len() - i,
    {
        r.push(nodes[i]);
        i += 1;
    }
    r
}

/// The set of nodes this node is clustered with.
pub struct Cluster {
    me: NodeId,
    members: Vec<NodeId>,
    quarantined: AssocMap<NodeId, u64>,
}

impl View for Cluster {
    type V = ClusterView;

    closed spec fn view(&self) -> ClusterView {
        ClusterView { me: self.me, members: self.members@, quarantined: self.quarantined@ }
    }
}

impl Cluster {
    pub closed spec fn wf(&self) -> bool {
        self.quarantined.wf() && self@.sound()
    }

    /// What `wf` says of the contents.
    pub proof fn lemma_wf(&self)
        requires
            self.wf(),
        ensures
            self@.sound(),
    {
    }

    pub fn new(me: NodeId) -> (r: Self)
        ensures
            r.wf(),
            r@ == ClusterView::fresh(me),
    {
        Cluster { me, members: Vec::new(), quarantined: AssocMap::new() }
    }

    /// Removes a node, and refuses to learn it again for [`QUARANTINE`]. Tells whether it had
    /// been a member.
    pub fn quarantine(&mut self, node: &NodeId, now_ms: u64) -> (r: bool)
        requires
            old(self).wf(),
            now_ms + QUARANTINE <= u64::MAX,
        ensures
            final(self).wf(),
            final(self)@ == old(self)@.barring(*node, now_ms),
            r == old(self)@.members.contains(*node),
    {
        self.quarantined.insert(*node, now_ms + QUARANTINE);
        self.forget(node)
    }

    /// Whether a node is barred now. A bar that is over is dropped.
    pub fn is_quarantined(&mut self, node: &NodeId, now_ms: u64) -> (r: bool)
        requires
            old(self).wf(),
        ensures
            final(self).wf(),
            final(self)@ == old(self)@.lifted(*node, now_ms),
            r == old(self)@.barred(*node, now_ms),
    {
        let until: u64 = match self.quarantined.get(node) {
            Some(until) => *until,
            None => return false,
        };
        if until > now_ms {
            true
        } else {
            self.quarantined.remove(node);
            false
        }
    }

    /// This node.
    pub fn me(&self) -> (r: NodeId)
        ensures
            r == self@.me,
    {
        self.me
    }

    /// All members.
    pub fn nodes(&self) -> (r: Vec<NodeId>)
        ensures
            r@ == self@.members,
    {
        copy_nodes(&self.members)
    }

    pub fn contains(&self, node: &NodeId) -> (r: bool)
        ensures
            r == self@.members.contains(*node),
    {
        has_node(&self.members, node)
    }

    /// Learns of nodes; hands back those that were not known. Nodes that are barred are refused.
    pub fn learn(&mut self, nodes: &Vec<NodeId>, now_ms: u64) -> (r: Vec<NodeId>)
        requires
            old(self).wf(),
        ensures
            final(self).wf(),
            final(self)@ == old(self)@.learned(nodes@, now_ms),
            r@ == old(self)@.news(nodes@, now_ms),
    {
        let mut news: Vec<NodeId> = Vec::new();
        let mut i: usize = 0;
        while i < nodes.len()
            invariant
                i <= nodes@.len(),
                self.wf(),
                self@ == old(self)@.learned(nodes@.take(i as int), now_ms),
                news@ == old(self)@.news(nodes@.take(i as int), now_ms),
            decreases nodes@.len() - i,
        {
            let node = nodes[i];
            proof {
                assert(nodes@.take(i + 1).drop_last() =~= nodes@.take(i as int));
            }
            if !node.same(&self.me) {
                if !self.is_quarantined(&node, now_ms) && !has_node(&self.members, &node) {
                    let ghost members = self.members@;
                    self.members.push(node);
                    news.push(node);
                    proof {
                        registry::lemma_push_contains(members, node);
                    }
                }
            }
            i += 1;
        }
        assert(nodes@.take(nodes@.len() as int) =~= nodes@);
        news
    }

    /// Drops a node. Tells whether it had been a member.
    pub fn forget(&mut self, node: &NodeId) -> (r: bool)
        requires
            old(self).wf(),
        ensures
            final(self).wf(),
            final(self)@ == old(self)@.without(*node),
            r == old(self)@.members.contains(*node),
    {
        let was = has_node(&self.members, node);
        self.members = other_nodes(&self.members, node);
        proof {
            let keep = node_other_than(*node);
            crate::particle::lemma_filter_distinct(old(self)@.members, keep);
            if self.members@.contains(self.me) {
                old(self)@.members.lemma_filter_contains_rev(keep, self.me);
            }
        }
        was
    }
}

/// What learning does to a cluster.
pub proof fn lemma_learned(c: ClusterView, nodes: Seq<NodeId>, now_ms: u64)
    requires
        c.sound(),
    ensures
        c.learned(nodes, now_ms).sound(),
        c.learned(nodes, now_ms).me == c.me,
        forall|n: NodeId| #[trigger]
            c.learned(nodes, now_ms).members.contains(n) <==> c.members.contains(n) || c.news(
                nodes,
                now_ms,
            ).contains(n),
        forall|n: NodeId| #[trigger]
            c.news(nodes, now_ms).contains(n) ==> !c.members.contains(n) && nodes.contains(n) && n
                != c.me && !c.barred(n, now_ms),
        c.news(nodes, now_ms).no_duplicates(),
        forall|n: NodeId| #[trigger]
            nodes.contains(n) && n != c.me && !c.barred(n, now_ms) ==> c.learned(
                nodes,
                now_ms,
            ).members.contains(n),
        forall|n: NodeId| #[trigger] c.learned(nodes, now_ms).barred(n, now_ms) == c.barred(n, now_ms),
    decreases nodes.len(),
{
    if nodes.len() > 0 {
        let front = nodes.drop_last();
        let node = nodes.last();
        lemma_learned(c, front, now_ms);
        let mid = c.learned(front, now_ms);
        registry::lemma_push_contains(mid.members, node);
        registry::lemma_push_contains(c.news(front, now_ms), node);
        assert(front.push(node) =~= nodes);
        registry::lemma_push_contains(front, node);
        assert forall|n: NodeId| #[trigger] c.learned(nodes, now_ms).barred(n, now_ms) == c.barred(
            n,
            now_ms,
        ) by {
            assert(mid.barred(n, now_ms) == c.barred(n, now_ms));
        }
    }
}

/// A node learns of a peer once: hearing the same news again teaches nothing, so that
/// announcements between nodes that agree come to an end.
pub proof fn law_known_nodes_are_no_news(c: ClusterView, nodes: Seq<NodeId>, now_ms: u64)
    requires
        c.sound(),
    ensures
        c.learned(nodes, now_ms).news(nodes, now_ms) == Seq::<NodeId>::empty(),
{
    lemma_learned(c, nodes, now_ms);
    let d = c.learned(nodes, now_ms);
    lemma_learned(d, nodes, now_ms);
    let again = d.news(nodes, now_ms);
    if again.len() > 0 {
        assert(again.contains(again[0]));
    }
}

/// What is learned is what is new: every node that is reported was no member, is one now, and is
/// reported once.
pub proof fn law_news_is_new(c: ClusterView, nodes: Seq<NodeId>, now_ms: u64, n: NodeId)
    requires
        c.sound(),
        c.news(nodes, now_ms).contains(n),
    ensures
        !c.members.contains(n),
        c.learned(nodes, now_ms).members.contains(n),
        c.news(nodes, now_ms).no_duplicates(),
        n != c.me,
{
    lemma_learned(c, nodes, now_ms);
}

/// A node is never its own peer, whatever it is told.
pub proof fn law_never_its_own_peer(c: ClusterView, nodes: Seq<NodeId>, now_ms: u64)
    requires
        c.sound(),
    ensures
        c.learned(nodes, now_ms).sound(),
        !c.learned(nodes, now_ms).members.contains(c.me),
        !c.news(nodes, now_ms).contains(c.me),
{
    lemma_learned(c, nodes, now_ms);
}

/// A node that was removed on purpose is not learned again until its time is over, whatever is
/// announced.
pub proof fn law_quarantine_holds(
    c: ClusterView,
    node: NodeId,
    now_ms: u64,
    nodes: Seq<NodeId>,
    later_ms: u64,
)
    requires
        c.sound(),
        now_ms + QUARANTINE <= u64::MAX,
        later_ms < now_ms + QUARANTINE,
    ensures
        !c.barring(node, now_ms).learned(nodes, later_ms).members.contains(node),
        !c.barring(node, now_ms).news(nodes, later_ms).contains(node),
{
    let d = c.barring(node, now_ms);
    lemma_without(c, node);
    lemma_learned(d, nodes, later_ms);
}

/// Once its time is over, a node that was removed on purpose can be learned again.
pub proof fn law_quarantine_ends(c: ClusterView, node: NodeId, now_ms: u64, later_ms: u64)
    requires
        c.sound(),
        node != c.me,
        now_ms + QUARANTINE <= later_ms,
    ensures
        c.barring(node, now_ms).news(seq![node], later_ms) == seq![node],
{
    let d = c.barring(node, now_ms);
    lemma_without(c, node);
    assert(seq![node].drop_last() =~= Seq::<NodeId>::empty());
    assert(d.news(Seq::empty(), later_ms) == Seq::<NodeId>::empty());
}

/// A node that was merely lost is new again when it comes back: nothing remembers that it left.
pub proof fn law_forgotten_nodes_can_rejoin(c: ClusterView, node: NodeId, now_ms: u64)
    requires
        c.sound(),
        node != c.me,
        !c.barred(node, now_ms),
    ensures
        !c.without(node).members.contains(node),
        c.without(node).news(seq![node], now_ms) == seq![node],
{
    let d = c.without(node);
    lemma_without(c, node);
    assert(seq![node].drop_last() =~= Seq::<NodeId>::empty());
    assert(d.news(Seq::empty(), now_ms) == Seq::<NodeId>::empty());
}

/// Dropping a node leaves the others.
pub proof fn lemma_without(c: ClusterView, node: NodeId)
    requires
        c.sound(),
    ensures
        c.without(node).sound(),
        !c.without(node).members.contains(node),
        forall|n: NodeId| #[trigger]
            c.without(node).members.contains(n) <==> c.members.contains(n) && n != node,
{
    broadcast use vstd::seq_lib::group_filter_ensures;

    let keep = node_other_than(node);
    crate::particle::lemma_filter_distinct(c.members, keep);
    assert forall|n: NodeId| #[trigger] c.without(node).members.contains(n) <==> c.members.contains(
        n,
    ) && n != node by {
        if c.members.contains(n) && n != node {
            let i = choose|i: int| 0 <= i < c.members.len() && c.members[i] == n;
        }
        if c.without(node).members.contains(n) {
            c.members.lemma_filter_contains_rev(keep, n);
            let f = c.members.filter(keep);
            let i = choose|i: int| 0 <= i < f.len() && f[i] == n;
        }
    }
}

} // verus!
