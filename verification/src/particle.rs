//! What a particle is tied to: its links, its monitors and its watchers.

use crate::assoc::{AssocMap, Held, Key};
use crate::pid::{NodeId, Pid};
use vstd::prelude::*;

verus! {

/// The relationships of a particle.
pub struct ParticleState {
    links: Vec<Pid>,
    monitors: AssocMap<u64, Pid>,
    monitored_by: Vec<(Pid, u64)>,
    trap_exit: bool,
}

/// What a particle is tied to.
#[verifier::ext_equal]
pub struct ParticleView {
    /// The particles it is linked to, each once.
    pub links: Seq<Pid>,
    /// The particles it monitors, by reference.
    pub monitors: Map<u64, Pid>,
    /// The particles that monitor it, each with its reference.
    pub monitored_by: Seq<(Pid, u64)>,
    /// Whether exit signals reach it as messages.
    pub trap_exit: bool,
}

impl View for ParticleState {
    type V = ParticleView;

    closed spec fn view(&self) -> ParticleView {
        ParticleView {
            links: self.links@,
            monitors: self.monitors@,
            monitored_by: self.monitored_by@,
            trap_exit: self.trap_exit,
        }
    }
}

impl Held for ParticleState {
    closed spec fn valid(&self) -> bool {
        self.monitors.wf() && self.links@.no_duplicates()
    }
}

/// A set of pids, in order of arrival, with one more.
pub open spec fn with_pid(pids: Seq<Pid>, p: Pid) -> Seq<Pid> {
    if pids.contains(p) {
        pids
    } else {
        pids.push(p)
    }
}

/// Being another pid than a given one.
pub open spec fn other_than(p: Pid) -> spec_fn(Pid) -> bool {
    |q: Pid| q != p
}

/// A set of pids without one of them.
pub open spec fn without_pid(pids: Seq<Pid>, p: Pid) -> Seq<Pid> {
    pids.filter(other_than(p))
}

/// A list of watchers without one of them.
pub open spec fn without_watch(watch: Seq<(Pid, u64)>, w: Pid, r: u64) -> Seq<(Pid, u64)> {
    watch.filter(|x: (Pid, u64)| x != (w, r))
}

impl ParticleView {
    /// A particle that is tied to nothing.
    pub open spec fn fresh() -> ParticleView {
        ParticleView {
            links: Seq::empty(),
            monitors: Map::empty(),
            monitored_by: Seq::empty(),
            trap_exit: false,
        }
    }

    pub open spec fn linked(self, p: Pid) -> ParticleView {
        ParticleView { links: with_pid(self.links, p), ..self }
    }

    pub open spec fn unlinked(self, p: Pid) -> ParticleView {
        ParticleView { links: without_pid(self.links, p), ..self }
    }

    pub open spec fn monitoring(self, r: u64, p: Pid) -> ParticleView {
        ParticleView { monitors: self.monitors.insert(r, p), ..self }
    }

    pub open spec fn not_monitoring(self, r: u64) -> ParticleView {
        ParticleView { monitors: self.monitors.remove(r), ..self }
    }

    pub open spec fn watched(self, w: Pid, r: u64) -> ParticleView {
        ParticleView { monitored_by: self.monitored_by.push((w, r)), ..self }
    }

    pub open spec fn not_watched(self, w: Pid, r: u64) -> ParticleView {
        ParticleView { monitored_by: without_watch(self.monitored_by, w, r), ..self }
    }

    /// Without any tie to a particle of a node.
    pub open spec fn without_node(self, node: NodeId) -> ParticleView {
        ParticleView {
            links: self.links.filter(|p: Pid| p.node != node),
            monitors: self.monitors.restrict(
                Set::new(
                    |r: u64| self.monitors.contains_key(r) && self.monitors[r].node != node,
                ),
            ),
            monitored_by: self.monitored_by.filter(|x: (Pid, u64)| x.0.node != node),
            ..self
        }
    }
}

/// Whether a pid is in a list.
fn has_pid(pids: &Vec<Pid>, p: &Pid) -> (r: bool)
    ensures
        r == pids@.contains(*p),
{
    let mut i: usize = 0;
    while i < pids.len()
        invariant
            i <= pids@.len(),
            forall|j: int| 0 <= j < i ==> pids@[j] != *p,
        decreases pids@.len() - i,
    {
        if pids[i].same(p) {
            return true;
        }
        i += 1;
    }
    false
}

/// The pids of a list other than one.
fn drop_pid(pids: &Vec<Pid>, p: &Pid) -> (r: Vec<Pid>)
    ensures
        r@ == without_pid(pids@, *p),
        pids@.no_duplicates() ==> r@.no_duplicates(),
{
    let mut r: Vec<Pid> = Vec::new();
    let mut i: usize = 0;
    let ghost keep = other_than(*p);
    assert(pids@.take(0).filter(keep) =~= Seq::<Pid>::empty());
    while i < pids.len()
        invariant
            i <= pids@.len(),
            keep == other_than(*p),
            r@ == pids@.take(i as int).filter(keep),
        decreases pids@.len() - i,
    {
        proof {
            assert(pids@.take(i + 1).drop_last() =~= pids@.take(i as int));
            reveal(Seq::filter);
        }
        if !pids[i].same(p) {
            r.push(pids[i]);
        }
        i += 1;
    }
    proof {
        assert(pids@.take(pids@.len() as int) =~= pids@);
        if pids@.no_duplicates() {
            lemma_filter_distinct(pids@, keep);
        }
    }
    r
}

/// Filtering keeps elements distinct.
pub proof fn lemma_filter_distinct<A>(s: Seq<A>, keep: spec_fn(A) -> bool)
    requires
        s.no_duplicates(),
    ensures
        s.filter(keep).no_duplicates(),
    decreases s.len(),
{
    reveal(Seq::filter);
    if s.len() > 0 {
        let front = s.drop_last();
        lemma_filter_distinct(front, keep);
        if keep(s.last()) {
            let f = front.filter(keep);
            assert forall|i: int| 0 <= i < f.len() implies f[i] != s.last() by {
                front.lemma_filter_contains_rev(keep, f[i]);
                let j = choose|j: int| 0 <= j < front.len() && front[j] == f[i];
            }
        }
    }
}

impl ParticleState {
    pub(crate) fn fresh() -> (r: Self)
        ensures
            r.valid(),
            r@ == ParticleView::fresh(),
    {
        ParticleState {
            links: Vec::new(),
            monitors: AssocMap::new(),
            monitored_by: Vec::new(),
            trap_exit: false,
        }
    }

    pub fn links(&self) -> (r: &Vec<Pid>)
        requires
            self.valid(),
        ensures
            r@ == self@.links,
            r@.no_duplicates(),
    {
        &self.links
    }

    pub fn monitors(&self) -> (r: &AssocMap<u64, Pid>)
        requires
            self.valid(),
        ensures
            r.wf(),
            r@ == self@.monitors,
    {
        &self.monitors
    }

    pub fn monitored_by(&self) -> (r: &Vec<(Pid, u64)>)
        ensures
            r@ == self@.monitored_by,
    {
        &self.monitored_by
    }

    pub fn trap_exit(&self) -> (r: bool)
        ensures
            r == self@.trap_exit,
    {
        self.trap_exit
    }

    pub(crate) fn set_trap_exit(&mut self, enabled: bool)
        requires
            old(self).valid(),
        ensures
            final(self).valid(),
            final(self)@ == (ParticleView { trap_exit: enabled, ..old(self)@ }),
    {
        self.trap_exit = enabled;
    }

    pub(crate) fn add_link(&mut self, p: Pid)
        requires
            old(self).valid(),
        ensures
            final(self).valid(),
            final(self)@ == old(self)@.linked(p),
    {
        if !has_pid(&self.links, &p) {
            self.links.push(p);
        }
    }

    pub(crate) fn drop_link(&mut self, p: &Pid)
        requires
            old(self).valid(),
        ensures
            final(self).valid(),
            final(self)@ == old(self)@.unlinked(*p),
    {
        self.links = drop_pid(&self.links, p);
    }

    pub(crate) fn add_monitor(&mut self, r: u64, p: Pid)
        requires
            old(self).valid(),
        ensures
            final(self).valid(),
            final(self)@ == old(self)@.monitoring(r, p),
    {
        self.monitors.insert(r, p);
    }

    pub(crate) fn drop_monitor(&mut self, r: u64)
        requires
            old(self).valid(),
        ensures
            final(self).valid(),
            final(self)@ == old(self)@.not_monitoring(r),
    {
        self.monitors.remove(&r);
    }

    pub(crate) fn add_watcher(&mut self, w: Pid, r: u64)
        requires
            old(self).valid(),
        ensures
            final(self).valid(),
            final(self)@ == old(self)@.watched(w, r),
    {
        self.monitored_by.push((w, r));
    }

    pub(crate) fn drop_watcher(&mut self, w: &Pid, r: u64)
        requires
            old(self).valid(),
        ensures
            final(self).valid(),
            final(self)@ == old(self)@.not_watched(*w, r),
    {
        let mut kept: Vec<(Pid, u64)> = Vec::new();
        let mut i: usize = 0;
        let ghost keep = |x: (Pid, u64)| x != (*w, r);
        assert(self.monitored_by@.take(0).filter(keep) =~= Seq::<(Pid, u64)>::empty());
        while i < self.monitored_by.len()
            invariant
                i <= self.monitored_by@.len(),
                *self == *old(self),
                keep == (|x: (Pid, u64)| x != (*w, r)),
                kept@ == self.monitored_by@.take(i as int).filter(keep),
            decreases self.monitored_by@.len() - i,
        {
            proof {
                assert(self.monitored_by@.take(i + 1).drop_last() =~= self.monitored_by@.take(
                    i as int,
                ));
                reveal(Seq::filter);
            }
            let x = self.monitored_by[i];
            if !(x.0.same(w) && x.1 == r) {
                kept.push(x);
            }
            i += 1;
        }
        assert(self.monitored_by@.take(self.monitored_by@.len() as int) =~= self.monitored_by@);
        self.monitored_by = kept;
    }

    pub(crate) fn forget_node(&mut self, node: &NodeId)
        requires
            old(self).valid(),
        ensures
            final(self).valid(),
            final(self)@ == old(self)@.without_node(*node),
    {
        let mut links: Vec<Pid> = Vec::new();
        let mut i: usize = 0;
        let ghost keep = |p: Pid| p.node != *node;
        assert(self.links@.take(0).filter(keep) =~= Seq::<Pid>::empty());
        while i < self.links.len()
            invariant
                i <= self.links@.len(),
                *self == *old(self),
                keep == (|p: Pid| p.node != *node),
                links@ == self.links@.take(i as int).filter(keep),
            decreases self.links@.len() - i,
        {
            proof {
                assert(self.links@.take(i + 1).drop_last() =~= self.links@.take(i as int));
                reveal(Seq::filter);
            }
            if !self.links[i].is_local_to(node) {
                links.push(self.links[i]);
            }
            i += 1;
        }
        assert(self.links@.take(self.links@.len() as int) =~= self.links@);
        proof {
            lemma_filter_distinct(self.links@, keep);
        }

        let mut watchers: Vec<(Pid, u64)> = Vec::new();
        let mut j: usize = 0;
        let ghost apart = |x: (Pid, u64)| x.0.node != *node;
        while j < self.monitored_by.len()
            invariant
                j <= self.monitored_by@.len(),
                *self == *old(self),
                apart == (|x: (Pid, u64)| x.0.node != *node),
                watchers@ == self.monitored_by@.take(j as int).filter(apart),
            decreases self.monitored_by@.len() - j,
        {
            proof {
                assert(self.monitored_by@.take(j + 1).drop_last() =~= self.monitored_by@.take(
                    j as int,
                ));
                reveal(Seq::filter);
            }
            let x = self.monitored_by[j];
            if !x.0.is_local_to(node) {
                watchers.push(x);
            }
            j += 1;
        }
        assert(self.monitored_by@.take(self.monitored_by@.len() as int) =~= self.monitored_by@);

        let mut monitors: AssocMap<u64, Pid> = AssocMap::new();
        let mut k: usize = 0;
        while k < self.monitors.len()
            invariant
                k <= self.monitors.items().len(),
                *self == *old(self),
                self.monitors.wf(),
                monitors.wf(),
                forall|r: u64| #[trigger]
                    monitors@.contains_key(r) <==> exists|n: int|
                        0 <= n < k && (#[trigger] self.monitors.items()[n]).0 == r
                            && self.monitors.items()[n].1.node != *node,
                forall|r: u64| #[trigger]
                    monitors@.contains_key(r) ==> self.monitors@.contains_key(r) && monitors@[r]
                        == self.monitors@[r],
            decreases self.monitors.items().len() - k,
        {
            let target = *self.monitors.value_at(k);
            let key: u64 = *self.monitors.key_at(k);
            if !target.is_local_to(node) {
                monitors.insert(key, target);
            }
            k += 1;
        }
        self.links = links;
        self.monitored_by = watchers;
        self.monitors = monitors;
    }
}

} // verus!
