//! Cluster-wide names, with exactly one owner.
//!
//! A claim locks every member, in the order of their ids. Where two claims were made apart, a
//! merge lets the lower pid win and the loser is killed; both sides come to the same result.

use crate::assoc;
use crate::assoc::{AssocMap, Key};
use crate::cluster::Cluster;
use crate::exit_laws;
use crate::message::ExitReason;
use crate::pid;
use crate::pid::{NodeId, Pid};
use crate::registry;
use crate::registry::{ParticleRegistry, RegistryView};
use crate::wire::{GlobalRequest, GlobalResponse};
use vstd::prelude::*;
use vstd::string::*;

verus! {

/// How long a lookup waits for a merge before it gives up, in milliseconds.
pub const MERGE_DEADLINE: u64 = 10_000;

/// How often a claim is tried in a busy or shifting cluster.
pub const CLAIM_RETRIES: usize = 3;

/// Why a name could not be claimed.
#[derive(PartialEq, Debug)]
pub enum ClaimError {
    /// Another particle has the name.
    Taken(Pid),
    /// The claimant already has a global name.
    AlreadyNamed(String),
    /// The cluster would not settle.
    Unsettled,
}

#[derive(Clone, Copy, PartialEq, Eq, Structural, Debug)]
pub enum LookupError {
    /// A merge did not settle in time. The name may or may not exist.
    Unsettled,
}

/// What a node knows of global names.
#[verifier::ext_equal]
pub struct GlobalView {
    pub me: NodeId,
    pub names: Map<Seq<char>, Pid>,
    /// Names that are being claimed, and by which node.
    pub locks: Map<Seq<char>, NodeId>,
    /// How many merges are in flight.
    pub merges: usize,
}

/// What a list of names says.
pub open spec fn pairs_view(pairs: Seq<(String, Pid)>) -> Seq<(Seq<char>, Pid)> {
    pairs.map_values(|x: (String, Pid)| (x.0@, x.1))
}

/// A list holds exactly the names of a table, each once.
pub open spec fn lists(pairs: Seq<(Seq<char>, Pid)>, names: Map<Seq<char>, Pid>) -> bool {
    &&& forall|i: int, j: int|
        0 <= i < j < pairs.len() ==> (#[trigger] pairs[i]).0 != (#[trigger] pairs[j]).0
    &&& forall|i: int|
        0 <= i < pairs.len() ==> names.contains_key((#[trigger] pairs[i]).0) && names[pairs[i].0]
            == pairs[i].1
    &&& forall|n: Seq<char>| #[trigger]
        names.contains_key(n) ==> exists|i: int| 0 <= i < pairs.len() && (#[trigger] pairs[i]).0 == n
}

/// What a response says.
pub enum ResponseView {
    Locked,
    Busy,
    Taken(Pid),
    Done,
    Names(Seq<(Seq<char>, Pid)>),
}

impl View for GlobalResponse {
    type V = ResponseView;

    open spec fn view(&self) -> ResponseView {
        match *self {
            GlobalResponse::Locked => ResponseView::Locked,
            GlobalResponse::Busy => ResponseView::Busy,
            GlobalResponse::Taken(p) => ResponseView::Taken(p),
            GlobalResponse::Done => ResponseView::Done,
            GlobalResponse::Names(v) => ResponseView::Names(pairs_view(v@)),
        }
    }
}

/// What a request says.
pub enum RequestView {
    Lock { name: Seq<char>, holder: NodeId },
    Commit { name: Seq<char>, pid: Pid, holder: NodeId },
    Unlock { name: Seq<char>, holder: NodeId },
    Release { name: Seq<char>, pid: Pid },
    Sync { names: Seq<(Seq<char>, Pid)> },
}

impl View for GlobalRequest {
    type V = RequestView;

    open spec fn view(&self) -> RequestView {
        match *self {
            GlobalRequest::Lock { name, holder } => RequestView::Lock { name: name@, holder },
            GlobalRequest::Commit { name, pid, holder } => RequestView::Commit {
                name: name@,
                pid,
                holder,
            },
            GlobalRequest::Unlock { name, holder } => RequestView::Unlock { name: name@, holder },
            GlobalRequest::Release { name, pid } => RequestView::Release { name: name@, pid },
            GlobalRequest::Sync { names } => RequestView::Sync { names: pairs_view(names@) },
        }
    }
}

/// The lower of two pids.
pub open spec fn lower(a: Pid, b: Pid) -> Pid {
    if pid::pid_less(a, b) {
        a
    } else {
        b
    }
}

/// The higher of two pids.
pub open spec fn higher(a: Pid, b: Pid) -> Pid {
    if pid::pid_less(a, b) {
        b
    } else {
        a
    }
}

/// A table after one name of another table was merged into it: of two owners the lower pid wins.
pub open spec fn merged_one(names: Map<Seq<char>, Pid>, x: (Seq<char>, Pid)) -> Map<Seq<char>, Pid> {
    if !names.contains_key(x.0) {
        names.insert(x.0, x.1)
    } else if names[x.0] == x.1 {
        names
    } else {
        names.insert(x.0, lower(names[x.0], x.1))
    }
}

/// A table after another was merged into it, name by name.
pub open spec fn merged(names: Map<Seq<char>, Pid>, theirs: Seq<(Seq<char>, Pid)>) -> Map<
    Seq<char>,
    Pid,
>
    decreases theirs.len(),
{
    if theirs.len() == 0 {
        names
    } else {
        merged_one(merged(names, theirs.drop_last()), theirs.last())
    }
}

/// The losers of a merge that live on a node: the name, the loser and the winner of each.
pub open spec fn losers_on(
    me: NodeId,
    names: Map<Seq<char>, Pid>,
    theirs: Seq<(Seq<char>, Pid)>,
) -> Seq<(Seq<char>, Pid, Pid)>
    decreases theirs.len(),
{
    if theirs.len() == 0 {
        Seq::empty()
    } else {
        let before = losers_on(me, names, theirs.drop_last());
        let now = merged(names, theirs.drop_last());
        let (name, p) = theirs.last();
        if now.contains_key(name) && now[name] != p && higher(now[name], p).node == me {
            before.push((name, higher(now[name], p), lower(now[name], p)))
        } else {
            before
        }
    }
}

/// What a list of losers says.
pub open spec fn losers_view(losers: Seq<(String, Pid, Pid)>) -> Seq<(Seq<char>, Pid, Pid)> {
    losers.map_values(|x: (String, Pid, Pid)| (x.0@, x.1, x.2))
}

/// The registry after the losers of a merge were killed, by their winners.
pub open spec fn losers_killed(m: RegistryView, losers: Seq<(Seq<char>, Pid, Pid)>) -> RegistryView
    decreases losers.len(),
{
    if losers.len() == 0 {
        m
    } else {
        let (_, loser, winner) = losers.last();
        registry::directed(
            losers_killed(m, losers.drop_last()),
            loser,
            winner,
            ExitReason::Kill,
        )
    }
}

impl GlobalView {
    /// What a lookup gives: nothing is said of a name while a merge is in flight.
    pub open spec fn looked_up(self, name: Seq<char>) -> Result<Option<Pid>, LookupError> {
        if self.merges != 0 {
            Err(LookupError::Unsettled)
        } else if self.names.contains_key(name) {
            Ok(Some(self.names[name]))
        } else {
            Ok(None)
        }
    }

    /// After a merge has begun.
    pub open spec fn merging(self) -> GlobalView {
        GlobalView { merges: (self.merges + 1) as usize, ..self }
    }

    /// After a merge is over.
    pub open spec fn merge_over(self) -> GlobalView {
        GlobalView {
            merges: if self.merges > 0 {
                (self.merges - 1) as usize
            } else {
                0
            },
            ..self
        }
    }

    /// What asking for the lock on a name is answered.
    pub open spec fn lock_answer(self, name: Seq<char>, holder: NodeId) -> ResponseView {
        if self.names.contains_key(name) {
            ResponseView::Taken(self.names[name])
        } else if self.locks.contains_key(name) && self.locks[name] != holder {
            ResponseView::Busy
        } else {
            ResponseView::Locked
        }
    }

    /// After the lock on a name was asked for.
    pub open spec fn lock_asked(self, name: Seq<char>, holder: NodeId) -> GlobalView {
        if self.lock_answer(name, holder) is Locked {
            GlobalView { locks: self.locks.insert(name, holder), ..self }
        } else {
            self
        }
    }

    /// After a lock was given back. Only its holder can.
    pub open spec fn unlocked(self, name: Seq<char>, holder: NodeId) -> GlobalView {
        if self.locks.contains_key(name) && self.locks[name] == holder {
            GlobalView { locks: self.locks.remove(name), ..self }
        } else {
            self
        }
    }

    pub open spec fn committed(self, name: Seq<char>, p: Pid) -> GlobalView {
        GlobalView { names: self.names.insert(name, p), ..self }
    }

    /// Whether a name belongs to a particle.
    pub open spec fn owned(self, name: Seq<char>, p: Pid) -> bool {
        self.names.contains_key(name) && self.names[name] == p
    }

    /// After a particle gave up a name. Only its owner can.
    pub open spec fn released(self, name: Seq<char>, p: Pid) -> GlobalView {
        if self.owned(name, p) {
            GlobalView { names: self.names.remove(name), ..self }
        } else {
            self
        }
    }

    /// After a step of the protocol.
    pub open spec fn applied(self, req: RequestView) -> GlobalView {
        match req {
            RequestView::Lock { name, holder } => self.lock_asked(name, holder),
            RequestView::Commit { name, pid, .. } => self.committed(name, pid),
            RequestView::Unlock { name, holder } => self.unlocked(name, holder),
            RequestView::Release { name, pid } => self.released(name, pid),
            RequestView::Sync { .. } => self,
        }
    }
}

/// The replicated name table, and the locks on changes to it.
pub struct GlobalNames {
    me: NodeId,
    names: AssocMap<String, Pid>,
    locks: AssocMap<String, NodeId>,
    merges: usize,
}

impl View for GlobalNames {
    type V = GlobalView;

    closed spec fn view(&self) -> GlobalView {
        GlobalView {
            me: self.me,
            names: self.names@,
            locks: self.locks@,
            merges: self.merges,
        }
    }
}

impl GlobalNames {
    pub closed spec fn wf(&self) -> bool {
        self.names.wf() && self.locks.wf()
    }

    pub fn new(me: NodeId) -> (r: Self)
        ensures
            r.wf(),
            r@ == (GlobalView { me, names: Map::empty(), locks: Map::empty(), merges: 0 }),
    {
        GlobalNames { me, names: AssocMap::new(), locks: AssocMap::new(), merges: 0 }
    }

    /// This node.
    pub fn me(&self) -> (r: NodeId)
        ensures
            r == self@.me,
    {
        self.me
    }

    /// Takes the lock on a name. The holder may take it again.
    pub fn lock(&mut self, name: &str, holder: NodeId) -> (r: GlobalResponse)
        requires
            old(self).wf(),
        ensures
            final(self).wf(),
            r@ == old(self)@.lock_answer(name@, holder),
            final(self)@ == old(self)@.lock_asked(name@, holder),
    {
        let key = name.to_owned();
        match self.names.get(&key) {
            Some(pid) => return GlobalResponse::Taken(*pid),
            None => {},
        }
        let free = match self.locks.get(&key) {
            Some(h) => h.same(&holder),
            None => true,
        };
        if free {
            self.locks.insert(key, holder);
            GlobalResponse::Locked
        } else {
            GlobalResponse::Busy
        }
    }

    pub fn unlock(&mut self, name: &str, holder: NodeId)
        requires
            old(self).wf(),
        ensures
            final(self).wf(),
            final(self)@ == old(self)@.unlocked(name@, holder),
    {
        let key = name.to_owned();
        let held = match self.locks.get(&key) {
            Some(h) => h.same(&holder),
            None => false,
        };
        if held {
            self.locks.remove(&key);
        }
    }

    pub fn commit(&mut self, name: &str, pid: Pid)
        requires
            old(self).wf(),
        ensures
            final(self).wf(),
            final(self)@ == old(self)@.committed(name@, pid),
    {
        self.names.insert(name.to_owned(), pid);
    }

    /// Drops a name, but only if the particle still has it.
    pub fn release(&mut self, name: &str, pid: &Pid) -> (r: bool)
        requires
            old(self).wf(),
        ensures
            final(self).wf(),
            r == old(self)@.owned(name@, *pid),
            final(self)@ == old(self)@.released(name@, *pid),
    {
        let key = name.to_owned();
        let owned = match self.names.get(&key) {
            Some(p) => p.same(pid),
            None => false,
        };
        if owned {
            self.names.remove(&key);
        }
        owned
    }

    /// The whole table.
    pub fn snapshot(&self) -> (r: Vec<(String, Pid)>)
        requires
            self.wf(),
        ensures
            lists(pairs_view(r@), self@.names),
    {
        let ghost items = self.names.items();
        let mut r: Vec<(String, Pid)> = Vec::new();
        let mut i: usize = 0;
        while i < self.names.len()
            invariant
                i <= items.len(),
                items == self.names.items(),
                r@.len() == i,
                forall|j: int|
                    0 <= j < i ==> (#[trigger] r@[j]).0@ == items[j].0@ && r@[j].1 == items[j].1,
            decreases items.len() - i,
        {
            r.push((self.names.key_at(i).clone(), *self.names.value_at(i)));
            i += 1;
        }
        proof {
            let pairs = pairs_view(r@);
            assert forall|a: int, b: int| 0 <= a < b < pairs.len() implies (#[trigger] pairs[a]).0
                != (#[trigger] pairs[b]).0 by {}
            assert forall|n: Seq<char>| #[trigger] self@.names.contains_key(n) implies exists|
                a: int,
            |
                0 <= a < pairs.len() && (#[trigger] pairs[a]).0 == n by {
                let a = assoc::lemma_entry_of(items, n);
                assert(pairs[a].0 == n);
            }
        }
        r
    }

    /// The owner of a name, without waiting for merges.
    pub fn peek(&self, name: &str) -> (r: Option<Pid>)
        requires
            self.wf(),
        ensures
            r == (if self@.names.contains_key(name@) {
                Some(self@.names[name@])
            } else {
                None
            }),
    {
        match self.names.get(&name.to_owned()) {
            Some(p) => Some(*p),
            None => None,
        }
    }

    /// A global name of a particle, if it has one.
    pub fn name_of(&self, pid: &Pid) -> (r: Option<String>)
        requires
            self.wf(),
        ensures
            match r {
                Some(n) => self@.owned(n@, *pid),
                None => forall|n: Seq<char>| !#[trigger] self@.owned(n, *pid),
            },
    {
        let ghost items = self.names.items();
        let mut i: usize = 0;
        while i < self.names.len()
            invariant
                i <= items.len(),
                items == self.names.items(),
                self.wf(),
                forall|j: int| 0 <= j < i ==> (#[trigger] items[j]).1 != *pid,
            decreases items.len() - i,
        {
            if self.names.value_at(i).same(pid) {
                proof {
                    assoc::lemma_entry(items, i as int);
                }
                return Some(self.names.key_at(i).clone());
            }
            i += 1;
        }
        None
    }

    /// A merge begins: lookups wait.
    pub fn merge_begin(&mut self)
        requires
            old(self).wf(),
            old(self)@.merges < usize::MAX,
        ensures
            final(self).wf(),
            final(self)@ == old(self)@.merging(),
    {
        self.merges = self.merges + 1;
    }

    /// A merge is over.
    pub fn merge_end(&mut self)
        requires
            old(self).wf(),
        ensures
            final(self).wf(),
            final(self)@ == old(self)@.merge_over(),
    {
        self.merges = self.merges.saturating_sub(1);
    }

    /// Whether no merge is in flight.
    pub fn is_settled(&self) -> (r: bool)
        ensures
            r == (self@.merges == 0),
    {
        self.merges == 0
    }

    /// The owner of a name, unless a merge is in flight. Whoever can waits for it to end, and
    /// asks again.
    pub fn lookup(&self, name: &str) -> (r: Result<Option<Pid>, LookupError>)
        requires
            self.wf(),
        ensures
            r == self@.looked_up(name@),
    {
        if !self.is_settled() {
            return Err(LookupError::Unsettled);
        }
        Ok(self.peek(name))
    }

    /// Takes a step of the protocol.
    pub fn apply(&mut self, req: GlobalRequest) -> (r: GlobalResponse)
        requires
            old(self).wf(),
        ensures
            final(self).wf(),
            final(self)@ == old(self)@.applied(req@),
            match req@ {
                RequestView::Lock { name, holder } => r@ == old(self)@.lock_answer(name, holder),
                RequestView::Sync { .. } => r@ matches ResponseView::Names(pairs) && lists(
                    pairs,
                    old(self)@.names,
                ),
                _ => r@ is Done,
            },
    {
        match req {
            GlobalRequest::Lock { name, holder } => self.lock(name.as_str(), holder),
            GlobalRequest::Unlock { name, holder } => {
                self.unlock(name.as_str(), holder);
                GlobalResponse::Done
            },
            GlobalRequest::Commit { name, pid, .. } => {
                self.commit(name.as_str(), pid);
                GlobalResponse::Done
            },
            GlobalRequest::Release { name, pid } => {
                self.release(name.as_str(), &pid);
                GlobalResponse::Done
            },
            GlobalRequest::Sync { .. } => GlobalResponse::Names(self.snapshot()),
        }
    }

    /// Gives a name up: what the other members are asked.
    pub fn unregister(&mut self, name: &str, pid: &Pid, cluster: &Cluster) -> (r: Vec<
        (NodeId, GlobalRequest),
    >)
        requires
            old(self).wf(),
        ensures
            final(self).wf(),
            final(self)@ == old(self)@.released(name@, *pid),
            requests_view(r@) == (if old(self)@.owned(name@, *pid) {
                to_all(cluster@.members, RequestView::Release { name: name@, pid: *pid })
            } else {
                Seq::empty()
            }),
    {
        let mut r: Vec<(NodeId, GlobalRequest)> = Vec::new();
        if !self.release(name, pid) {
            return r;
        }
        let nodes = cluster.nodes();
        let mut i: usize = 0;
        let ghost word = RequestView::Release { name: name@, pid: *pid };
        while i < nodes.len()
            invariant
                i <= nodes@.len(),
                word == (RequestView::Release { name: name@, pid: *pid }),
                requests_view(r@) == to_all(nodes@.take(i as int), word),
            decreases nodes@.len() - i,
        {
            r.push((nodes[i], GlobalRequest::Release { name: name.to_owned(), pid: *pid }));
            proof {
                assert(to_all(nodes@.take(i + 1), word) =~= to_all(
                    nodes@.take(i as int),
                    word,
                ).push((nodes@[i as int], word)));
            }
            i += 1;
        }
        r
    }

    /// A particle died: the name that it had is given up, and the other members are asked to
    /// drop it.
    pub fn on_death(&mut self, pid: &Pid, cluster: &Cluster) -> (r: Vec<(NodeId, GlobalRequest)>)
        requires
            old(self).wf(),
        ensures
            final(self).wf(),
            if exists|n: Seq<char>| #[trigger] old(self)@.owned(n, *pid) {
                exists|n: Seq<char>| #[trigger]
                    old(self)@.owned(n, *pid) && final(self)@ == old(self)@.released(n, *pid)
                        && requests_view(r@) == to_all(
                        cluster@.members,
                        RequestView::Release { name: n, pid: *pid },
                    )
            } else {
                final(self)@ == old(self)@ && r@.len() == 0
            },
    {
        match self.name_of(pid) {
            Some(name) => {
                self.unregister(name.as_str(), pid, cluster)
            },
            None => Vec::new(),
        }
    }
}

/// What a list of requests says.
pub open spec fn requests_view(r: Seq<(NodeId, GlobalRequest)>) -> Seq<(NodeId, RequestView)> {
    r.map_values(|x: (NodeId, GlobalRequest)| (x.0, x.1@))
}

/// The same request to every node.
pub open spec fn to_all(nodes: Seq<NodeId>, req: RequestView) -> Seq<(NodeId, RequestView)> {
    nodes.map_values(|n: NodeId| (n, req))
}

/// Merges a peer's table into this one; hands back the losers that live here, to be killed.
pub fn merge(global: &mut GlobalNames, theirs: Vec<(String, Pid)>, me: NodeId) -> (r: Vec<
    (String, Pid, Pid),
>)
    requires
        old(global).wf(),
    ensures
        final(global).wf(),
        final(global)@ == (GlobalView {
            names: merged(old(global)@.names, pairs_view(theirs@)),
            ..old(global)@
        }),
        losers_view(r@) == losers_on(me, old(global)@.names, pairs_view(theirs@)),
{
    let ghost all = pairs_view(theirs@);
    let ghost start = global@.names;
    let mut losers: Vec<(String, Pid, Pid)> = Vec::new();
    let mut i: usize = 0;
    while i < theirs.len()
        invariant
            i <= theirs@.len(),
            all == pairs_view(theirs@),
            start == old(global)@.names,
            global.wf(),
            global@ == (GlobalView { names: merged(start, all.take(i as int)), ..old(global)@ }),
            losers_view(losers@) == losers_on(me, start, all.take(i as int)),
        decreases theirs@.len() - i,
    {
        proof {
            assert(all.take(i + 1).drop_last() =~= all.take(i as int));
        }
        let ghost before = losers@;
        let name = theirs[i].0.clone();
        let their_pid = theirs[i].1;
        let ours = match global.names.get(&name) {
            Some(p) => Some(*p),
            None => None,
        };
        match ours {
            Some(our_pid) => {
                if !our_pid.same(&their_pid) {
                    let first = our_pid.less(&their_pid);
                    let winner = if first {
                        our_pid
                    } else {
                        their_pid
                    };
                    let loser = if first {
                        their_pid
                    } else {
                        our_pid
                    };
                    global.names.insert(name.clone(), winner);
                    if loser.is_local_to(&me) {
                        losers.push((name, loser, winner));
                        assert(losers_view(losers@) =~= losers_view(before).push(
                            (name@, loser, winner),
                        ));
                    }
                }
            },
            None => {
                global.names.insert(name, their_pid);
            },
        }
        i += 1;
    }
    assert(all.take(all.len() as int) =~= all);
    losers
}

/// Kills the losers of a merge, each on behalf of its winner.
fn kill_losers(registry: &mut ParticleRegistry, losers: &Vec<(String, Pid, Pid)>)
    requires
        old(registry).wf(),
    ensures
        final(registry).wf(),
        final(registry)@ == losers_killed(old(registry)@, losers_view(losers@)),
{
    let ghost all = losers_view(losers@);
    let mut i: usize = 0;
    while i < losers.len()
        invariant
            i <= losers@.len(),
            all == losers_view(losers@),
            registry.wf(),
            registry@ == losers_killed(old(registry)@, all.take(i as int)),
        decreases losers@.len() - i,
    {
        proof {
            assert(all.take(i + 1).drop_last() =~= all.take(i as int));
            assert(all.take(i + 1).last() == (
                losers@[i as int].0@,
                losers@[i as int].1,
                losers@[i as int].2,
            ));
        }
        registry.apply_directed_exit(&losers[i].1, &losers[i].2, ExitReason::Kill);
        i += 1;
    }
    assert(all.take(all.len() as int) =~= all);
}

/// Answers a peer's sync with the table as it was, and merges the peer's table into it.
pub fn answer_sync(
    global: &mut GlobalNames,
    registry: &mut ParticleRegistry,
    theirs: Vec<(String, Pid)>,
) -> (r: GlobalResponse)
    requires
        old(global).wf(),
        old(registry).wf(),
        old(global)@.merges < usize::MAX,
    ensures
        final(global).wf(),
        final(registry).wf(),
        final(global)@ == (GlobalView {
            names: merged(old(global)@.names, pairs_view(theirs@)),
            ..old(global)@
        }),
        final(registry)@ == losers_killed(
            old(registry)@,
            losers_on(old(global)@.me, old(global)@.names, pairs_view(theirs@)),
        ),
        r@ matches ResponseView::Names(pairs) && lists(pairs, old(global)@.names),
{
    let mine = global.snapshot();
    let me = global.me();
    global.merge_begin();
    let losers = merge(global, theirs, me);
    global.merge_end();
    kill_losers(registry, &losers);
    GlobalResponse::Names(mine)
}

/// Begins to exchange tables with a node: a merge is in flight, and the node is sent this table.
pub fn begin_sync(global: &mut GlobalNames) -> (r: GlobalRequest)
    requires
        old(global).wf(),
        old(global)@.merges < usize::MAX,
    ensures
        final(global).wf(),
        final(global)@ == (GlobalView {
            merges: (old(global)@.merges + 1) as usize,
            ..old(global)@
        }),
        r@ matches RequestView::Sync { names } && lists(names, old(global)@.names),
{
    global.merge_begin();
    GlobalRequest::Sync { names: global.snapshot() }
}

/// Ends an exchange of tables: the node's table is merged, or there was no answer of use. Either
/// way the merge is over.
pub fn finish_sync(
    global: &mut GlobalNames,
    registry: &mut ParticleRegistry,
    reply: Option<GlobalResponse>,
)
    requires
        old(global).wf(),
        old(registry).wf(),
    ensures
        final(global).wf(),
        final(registry).wf(),
        ({
            let over: usize = if old(global)@.merges > 0 {
                (old(global)@.merges - 1) as usize
            } else {
                0
            };
            match reply {
                Some(GlobalResponse::Names(theirs)) => {
                    &&& final(global)@ == (GlobalView {
                        names: merged(old(global)@.names, pairs_view(theirs@)),
                        merges: over,
                        ..old(global)@
                    })
                    &&& final(registry)@ == losers_killed(
                        old(registry)@,
                        losers_on(old(global)@.me, old(global)@.names, pairs_view(theirs@)),
                    )
                },
                _ => final(global)@ == (GlobalView { merges: over, ..old(global)@ })
                    && final(registry)@ == old(registry)@,
            }
        }),
{
    match reply {
        Some(GlobalResponse::Names(theirs)) => {
            let me = global.me();
            let losers = merge(global, theirs, me);
            global.merge_end();
            kill_losers(registry, &losers);
        },
        _ => {
            global.merge_end();
        },
    }
}

/// No node of a list comes before one that stands earlier.
pub open spec fn in_order(nodes: Seq<NodeId>) -> bool {
    forall|i: int, j: int|
        0 <= i < j < nodes.len() ==> !pid::bytes_less(
            (#[trigger] nodes[j]).bytes(),
            (#[trigger] nodes[i]).bytes(),
        )
}

/// The nodes to lock for a claim: all members and this node, in the order of their ids.
pub fn claim_members(me: NodeId, cluster: &Cluster) -> (r: Vec<NodeId>)
    ensures
        in_order(r@),
        r@.to_multiset() == cluster@.members.push(me).to_multiset(),
{
    broadcast use vstd::seq_lib::group_to_multiset_ensures;

    let mut nodes = cluster.nodes();
    nodes.push(me);
    let ghost all = nodes@;
    let mut r: Vec<NodeId> = Vec::new();
    let mut i: usize = 0;
    while i < nodes.len()
        invariant
            i <= nodes@.len(),
            all == nodes@,
            in_order(r@),
            r@.to_multiset() == all.take(i as int).to_multiset(),
        decreases nodes@.len() - i,
    {
        let node = nodes[i];
        insert_in_order(&mut r, node);
        proof {
            assert(all.take(i + 1) =~= all.take(i as int).push(node));
            all.take(i as int).to_multiset_ensures();
        }
        i += 1;
    }
    assert(all.take(all.len() as int) =~= all);
    r
}

fn insert_in_order(nodes: &mut Vec<NodeId>, node: NodeId)
    requires
        in_order(old(nodes)@),
    ensures
        in_order(final(nodes)@),
        final(nodes)@.to_multiset() == old(nodes)@.to_multiset().insert(node),
{
    broadcast use vstd::seq_lib::group_to_multiset_ensures;

    let mut at: usize = nodes.len();
    let mut looking: bool = true;
    while looking
        invariant
            at <= nodes@.len(),
            *nodes == *old(nodes),
            forall|j: int|
                at <= j < nodes@.len() ==> pid::bytes_less(
                    node.bytes(),
                    (#[trigger] nodes@[j]).bytes(),
                ),
            !looking ==> at == 0 || !pid::bytes_less(node.bytes(), nodes@[at - 1].bytes()),
        decreases at, looking as int,
    {
        if at == 0 {
            looking = false;
        } else if node.less(&nodes[at - 1]) {
            at -= 1;
        } else {
            looking = false;
        }
    }
    let ghost before = nodes@;
    nodes.insert(at, node);
    proof {
        let after = nodes@;
        assert forall|i: int, j: int| 0 <= i < j < after.len() implies !pid::bytes_less(
            (#[trigger] after[j]).bytes(),
            (#[trigger] after[i]).bytes(),
        ) by {
            if i < at && j == at {
                // Everything before stands no higher than the one just before.
                if pid::bytes_less(node.bytes(), before[i].bytes()) {
                    if i < at - 1 {
                        pid::lemma_node_order(before[at - 1], before[i]);
                        pid::lemma_node_order_trans(node, before[i], before[at - 1]);
                    }
                }
            } else if i == at && j > at {
                pid::lemma_node_order(node, before[j - 1]);
            }
        }
    }
}

/// How an attempt to claim a name ends.
#[derive(PartialEq, Debug)]
pub enum ClaimOutcome {
    Claimed,
    Taken(Pid),
    Unsettled,
}

/// How far an attempt to claim a name is.
#[derive(PartialEq, Debug)]
pub enum ClaimPhase {
    /// The next member is to be locked.
    Locking,
    /// Every member is locked, and the name is being written.
    Committing,
    /// The locks are being given back.
    Releasing(ClaimOutcome),
    Finished(ClaimOutcome),
}

/// What an attempt knows.
#[verifier::ext_equal]
pub struct ClaimView {
    pub me: NodeId,
    pub name: Seq<char>,
    pub pid: Pid,
    pub members: Seq<NodeId>,
    /// How many members, from the first on, have granted their lock.
    pub held: nat,
    /// How many of the steps of the phase are done.
    pub done: nat,
    pub phase: ClaimPhase,
}

impl ClaimView {
    /// An attempt that has asked nobody yet.
    pub open spec fn fresh(me: NodeId, name: Seq<char>, pid: Pid, members: Seq<NodeId>) -> ClaimView {
        ClaimView { me, name, pid, members, held: 0, done: 0, phase: ClaimPhase::Locking }.settle()
    }

    /// What holds at every point of an attempt: locks are taken in order, a name is written only
    /// while every member is locked, and when all is over every lock that was taken was given
    /// back.
    pub open spec fn sound(self) -> bool {
        &&& self.held <= self.members.len()
        &&& match self.phase {
            ClaimPhase::Locking => self.done == self.held && self.held < self.members.len(),
            ClaimPhase::Committing => self.held == self.members.len() && self.done < self.held,
            ClaimPhase::Releasing(outcome) => self.done < self.held && (outcome is Claimed
                ==> self.held == self.members.len()),
            ClaimPhase::Finished(outcome) => self.done == self.held && (outcome is Claimed
                ==> self.held == self.members.len()),
        }
    }

    /// Moves on past phases that have no step left.
    pub open spec fn settle(self) -> ClaimView {
        match self.phase {
            ClaimPhase::Locking => if self.held < self.members.len() {
                self
            } else if self.held > 0 {
                ClaimView { phase: ClaimPhase::Committing, done: 0, ..self }
            } else {
                ClaimView { phase: ClaimPhase::Finished(ClaimOutcome::Claimed), done: 0, ..self }
            },
            ClaimPhase::Committing => if self.done < self.held {
                self
            } else {
                ClaimView {
                    phase: ClaimPhase::Releasing(ClaimOutcome::Claimed),
                    done: 0,
                    ..self
                }.settle_release()
            },
            _ => self.settle_release(),
        }
    }

    /// Moves on past a release that has no step left.
    pub open spec fn settle_release(self) -> ClaimView {
        match self.phase {
            ClaimPhase::Releasing(outcome) => if self.done < self.held {
                self
            } else {
                ClaimView { phase: ClaimPhase::Finished(outcome), ..self }
            },
            _ => self,
        }
    }

    /// The next request, and to whom.
    pub open spec fn request(self) -> Option<(NodeId, RequestView)> {
        let node = self.members[self.done as int];
        match self.phase {
            ClaimPhase::Locking => Some(
                (node, RequestView::Lock { name: self.name, holder: self.me }),
            ),
            ClaimPhase::Committing => Some(
                (node, RequestView::Commit { name: self.name, pid: self.pid, holder: self.me }),
            ),
            ClaimPhase::Releasing(_) => Some(
                (node, RequestView::Unlock { name: self.name, holder: self.me }),
            ),
            ClaimPhase::Finished(_) => None,
        }
    }

    /// After the answer to the request, or its failure.
    pub open spec fn answered(self, reply: Option<ResponseView>) -> ClaimView {
        match self.phase {
            ClaimPhase::Locking => match reply {
                Some(ResponseView::Locked) => ClaimView {
                    held: self.held + 1,
                    done: self.done + 1,
                    ..self
                }.settle(),
                Some(ResponseView::Taken(p)) => ClaimView {
                    phase: ClaimPhase::Releasing(ClaimOutcome::Taken(p)),
                    done: 0,
                    ..self
                }.settle(),
                _ => ClaimView {
                    phase: ClaimPhase::Releasing(ClaimOutcome::Unsettled),
                    done: 0,
                    ..self
                }.settle(),
            },
            ClaimPhase::Finished(_) => self,
            _ => ClaimView { done: self.done + 1, ..self }.settle(),
        }
    }
}

/// One attempt to claim a name. The caller sends each request and reports the answer.
pub struct Claim {
    me: NodeId,
    name: String,
    pid: Pid,
    members: Vec<NodeId>,
    held: usize,
    done: usize,
    phase: ClaimPhase,
}

impl View for Claim {
    type V = ClaimView;

    closed spec fn view(&self) -> ClaimView {
        ClaimView {
            me: self.me,
            name: self.name@,
            pid: self.pid,
            members: self.members@,
            held: self.held as nat,
            done: self.done as nat,
            phase: self.phase,
        }
    }
}

impl Claim {
    pub open spec fn wf(&self) -> bool {
        self@.sound()
    }

    /// Begins an attempt on these members.
    pub fn new(me: NodeId, name: &str, pid: Pid, members: Vec<NodeId>) -> (r: Self)
        ensures
            r.wf(),
            r@ == ClaimView::fresh(me, name@, pid, members@),
    {
        let phase = if members.len() > 0 {
            ClaimPhase::Locking
        } else {
            ClaimPhase::Finished(ClaimOutcome::Claimed)
        };
        Claim { me, name: name.to_owned(), pid, members, held: 0, done: 0, phase }
    }

    /// The next request, and to whom; none when the attempt is over.
    pub fn next_request(&self) -> (r: Option<(NodeId, GlobalRequest)>)
        requires
            self.wf(),
        ensures
            match r {
                Some((n, req)) => self@.request() == Some((n, req@)),
                None => self@.request() is None,
            },
    {
        match &self.phase {
            ClaimPhase::Locking => Some(
                (
                    self.members[self.done],
                    GlobalRequest::Lock { name: self.name.clone(), holder: self.me },
                ),
            ),
            ClaimPhase::Committing => Some(
                (
                    self.members[self.done],
                    GlobalRequest::Commit {
                        name: self.name.clone(),
                        pid: self.pid,
                        holder: self.me,
                    },
                ),
            ),
            ClaimPhase::Releasing(_) => Some(
                (
                    self.members[self.done],
                    GlobalRequest::Unlock { name: self.name.clone(), holder: self.me },
                ),
            ),
            ClaimPhase::Finished(_) => None,
        }
    }

    fn begin_release(&mut self, outcome: ClaimOutcome)
        requires
            old(self)@.held <= old(self)@.members.len(),
            outcome is Claimed ==> old(self)@.held == old(self)@.members.len(),
        ensures
            final(self).wf(),
            final(self)@ == (ClaimView {
                phase: ClaimPhase::Releasing(outcome),
                done: 0,
                ..old(self)@
            }).settle_release(),
    {
        self.done = 0;
        self.phase = if self.held > 0 {
            ClaimPhase::Releasing(outcome)
        } else {
            ClaimPhase::Finished(outcome)
        };
    }

    /// The answer to the last request, or none where the node could not be reached.
    pub fn on_reply(&mut self, reply: Option<GlobalResponse>)
        requires
            old(self).wf(),
        ensures
            final(self).wf(),
            final(self)@ == old(self)@.answered(
                match reply {
                    Some(x) => Some(x@),
                    None => None,
                },
            ),
    {
        let count = self.members.len();
        match &self.phase {
            ClaimPhase::Locking => match reply {
                Some(GlobalResponse::Locked) => {
                    self.held = self.held + 1;
                    self.done = self.done + 1;
                    if self.held == count {
                        self.done = 0;
                        self.phase = ClaimPhase::Committing;
                    }
                },
                Some(GlobalResponse::Taken(p)) => {
                    self.begin_release(ClaimOutcome::Taken(p));
                },
                _ => {
                    self.begin_release(ClaimOutcome::Unsettled);
                },
            },
            ClaimPhase::Committing => {
                self.done = self.done + 1;
                if self.done == self.held {
                    self.begin_release(ClaimOutcome::Claimed);
                }
            },
            ClaimPhase::Releasing(outcome) => {
                let last = self.done + 1 == self.held;
                let over = match outcome {
                    ClaimOutcome::Claimed => ClaimOutcome::Claimed,
                    ClaimOutcome::Taken(p) => ClaimOutcome::Taken(*p),
                    ClaimOutcome::Unsettled => ClaimOutcome::Unsettled,
                };
                self.done = self.done + 1;
                if last {
                    self.phase = ClaimPhase::Finished(over);
                }
            },
            ClaimPhase::Finished(_) => {},
        }
    }
}

impl Claim {
    /// How the attempt ended, once it is over.
    pub fn outcome(&self) -> (r: Option<ClaimOutcome>)
        ensures
            r == match self@.phase {
                ClaimPhase::Finished(outcome) => Some(outcome),
                _ => None,
            },
    {
        match &self.phase {
            ClaimPhase::Finished(outcome) => Some(
                match outcome {
                    ClaimOutcome::Claimed => ClaimOutcome::Claimed,
                    ClaimOutcome::Taken(p) => ClaimOutcome::Taken(*p),
                    ClaimOutcome::Unsettled => ClaimOutcome::Unsettled,
                },
            ),
            _ => None,
        }
    }
}

/// What follows from an attempt to claim a name.
#[derive(PartialEq, Debug)]
pub enum ClaimNext {
    /// The claim is decided.
    Finish(Result<(), ClaimError>),
    /// Try again, with the members as they are then.
    Retry,
}

/// What follows from an attempt, the `made`-th of those allowed.
pub fn after_attempt(outcome: ClaimOutcome, made: usize) -> (r: ClaimNext)
    ensures
        r == match outcome {
            ClaimOutcome::Claimed => ClaimNext::Finish(Ok::<(), ClaimError>(())),
            ClaimOutcome::Taken(p) => ClaimNext::Finish(Err(ClaimError::Taken(p))),
            ClaimOutcome::Unsettled => if made < CLAIM_RETRIES {
                ClaimNext::Retry
            } else {
                ClaimNext::Finish(Err(ClaimError::Unsettled))
            },
        },
{
    match outcome {
        ClaimOutcome::Claimed => ClaimNext::Finish(Ok(())),
        ClaimOutcome::Taken(p) => ClaimNext::Finish(Err(ClaimError::Taken(p))),
        ClaimOutcome::Unsettled => if made < CLAIM_RETRIES {
            ClaimNext::Retry
        } else {
            ClaimNext::Finish(Err(ClaimError::Unsettled))
        },
    }
}

/// Begins to claim a name: refused while a merge is in flight, and where the particle has a global
/// name already.
pub fn register(global: &GlobalNames, name: &str, pid: &Pid, cluster: &Cluster) -> (r: Result<
    Claim,
    ClaimError,
>)
    requires
        global.wf(),
    ensures
        match r {
            Ok(claim) => {
                &&& global@.merges == 0
                &&& forall|n: Seq<char>| !#[trigger] global@.owned(n, *pid)
                &&& claim.wf()
                &&& in_order(claim@.members)
                &&& claim@.members.to_multiset() == cluster@.members.push(global@.me).to_multiset()
                &&& claim@ == ClaimView::fresh(global@.me, name@, *pid, claim@.members)
            },
            Err(ClaimError::Unsettled) => global@.merges != 0,
            Err(ClaimError::AlreadyNamed(n)) => global@.merges == 0 && global@.owned(n@, *pid),
            Err(ClaimError::Taken(_)) => false,
        },
{
    if !global.is_settled() {
        return Err(ClaimError::Unsettled);
    }
    match global.name_of(pid) {
        Some(existing) => return Err(ClaimError::AlreadyNamed(existing)),
        None => {},
    }
    let members = claim_members(global.me(), cluster);
    Ok(Claim::new(global.me(), name, *pid, members))
}

/// Lookups wait for merges: none names a particle while a merge is in flight that could end with
/// its death, and once the last merge is over each gives the owner.
pub proof fn law_lookups_wait_for_merges(g: GlobalView, name: Seq<char>)
    requires
        g.merges < usize::MAX,
    ensures
        g.merging().looked_up(name) is Err,
        g.merging().merge_over().looked_up(name) == g.looked_up(name),
        g.merges > 1 ==> g.merge_over().looked_up(name) is Err,
        g.merges == 1 && g.names.contains_key(name) ==> g.merge_over().looked_up(name)
            == Ok::<Option<Pid>, LookupError>(Some(g.names[name])),
{
}

/// A lock belongs to one node at a time: while one holds it, nobody else is granted it, and the
/// holder is again.
pub proof fn law_locks_are_exclusive(g: GlobalView, name: Seq<char>, holder: NodeId, other: NodeId)
    requires
        g.lock_answer(name, holder) is Locked,
    ensures
        g.lock_asked(name, holder).lock_answer(name, holder) is Locked,
        other != holder ==> g.lock_asked(name, holder).lock_answer(name, other) is Busy,
        other != holder ==> g.lock_asked(name, holder).unlocked(name, other) == g.lock_asked(
            name,
            holder,
        ),
        g.lock_asked(name, holder).unlocked(name, holder).lock_answer(name, other) is Locked,
{
}

/// A name that is registered cannot be locked, and whoever asks is told who has it.
pub proof fn law_registered_names_are_not_locked(
    g: GlobalView,
    name: Seq<char>,
    p: Pid,
    holder: NodeId,
)
    ensures
        g.committed(name, p).lock_answer(name, holder) == ResponseView::Taken(p),
        g.committed(name, p).lock_asked(name, holder) == g.committed(name, p),
{
}

/// A particle that does not own a name cannot take it from its owner.
pub proof fn law_release_is_guarded(g: GlobalView, name: Seq<char>, owner: Pid, other: Pid)
    requires
        g.owned(name, owner),
        other != owner,
    ensures
        g.released(name, other) == g,
        !g.released(name, owner).names.contains_key(name),
{
}

proof fn lemma_merged(names: Map<Seq<char>, Pid>, theirs: Seq<(Seq<char>, Pid)>, other: Map<Seq<char>, Pid>)
    requires
        lists(theirs, other),
    ensures
        merged(names, theirs) == merged_maps(names, other),
    decreases theirs.len(),
{
    if theirs.len() == 0 {
        assert forall|n: Seq<char>| !#[trigger] other.contains_key(n) by {
            if other.contains_key(n) {
                let i = choose|i: int| 0 <= i < theirs.len() && (#[trigger] theirs[i]).0 == n;
            }
        }
    } else {
        let front = theirs.drop_last();
        let (name, p) = theirs.last();
        let less = other.remove(name);
        assert(lists(front, less)) by {
            assert forall|n: Seq<char>| #[trigger] less.contains_key(n) implies exists|i: int|
                0 <= i < front.len() && (#[trigger] front[i]).0 == n by {
                let i = choose|i: int| 0 <= i < theirs.len() && (#[trigger] theirs[i]).0 == n;
                assert(front[i].0 == n);
            }
        }
        lemma_merged(names, front, less);
    }
}

/// Two tables merged, whichever is merged into the other: a name that both have goes to the
/// lower pid.
pub open spec fn merged_maps(a: Map<Seq<char>, Pid>, b: Map<Seq<char>, Pid>) -> Map<Seq<char>, Pid> {
    Map::new(
        |n: Seq<char>| a.contains_key(n) || b.contains_key(n),
        |n: Seq<char>|
            if a.contains_key(n) && b.contains_key(n) {
                if a[n] == b[n] {
                    a[n]
                } else {
                    lower(a[n], b[n])
                }
            } else if a.contains_key(n) {
                a[n]
            } else {
                b[n]
            },
    )
}

/// Both sides of a merge come to the same result: merging B's table into A's and A's into B's
/// gives one and the same table.
pub proof fn law_both_sides_agree(
    a: Map<Seq<char>, Pid>,
    b: Map<Seq<char>, Pid>,
    list_of_a: Seq<(Seq<char>, Pid)>,
    list_of_b: Seq<(Seq<char>, Pid)>,
)
    requires
        lists(list_of_a, a),
        lists(list_of_b, b),
    ensures
        merged(a, list_of_b) == merged(b, list_of_a),
{
    lemma_merged(a, list_of_b, b);
    lemma_merged(b, list_of_a, a);
    assert forall|n: Seq<char>| merged_maps(a, b).contains_key(n) implies #[trigger] merged_maps(
        a,
        b,
    )[n] == merged_maps(b, a)[n] by {
        if a.contains_key(n) && b.contains_key(n) {
            pid::law_pid_order_total(a[n], b[n]);
        }
    }
}

/// The lower pid wins a clash, and a name that only one side had is kept.
pub proof fn law_the_lower_pid_wins(
    a: Map<Seq<char>, Pid>,
    b: Map<Seq<char>, Pid>,
    list_of_b: Seq<(Seq<char>, Pid)>,
    n: Seq<char>,
)
    requires
        lists(list_of_b, b),
    ensures
        a.contains_key(n) && b.contains_key(n) && pid::pid_less(a[n], b[n]) ==> merged(
            a,
            list_of_b,
        )[n] == a[n],
        a.contains_key(n) && b.contains_key(n) && pid::pid_less(b[n], a[n]) ==> merged(
            a,
            list_of_b,
        )[n] == b[n],
        !a.contains_key(n) && b.contains_key(n) ==> merged(a, list_of_b)[n] == b[n],
        a.contains_key(n) && !b.contains_key(n) ==> merged(a, list_of_b)[n] == a[n],
        merged(a, list_of_b).contains_key(n) <==> a.contains_key(n) || b.contains_key(n),
{
    lemma_merged(a, list_of_b, b);
    if a.contains_key(n) && b.contains_key(n) {
        pid::law_pid_order_total(a[n], b[n]);
        pid::law_pid_order_total(b[n], a[n]);
    }
}

/// Agreement is no conflict: merging a table that says the same changes nothing and kills nobody.
pub proof fn law_agreement_kills_nobody(
    me: NodeId,
    a: Map<Seq<char>, Pid>,
    theirs: Seq<(Seq<char>, Pid)>,
)
    requires
        forall|i: int|
            0 <= i < theirs.len() ==> a.contains_key((#[trigger] theirs[i]).0) && a[theirs[i].0]
                == theirs[i].1,
    ensures
        merged(a, theirs) == a,
        losers_on(me, a, theirs) == Seq::<(Seq<char>, Pid, Pid)>::empty(),
    decreases theirs.len(),
{
    if theirs.len() > 0 {
        let front = theirs.drop_last();
        assert forall|i: int| 0 <= i < front.len() implies a.contains_key((#[trigger] front[i]).0)
            && a[front[i].0] == front[i].1 by {}
        law_agreement_kills_nobody(me, a, front);
    }
}

/// A loser is reported only by the node that it lives on, so that nobody is killed twice over.
pub proof fn law_losers_are_reported_where_they_live(
    me: NodeId,
    names: Map<Seq<char>, Pid>,
    theirs: Seq<(Seq<char>, Pid)>,
)
    ensures
        forall|i: int|
            0 <= i < losers_on(me, names, theirs).len() ==> (#[trigger] losers_on(
                me,
                names,
                theirs,
            )[i]).1.node == me,
    decreases theirs.len(),
{
    if theirs.len() > 0 {
        law_losers_are_reported_where_they_live(me, names, theirs.drop_last());
        let before = losers_on(me, names, theirs.drop_last());
        assert forall|i: int| 0 <= i < losers_on(me, names, theirs).len() implies (
        #[trigger] losers_on(me, names, theirs)[i]).1.node == me by {
            if i < before.len() {
                assert(before[i].1.node == me);
            }
        }
    }
}

/// A name is written only while every member is locked, whatever the members answer.
pub proof fn law_commits_need_every_lock(c: ClaimView, reply: Option<ResponseView>)
    requires
        c.sound(),
    ensures
        c.answered(reply).sound(),
        c.phase is Committing ==> c.held == c.members.len(),
        c.phase matches ClaimPhase::Finished(ClaimOutcome::Claimed) ==> c.held == c.members.len(),
{
}

/// Every lock that was granted is given back before an attempt is over: an attempt is over only
/// when as many locks were given back as were held.
pub proof fn law_locks_are_given_back(c: ClaimView)
    requires
        c.sound(),
        c.phase is Finished,
    ensures
        c.done == c.held,
{
}

/// A refusal ends an attempt without a word being written: from locking it goes to releasing.
pub proof fn law_a_refusal_writes_nothing(c: ClaimView, reply: Option<ResponseView>)
    requires
        c.sound(),
        c.phase is Locking,
        reply != Some(ResponseView::Locked),
    ensures
        c.answered(reply).phase is Releasing || c.answered(reply).phase is Finished,
        !(c.answered(reply).phase matches ClaimPhase::Releasing(ClaimOutcome::Claimed)),
        !(c.answered(reply).phase matches ClaimPhase::Finished(ClaimOutcome::Claimed)),
{
}

/// A claim that has locked a member, and has not begun to give locks back, is known there as the
/// holder. `at` is where the member stands among those of the claim, and `g` what the member
/// knows.
pub open spec fn backed(c: ClaimView, at: int, g: GlobalView) -> bool {
    (c.phase is Locking || c.phase is Committing) && 0 <= at < c.held ==> g.locks.contains_key(
        c.name,
    ) && g.locks[c.name] == c.me
}

/// What a claim is at, and what the member that it asks next knows, after that request.
pub open spec fn stepped(c: ClaimView, g: GlobalView) -> (ClaimView, GlobalView) {
    match c.request() {
        Some((_, req)) => {
            let answer = match req {
                RequestView::Lock { name, holder } => g.lock_answer(name, holder),
                _ => ResponseView::Done,
            };
            (
                c.answered(Some(answer)),
                g.applied(req),
            )
        },
        None => (c, g),
    }
}

/// Every claim on a member's books stays backed by it: a step of the claim keeps it so, and so
/// does a step of a claim from another node.
pub proof fn law_claims_stay_backed(
    c: ClaimView,
    at: int,
    other: ClaimView,
    other_at: int,
    g: GlobalView,
)
    requires
        c.sound(),
        other.sound(),
        c.me != other.me,
        at == c.done,
        backed(c, at, g),
        backed(other, other_at, g),
    ensures
        backed(stepped(c, g).0, at, stepped(c, g).1),
        backed(other, other_at, stepped(c, g).1),
{
}

/// No two nodes write a name at the same time: of two claims that share a member, only one can
/// have every lock.
pub proof fn law_two_nodes_never_write_together(
    c: ClaimView,
    at: int,
    other: ClaimView,
    other_at: int,
    g: GlobalView,
)
    requires
        c.sound(),
        other.sound(),
        c.name == other.name,
        c.me != other.me,
        0 <= at < c.members.len(),
        0 <= other_at < other.members.len(),
        c.members[at] == other.members[other_at],
        backed(c, at, g),
        backed(other, other_at, g),
    ensures
        !(c.phase is Committing && other.phase is Committing),
{
}

/// A name that was written is not granted again: a claim that asks a member which has the name
/// is told who owns it, and ends without writing.
pub proof fn law_written_names_end_later_claims(c: ClaimView, owner: Pid, g: GlobalView)
    requires
        c.sound(),
        c.phase is Locking,
        g.owned(c.name, owner),
    ensures
        stepped(c, g).1 == g,
        stepped(c, g).0.phase == ClaimPhase::Releasing(ClaimOutcome::Taken(owner))
            || stepped(c, g).0.phase == ClaimPhase::Finished(
            ClaimOutcome::Taken(owner),
        ),
{
}

/// The loser of a clash is reported by the node that it lives on.
pub proof fn law_losers_are_reported(
    me: NodeId,
    a: Map<Seq<char>, Pid>,
    b: Map<Seq<char>, Pid>,
    list_of_b: Seq<(Seq<char>, Pid)>,
    n: Seq<char>,
)
    requires
        lists(list_of_b, b),
        a.contains_key(n),
        b.contains_key(n),
        a[n] != b[n],
        higher(a[n], b[n]).node == me,
    ensures
        losers_on(me, a, list_of_b).contains((n, higher(a[n], b[n]), lower(a[n], b[n]))),
    decreases list_of_b.len(),
{
    let i = choose|i: int| 0 <= i < list_of_b.len() && (#[trigger] list_of_b[i]).0 == n;
    let front = list_of_b.drop_last();
    let (name, p) = list_of_b.last();
    let less = b.remove(name);
    assert(lists(front, less)) by {
        assert forall|k: Seq<char>| #[trigger] less.contains_key(k) implies exists|j: int|
            0 <= j < front.len() && (#[trigger] front[j]).0 == k by {
            let j = choose|j: int| 0 <= j < list_of_b.len() && (#[trigger] list_of_b[j]).0 == k;
            assert(front[j].0 == k);
        }
    }
    let before = losers_on(me, a, front);
    let all = losers_on(me, a, list_of_b);
    let word = (n, higher(a[n], b[n]), lower(a[n], b[n]));
    if name == n {
        lemma_merged(a, front, less);
        assert(all[all.len() - 1] == word);
    } else {
        law_losers_are_reported(me, a, less, front, n);
        let j = choose|j: int| 0 <= j < before.len() && before[j] == word;
        assert(all[j] == word);
    }
}

proof fn lemma_losers_die(m: RegistryView, losers: Seq<(Seq<char>, Pid, Pid)>, i: int)
    requires
        m.sound(),
        0 <= i < losers.len(),
    ensures
        losers_killed(m, losers).sound(),
        !losers_killed(m, losers).states.contains_key(losers[i].1),
    decreases losers.len(),
{
    let front = losers.drop_last();
    let before = losers_killed(m, front);
    let (_, loser, winner) = losers.last();
    if front.len() > 0 {
        lemma_losers_die(m, front, if i < front.len() { i } else { 0 });
    }
    exit_laws::lemma_exit_ends(before, loser, ExitReason::Killed);
}

/// Exactly one particle keeps a name that two had: the loser of a clash does not outlive the
/// merge on the node that it lives on, whether or not it traps exits.
pub proof fn law_losers_are_killed(
    me: NodeId,
    m: RegistryView,
    a: Map<Seq<char>, Pid>,
    b: Map<Seq<char>, Pid>,
    list_of_b: Seq<(Seq<char>, Pid)>,
    n: Seq<char>,
)
    requires
        m.sound(),
        lists(list_of_b, b),
        a.contains_key(n),
        b.contains_key(n),
        a[n] != b[n],
        higher(a[n], b[n]).node == me,
    ensures
        !losers_killed(m, losers_on(me, a, list_of_b)).states.contains_key(higher(a[n], b[n])),
{
    law_losers_are_reported(me, a, b, list_of_b, n);
    let losers = losers_on(me, a, list_of_b);
    let word = (n, higher(a[n], b[n]), lower(a[n], b[n]));
    let i = choose|i: int| 0 <= i < losers.len() && losers[i] == word;
    lemma_losers_die(m, losers, i);
}

/// A name does not outlive its owner: once the name of a dead particle is given up, nothing
/// belongs to it, nobody else lost anything, and the name can be claimed again where it is not
/// locked.
pub proof fn law_names_do_not_outlive_their_owner(
    g: GlobalView,
    name: Seq<char>,
    p: Pid,
    holder: NodeId,
)
    requires
        g.owned(name, p),
        forall|n: Seq<char>| #[trigger] g.owned(n, p) ==> n == name,
    ensures
        forall|n: Seq<char>| !#[trigger] g.released(name, p).owned(n, p),
        forall|n: Seq<char>, q: Pid|
            q != p ==> (#[trigger] g.released(name, p).owned(n, q) <==> g.owned(n, q)),
        !g.locks.contains_key(name) ==> g.released(name, p).lock_answer(name, holder) is Locked,
{
    assert forall|n: Seq<char>| !#[trigger] g.released(name, p).owned(n, p) by {
        if g.released(name, p).owned(n, p) {
            assert(g.owned(n, p));
        }
    }
}

} // verus!
