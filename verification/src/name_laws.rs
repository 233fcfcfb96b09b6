//! What becomes of names: across the cluster, in what other nodes announce, and in what a
//! document tells of them.

use crate::doc_registry;
use crate::doc_registry::{CacheView, DocEntry, KeyView, RemoteView, ResolvedView};
use crate::global;
use crate::global::{
    ClaimOutcome,
    ClaimPhase,
    ClaimView,
    GlobalView,
    LookupError,
    RequestView,
    ResponseView,
};
use crate::gossip::{GossipView, RegistryMessage};
use crate::host;
use crate::pid;
use crate::pid::{NodeId, Pid};
use crate::registry::RegistryView;
use vstd::prelude::*;

verus! {

/// A name that is written is found, under the pid that it was written for, and nothing else
/// changes.
pub proof fn law_written_names_are_found(g: GlobalView, name: Seq<char>, p: Pid, other: Seq<char>)
    ensures
        ({
            let after = g.committed(name, p);
            &&& g.merges == 0 ==> after.looked_up(name) == Ok::<Option<Pid>, LookupError>(Some(p))
            &&& after.names.contains_key(name) && after.names[name] == p
            &&& other != name ==> after.looked_up(other) == g.looked_up(other)
            &&& after.locks == g.locks && after.merges == g.merges && after.me == g.me
        }),
{
}

/// A name that its owner gives up is found no more, and nothing else changes.
pub proof fn law_given_up_names_are_not_found(
    g: GlobalView,
    name: Seq<char>,
    p: Pid,
    other: Seq<char>,
)
    requires
        g.names.contains_key(name),
        g.names[name] == p,
    ensures
        ({
            let after = g.released(name, p);
            &&& g.owned(name, p)
            &&& g.merges == 0 ==> after.looked_up(name) == Ok::<Option<Pid>, LookupError>(None)
            &&& !after.names.contains_key(name)
            &&& other != name ==> after.looked_up(other) == g.looked_up(other)
            &&& after.locks == g.locks && after.merges == g.merges
        }),
{
}

/// A lookup is answered with what is registered once the node has settled, and not before.
pub proof fn law_lookups_tell_what_is_registered(g: GlobalView, name: Seq<char>)
    ensures
        g.merges > 0 ==> g.looked_up(name) is Err,
        g.merges == 0 ==> (g.looked_up(name) matches Ok(found) && (found is Some
            <==> g.names.contains_key(name)) && (found matches Some(p) ==> p == g.names[name])),
{
}

/// A lock is refused for a name that is registered, with its owner, and for one that another
/// holder has locked; otherwise it is given. It is noted for that name and that holder alone.
pub proof fn law_locks_are_given_where_they_can_be(
    g: GlobalView,
    name: Seq<char>,
    holder: NodeId,
    other: Seq<char>,
)
    ensures
        ({
            let taken = g.names.contains_key(name);
            let busy = g.locks.contains_key(name) && g.locks[name] != holder;
            let after = g.lock_asked(name, holder);
            let freed = g.unlocked(name, holder);
            &&& taken ==> g.lock_answer(name, holder) == ResponseView::Taken(g.names[name])
            &&& !taken && busy ==> g.lock_answer(name, holder) is Busy
            &&& !taken && !busy ==> g.lock_answer(name, holder) is Locked
            &&& !taken && !busy ==> after.locks.contains_key(name) && after.locks[name] == holder
            &&& taken || busy ==> after == g
            &&& after.names == g.names && freed.names == g.names
            &&& other != name ==> (after.locks.contains_key(other) <==> g.locks.contains_key(other))
                && after.locks[other] == g.locks[other]
            &&& other != name ==> (freed.locks.contains_key(other) <==> g.locks.contains_key(other))
                && freed.locks[other] == g.locks[other]
            &&& g.locks.contains_key(name) && g.locks[name] == holder
                ==> !freed.locks.contains_key(name)
            &&& busy ==> freed == g
        }),
{
}

/// What another node asks for is done: a name is locked, written, freed or given up, each as it
/// says; a synchronisation changes nothing by itself.
pub proof fn law_requests_do_what_they_say(g: GlobalView, name: Seq<char>, p: Pid, holder: NodeId)
    ensures
        ({
            let locked = g.applied(RequestView::Lock { name, holder });
            let written = g.applied(RequestView::Commit { name, pid: p, holder });
            let freed = g.applied(RequestView::Unlock { name, holder });
            let given_up = g.applied(RequestView::Release { name, pid: p });
            &&& !g.names.contains_key(name) && !g.locks.contains_key(name)
                ==> locked.locks.contains_key(name) && locked.locks[name] == holder
            &&& locked.names == g.names && freed.names == g.names
            &&& written.names.contains_key(name) && written.names[name] == p
            &&& forall|n: Seq<char>|
                n != name ==> (#[trigger] written.names.contains_key(n) <==> g.names.contains_key(n))
                    && written.names[n] == g.names[n]
            &&& g.locks.contains_key(name) && g.locks[name] == holder
                ==> !freed.locks.contains_key(name)
            &&& g.names.contains_key(name) && g.names[name] == p
                ==> !given_up.names.contains_key(name)
            &&& g.names.contains_key(name) && g.names[name] != p ==> given_up == g
            &&& forall|names: Seq<(Seq<char>, Pid)>|
                #[trigger] g.applied(RequestView::Sync { names }) == g
        }),
{
}

/// What all members are asked, each one is asked once, and nobody else is.
pub proof fn law_requests_go_to_everybody(nodes: Seq<NodeId>, req: RequestView, n: NodeId)
    requires
        nodes.no_duplicates(),
    ensures
        ({
            let asked = global::to_all(nodes, req);
            &&& asked.len() == nodes.len()
            &&& asked.contains((n, req)) <==> nodes.contains(n)
            &&& forall|i: int|
                0 <= i < asked.len() ==> (#[trigger] asked[i]).1 == req && nodes.contains(
                    asked[i].0,
                )
            &&& forall|i: int, j: int|
                0 <= i < j < asked.len() ==> (#[trigger] asked[i]).0 != (#[trigger] asked[j]).0
        }),
{
    let asked = global::to_all(nodes, req);
    if nodes.contains(n) {
        let i = choose|i: int| 0 <= i < nodes.len() && nodes[i] == n;
        assert(asked[i] == (n, req));
    }
    if asked.contains((n, req)) {
        let i = choose|i: int| 0 <= i < asked.len() && asked[i] == (n, req);
        assert(nodes[i] == n);
    }
}

/// Pids are ordered by their node, byte by byte, and on one node by their number.
pub proof fn law_how_pids_are_ordered(a: Pid, b: Pid)
    ensures
        a.node == b.node ==> (pid::pid_less(a, b) <==> a.seq < b.seq),
        a.node != b.node ==> (pid::pid_less(a, b) <==> exists|i: int| #[trigger]
            first_differs(a.node.bytes(), b.node.bytes(), i)),
{
    if a.node != b.node {
        lemma_less(a.node.bytes(), b.node.bytes());
    }
}

/// Members that are in order are asked from the lowest node on, byte by byte.
pub proof fn law_members_are_asked_from_the_lowest(nodes: Seq<NodeId>, i: int, j: int)
    requires
        global::in_order(nodes),
        0 <= i < j < nodes.len(),
        nodes[i] != nodes[j],
    ensures
        exists|k: int| #[trigger] first_differs(nodes[i].bytes(), nodes[j].bytes(), k),
{
    pid::lemma_node_order(nodes[i], nodes[j]);
    lemma_less(nodes[i].bytes(), nodes[j].bytes());
}

/// The first byte in which one sequence differs from another is lower in it, or missing.
pub open spec fn first_differs(a: Seq<u8>, b: Seq<u8>, i: int) -> bool {
    &&& 0 <= i <= a.len()
    &&& i < b.len()
    &&& forall|j: int| 0 <= j < i ==> a[j] == #[trigger] b[j]
    &&& i < a.len() ==> a[i] < b[i]
}

proof fn lemma_less(a: Seq<u8>, b: Seq<u8>)
    ensures
        pid::bytes_less(a, b) <==> exists|i: int| #[trigger] first_differs(a, b, i),
    decreases a.len(),
{
    if a.len() == 0 {
        if b.len() > 0 {
            assert(first_differs(a, b, 0));
        }
    } else if b.len() > 0 {
        let x = a.skip(1);
        let y = b.skip(1);
        lemma_less(x, y);
        if a[0] == b[0] {
            if pid::bytes_less(x, y) {
                let i = choose|i: int| #[trigger] first_differs(x, y, i);
                assert forall|j: int| 0 <= j < i + 1 implies a[j] == #[trigger] b[j] by {
                    if j > 0 {
                        assert(x[j - 1] == y[j - 1]);
                    }
                }
                assert(first_differs(a, b, i + 1));
            }
            if exists|i: int| #[trigger] first_differs(a, b, i) {
                let i = choose|i: int| #[trigger] first_differs(a, b, i);
                assert(i > 0);
                assert forall|j: int| 0 <= j < i - 1 implies x[j] == #[trigger] y[j] by {
                    assert(a[j + 1] == b[j + 1]);
                }
                assert(first_differs(x, y, i - 1));
            }
        } else {
            if a[0] < b[0] {
                assert(first_differs(a, b, 0));
            }
            if exists|i: int| #[trigger] first_differs(a, b, i) {
                let i = choose|i: int| #[trigger] first_differs(a, b, i);
                if i > 0 {
                    assert(a[0] == b[0]);
                }
            }
        }
    }
}

/// When two nodes' names are put together, a particle is reported as a loser only where both had
/// the name for different particles, where it lives here, and where the other one has the lower
/// pid.
pub proof fn law_only_losers_are_reported(
    me: NodeId,
    a: Map<Seq<char>, Pid>,
    b: Map<Seq<char>, Pid>,
    theirs: Seq<(Seq<char>, Pid)>,
    i: int,
)
    requires
        global::lists(theirs, b),
        0 <= i < global::losers_on(me, a, theirs).len(),
    ensures
        ({
            let (name, loser, winner) = global::losers_on(me, a, theirs)[i];
            &&& loser.node == me
            &&& a.contains_key(name) && b.contains_key(name)
            &&& (loser == a[name] && winner == b[name]) || (loser == b[name] && winner == a[name])
            &&& pid::pid_less(winner, loser)
        }),
    decreases theirs.len(),
{
    lemma_losers(me, a, theirs, i);
    let (name, loser, winner) = global::losers_on(me, a, theirs)[i];
    let k = choose|k: int|
        0 <= k < theirs.len() && (#[trigger] theirs[k]).0 == name && ((loser == a[name] && winner
            == theirs[k].1) || (loser == theirs[k].1 && winner == a[name]));
    assert(b[theirs[k].0] == theirs[k].1);
}

proof fn lemma_merged_elsewhere(a: Map<Seq<char>, Pid>, theirs: Seq<(Seq<char>, Pid)>, name: Seq<char>)
    requires
        forall|j: int| 0 <= j < theirs.len() ==> (#[trigger] theirs[j]).0 != name,
    ensures
        global::merged(a, theirs).contains_key(name) <==> a.contains_key(name),
        global::merged(a, theirs)[name] == a[name],
    decreases theirs.len(),
{
    if theirs.len() > 0 {
        let init = theirs.drop_last();
        assert forall|j: int| 0 <= j < init.len() implies (#[trigger] init[j]).0 != name by {
            assert(init[j] == theirs[j]);
        }
        lemma_merged_elsewhere(a, init, name);
        assert(theirs[theirs.len() - 1].0 != name);
    }
}

proof fn lemma_losers(me: NodeId, a: Map<Seq<char>, Pid>, theirs: Seq<(Seq<char>, Pid)>, i: int)
    requires
        forall|i: int, j: int|
            0 <= i < j < theirs.len() ==> (#[trigger] theirs[i]).0 != (#[trigger] theirs[j]).0,
        0 <= i < global::losers_on(me, a, theirs).len(),
    ensures
        ({
            let (name, loser, winner) = global::losers_on(me, a, theirs)[i];
            &&& loser.node == me
            &&& a.contains_key(name)
            &&& pid::pid_less(winner, loser)
            &&& exists|k: int|
                0 <= k < theirs.len() && (#[trigger] theirs[k]).0 == name && ((loser == a[name]
                    && winner == theirs[k].1) || (loser == theirs[k].1 && winner == a[name]))
        }),
    decreases theirs.len(),
{
    let init = theirs.drop_last();
    let last = theirs.len() - 1;
    let before = global::losers_on(me, a, init);
    if i < before.len() {
        assert forall|i: int, j: int| 0 <= i < j < init.len() implies (#[trigger] init[i]).0 != (
        #[trigger] init[j]).0 by {
            assert(theirs[i].0 != theirs[j].0);
        }
        lemma_losers(me, a, init, i);
        let (name, loser, winner) = before[i];
        let k = choose|k: int|
            0 <= k < init.len() && (#[trigger] init[k]).0 == name && ((loser == a[name] && winner
                == init[k].1) || (loser == init[k].1 && winner == a[name]));
        assert(theirs[k] == init[k]);
    } else {
        let (name, p) = theirs[last];
        assert forall|j: int| 0 <= j < init.len() implies (#[trigger] init[j]).0 != name by {
            assert(theirs[j].0 != theirs[last].0);
        }
        lemma_merged_elsewhere(a, init, name);
        pid::law_pid_order_total(a[name], p);
        assert(theirs[last].0 == name);
    }
}

/// A claim that has had so many answers, each of them a lock or an acknowledgement.
pub open spec fn granted(c: ClaimView, answers: nat) -> ClaimView
    decreases answers,
{
    if answers == 0 {
        c
    } else {
        granted(c, (answers - 1) as nat).answered(Some(ResponseView::Locked))
    }
}

proof fn lemma_granted(me: NodeId, name: Seq<char>, p: Pid, members: Seq<NodeId>, k: nat)
    requires
        members.len() > 0,
        k <= 3 * members.len(),
    ensures
        ({
            let n = members.len();
            let c = granted(ClaimView::fresh(me, name, p, members), k);
            &&& c.me == me && c.name == name && c.pid == p && c.members == members
            &&& k < n ==> c.phase is Locking && c.held == k && c.done == k
            &&& n <= k < 2 * n ==> c.phase is Committing && c.held == n && c.done == k - n
            &&& 2 * n <= k < 3 * n ==> c.phase == ClaimPhase::Releasing(ClaimOutcome::Claimed)
                && c.held == n && c.done == k - 2 * n
            &&& k == 3 * n ==> c.phase == ClaimPhase::Finished(ClaimOutcome::Claimed)
        }),
    decreases k,
{
    if k > 0 {
        lemma_granted(me, name, p, members, (k - 1) as nat);
    }
}

/// A claim that everybody grants locks the name with each member, in their order, then writes it
/// for its particle with each of them, then frees each of them, and has then succeeded.
pub proof fn law_a_granted_claim_is_written_everywhere(
    me: NodeId,
    name: Seq<char>,
    p: Pid,
    members: Seq<NodeId>,
    i: int,
)
    requires
        0 <= i < members.len(),
    ensures
        ({
            let n = members.len() as int;
            let c = ClaimView::fresh(me, name, p, members);
            &&& granted(c, i as nat).request() == Some(
                (members[i], RequestView::Lock { name, holder: me }),
            )
            &&& granted(c, (n + i) as nat).request() == Some(
                (members[i], RequestView::Commit { name, pid: p, holder: me }),
            )
            &&& granted(c, (2 * n + i) as nat).request() == Some(
                (members[i], RequestView::Unlock { name, holder: me }),
            )
            &&& granted(c, (3 * n) as nat).request() is None
            &&& granted(c, (3 * n) as nat).phase == ClaimPhase::Finished(ClaimOutcome::Claimed)
        }),
{
    let n = members.len() as int;
    lemma_granted(me, name, p, members, i as nat);
    lemma_granted(me, name, p, members, (n + i) as nat);
    lemma_granted(me, name, p, members, (2 * n + i) as nat);
    lemma_granted(me, name, p, members, (3 * n) as nat);
}

/// Once every member has locked the name, nothing that a member answers or fails to answer stops
/// the claim: it goes on to the next one.
pub proof fn law_a_backed_claim_goes_on(c: ClaimView, reply: Option<ResponseView>)
    requires
        c.phase is Committing || c.phase is Releasing,
    ensures
        c.answered(reply) == c.answered(Some(ResponseView::Locked)),
        c.done + 1 < c.held ==> c.answered(reply).done == c.done + 1 && c.answered(reply).phase
            == c.phase,
{
}

/// A claim that is refused by a member frees those that it has locked, one by one from the first,
/// and ends with what stood in its way: the owner of the name, or that it could not be settled.
pub proof fn law_a_refused_claim_frees_what_it_locked(
    c: ClaimView,
    reply: Option<ResponseView>,
    i: nat,
)
    requires
        c.sound(),
        c.phase is Locking,
        reply != Some(ResponseView::Locked),
        i <= c.held,
    ensures
        ({
            let outcome = match reply {
                Some(ResponseView::Taken(p)) => ClaimOutcome::Taken(p),
                _ => ClaimOutcome::Unsettled,
            };
            let then = granted(c.answered(reply), i);
            &&& i < c.held ==> then.request() == Some(
                (c.members[i as int], RequestView::Unlock { name: c.name, holder: c.me }),
            )
            &&& i == c.held ==> then.phase == ClaimPhase::Finished(outcome)
        }),
{
    lemma_refused(c, reply, i);
}

proof fn lemma_refused(c: ClaimView, reply: Option<ResponseView>, i: nat)
    requires
        c.sound(),
        c.phase is Locking,
        reply != Some(ResponseView::Locked),
        i <= c.held,
    ensures
        ({
            let outcome = match reply {
                Some(ResponseView::Taken(p)) => ClaimOutcome::Taken(p),
                _ => ClaimOutcome::Unsettled,
            };
            let then = granted(c.answered(reply), i);
            &&& then.me == c.me && then.name == c.name && then.members == c.members
                && then.held == c.held
            &&& i < c.held ==> then.phase == ClaimPhase::Releasing(outcome) && then.done == i
            &&& i == c.held ==> then.phase == ClaimPhase::Finished(outcome)
        }),
    decreases i,
{
    if i > 0 {
        lemma_refused(c, reply, (i - 1) as nat);
    }
}

/// What another node says of a particle that came up is known from then on, under its pid and
/// under its name, and nothing else changes.
pub proof fn law_announced_particles_are_known(
    g: GossipView,
    local: RegistryView,
    p: Pid,
    behavior: String,
    name: Option<String>,
    node: NodeId,
    addr: iroh::EndpointAddr,
    q: Pid,
    other: Seq<char>,
)
    requires
        node != g.me,
    ensures
        ({
            let up = RegistryMessage::ProcessUp { pid: p, behavior, name, node, addr };
            let after = g.told(local, up);
            &&& after.pids.contains_key(p)
            &&& after.pids[p].pid == p && after.pids[p].behavior == behavior@ && after.pids[p].node
                == node && after.pids[p].addr == addr
            &&& after.pids[p].name == (match name {
                Some(n) => Some(n@),
                None => None,
            })
            &&& name matches Some(n) ==> after.names.contains_key(n@) && after.names[n@]
                == after.pids[p]
            &&& q != p ==> (after.pids.contains_key(q) <==> g.pids.contains_key(q))
                && after.pids[q] == g.pids[q]
            &&& !(name matches Some(n) && n@ == other) ==> (after.names.contains_key(other)
                <==> g.names.contains_key(other)) && after.names[other] == g.names[other]
        }),
{
}

/// A particle that went down is known no more, and everybody else still is; a name that its node
/// gives up is known no more, and every other one still is.
pub proof fn law_downs_and_releases_touch_one(
    g: GossipView,
    local: RegistryView,
    p: Pid,
    node: NodeId,
    q: Pid,
    name: String,
    other: Seq<char>,
)
    requires
        node != g.me,
    ensures
        ({
            let down = g.told(local, RegistryMessage::ProcessDown { pid: p, node });
            let released = g.told(local, RegistryMessage::ReleaseName { name, node });
            &&& !down.pids.contains_key(p)
            &&& q != p ==> (down.pids.contains_key(q) <==> g.pids.contains_key(q)) && down.pids[q]
                == g.pids[q]
            &&& !(g.pids.contains_key(p) && g.pids[p].name == Some(other)) ==> (
            down.names.contains_key(other) <==> g.names.contains_key(other)) && down.names[other]
                == g.names[other]
            &&& g.pids.contains_key(p) && g.pids[p].name == Some(other)
                ==> !down.names.contains_key(other)
            &&& g.names.contains_key(name@) && g.names[name@].node == node
                ==> !released.names.contains_key(name@)
            &&& other != name@ ==> (released.names.contains_key(other) <==> g.names.contains_key(
                other,
            )) && released.names[other] == g.names[other]
            &&& released.pids == g.pids
        }),
{
}

/// A name that another node claims is taken in only for a particle that is known, and only where
/// nobody has it, here or elsewhere.
pub proof fn law_claims_do_not_take_names_away(
    g: GossipView,
    local: RegistryView,
    name: String,
    p: Pid,
    node: NodeId,
    timestamp: u64,
    other: Seq<char>,
)
    ensures
        ({
            let claim = RegistryMessage::ClaimName { name, pid: p, node, timestamp };
            let after = g.told(local, claim);
            let free = !local.names.contains_key(name@) && !g.names.contains_key(name@);
            &&& free && node != g.me && g.pids.contains_key(p) ==> after.names.contains_key(name@)
                && after.names[name@] == g.pids[p]
            &&& !free || !g.pids.contains_key(p) ==> after == g
            &&& other != name@ ==> (after.names.contains_key(other) <==> g.names.contains_key(other))
                && after.names[other] == g.names[other]
            &&& after.pids == g.pids
        }),
{
}

/// What is known of a particle is kept in the document under its pid and under its name, each
/// marked as what it is.
pub proof fn law_how_document_keys_are_written(s: Seq<char>)
    ensures
        doc_registry::rendered(KeyView::Pid(s)) == "pid/"@ + s,
        doc_registry::rendered(KeyView::Name(s)) == "name/"@ + s,
        doc_registry::parsed_key(s) is Some <==> host::has_prefix(s, "pid/"@) || host::has_prefix(
            s,
            "name/"@,
        ),
{
}

/// A name resolves to the particle of this node that has it, else to the one elsewhere that was
/// announced under it, else to nothing; and so does a pid.
pub proof fn law_what_is_here_comes_first(
    me: NodeId,
    local: RegistryView,
    c: CacheView,
    name: Seq<char>,
    p: Pid,
)
    ensures
        ({
            let found = doc_registry::resolved_name(local, c, name);
            &&& local.names.contains_key(name) ==> found == Some(
                ResolvedView::Local(local.names[name]),
            )
            &&& !local.names.contains_key(name) && c.names.contains_key(name) ==> found == Some(
                ResolvedView::Remote(c.names[name]),
            )
            &&& !local.names.contains_key(name) && !c.names.contains_key(name) ==> found is None
        }),
        ({
            let found = doc_registry::resolved_pid(me, local, c, p);
            let here = p.node == me && local.entries.contains_key(p);
            &&& here ==> found == Some(ResolvedView::Local(p))
            &&& !here && c.pids.contains_key(p) ==> found == Some(ResolvedView::Remote(c.pids[p]))
            &&& !here && !c.pids.contains_key(p) ==> found is None
        }),
{
}

/// What is written into the document for a particle is read back as that particle: its first key
/// is that of its pid, and the second, where it has a name, that of its name.
pub proof fn law_announcements_are_read_back(p: Pid, name: Option<Seq<char>>)
    requires
        pid::is_public_key(p.node.bytes()),
    ensures
        ({
            let keys = doc_registry::keys_of(p, name);
            &&& keys.len() == (if name is Some {
                2nat
            } else {
                1
            })
            &&& doc_registry::parsed_key(keys[0]) matches Some(KeyView::Pid(s))
                && doc_registry::pid_of_key(s) == Some(p)
            &&& name matches Some(n) ==> doc_registry::parsed_key(keys[1]) == Some(KeyView::Name(n))
        }),
{
    let key = KeyView::Pid(pid::key_text(p.node.bytes(), p.seq));
    doc_registry::law_keys_read_back(key);
    if let Some(n) = name {
        doc_registry::law_keys_read_back(KeyView::Name(n));
    }
    lemma_pid_key(p);
}

proof fn lemma_pid_key(p: Pid)
    requires
        pid::is_public_key(p.node.bytes()),
    ensures
        doc_registry::pid_of_key(pid::key_text(p.node.bytes(), p.seq)) == Some(p),
{
    broadcast use pid::lemma_node_bytes;

    let s = pid::key_text(p.node.bytes(), p.seq);
    assert(p.node.bytes().len() == 32);
    pid::law_key_roundtrip(p.node.bytes(), p.seq);
    let n = choose|n: NodeId| #[trigger] n.bytes() == p.node.bytes();
    assert(p.node.bytes() == p.node.bytes());
    assert(n.bytes() == p.node.bytes());
    assert(n == p.node);
}

/// A particle that another node has announced is found here, by its pid and by its name, with all
/// that was announced of it, unless a particle of this node has that name.
pub proof fn law_announced_particles_are_resolved(
    me: NodeId,
    local: RegistryView,
    c: CacheView,
    r: RemoteView,
)
    requires
        pid::is_public_key(r.pid.node.bytes()),
        r.pid.node != me,
    ensures
        ({
            let under_pid = c.inserted(
                KeyView::Pid(pid::key_text(r.pid.node.bytes(), r.pid.seq)),
                r,
            );
            let known = match r.name {
                Some(n) => under_pid.inserted(KeyView::Name(n), r),
                None => under_pid,
            };
            &&& doc_registry::resolved_pid(me, local, known, r.pid) == Some(ResolvedView::Remote(r))
            &&& r.name matches Some(n) ==> (!local.names.contains_key(n)
                ==> doc_registry::resolved_name(local, known, n) == Some(ResolvedView::Remote(r)))
        }),
{
    lemma_pid_key(r.pid);
}

/// What is taken in or dropped under one key touches nothing under another.
pub proof fn law_keys_are_independent(
    c: CacheView,
    p: Pid,
    name: Seq<char>,
    r: RemoteView,
    q: Pid,
    other: Seq<char>,
)
    requires
        pid::is_public_key(p.node.bytes()),
    ensures
        ({
            let key = KeyView::Pid(pid::key_text(p.node.bytes(), p.seq));
            let put = c.inserted(key, r);
            let dropped = c.removed(key);
            &&& put.pids.contains_key(p) && put.pids[p] == r
            &&& !dropped.pids.contains_key(p)
            &&& put.names == c.names && dropped.names == c.names
            &&& q != p ==> (put.pids.contains_key(q) <==> c.pids.contains_key(q)) && put.pids[q]
                == c.pids[q]
            &&& q != p ==> (dropped.pids.contains_key(q) <==> c.pids.contains_key(q))
                && dropped.pids[q] == c.pids[q]
        }),
        ({
            let key = KeyView::Name(name);
            let put = c.inserted(key, r);
            let dropped = c.removed(key);
            &&& put.names.contains_key(name) && put.names[name] == r
            &&& !dropped.names.contains_key(name)
            &&& put.pids == c.pids && dropped.pids == c.pids
            &&& other != name ==> (put.names.contains_key(other) <==> c.names.contains_key(other))
                && put.names[other] == c.names[other]
            &&& other != name ==> (dropped.names.contains_key(other) <==> c.names.contains_key(
                other,
            )) && dropped.names[other] == c.names[other]
        }),
{
    lemma_pid_key(p);
}

/// An entry of the document is fetched where it has content and a key of a particle, is a deletion
/// where it has a key of a particle and no content, and is otherwise passed over.
pub proof fn law_what_is_done_with_an_entry(key: Seq<u8>, content_len: u64)
    ensures
        ({
            let step = doc_registry::insert_step(key, content_len);
            let text = vstd::utf8::decode_utf8(key);
            let ours = host::has_prefix(text, "pid/"@) || host::has_prefix(text, "name/"@);
            &&& step is BadKey <==> !vstd::utf8::valid_utf8(key)
            &&& step is NotOurs <==> vstd::utf8::valid_utf8(key) && !ours
            &&& step is Evicted <==> vstd::utf8::valid_utf8(key) && ours && content_len == 0
            &&& step is Fetch <==> vstd::utf8::valid_utf8(key) && ours && content_len > 0
        }),
{
}

/// An entry says that a particle has a name.
pub open spec fn says_name(e: DocEntry, n: Seq<char>, r: RemoteView) -> bool {
    &&& e.content matches Some(x) && x@ == r
    &&& doc_registry::place_of(e) == Some(KeyView::Name(n))
}

/// An entry says that a particle has a pid.
pub open spec fn says_pid(e: DocEntry, p: Pid, r: RemoteView) -> bool {
    &&& e.content matches Some(x) && x@ == r
    &&& doc_registry::place_of(e) matches Some(KeyView::Pid(s)) && doc_registry::pid_of_key(s)
        == Some(p)
}

/// What comes back from the document is in the document: nothing is cached that no entry says.
pub proof fn law_nothing_is_made_up(me: NodeId, entries: Seq<DocEntry>, n: Seq<char>, p: Pid)
    ensures
        ({
            let c = doc_registry::rebuilt(me, entries);
            &&& c.names.contains_key(n) ==> exists|i: int|
                0 <= i < entries.len() && says_name(#[trigger] entries[i], n, c.names[n])
            &&& c.pids.contains_key(p) ==> exists|i: int|
                0 <= i < entries.len() && says_pid(#[trigger] entries[i], p, c.pids[p])
        }),
    decreases entries.len(),
{
    let c = doc_registry::rebuilt(me, entries);
    if entries.len() > 0 {
        let init = entries.drop_last();
        let last = entries.len() - 1;
        let before = doc_registry::rebuilt(me, init);
        law_nothing_is_made_up(me, init, n, p);
        if c.names.contains_key(n) && !says_name(entries[last], n, c.names[n]) {
            assert(before.names.contains_key(n) && before.names[n] == c.names[n]);
            let i = choose|i: int|
                0 <= i < init.len() && says_name(#[trigger] init[i], n, before.names[n]);
            assert(entries[i] == init[i]);
        }
        if c.pids.contains_key(p) && !says_pid(entries[last], p, c.pids[p]) {
            assert(before.pids.contains_key(p) && before.pids[p] == c.pids[p]);
            let i = choose|i: int|
                0 <= i < init.len() && says_pid(#[trigger] init[i], p, before.pids[p]);
            assert(entries[i] == init[i]);
        }
    }
}

} // verus!
