//! What a supervisor does to the siblings of a child that it restarts: who is stopped, who is
//! started, and in which order.

use crate::supervisor;
use crate::supervisor::{Action, ChildSpec, ExitReason, Restart, Strategy, SupervisorView};
use vstd::prelude::*;

verus! {

/// The children that a strategy restarts along with one that exited.
pub open spec fn restarts_with(strategy: Strategy, idx: int, c: int) -> bool {
    match strategy {
        Strategy::OneForOne => c == idx,
        Strategy::OneForAll => true,
        Strategy::RestForOne => c >= idx,
    }
}

/// An action starts a child.
pub open spec fn starts_at(s: SupervisorView, batch: Seq<Action>, i: int, c: int) -> bool {
    0 <= i < batch.len() && 0 <= c < s.children.len() && batch[i] == Action::Start(s.children[c])
}

/// A child is wanted again after an exit with a reason.
pub open spec fn wanted(c: ChildSpec, reason: ExitReason) -> bool {
    match c.restart {
        Restart::Permanent => true,
        Restart::Transient => !(reason is Normal || reason is Shutdown),
        Restart::Temporary => false,
    }
}

/// An action stops a child that may be stopped: one that runs, of the range, and not the one that
/// exited.
pub open spec fn stops_one_of(
    s: SupervisorView,
    batch: Seq<Action>,
    i: int,
    lo: int,
    hi: int,
    except: int,
) -> bool {
    exists|c: int| #[trigger]
        supervisor::stops_at(s, batch, i, c) && lo <= c < hi && c != except && s.running[c]
}

/// An action starts a child that may be started: one of the range that is not temporary.
pub open spec fn starts_one_of(
    s: SupervisorView,
    batch: Seq<Action>,
    i: int,
    lo: int,
    hi: int,
) -> bool {
    exists|c: int| #[trigger]
        starts_at(s, batch, i, c) && lo <= c < hi && s.children[c].restart !is Temporary
}

proof fn lemma_stops(s: SupervisorView, lo: int, hi: int, except: int)
    requires
        s.sound(),
        supervisor::ids_distinct(s.children),
        0 <= lo,
        hi <= s.children.len(),
    ensures
        ({
            let batch = supervisor::stops(s, lo, hi, except);
            &&& forall|i: int|
                0 <= i < batch.len() ==> #[trigger] stops_one_of(s, batch, i, lo, hi, except)
            &&& forall|c: int|
                lo <= c < hi && c != except && #[trigger] s.running[c] ==> exists|i: int| #[trigger]
                    supervisor::stops_at(s, batch, i, c)
            &&& forall|i: int, j: int, c: int, d: int|
                i < j && #[trigger] supervisor::stops_at(s, batch, i, c)
                    && #[trigger] supervisor::stops_at(s, batch, j, d) ==> c > d
        }),
    decreases hi - lo,
{
    if hi > lo {
        lemma_stops(s, lo, hi - 1, except);
        let batch = supervisor::stops(s, lo, hi, except);
        let rest = supervisor::stops(s, lo, hi - 1, except);
        if s.running[hi - 1] && hi - 1 != except {
            assert(supervisor::stops_at(s, batch, 0, hi - 1));
            assert forall|i: int| 0 <= i < batch.len() implies #[trigger] stops_one_of(
                s,
                batch,
                i,
                lo,
                hi,
                except,
            ) by {
                if i > 0 {
                    assert(batch[i] == rest[i - 1]);
                    assert(stops_one_of(s, rest, i - 1, lo, hi - 1, except));
                    let c = choose|c: int| #[trigger]
                        supervisor::stops_at(s, rest, i - 1, c) && lo <= c < hi - 1 && c != except
                            && s.running[c];
                    assert(supervisor::stops_at(s, batch, i, c));
                }
            }
            assert forall|c: int|
                lo <= c < hi && c != except && #[trigger] s.running[c] implies exists|i: int|
                #[trigger] supervisor::stops_at(s, batch, i, c) by {
                if c < hi - 1 {
                    let i = choose|i: int| #[trigger] supervisor::stops_at(s, rest, i, c);
                    assert(batch[i + 1] == rest[i]);
                    assert(supervisor::stops_at(s, batch, i + 1, c));
                }
            }
            assert forall|i: int, j: int, c: int, d: int|
                i < j && #[trigger] supervisor::stops_at(s, batch, i, c)
                    && #[trigger] supervisor::stops_at(s, batch, j, d) implies c > d by {
                assert(batch[j] == rest[j - 1]);
                assert(supervisor::stops_at(s, rest, j - 1, d));
                assert(stops_one_of(s, rest, j - 1, lo, hi - 1, except));
                let e = choose|e: int| #[trigger]
                    supervisor::stops_at(s, rest, j - 1, e) && lo <= e < hi - 1 && e != except
                        && s.running[e];
                assert(s.children[e].id@ == s.children[d].id@);
                if e < d {
                    assert(s.children[e].id@ != s.children[d].id@);
                } else if d < e {
                    assert(s.children[d].id@ != s.children[e].id@);
                }
                assert(d == e);
                if i > 0 {
                    assert(batch[i] == rest[i - 1]);
                    assert(supervisor::stops_at(s, rest, i - 1, c));
                } else {
                    if c < hi - 1 {
                        assert(s.children[c].id@ != s.children[hi - 1].id@);
                    } else if hi - 1 < c {
                        assert(s.children[hi - 1].id@ != s.children[c].id@);
                    }
                }
            }
        } else {
            assert(batch == rest);
            assert forall|i: int| 0 <= i < batch.len() implies #[trigger] stops_one_of(
                s,
                batch,
                i,
                lo,
                hi,
                except,
            ) by {
                assert(stops_one_of(s, rest, i, lo, hi - 1, except));
                let c = choose|c: int| #[trigger]
                    supervisor::stops_at(s, rest, i, c) && lo <= c < hi - 1 && c != except
                        && s.running[c];
                assert(supervisor::stops_at(s, batch, i, c));
            }
        }
    }
}

proof fn lemma_starts(s: SupervisorView, lo: int, hi: int)
    requires
        supervisor::ids_distinct(s.children),
        0 <= lo,
        hi <= s.children.len(),
    ensures
        ({
            let batch = supervisor::restarts_of(s.children, lo, hi);
            &&& forall|i: int|
                0 <= i < batch.len() ==> #[trigger] starts_one_of(s, batch, i, lo, hi)
            &&& forall|c: int|
                lo <= c < hi && (#[trigger] s.children[c]).restart !is Temporary ==> exists|i: int|
                    #[trigger] starts_at(s, batch, i, c)
            &&& forall|i: int, j: int, c: int, d: int|
                i < j && #[trigger] starts_at(s, batch, i, c) && #[trigger] starts_at(s, batch, j, d)
                    ==> c < d
        }),
    decreases hi - lo,
{
    if hi > lo {
        lemma_starts(s, lo, hi - 1);
        let batch = supervisor::restarts_of(s.children, lo, hi);
        let rest = supervisor::restarts_of(s.children, lo, hi - 1);
        assert forall|i: int| 0 <= i < rest.len() implies #[trigger] starts_one_of(
            s,
            batch,
            i,
            lo,
            hi,
        ) by {
            assert(starts_one_of(s, rest, i, lo, hi - 1));
            let c = choose|c: int| #[trigger]
                starts_at(s, rest, i, c) && lo <= c < hi - 1 && s.children[c].restart !is Temporary;
            assert(starts_at(s, batch, i, c));
        }
        assert forall|c: int|
            lo <= c < hi - 1 && (#[trigger] s.children[c]).restart !is Temporary implies exists|
            i: int,
        | #[trigger] starts_at(s, batch, i, c) by {
            let i = choose|i: int| #[trigger] starts_at(s, rest, i, c);
            assert(starts_at(s, batch, i, c));
        }
        if s.children[hi - 1].restart !is Temporary {
            assert(starts_at(s, batch, rest.len() as int, hi - 1));
            assert forall|i: int, j: int, c: int, d: int|
                i < j && #[trigger] starts_at(s, batch, i, c) && #[trigger] starts_at(s, batch, j, d)
                    implies c < d by {
                assert(starts_at(s, rest, i, c));
                if j < rest.len() {
                    assert(starts_at(s, rest, j, d));
                } else {
                    if d < hi - 1 {
                        assert(s.children[d].id@ != s.children[hi - 1].id@);
                    } else if hi - 1 < d {
                        assert(s.children[hi - 1].id@ != s.children[d].id@);
                    }
                    assert(starts_one_of(s, rest, i, lo, hi - 1));
                    let e = choose|e: int| #[trigger]
                        starts_at(s, rest, i, e) && lo <= e < hi - 1 && s.children[e].restart
                            !is Temporary;
                    if e < c {
                        assert(s.children[e].id@ != s.children[c].id@);
                    } else if c < e {
                        assert(s.children[c].id@ != s.children[e].id@);
                    }
                }
            }
        } else {
            assert(batch == rest);
        }
    }
}

/// When a child is restarted, the siblings that its strategy restarts with it are stopped first,
/// if they run, the last one first; then all of them that are not temporary are started, the
/// first one first. Nobody else is stopped or started.
pub proof fn law_siblings_stop_then_start(
    s: SupervisorView,
    id: Seq<char>,
    reason: ExitReason,
    now_ms: u64,
    idx: int,
)
    requires
        s.sound(),
        supervisor::ids_distinct(s.children),
        0 <= idx < s.children.len(),
        s.children[idx].id@ == id,
        wanted(s.children[idx], reason),
        !s.answer(id, reason, now_ms).contains(Action::GiveUp),
    ensures
        ({
            let batch = s.answer(id, reason, now_ms);
            let strategy = s.flags.strategy;
            &&& forall|i: int, j: int|
                0 <= i < j < batch.len() && (#[trigger] batch[i]) is Start ==> (
                #[trigger] batch[j]) is Start
            &&& forall|i: int|
                0 <= i < batch.len() ==> (#[trigger] batch[i]) is Stop || batch[i] is Start
            &&& forall|c: int|
                0 <= c < s.children.len() && c != idx && restarts_with(strategy, idx, c)
                    && #[trigger] s.running[c] ==> exists|i: int| #[trigger]
                    supervisor::stops_at(s, batch, i, c)
            &&& forall|c: int|
                0 <= c < s.children.len() && restarts_with(strategy, idx, c) && (
                #[trigger] s.children[c]).restart !is Temporary ==> exists|i: int| #[trigger]
                    starts_at(s, batch, i, c)
            &&& forall|i: int, c: int| #[trigger]
                supervisor::stops_at(s, batch, i, c) ==> c != idx && restarts_with(strategy, idx, c)
                    && s.running[c] && batch[i] == (Action::Stop {
                    id: s.children[c].id,
                    shutdown: s.children[c].shutdown,
                })
            &&& forall|i: int, c: int| #[trigger]
                starts_at(s, batch, i, c) ==> restarts_with(strategy, idx, c)
                    && s.children[c].restart !is Temporary
            &&& forall|i: int, j: int, c: int, d: int|
                i < j && #[trigger] supervisor::stops_at(s, batch, i, c)
                    && #[trigger] supervisor::stops_at(s, batch, j, d) ==> c > d
            &&& forall|i: int, j: int, c: int, d: int|
                i < j && #[trigger] starts_at(s, batch, i, c) && #[trigger] starts_at(s, batch, j, d)
                    ==> c < d
        }),
{
    let batch = s.answer(id, reason, now_ms);
    supervisor::lemma_child_index(s.children, id, 0);
    let found = supervisor::child_index(s.children, id, 0)->0;
    if found < idx {
        assert(s.children[found].id@ != s.children[idx].id@);
    }
    assert(found == idx);
    let t = s.without(idx);
    let lo = t.first_affected(idx);
    let hi = t.end_affected(idx);
    let down = supervisor::stops(t, lo, hi, idx);
    let up = supervisor::restarts_of(t.children, lo, hi);
    if t.recovered(idx, now_ms).spinning() {
        let all = t.surrender();
        assert(all[all.len() - 1] == Action::GiveUp);
        assert(batch.contains(Action::GiveUp));
    }
    assert(batch == down + up);
    lemma_stops(t, lo, hi, idx);
    lemma_starts(t, lo, hi);
    supervisor::lemma_stops_are_stops(t, lo, hi, idx);
    supervisor::lemma_starts_are_not_temporary(t.children, lo, hi);
    let n = down.len() as int;
    assert forall|i: int| 0 <= i < n implies #[trigger] batch[i] == down[i] by {}
    assert forall|i: int| n <= i < batch.len() implies #[trigger] batch[i] == up[i - n] by {}
    assert forall|i: int, c: int| #[trigger] supervisor::stops_at(s, batch, i, c) implies i < n
        && supervisor::stops_at(t, down, i, c) && c != idx && restarts_with(
        s.flags.strategy,
        idx,
        c,
    ) && s.running[c] by {
        if i >= n {
            assert(up[i - n] is Start);
        }
        assert(stops_one_of(t, down, i, lo, hi, idx));
        let e = choose|e: int| #[trigger]
            supervisor::stops_at(t, down, i, e) && lo <= e < hi && e != idx && t.running[e];
        if e < c {
            assert(s.children[e].id@ != s.children[c].id@);
        } else if c < e {
            assert(s.children[c].id@ != s.children[e].id@);
        }
    }
    assert forall|i: int, c: int| #[trigger] starts_at(s, batch, i, c) implies i >= n && starts_at(
        t,
        up,
        i - n,
        c,
    ) && restarts_with(s.flags.strategy, idx, c) && s.children[c].restart !is Temporary by {
        if i < n {
            assert(down[i] is Stop);
        }
        assert(starts_one_of(t, up, i - n, lo, hi));
        let e = choose|e: int| #[trigger]
            starts_at(t, up, i - n, e) && lo <= e < hi && t.children[e].restart !is Temporary;
        if e < c {
            assert(s.children[e].id@ != s.children[c].id@);
        } else if c < e {
            assert(s.children[c].id@ != s.children[e].id@);
        }
    }
    assert forall|c: int|
        0 <= c < s.children.len() && c != idx && restarts_with(s.flags.strategy, idx, c)
            && #[trigger] s.running[c] implies exists|i: int| #[trigger]
        supervisor::stops_at(s, batch, i, c) by {
        assert(t.running[c]);
        let i = choose|i: int| #[trigger] supervisor::stops_at(t, down, i, c);
        assert(supervisor::stops_at(s, batch, i, c));
    }
    assert forall|c: int|
        0 <= c < s.children.len() && restarts_with(s.flags.strategy, idx, c) && (
        #[trigger] s.children[c]).restart !is Temporary implies exists|i: int| #[trigger]
        starts_at(s, batch, i, c) by {
        assert(t.children[c].restart !is Temporary);
        let i = choose|i: int| #[trigger] starts_at(t, up, i, c);
        assert(batch[n + i] == up[i]);
        assert(starts_at(s, batch, n + i, c));
    }
}

/// To shut down is to stop every child that runs, each in the way that it asks for, the last one
/// first, and nobody else.
pub proof fn law_shutting_down_stops_everybody(s: SupervisorView, i: int, c: int)
    requires
        s.sound(),
        supervisor::ids_distinct(s.children),
        0 <= c < s.children.len(),
    ensures
        ({
            let batch = supervisor::stops(s, 0, s.children.len() as int, -1);
            let stop = Action::Stop { id: s.children[c].id, shutdown: s.children[c].shutdown };
            &&& s.running[c] <==> batch.contains(stop)
            &&& 0 <= i < batch.len() ==> batch[i] is Stop
            &&& forall|a: int, b: int, d: int, e: int|
                a < b && #[trigger] supervisor::stops_at(s, batch, a, d)
                    && #[trigger] supervisor::stops_at(s, batch, b, e) ==> d > e
        }),
{
    let n = s.children.len() as int;
    let batch = supervisor::stops(s, 0, n, -1);
    let stop = Action::Stop { id: s.children[c].id, shutdown: s.children[c].shutdown };
    lemma_stops(s, 0, n, -1);
    supervisor::lemma_stops_are_stops(s, 0, n, -1);
    if s.running[c] {
        let k = choose|k: int| #[trigger] supervisor::stops_at(s, batch, k, c);
        assert(batch[k] == stop);
    }
    if batch.contains(stop) {
        let k = choose|k: int| 0 <= k < batch.len() && batch[k] == stop;
        assert(stops_one_of(s, batch, k, 0, n, -1));
        let e = choose|e: int| #[trigger]
            supervisor::stops_at(s, batch, k, e) && 0 <= e < n && e != -1 && s.running[e];
        if e < c {
            assert(s.children[e].id@ != s.children[c].id@);
        } else if c < e {
            assert(s.children[c].id@ != s.children[e].id@);
        }
    }
}

/// After a restart those children run that were started, and the others run if they ran before.
pub proof fn law_who_runs_after_a_restart(
    s: SupervisorView,
    id: Seq<char>,
    reason: ExitReason,
    now_ms: u64,
    idx: int,
    c: int,
)
    requires
        s.sound(),
        supervisor::ids_distinct(s.children),
        0 <= idx < s.children.len(),
        s.children[idx].id@ == id,
        0 <= c < s.children.len(),
    ensures
        ({
            let after = s.after_exit(id, reason, now_ms);
            &&& after.children == s.children && after.flags == s.flags
            &&& after.running.len() == s.running.len()
            &&& !wanted(s.children[idx], reason) ==> after.running[c] == (c != idx && s.running[c])
                && after.restarts == s.restarts
            &&& wanted(s.children[idx], reason) && !s.answer(id, reason, now_ms).contains(
                Action::GiveUp,
            ) ==> after.running[c] == (if restarts_with(s.flags.strategy, idx, c) {
                s.children[c].restart !is Temporary
            } else {
                s.running[c]
            })
        }),
{
    supervisor::lemma_child_index(s.children, id, 0);
    let found = supervisor::child_index(s.children, id, 0)->0;
    if found < idx {
        assert(s.children[found].id@ != s.children[idx].id@);
    }
    let t = s.without(idx);
    if t.recovered(idx, now_ms).spinning() {
        let all = t.surrender();
        assert(all[all.len() - 1] == Action::GiveUp);
    }
}

/// An exit of one who is no child changes nothing and is answered with nothing.
pub proof fn law_exits_of_strangers_do_nothing(
    s: SupervisorView,
    id: Seq<char>,
    reason: ExitReason,
    now_ms: u64,
)
    requires
        forall|c: int| 0 <= c < s.children.len() ==> (#[trigger] s.children[c]).id@ != id,
    ensures
        s.answer(id, reason, now_ms).len() == 0,
        s.after_exit(id, reason, now_ms) == s,
{
    supervisor::lemma_child_index(s.children, id, 0);
}

} // verus!
