//! What a supervisor's driver does with its children: an exit is answered by what the policy of
//! the child says, and what is to be done is done to the child that it is about.

use crate::message;
use crate::registry;
use crate::supervise;
use crate::supervise::{AskedView, DriverView, ReplyView, StepView, SupervisorOp};
use crate::supervisor;
use crate::supervisor::{
    Action,
    ChildSpec,
    ExitReason,
    Restart,
    Shutdown,
    SupFlags,
};
use vstd::prelude::*;

verus! {

/// A pid that runs as a child: the first entry with that pid is the child's.
pub open spec fn runs_as(d: DriverView, pid: Seq<char>, id: Seq<char>) -> bool {
    exists|i: int| #[trigger] first_with(d, pid, id, i)
}

/// The first entry with a pid.
pub open spec fn first_with(d: DriverView, pid: Seq<char>, id: Seq<char>, i: int) -> bool {
    &&& 0 <= i < d.live.len()
    &&& d.live[i] == (id, pid)
    &&& forall|j: int| 0 <= j < i ==> (#[trigger] d.live[j]).1 != pid
}

/// The first child of an id.
pub open spec fn is_child(children: Seq<ChildSpec>, id: Seq<char>, idx: int) -> bool {
    &&& 0 <= idx < children.len()
    &&& children[idx].id@ == id
    &&& forall|j: int| 0 <= j < idx ==> (#[trigger] children[j]).id@ != id
}

proof fn lemma_child(children: Seq<ChildSpec>, id: Seq<char>, from: int, idx: int)
    requires
        is_child(children, id, idx),
        0 <= from <= idx,
    ensures
        supervisor::child_index(children, id, from) == Some(idx),
    decreases idx - from,
{
    if from < idx {
        lemma_child(children, id, from + 1, idx);
    }
}

proof fn lemma_child_with(live: Seq<(Seq<char>, Seq<char>)>, pid: Seq<char>, i: int)
    requires
        0 <= i < live.len(),
        live[i].1 == pid,
        forall|j: int| 0 <= j < i ==> (#[trigger] live[j]).1 != pid,
    ensures
        supervise::child_with(live, pid) == Some(live[i].0),
    decreases i,
{
    if i > 0 {
        let rest = live.skip(1);
        assert(rest[i - 1] == live[i]);
        assert forall|j: int| 0 <= j < i - 1 implies (#[trigger] rest[j]).1 != pid by {
            assert(rest[j] == live[j + 1]);
        }
        lemma_child_with(rest, pid, i - 1);
    }
}

proof fn lemma_pid_of(live: Seq<(Seq<char>, Seq<char>)>, id: Seq<char>)
    ensures
        supervise::pid_of(live, id) matches Some(pid) ==> live.contains((id, pid)),
        supervise::pid_of(live, id) is None <==> forall|i: int|
            0 <= i < live.len() ==> (#[trigger] live[i]).0 != id,
    decreases live.len(),
{
    if live.len() > 0 {
        let rest = live.skip(1);
        lemma_pid_of(rest, id);
        assert(live[0] == live.first());
        if live[0].0 == id {
            assert(live[0] == (id, live[0].1));
            assert(live.contains(live[0]));
        } else {
            if let Some(pid) = supervise::pid_of(rest, id) {
                let k = choose|k: int| 0 <= k < rest.len() && rest[k] == (id, pid);
                assert(live[k + 1] == (id, pid));
            }
            assert forall|i: int|
                supervise::pid_of(live, id) is None && 0 <= i < live.len() implies (
            #[trigger] live[i]).0 != id by {
                if i > 0 {
                    assert(rest[i - 1] == live[i]);
                }
            }
            if forall|i: int| 0 <= i < live.len() ==> (#[trigger] live[i]).0 != id {
                assert forall|i: int| 0 <= i < rest.len() implies (#[trigger] rest[i]).0 != id by {
                    assert(rest[i] == live[i + 1]);
                }
            }
        }
    }
}

proof fn lemma_live_without(live: Seq<(Seq<char>, Seq<char>)>, id: Seq<char>)
    ensures
        forall|x: (Seq<char>, Seq<char>)| #[trigger]
            supervise::live_without(live, id).contains(x) <==> live.contains(x) && x.0 != id,
    decreases live.len(),
{
    reveal(Seq::filter);
    if live.len() > 0 {
        let init = live.drop_last();
        lemma_live_without(init, id);
        assert(live =~= init.push(live.last()));
        registry::lemma_push_contains(init, live.last());
        registry::lemma_push_contains(supervise::live_without(init, id), live.last());
    }
}

/// The reasons that particles exit for mean the same to a supervisor, and no two become one.
pub proof fn law_reasons_keep_their_meaning(a: message::ExitReason, b: message::ExitReason)
    ensures
        supervise::supervisor_reason(a) is Normal <==> a is Normal,
        supervise::supervisor_reason(a) is Shutdown <==> a is Shutdown,
        supervise::supervisor_reason(a) is Kill <==> a is Kill,
        supervise::supervisor_reason(a) is Killed <==> a is Killed,
        supervise::supervisor_reason(a) is NoProc <==> a is NoProc,
        supervise::supervisor_reason(a) is NoConnection <==> a is NoConnection,
        a matches message::ExitReason::Exception(s) ==> supervise::supervisor_reason(a)
            == ExitReason::Exception(s),
        a matches message::ExitReason::Shutdown(s) ==> supervise::supervisor_reason(a)
            == ExitReason::Shutdown(s),
        supervise::supervisor_reason(a) == supervise::supervisor_reason(b) ==> a == b,
{
}

/// What the exit of a child adds to what is to be done.
pub open spec fn added(before: DriverView, after: DriverView) -> Seq<Action> {
    after.queue.skip(before.queue.len() as int)
}

/// What the policy of a child asks for when it exits: a permanent child is wanted again whatever
/// the reason, a transient one after any reason but normal and shutdown, a temporary one never.
pub open spec fn wanted_again(c: ChildSpec, reason: message::ExitReason) -> bool {
    match c.restart {
        Restart::Permanent => true,
        Restart::Transient => !(reason is Normal || reason is Shutdown),
        Restart::Temporary => false,
    }
}

/// What the exit of a child is answered with: a child that is wanted again is started again, or
/// the supervisor gives up; otherwise nothing is to be done. What was to be done before still is,
/// and comes first.
pub proof fn law_an_exit_is_answered_by_the_policy(
    d: DriverView,
    pid: Seq<char>,
    id: Seq<char>,
    idx: int,
    reason: message::ExitReason,
    now_ms: u64,
)
    requires
        d.sup.sound(),
        runs_as(d, pid, id),
        is_child(d.sup.children, id, idx),
    ensures
        ({
            let after = d.after_signal(pid, supervise::supervisor_reason(reason), now_ms);
            let c = d.sup.children[idx];
            &&& after.queue.len() >= d.queue.len()
            &&& after.queue.take(d.queue.len() as int) == d.queue
            &&& wanted_again(c, reason) ==> added(d, after).contains(Action::Start(c)) || added(
                d,
                after,
            ).contains(Action::GiveUp)
            &&& !wanted_again(c, reason) ==> added(d, after).len() == 0
        }),
{
    let i = choose|i: int| first_with(d, pid, id, i);
    lemma_child_with(d.live, pid, i);
    lemma_child(d.sup.children, id, 0, idx);
    let why = supervise::supervisor_reason(reason);
    let after = d.after_signal(pid, why, now_ms);
    supervisor::law_restarts_follow_the_policy(d.sup, id, why, now_ms, idx);
    let answer = d.sup.answer(id, why, now_ms);
    assert(after.queue =~= d.queue + answer);
    assert(added(d, after) =~= answer);
    assert(after.queue.take(d.queue.len() as int) =~= d.queue);
}

/// A sole child that is wanted again and has not been restarted too often is started again, and
/// that is the last thing to be done; the same exit of a child that is not wanted again adds
/// nothing to what is to be done.
pub proof fn law_a_crashed_child_is_started_again(
    d: DriverView,
    pid: Seq<char>,
    id: Seq<char>,
    reason: message::ExitReason,
    now_ms: u64,
)
    requires
        d.sup.sound(),
        d.sup.children.len() == 1,
        d.sup.children[0].id@ == id,
        runs_as(d, pid, id),
        d.sup.restarts.len() < d.sup.flags.intensity,
    ensures
        ({
            let after = d.after_signal(pid, supervise::supervisor_reason(reason), now_ms);
            let c = d.sup.children[0];
            &&& wanted_again(c, reason) ==> after.queue == d.queue.push(Action::Start(c))
                && after.sup.running[0]
            &&& !wanted_again(c, reason) ==> after.queue == d.queue && !after.sup.running[0]
        }),
{
    let i = choose|i: int| first_with(d, pid, id, i);
    lemma_child_with(d.live, pid, i);
    assert(is_child(d.sup.children, id, 0));
    lemma_child(d.sup.children, id, 0, 0);
    let why = supervise::supervisor_reason(reason);
    let after = d.after_signal(pid, why, now_ms);
    let s = d.sup.without(0);
    let c = d.sup.children[0];
    reveal_with_fuel(supervisor::stops, 2);
    reveal_with_fuel(supervisor::restarts_of, 2);
    if wanted_again(c, reason) {
        assert(supervisor::restarts_of(s.children, 0, 1) =~= seq![Action::Start(c)]);
        assert(s.recovery(0) =~= seq![Action::Start(c)]);
        let cutoff = if now_ms >= s.flags.period_ms {
            (now_ms - s.flags.period_ms) as u64
        } else {
            0
        };
        lemma_since(s.restarts + Seq::new(1, |k: int| now_ms), cutoff);
        assert(after.queue =~= d.queue.push(Action::Start(c)));
    } else {
        assert(after.queue =~= d.queue);
    }
}

proof fn lemma_since(times: Seq<u64>, cutoff: u64)
    ensures
        supervisor::since(times, cutoff).len() <= times.len(),
    decreases times.len(),
{
    if times.len() > 0 && times[0] < cutoff {
        lemma_since(times.skip(1), cutoff);
    }
}

/// A child that could not be started is treated as one that crashed: unless it is temporary it is
/// tried again, or the supervisor gives up.
pub proof fn law_a_failed_start_is_tried_again(
    d: DriverView,
    id: Seq<char>,
    idx: int,
    why: String,
    now_ms: u64,
)
    requires
        d.sup.sound(),
        is_child(d.sup.children, id, idx),
    ensures
        ({
            let after = d.lost(id, ExitReason::Exception(why), now_ms);
            let c = d.sup.children[idx];
            &&& after.queue.len() >= d.queue.len()
            &&& after.queue.take(d.queue.len() as int) == d.queue
            &&& after.live == d.live && after.pending == d.pending
            &&& c.restart !is Temporary ==> added(d, after).contains(Action::Start(c)) || added(
                d,
                after,
            ).contains(Action::GiveUp)
            &&& c.restart is Temporary ==> added(d, after).len() == 0
        }),
{
    lemma_child(d.sup.children, id, 0, idx);
    let reason = ExitReason::Exception(why);
    let after = d.lost(id, reason, now_ms);
    supervisor::law_restarts_follow_the_policy(d.sup, id, reason, now_ms, idx);
    assert(added(d, after) =~= d.sup.answer(id, reason, now_ms));
    assert(after.queue.take(d.queue.len() as int) =~= d.queue);
}

/// A child that exited runs no more and is waited for no more; the others still run under their
/// pids and are still waited for.
pub proof fn law_only_the_one_that_exited_is_gone(
    d: DriverView,
    pid: Seq<char>,
    id: Seq<char>,
    reason: message::ExitReason,
    now_ms: u64,
    other: (Seq<char>, Seq<char>),
    asked: AskedView,
)
    requires
        runs_as(d, pid, id),
    ensures
        ({
            let after = d.after_signal(pid, supervise::supervisor_reason(reason), now_ms);
            &&& other.0 == id ==> !after.live.contains(other)
            &&& other.0 != id ==> (after.live.contains(other) <==> d.live.contains(other))
            &&& asked.pid == pid ==> !after.pending.contains(asked)
            &&& asked.pid != pid ==> (after.pending.contains(asked) <==> d.pending.contains(asked))
        }),
{
    let i = choose|i: int| first_with(d, pid, id, i);
    lemma_child_with(d.live, pid, i);
    lemma_live_without(d.live, id);
    registry::lemma_filter_contains(d.pending, |x: AskedView| x.pid != pid);
}

/// A child that was started runs under the pid that it was given: an exit of that pid is its
/// exit, and to stop it is to stop that pid. The others run as before.
pub proof fn law_a_started_child_is_known_by_its_pid(
    d: DriverView,
    id: Seq<char>,
    pid: Seq<char>,
    other: (Seq<char>, Seq<char>),
)
    requires
        forall|i: int| 0 <= i < d.live.len() ==> (#[trigger] d.live[i]).1 != pid,
    ensures
        ({
            let after = d.spawned(id, pid);
            &&& runs_as(after, pid, id)
            &&& supervise::pid_of(after.live, id) == Some(pid)
            &&& supervise::child_with(after.live, pid) == Some(id)
            &&& other.0 != id ==> (after.live.contains(other) <==> d.live.contains(other))
            &&& after.queue == d.queue && after.sup == d.sup && after.pending == d.pending
        }),
{
    let after = d.spawned(id, pid);
    let kept = supervise::live_without(d.live, id);
    let n = kept.len() as int;
    lemma_live_without(d.live, id);
    registry::lemma_push_contains(kept, (id, pid));
    assert forall|j: int| 0 <= j < n implies (#[trigger] after.live[j]).1 != pid && after.live[j].0
        != id by {
        assert(kept.contains(kept[j]));
        assert(d.live.contains(kept[j]));
        let k = choose|k: int| 0 <= k < d.live.len() && d.live[k] == kept[j];
        assert(d.live[k].1 != pid);
    }
    assert(first_with(after, pid, id, n));
    lemma_child_with(after.live, pid, n);
    lemma_pid_of(after.live, id);
    assert(after.live[n].0 == id);
    let p = supervise::pid_of(after.live, id);
    assert(p is Some);
    let k = choose|k: int| 0 <= k < after.live.len() && after.live[k] == (id, p->0);
    assert(k == n);
}

/// A driver begins with every child to be started, in their order, and nothing else.
pub proof fn law_a_driver_begins_with_every_start(flags: SupFlags, children: Seq<ChildSpec>, i: int)
    requires
        0 <= i < children.len(),
    ensures
        ({
            let d = DriverView::fresh(flags, children);
            &&& d.queue.len() == children.len()
            &&& d.queue[i] == Action::Start(children[i])
            &&& d.sup.children == children && d.sup.flags == flags
            &&& d.sup.running.len() == children.len() && d.sup.running[i]
            &&& d.sup.restarts.len() == 0
            &&& d.live.len() == 0 && d.pending.len() == 0
        }),
{
}

/// What is to be done first is done next, and no more: a start starts that child; a stop of a
/// child that runs goes to its pid, and is a kill exactly where the child is to be killed
/// outright; a stop of one that does not run does nothing; giving up ends everything.
pub proof fn law_the_first_action_is_the_next_step(d: DriverView, now_ms: u64)
    requires
        d.queue.len() > 0,
        d.deadlines_fit(now_ms),
    ensures
        ({
            let step = d.step(now_ms);
            let after = d.stepped(now_ms);
            &&& after.sup == d.sup
            &&& d.queue[0] !is GiveUp ==> after.queue.len() == d.queue.len() - 1 && after.queue
                == d.queue.skip(1)
            &&& match d.queue[0] {
                Action::Start(c) => step == StepView::Spawn(c) && after.live == d.live
                    && after.pending == d.pending,
                Action::GiveUp => step is GiveUp && after.queue.len() == 0,
                Action::Stop { id, shutdown } => {
                    &&& (forall|i: int| 0 <= i < d.live.len() ==> (#[trigger] d.live[i]).0 != id@)
                        ==> step is Skip && after.live == d.live && after.pending == d.pending
                    &&& step !is Skip ==> {
                        let pid = match step {
                            StepView::Kill(p) => p,
                            StepView::AskToStop(p) => p,
                            _ => Seq::empty(),
                        };
                        &&& d.live.contains((id@, pid))
                        &&& step is Kill <==> shutdown is BrutalKill
                        &&& step is AskToStop <==> shutdown !is BrutalKill
                        &&& shutdown is BrutalKill ==> after.pending == d.pending && !(exists|i: int|
                            0 <= i < after.live.len() && (#[trigger] after.live[i]).0 == id@)
                        &&& shutdown !is BrutalKill ==> after.live == d.live
                        &&& shutdown is Infinity ==> after.pending == d.pending
                        &&& shutdown matches Shutdown::Timeout(ms) ==> after.pending.len()
                            == d.pending.len() + 1 && after.pending.drop_last() == d.pending
                            && after.pending.last().pid == pid && after.pending.last().id == id@
                            && after.pending.last().deadline == now_ms + ms
                    }
                    &&& (exists|i: int| 0 <= i < d.live.len() && (#[trigger] d.live[i]).0 == id@)
                        ==> step is Kill || step is AskToStop
                },
            }
        }),
{
    let after = d.stepped(now_ms);
    assert(d.queue[0] == d.queue[0int]);
    match d.queue[0] {
        Action::Stop { id, shutdown } => {
            lemma_pid_of(d.live, id@);
            lemma_live_without(d.live, id@);
            if after.live == supervise::live_without(d.live, id@) {
                assert forall|i: int| 0 <= i < after.live.len() implies (#[trigger] after.live[i]).0
                    != id@ by {
                    assert(after.live.contains(after.live[i]));
                }
            }
            if let Shutdown::Timeout(ms) = shutdown {
                if supervise::pid_of(d.live, id@) is Some {
                    assert(after.pending.drop_last() =~= d.pending);
                }
            }
        },
        _ => {},
    }
}

/// With nothing to be done the driver waits: as long as it takes where nobody was given a
/// deadline, else until the nearest deadline and no longer.
pub proof fn law_waiting_is_for_the_nearest_deadline(d: DriverView, now_ms: u64)
    requires
        d.queue.len() == 0,
    ensures
        d.stepped(now_ms) == d,
        d.step(now_ms) is Wait,
        d.step(now_ms) == StepView::Wait(None) <==> d.pending.len() == 0,
        d.step(now_ms) matches StepView::Wait(Some(t)) ==> {
            &&& exists|i: int|
                0 <= i < d.pending.len() && ((#[trigger] d.pending[i]).deadline == now_ms + t || (
                t == 0 && d.pending[i].deadline <= now_ms))
            &&& forall|i: int|
                0 <= i < d.pending.len() && (#[trigger] d.pending[i]).deadline >= now_ms ==> now_ms
                    + t <= d.pending[i].deadline
        },
{
    lemma_patience(d.pending, now_ms);
    if let StepView::Wait(Some(t)) = d.step(now_ms) {
        assert forall|i: int|
            0 <= i < d.pending.len() && (#[trigger] d.pending[i]).deadline >= now_ms implies now_ms
            + t <= d.pending[i].deadline by {
            supervise::law_waiting_ends_by_every_deadline(d.pending, now_ms, i);
        }
    }
}

proof fn lemma_patience(pending: Seq<AskedView>, now_ms: u64)
    ensures
        supervise::patience(pending, now_ms) is None <==> pending.len() == 0,
        supervise::patience(pending, now_ms) matches Some(t) ==> exists|i: int|
            0 <= i < pending.len() && ((#[trigger] pending[i]).deadline == now_ms + t || (t == 0
                && pending[i].deadline <= now_ms)),
    decreases pending.len(),
{
    if pending.len() > 0 {
        let init = pending.drop_last();
        lemma_patience(init, now_ms);
        let t = supervise::patience(pending, now_ms)->0;
        let last = pending.len() - 1;
        if pending[last].deadline == now_ms + t || (t == 0 && pending[last].deadline <= now_ms) {
        } else {
            let k = choose|i: int|
                0 <= i < init.len() && ((#[trigger] init[i]).deadline == now_ms + t || (t == 0
                    && init[i].deadline <= now_ms));
            assert(pending[k] == init[k]);
        }
    }
}

/// When deadlines have passed, those who let theirs pass are killed: they run no more and are
/// waited for no more. Everybody else still is.
pub proof fn law_the_late_are_gone(
    d: DriverView,
    now_ms: u64,
    entry: (Seq<char>, Seq<char>),
    asked: AskedView,
)
    ensures
        ({
            let after = d.reaped(now_ms);
            let entry_late = exists|i: int|
                0 <= i < d.pending.len() && (#[trigger] d.pending[i]).pid == entry.1
                    && d.pending[i].deadline <= now_ms;
            let asked_late = exists|i: int|
                0 <= i < d.pending.len() && (#[trigger] d.pending[i]).pid == asked.pid
                    && d.pending[i].deadline <= now_ms;
            &&& after.live.contains(entry) <==> d.live.contains(entry) && !entry_late
            &&& after.pending.contains(asked) <==> d.pending.contains(asked) && !asked_late
            &&& after.queue == d.queue && after.sup == d.sup
            &&& supervise::overdue(d.pending, now_ms).contains(asked) <==> d.pending.contains(asked)
                && asked.deadline <= now_ms
        }),
{
    let late = supervise::pids_of(supervise::overdue(d.pending, now_ms));
    supervise::law_the_asked_are_killed_and_no_others(d.pending, now_ms, entry.1);
    supervise::law_the_asked_are_killed_and_no_others(d.pending, now_ms, asked.pid);
    if exists|i: int| #[trigger] supervise::is_late(d.pending, now_ms, entry.1, i) {
        let i = choose|i: int| #[trigger] supervise::is_late(d.pending, now_ms, entry.1, i);
        assert(d.pending[i].pid == entry.1);
    }
    if exists|i: int|
        0 <= i < d.pending.len() && (#[trigger] d.pending[i]).pid == entry.1
            && d.pending[i].deadline <= now_ms {
        let i = choose|i: int|
            0 <= i < d.pending.len() && (#[trigger] d.pending[i]).pid == entry.1
                && d.pending[i].deadline <= now_ms;
        assert(supervise::is_late(d.pending, now_ms, entry.1, i));
    }
    if exists|i: int| #[trigger] supervise::is_late(d.pending, now_ms, asked.pid, i) {
        let i = choose|i: int| #[trigger] supervise::is_late(d.pending, now_ms, asked.pid, i);
        assert(d.pending[i].pid == asked.pid);
    }
    if exists|i: int|
        0 <= i < d.pending.len() && (#[trigger] d.pending[i]).pid == asked.pid
            && d.pending[i].deadline <= now_ms {
        let i = choose|i: int|
            0 <= i < d.pending.len() && (#[trigger] d.pending[i]).pid == asked.pid
                && d.pending[i].deadline <= now_ms;
        assert(supervise::is_late(d.pending, now_ms, asked.pid, i));
    }
    registry::lemma_filter_contains(
        d.live,
        |x: (Seq<char>, Seq<char>)| !late.contains(x.1),
    );
    registry::lemma_filter_contains(d.pending, |x: AskedView| !late.contains(x.pid));
    registry::lemma_filter_contains(d.pending, |x: AskedView| x.deadline <= now_ms);
}

/// Whoever asks for a child to be started or stopped hears what came of it: the id of the child
/// that is started, that it is stopped, or why not.
pub proof fn law_managers_are_answered(op: SupervisorOp, answer: Result<Action, String>)
    ensures
        answer is Err <==> supervise::reply_to(op, answer) is Refused,
        answer is Ok && op is TerminateChild ==> supervise::reply_to(op, answer) is Terminated,
        answer is Ok ==> (op matches SupervisorOp::StartChild(c) ==> supervise::reply_to(op, answer)
            == ReplyView::Started(c.id@)),
        op is StartChild && answer is Err ==> supervise::reply_to(op, answer)
            == ReplyView::Refused(answer->Err_0@),
{
}

} // verus!
