//! What holds of a supervisor over the whole of its work: when it gives up, and what it said last
//! of a child that runs.

use crate::supervisor;
use crate::supervisor::{Action, ChildSpec, ExitReason, SupFlags, SupervisorView};
use vstd::prelude::*;

verus! {

/// A child was found to have exited, at a time.
pub struct ChildExit {
    pub id: Seq<char>,
    pub reason: ExitReason,
    pub at: u64,
}

/// A supervisor that has started its children and then learned of exits, one after the other.
pub open spec fn after(flags: SupFlags, children: Seq<ChildSpec>, exits: Seq<ChildExit>) -> SupervisorView
    decreases exits.len(),
{
    if exits.len() == 0 {
        SupervisorView::fresh(flags, children).all_running()
    } else {
        let e = exits.last();
        after(flags, children, exits.drop_last()).after_exit(e.id, e.reason, e.at)
    }
}

/// What a supervisor says to an exit.
pub open spec fn said_to(s: SupervisorView, e: ChildExit) -> Seq<Action> {
    s.answer(e.id, e.reason, e.at)
}

/// All that a supervisor has said: the starts of its children, then what it said to each exit.
pub open spec fn words(flags: SupFlags, children: Seq<ChildSpec>, exits: Seq<ChildExit>) -> Seq<Action>
    decreases exits.len(),
{
    if exits.len() == 0 {
        children.map_values(|c: ChildSpec| Action::Start(c))
    } else {
        words(flags, children, exits.drop_last()) + said_to(
            after(flags, children, exits.drop_last()),
            exits.last(),
        )
    }
}

/// Whether something is the start of a child.
pub open spec fn is_start() -> spec_fn(Action) -> bool {
    |a: Action| a is Start
}

/// When children were started anew, once for each start.
pub open spec fn start_times(flags: SupFlags, children: Seq<ChildSpec>, exits: Seq<ChildExit>) -> Seq<u64>
    decreases exits.len(),
{
    if exits.len() == 0 {
        Seq::empty()
    } else {
        let e = exits.last();
        let said = said_to(after(flags, children, exits.drop_last()), e);
        start_times(flags, children, exits.drop_last()) + Seq::new(
            said.filter(is_start()).len(),
            |i: int| e.at,
        )
    }
}

/// The supervisor has not given up yet.
pub open spec fn at_work(flags: SupFlags, children: Seq<ChildSpec>, exits: Seq<ChildExit>) -> bool
    decreases exits.len(),
{
    exits.len() > 0 ==> at_work(flags, children, exits.drop_last()) && !said_to(
        after(flags, children, exits.drop_last()),
        exits.last(),
    ).contains(Action::GiveUp)
}

/// Exits are told in the order in which they were, none after a time.
pub open spec fn in_time(exits: Seq<ChildExit>, now: u64) -> bool {
    &&& forall|i: int, j: int|
        0 <= i <= j < exits.len() ==> (#[trigger] exits[i]).at <= (#[trigger] exits[j]).at
    &&& forall|i: int| 0 <= i < exits.len() ==> (#[trigger] exits[i]).at <= now
}

/// When the period that ends now began.
pub open spec fn period_start(flags: SupFlags, now: u64) -> u64 {
    if now >= flags.period_ms {
        (now - flags.period_ms) as u64
    } else {
        0
    }
}

/// The times that are not before another.
pub open spec fn not_before(times: Seq<u64>, from: u64) -> Seq<u64> {
    times.filter(|t: u64| t >= from)
}

/// How many children are due to be started for an exit: those that the strategy names and that
/// may be restarted, where the exit is one to restart a child for.
pub open spec fn due(s: SupervisorView, e: ChildExit) -> nat {
    match supervisor::child_index(s.children, e.id, 0) {
        None => 0,
        Some(idx) => if s.restarts_for(idx, e.reason) {
            supervisor::restarts_of(s.children, s.first_affected(idx), s.end_affected(idx)).len()
        } else {
            0
        },
    }
}

proof fn lemma_no_starts(batch: Seq<Action>)
    requires
        forall|i: int| 0 <= i < batch.len() ==> !((#[trigger] batch[i]) is Start),
    ensures
        batch.filter(is_start()) == Seq::<Action>::empty(),
    decreases batch.len(),
{
    reveal(Seq::filter);
    if batch.len() > 0 {
        lemma_no_starts(batch.drop_last());
    }
}

proof fn lemma_all_starts(batch: Seq<Action>)
    requires
        forall|i: int| 0 <= i < batch.len() ==> (#[trigger] batch[i]) is Start,
    ensures
        batch.filter(is_start()) == batch,
    decreases batch.len(),
{
    reveal(Seq::filter);
    if batch.len() > 0 {
        lemma_all_starts(batch.drop_last());
        assert(batch.drop_last().push(batch.last()) =~= batch);
    }
}

/// A supervisor that does not give up starts all that are due.
proof fn lemma_starts_are_due(s: SupervisorView, e: ChildExit)
    requires
        s.sound(),
        !said_to(s, e).contains(Action::GiveUp),
    ensures
        said_to(s, e).filter(is_start()).len() == due(s, e),
        ({
            let t = s.after_exit(e.id, e.reason, e.at);
            t.restarts == (if due_at_all(s, e) {
                supervisor::since(
                    s.restarts + Seq::new(due(s, e), |i: int| e.at),
                    period_start(s.flags, e.at),
                )
            } else {
                s.restarts
            })
        }),
{
    lemma_no_starts(Seq::empty());
    supervisor::lemma_child_index(s.children, e.id, 0);
    if let Some(idx) = supervisor::child_index(s.children, e.id, 0) {
        let t = s.without(idx);
        let lo = t.first_affected(idx);
        let hi = t.end_affected(idx);
        let stops = supervisor::stops(t, lo, hi, idx);
        let starts = supervisor::restarts_of(t.children, lo, hi);
        if s.restarts_for(idx, e.reason) {
            supervisor::law_intensity_is_the_brake(s, e.id, e.reason, e.at, idx);
            supervisor::lemma_stops_are_stops(t, lo, hi, idx);
            supervisor::lemma_starts_are_not_temporary(t.children, lo, hi);
            lemma_no_starts(stops);
            lemma_all_starts(starts);
            Seq::filter_distributes_over_add(stops, starts, is_start());
        }
    }
}

/// The exit is that of a child, and one to restart it for.
pub open spec fn due_at_all(s: SupervisorView, e: ChildExit) -> bool {
    supervisor::child_index(s.children, e.id, 0) matches Some(idx) && s.restarts_for(idx, e.reason)
}

proof fn lemma_since_twice(times: Seq<u64>, more: Seq<u64>, earlier: u64, later: u64)
    requires
        earlier <= later,
    ensures
        supervisor::since(supervisor::since(times, earlier) + more, later) == supervisor::since(
            times + more,
            later,
        ),
    decreases times.len(),
{
    if times.len() > 0 && times[0] < earlier {
        lemma_since_twice(times.skip(1), more, earlier, later);
        assert((times + more).skip(1) =~= times.skip(1) + more);
    }
}

proof fn lemma_since_is_not_before(times: Seq<u64>, from: u64)
    requires
        forall|i: int, j: int|
            0 <= i <= j < times.len() ==> (#[trigger] times[i]) <= (#[trigger] times[j]),
    ensures
        supervisor::since(times, from) == not_before(times, from),
    decreases times.len(),
{
    let keep = |t: u64| t >= from;
    if times.len() == 0 {
        reveal(Seq::filter);
    } else {
        let first = seq![times[0]];
        let rest = times.skip(1);
        assert(times =~= first + rest);
        Seq::filter_distributes_over_add(first, rest, keep);
        assert(first.filter(keep) =~= if keep(times[0]) {
            first
        } else {
            Seq::empty()
        }) by {
            reveal_with_fuel(Seq::filter, 2);
            assert(first.drop_last() =~= Seq::<u64>::empty());
        }
        lemma_since_is_not_before(rest, from);
        if times[0] >= from {
            assert(rest.len() > 0 ==> rest[0] >= from);
        }
    }
}

/// What is on record of restarts is what is left of all of them after those before some earlier
/// period have been forgotten; and they are in order.
proof fn lemma_record(flags: SupFlags, children: Seq<ChildSpec>, exits: Seq<ChildExit>, now: u64) -> (forgotten: u64)
    requires
        at_work(flags, children, exits),
        in_time(exits, now),
    ensures
        ({
            let s = after(flags, children, exits);
            let times = start_times(flags, children, exits);
            &&& s.sound()
            &&& s.flags == flags
            &&& s.children == children
            &&& forgotten <= period_start(flags, now)
            &&& s.restarts == supervisor::since(times, forgotten)
            &&& forall|i: int, j: int|
                0 <= i <= j < times.len() ==> (#[trigger] times[i]) <= (#[trigger] times[j])
            &&& forall|i: int| 0 <= i < times.len() ==> (#[trigger] times[i]) <= now
        }),
    decreases exits.len(),
{
    if exits.len() == 0 {
        0
    } else {
        let e = exits.last();
        let front = exits.drop_last();
        assert(in_time(front, e.at)) by {
            assert forall|i: int| 0 <= i < front.len() implies (#[trigger] front[i]).at <= e.at by {
                assert(exits[i].at <= exits[exits.len() - 1].at);
            }
            assert forall|i: int, j: int| 0 <= i <= j < front.len() implies (
            #[trigger] front[i]).at <= (#[trigger] front[j]).at by {
                assert(exits[i].at <= exits[j].at);
            }
        }
        assert(e.at <= now);
        let before = lemma_record(flags, children, front, e.at);
        let s = after(flags, children, front);
        let old_times = start_times(flags, children, front);
        lemma_starts_are_due(s, e);
        supervisor::lemma_child_index(s.children, e.id, 0);
        let more = Seq::new(due(s, e), |i: int| e.at);
        let times = start_times(flags, children, exits);
        assert(times =~= old_times + more);
        if due_at_all(s, e) {
            let from = period_start(flags, e.at);
            lemma_since_twice(old_times, more, before, from);
            from
        } else {
            assert(times =~= old_times);
            before
        }
    }
}

/// A supervisor gives up on an exit exactly when it is one to restart a child for, and the starts
/// of the last period together with those now due are more than the intensity.
pub proof fn law_giving_up_goes_by_the_starts(
    flags: SupFlags,
    children: Seq<ChildSpec>,
    exits: Seq<ChildExit>,
    e: ChildExit,
)
    requires
        at_work(flags, children, exits),
        in_time(exits, e.at),
    ensures
        ({
            let s = after(flags, children, exits);
            let recent = not_before(
                start_times(flags, children, exits),
                period_start(flags, e.at),
            );
            said_to(s, e).contains(Action::GiveUp) <==> due_at_all(s, e) && recent.len() + due(s, e)
                > flags.intensity
        }),
{
    let s = after(flags, children, exits);
    let times = start_times(flags, children, exits);
    let from = period_start(flags, e.at);
    let forgotten = lemma_record(flags, children, exits, e.at);
    supervisor::lemma_child_index(s.children, e.id, 0);
    if let Some(idx) = supervisor::child_index(s.children, e.id, 0) {
        if s.restarts_for(idx, e.reason) {
            supervisor::law_intensity_is_the_brake(s, e.id, e.reason, e.at, idx);
            let more = Seq::new(due(s, e), |i: int| e.at);
            lemma_since_twice(times, more, forgotten, from);
            lemma_since_is_not_before(times + more, from);
            let keep = |t: u64| t >= from;
            Seq::filter_distributes_over_add(times, more, keep);
            lemma_all_kept(more, from);
        }
    }
}

proof fn lemma_all_kept(times: Seq<u64>, from: u64)
    requires
        forall|i: int| 0 <= i < times.len() ==> (#[trigger] times[i]) >= from,
    ensures
        not_before(times, from) == times,
    decreases times.len(),
{
    reveal(Seq::filter);
    if times.len() > 0 {
        lemma_all_kept(times.drop_last(), from);
        assert(times.drop_last().push(times.last()) =~= times);
    }
}

/// Something is said of the child with an id.
pub open spec fn about(a: Action, id: Seq<char>) -> bool {
    match a {
        Action::Start(c) => c.id@ == id,
        Action::Stop { id: of, .. } => of@ == id,
        Action::GiveUp => false,
    }
}

/// A position is that of the last word about a child.
pub open spec fn last_word(said: Seq<Action>, id: Seq<char>, i: int) -> bool {
    &&& 0 <= i < said.len()
    &&& about(said[i], id)
    &&& forall|j: int| i < j < said.len() ==> !about(#[trigger] said[j], id)
}

/// Nothing is said of a child outside the range that a batch is for.
proof fn lemma_silence(s: SupervisorView, lo: int, hi: int, except: int, c: int)
    requires
        supervisor::ids_distinct(s.children),
        0 <= lo,
        hi <= s.children.len(),
        0 <= c < s.children.len(),
        !(lo <= c < hi),
    ensures
        ({
            let stops = supervisor::stops(s, lo, hi, except);
            let starts = supervisor::restarts_of(s.children, lo, hi);
            &&& forall|j: int|
                0 <= j < stops.len() ==> !about(#[trigger] stops[j], s.children[c].id@)
            &&& forall|j: int|
                0 <= j < starts.len() ==> !about(#[trigger] starts[j], s.children[c].id@)
        }),
    decreases hi - lo,
{
    if hi > lo {
        lemma_silence(s, lo, hi - 1, except, c);
        lemma_other_id(s.children, c, hi - 1);
        let stops = supervisor::stops(s, lo, hi, except);
        let fewer = supervisor::stops(s, lo, hi - 1, except);
        assert forall|j: int| 0 <= j < stops.len() implies !about(
            #[trigger] stops[j],
            s.children[c].id@,
        ) by {
            if stops.len() > fewer.len() && j > 0 {
                assert(stops[j] == fewer[j - 1]);
            }
        }
        let starts = supervisor::restarts_of(s.children, lo, hi);
        let front = supervisor::restarts_of(s.children, lo, hi - 1);
        assert forall|j: int| 0 <= j < starts.len() implies !about(
            #[trigger] starts[j],
            s.children[c].id@,
        ) by {
            if j < front.len() {
                assert(starts[j] == front[j]);
            }
        }
    }
}

proof fn lemma_other_id(children: Seq<ChildSpec>, a: int, b: int)
    requires
        supervisor::ids_distinct(children),
        0 <= a < children.len(),
        0 <= b < children.len(),
        a != b,
    ensures
        children[a].id@ != children[b].id@,
{
    if a < b {
        assert(children[a].id@ != children[b].id@);
    } else {
        assert(children[b].id@ != children[a].id@);
    }
}

proof fn lemma_restart_is_last(children: Seq<ChildSpec>, lo: int, hi: int, c: int) -> (i: int)
    requires
        supervisor::ids_distinct(children),
        0 <= lo <= c < hi <= children.len(),
        !(children[c].restart is Temporary),
    ensures
        last_word(supervisor::restarts_of(children, lo, hi), children[c].id@, i),
        supervisor::restarts_of(children, lo, hi)[i] == Action::Start(children[c]),
    decreases hi - lo,
{
    let starts = supervisor::restarts_of(children, lo, hi);
    if c == hi - 1 {
        starts.len() - 1
    } else {
        let i = lemma_restart_is_last(children, lo, hi - 1, c);
        lemma_other_id(children, c, hi - 1);
        i
    }
}

proof fn lemma_last_start(
    flags: SupFlags,
    children: Seq<ChildSpec>,
    exits: Seq<ChildExit>,
    c: int,
) -> (i: int)
    requires
        supervisor::ids_distinct(children),
        0 <= c < children.len(),
        after(flags, children, exits).running[c],
    ensures
        last_word(words(flags, children, exits), children[c].id@, i),
        words(flags, children, exits)[i] == Action::Start(children[c]),
    decreases exits.len(),
{
    lemma_shape(flags, children, exits);
    let said = words(flags, children, exits);
    if exits.len() == 0 {
        assert forall|j: int| c < j < said.len() implies !about(
            #[trigger] said[j],
            children[c].id@,
        ) by {
            lemma_other_id(children, c, j);
        }
        c
    } else {
        let front = exits.drop_last();
        let e = exits.last();
        lemma_shape(flags, children, front);
        let s = after(flags, children, front);
        let before = words(flags, children, front);
        let batch = said_to(s, e);
        supervisor::lemma_child_index(children, e.id, 0);
        match supervisor::child_index(children, e.id, 0) {
            None => lemma_last_start(flags, children, front, c),
            Some(idx) => {
                let t = s.without(idx);
                let lo = t.first_affected(idx);
                let hi = t.end_affected(idx);
                if !t.restarts_for(idx, e.reason) {
                    lemma_last_start(flags, children, front, c)
                } else {
                    assert(!t.recovered(idx, e.at).spinning());
                    let stops = supervisor::stops(t, lo, hi, idx);
                    let starts = supervisor::restarts_of(children, lo, hi);
                    assert(batch == stops + starts);
                    if lo <= c < hi {
                        let k = lemma_restart_is_last(children, lo, hi, c);
                        let at = before.len() + stops.len() + k;
                        assert(said[at] == starts[k]);
                        assert forall|j: int| at < j < said.len() implies !about(
                            #[trigger] said[j],
                            children[c].id@,
                        ) by {
                            assert(said[j] == starts[j - before.len() - stops.len()]);
                        }
                        at
                    } else {
                        let i = lemma_last_start(flags, children, front, c);
                        lemma_silence(t, lo, hi, idx, c);
                        assert forall|j: int| i < j < said.len() implies !about(
                            #[trigger] said[j],
                            children[c].id@,
                        ) by {
                            if j < before.len() {
                                assert(said[j] == before[j]);
                            } else if j < before.len() + stops.len() {
                                assert(said[j] == stops[j - before.len()]);
                            } else {
                                assert(said[j] == starts[j - before.len() - stops.len()]);
                            }
                        }
                        i
                    }
                }
            },
        }
    }
}

/// What a supervisor said last of a child that it believes to run is to start it.
pub proof fn law_running_children_were_started_last(
    flags: SupFlags,
    children: Seq<ChildSpec>,
    exits: Seq<ChildExit>,
    c: int,
)
    requires
        supervisor::ids_distinct(children),
        0 <= c < children.len(),
        after(flags, children, exits).running[c],
    ensures
        exists|i: int| #[trigger]
            last_word(words(flags, children, exits), children[c].id@, i) && words(
                flags,
                children,
                exits,
            )[i] == Action::Start(children[c]),
{
    let i = lemma_last_start(flags, children, exits, c);
}

proof fn lemma_shape(flags: SupFlags, children: Seq<ChildSpec>, exits: Seq<ChildExit>)
    ensures
        after(flags, children, exits).sound(),
        after(flags, children, exits).children == children,
        after(flags, children, exits).flags == flags,
    decreases exits.len(),
{
    if exits.len() > 0 {
        lemma_shape(flags, children, exits.drop_last());
        supervisor::lemma_child_index(children, exits.last().id, 0);
    }
}

} // verus!
