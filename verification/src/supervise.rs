//! The driver of a supervisor: what is to be done with the host next.
//!
//! [`crate::supervisor`] deals in child ids. Here they are related to the pids of the running
//! instances, and the patience with children that were asked to stop is kept.

use crate::message;
use crate::registry;
use crate::supervisor::{Action, ChildSpec, ExitReason, Shutdown, SupFlags, Supervisor, SupervisorView};
use std::collections::VecDeque;
use vstd::prelude::*;
use vstd::string::*;

verus! {

/// A management request to a supervisor, with the pid of the one who asks: a message carries no
/// sender.
#[derive(PartialEq, Debug)]
pub struct SupervisorCommand {
    pub reply_to: String,
    pub op: SupervisorOp,
}

#[derive(PartialEq, Debug)]
pub enum SupervisorOp {
    StartChild(ChildSpec),
    TerminateChild(String),
}

#[derive(PartialEq, Debug)]
pub enum SupervisorReply {
    Started(String),
    Terminated,
    Refused(String),
}

/// What a reply says.
pub enum ReplyView {
    Started(Seq<char>),
    Terminated,
    Refused(Seq<char>),
}

impl View for SupervisorReply {
    type V = ReplyView;

    open spec fn view(&self) -> ReplyView {
        match self {
            SupervisorReply::Started(id) => ReplyView::Started(id@),
            SupervisorReply::Terminated => ReplyView::Terminated,
            SupervisorReply::Refused(why) => ReplyView::Refused(why@),
        }
    }
}

/// What the one who asks is told, by whether a supervisor takes the request on, or why not.
pub open spec fn reply_to(op: SupervisorOp, answer: Result<Action, String>) -> ReplyView {
    match (op, answer) {
        (SupervisorOp::StartChild(child), Ok(_)) => ReplyView::Started(child.id@),
        (SupervisorOp::StartChild(_), Err(why)) => ReplyView::Refused(why@),
        (SupervisorOp::TerminateChild(_), Ok(_)) => ReplyView::Terminated,
        (SupervisorOp::TerminateChild(id), Err(_)) => ReplyView::Refused("no child "@ + id@),
    }
}

/// The reason in a supervisor's words.
pub open spec fn supervisor_reason(r: message::ExitReason) -> ExitReason {
    match r {
        message::ExitReason::Normal => ExitReason::Normal,
        message::ExitReason::Kill => ExitReason::Kill,
        message::ExitReason::Killed => ExitReason::Killed,
        message::ExitReason::Shutdown(s) => ExitReason::Shutdown(s),
        message::ExitReason::Exception(s) => ExitReason::Exception(s),
        message::ExitReason::NoProc => ExitReason::NoProc,
        message::ExitReason::NoConnection => ExitReason::NoConnection,
    }
}

/// Tells a host's exit reason in a supervisor's words.
pub fn reason_from_host(r: &message::ExitReason) -> (out: ExitReason)
    ensures
        out == supervisor_reason(*r),
{
    match r {
        message::ExitReason::Normal => ExitReason::Normal,
        message::ExitReason::Kill => ExitReason::Kill,
        message::ExitReason::Killed => ExitReason::Killed,
        message::ExitReason::Shutdown(s) => ExitReason::Shutdown(s.clone()),
        message::ExitReason::Exception(s) => ExitReason::Exception(s.clone()),
        message::ExitReason::NoProc => ExitReason::NoProc,
        message::ExitReason::NoConnection => ExitReason::NoConnection,
    }
}

/// What the driver wants of the host.
#[derive(PartialEq, Debug)]
pub enum Step {
    /// Spawn this child, linked, and report how it went.
    Spawn(ChildSpec),
    /// Send an untrappable kill to the particle with this pid.
    Kill(String),
    /// Ask the particle with this pid to shut down.
    AskToStop(String),
    /// Nothing: go on to the next step.
    Skip,
    /// Exit with `shutdown`: there is nothing left to supervise.
    GiveUp,
    /// Wait for a message, no longer than this many milliseconds.
    Wait(Option<u64>),
}

/// Running children: their ids, each with the pid of the instance.
pub open spec fn live_view(live: Seq<(String, String)>) -> Seq<(Seq<char>, Seq<char>)> {
    live.map_values(|x: (String, String)| (x.0@, x.1@))
}

/// An instance that was asked to stop.
pub struct Asked {
    /// The child that it is an instance of.
    pub id: String,
    pub pid: String,
    pub deadline: u64,
}

/// An instance that was asked to stop.
pub struct AskedView {
    pub id: Seq<char>,
    pub pid: Seq<char>,
    pub deadline: u64,
}

impl View for Asked {
    type V = AskedView;

    open spec fn view(&self) -> AskedView {
        AskedView { id: self.id@, pid: self.pid@, deadline: self.deadline }
    }
}

impl Asked {
    /// The same again.
    fn copy(&self) -> (r: Asked)
        ensures
            r@ == self@,
    {
        Asked { id: self.id.clone(), pid: self.pid.clone(), deadline: self.deadline }
    }
}

/// Instances that were asked to stop.
pub open spec fn pending_view(pending: Seq<Asked>) -> Seq<AskedView> {
    pending.map_values(|x: Asked| x@)
}

/// What a driver knows.
#[verifier::ext_equal]
pub struct DriverView {
    pub sup: SupervisorView,
    pub live: Seq<(Seq<char>, Seq<char>)>,
    pub pending: Seq<AskedView>,
    /// The actions still to be taken, the next one first.
    pub queue: Seq<Action>,
}

/// The pid of a child's instance: that of the first entry with its id.
pub open spec fn pid_of(live: Seq<(Seq<char>, Seq<char>)>, id: Seq<char>) -> Option<Seq<char>>
    decreases live.len(),
{
    if live.len() == 0 {
        None
    } else if live[0].0 == id {
        Some(live[0].1)
    } else {
        pid_of(live.skip(1), id)
    }
}

/// The child whose instance has a pid: that of the first entry with it.
pub open spec fn child_with(live: Seq<(Seq<char>, Seq<char>)>, pid: Seq<char>) -> Option<Seq<char>>
    decreases live.len(),
{
    if live.len() == 0 {
        None
    } else if live[0].1 == pid {
        Some(live[0].0)
    } else {
        child_with(live.skip(1), pid)
    }
}

/// Running children but for one.
pub open spec fn live_without(
    live: Seq<(Seq<char>, Seq<char>)>,
    id: Seq<char>,
) -> Seq<(Seq<char>, Seq<char>)> {
    live.filter(|x: (Seq<char>, Seq<char>)| x.0 != id)
}

/// Instances that were asked to stop, but for one.
pub open spec fn pending_without(pending: Seq<AskedView>, pid: Seq<char>) -> Seq<AskedView> {
    pending.filter(|x: AskedView| x.pid != pid)
}

/// How long until the nearest deadline.
pub open spec fn patience(pending: Seq<AskedView>, now_ms: u64) -> Option<u64>
    decreases pending.len(),
{
    if pending.len() == 0 {
        None
    } else {
        let last = pending.last().deadline;
        let left: u64 = if last >= now_ms {
            (last - now_ms) as u64
        } else {
            0
        };
        match patience(pending.drop_last(), now_ms) {
            None => Some(left),
            Some(other) => Some(
                if left < other {
                    left
                } else {
                    other
                },
            ),
        }
    }
}

/// The instances whose deadline has come, in the order in which they were asked to stop.
pub open spec fn overdue(pending: Seq<AskedView>, now_ms: u64) -> Seq<AskedView> {
    pending.filter(|x: AskedView| x.deadline <= now_ms)
}

/// The pids of instances.
pub open spec fn pids_of(asked: Seq<AskedView>) -> Seq<Seq<char>> {
    asked.map_values(|x: AskedView| x.pid)
}

/// What a step says, with the text of the pid in place of the string.
pub enum StepView {
    Spawn(ChildSpec),
    Kill(Seq<char>),
    AskToStop(Seq<char>),
    Skip,
    GiveUp,
    Wait(Option<u64>),
}

impl View for Step {
    type V = StepView;

    open spec fn view(&self) -> StepView {
        match *self {
            Step::Spawn(c) => StepView::Spawn(c),
            Step::Kill(pid) => StepView::Kill(pid@),
            Step::AskToStop(pid) => StepView::AskToStop(pid@),
            Step::Skip => StepView::Skip,
            Step::GiveUp => StepView::GiveUp,
            Step::Wait(t) => StepView::Wait(t),
        }
    }
}

impl DriverView {
    /// A driver that is about to start every child.
    pub open spec fn fresh(flags: SupFlags, children: Seq<ChildSpec>) -> DriverView {
        DriverView {
            sup: SupervisorView::fresh(flags, children).all_running(),
            live: Seq::empty(),
            pending: Seq::empty(),
            queue: children.map_values(|c: ChildSpec| Action::Start(c)),
        }
    }

    /// The next step.
    pub open spec fn step(self, now_ms: u64) -> StepView {
        if self.queue.len() == 0 {
            StepView::Wait(patience(self.pending, now_ms))
        } else {
            match self.queue[0] {
                Action::Start(c) => StepView::Spawn(c),
                Action::Stop { id, shutdown } => match pid_of(self.live, id@) {
                    None => StepView::Skip,
                    Some(pid) => match shutdown {
                        Shutdown::BrutalKill => StepView::Kill(pid),
                        _ => StepView::AskToStop(pid),
                    },
                },
                Action::GiveUp => StepView::GiveUp,
            }
        }
    }

    /// What a driver knows after the next step.
    pub open spec fn stepped(self, now_ms: u64) -> DriverView {
        if self.queue.len() == 0 {
            self
        } else {
            let rest = DriverView { queue: self.queue.skip(1), ..self };
            match self.queue[0] {
                Action::Start(c) => rest,
                Action::Stop { id, shutdown } => match pid_of(self.live, id@) {
                    None => rest,
                    Some(pid) => match shutdown {
                        Shutdown::BrutalKill => DriverView {
                            live: live_without(self.live, id@),
                            ..rest
                        },
                        Shutdown::Timeout(ms) => DriverView {
                            pending: self.pending.push(
                                AskedView { id: id@, pid, deadline: (now_ms + ms) as u64 },
                            ),
                            ..rest
                        },
                        Shutdown::Infinity => rest,
                    },
                },
                Action::GiveUp => DriverView { queue: Seq::empty(), ..rest },
            }
        }
    }

    /// No deadline that the queue sets lies beyond the end of time.
    pub open spec fn deadlines_fit(self, now_ms: u64) -> bool {
        forall|i: int|
            0 <= i < self.queue.len() ==> ((#[trigger] self.queue[i]) matches Action::Stop {
                shutdown: Shutdown::Timeout(ms),
                ..
            } ==> now_ms + ms <= u64::MAX)
    }

    /// After the instance of a child was spawned.
    pub open spec fn spawned(self, id: Seq<char>, pid: Seq<char>) -> DriverView {
        DriverView { live: live_without(self.live, id).push((id, pid)), ..self }
    }

    /// After a child was found to have exited.
    pub open spec fn lost(self, id: Seq<char>, reason: ExitReason, now_ms: u64) -> DriverView {
        DriverView {
            sup: self.sup.after_exit(id, reason, now_ms),
            queue: self.queue + self.sup.answer(id, reason, now_ms),
            ..self
        }
    }

    /// After an exit signal from a particle: it is not waited for any more. One that is no
    /// child's instance, or no longer is, is not ours.
    pub open spec fn after_signal(
        self,
        pid: Seq<char>,
        reason: ExitReason,
        now_ms: u64,
    ) -> DriverView {
        let rest = DriverView { pending: pending_without(self.pending, pid), ..self };
        match child_with(self.live, pid) {
            None => rest,
            Some(id) => DriverView { live: live_without(self.live, id), ..rest }.lost(
                id,
                reason,
                now_ms,
            ),
        }
    }

    /// After the instances whose deadline has come were killed.
    pub open spec fn reaped(self, now_ms: u64) -> DriverView {
        let late = pids_of(overdue(self.pending, now_ms));
        DriverView {
            live: self.live.filter(|x: (Seq<char>, Seq<char>)| !late.contains(x.1)),
            pending: self.pending.filter(|x: AskedView| !late.contains(x.pid)),
            ..self
        }
    }
}

/// Runs a supervisor against a host.
pub struct Driver {
    sup: Supervisor,
    live: Vec<(String, String)>,
    pending: Vec<Asked>,
    queue: VecDeque<Action>,
}

impl View for Driver {
    type V = DriverView;

    closed spec fn view(&self) -> DriverView {
        DriverView {
            sup: self.sup@,
            live: live_view(self.live@),
            pending: pending_view(self.pending@),
            queue: self.queue@,
        }
    }
}

/// Entries of running children but for one.
fn retain_live(live: &Vec<(String, String)>, id: &String) -> (r: Vec<(String, String)>)
    ensures
        live_view(r@) == live_without(live_view(live@), id@),
{
    let mut r: Vec<(String, String)> = Vec::new();
    let mut i: usize = 0;
    let ghost all = live_view(live@);
    let ghost keep = |x: (Seq<char>, Seq<char>)| x.0 != id@;
    assert(live_view(r@) =~= all.take(0).filter(keep));
    while i < live.len()
        invariant
            i <= live@.len(),
            all == live_view(live@),
            keep == (|x: (Seq<char>, Seq<char>)| x.0 != id@),
            live_view(r@) == all.take(i as int).filter(keep),
        decreases live@.len() - i,
    {
        proof {
            assert(all.take(i + 1).drop_last() =~= all.take(i as int));
            reveal(Seq::filter);
        }
        if live[i].0 != *id {
            r.push((live[i].0.clone(), live[i].1.clone()));
        }
        i += 1;
    }
    assert(all.take(all.len() as int) =~= all);
    r
}

/// Entries of awaited instances but for one.
fn retain_pending(pending: &Vec<Asked>, pid: &String) -> (r: Vec<Asked>)
    ensures
        pending_view(r@) == pending_without(pending_view(pending@), pid@),
{
    let mut r: Vec<Asked> = Vec::new();
    let mut i: usize = 0;
    let ghost all = pending_view(pending@);
    let ghost keep = |x: AskedView| x.pid != pid@;
    assert(pending_view(r@) =~= all.take(0).filter(keep));
    while i < pending.len()
        invariant
            i <= pending@.len(),
            all == pending_view(pending@),
            keep == (|x: AskedView| x.pid != pid@),
            pending_view(r@) == all.take(i as int).filter(keep),
        decreases pending@.len() - i,
    {
        proof {
            assert(all.take(i + 1).drop_last() =~= all.take(i as int));
            reveal(Seq::filter);
        }
        if pending[i].pid != *pid {
            r.push(pending[i].copy());
        }
        i += 1;
    }
    assert(all.take(all.len() as int) =~= all);
    r
}

/// Whether a pid is that of an instance in a list.
fn is_listed(list: &Vec<Asked>, pid: &String) -> (r: bool)
    ensures
        r == pids_of(pending_view(list@)).contains(pid@),
{
    let ghost pids = pids_of(pending_view(list@));
    let mut i: usize = 0;
    while i < list.len()
        invariant
            i <= list@.len(),
            pids == pids_of(pending_view(list@)),
            forall|j: int| 0 <= j < i ==> (#[trigger] pids[j]) != pid@,
        decreases list@.len() - i,
    {
        if list[i].pid == *pid {
            assert(pids[i as int] == pid@);
            return true;
        }
        i += 1;
    }
    false
}

/// Entries of running children whose instances are not in a list.
fn spare_live(live: &Vec<(String, String)>, late: &Vec<Asked>) -> (r: Vec<(String, String)>)
    ensures
        live_view(r@) == live_view(live@).filter(
            |x: (Seq<char>, Seq<char>)| !pids_of(pending_view(late@)).contains(x.1),
        ),
{
    let mut r: Vec<(String, String)> = Vec::new();
    let mut i: usize = 0;
    let ghost all = live_view(live@);
    let ghost keep = |x: (Seq<char>, Seq<char>)| !pids_of(pending_view(late@)).contains(x.1);
    assert(live_view(r@) =~= all.take(0).filter(keep));
    while i < live.len()
        invariant
            i <= live@.len(),
            all == live_view(live@),
            keep == (|x: (Seq<char>, Seq<char>)| !pids_of(pending_view(late@)).contains(x.1)),
            live_view(r@) == all.take(i as int).filter(keep),
        decreases live@.len() - i,
    {
        proof {
            assert(all.take(i + 1).drop_last() =~= all.take(i as int));
            reveal(Seq::filter);
        }
        if !is_listed(late, &live[i].1) {
            r.push((live[i].0.clone(), live[i].1.clone()));
        }
        i += 1;
    }
    assert(all.take(all.len() as int) =~= all);
    r
}

/// Entries of awaited instances that are not in a list.
fn spare_pending(pending: &Vec<Asked>, late: &Vec<Asked>) -> (r: Vec<Asked>)
    ensures
        pending_view(r@) == pending_view(pending@).filter(
            |x: AskedView| !pids_of(pending_view(late@)).contains(x.pid),
        ),
{
    let mut r: Vec<Asked> = Vec::new();
    let mut i: usize = 0;
    let ghost all = pending_view(pending@);
    let ghost keep = |x: AskedView| !pids_of(pending_view(late@)).contains(x.pid);
    assert(pending_view(r@) =~= all.take(0).filter(keep));
    while i < pending.len()
        invariant
            i <= pending@.len(),
            all == pending_view(pending@),
            keep == (|x: AskedView| !pids_of(pending_view(late@)).contains(x.pid)),
            pending_view(r@) == all.take(i as int).filter(keep),
        decreases pending@.len() - i,
    {
        proof {
            assert(all.take(i + 1).drop_last() =~= all.take(i as int));
            reveal(Seq::filter);
        }
        if !is_listed(late, &pending[i].pid) {
            r.push(pending[i].copy());
        }
        i += 1;
    }
    assert(all.take(all.len() as int) =~= all);
    r
}

/// The pid of a child's instance.
fn find_pid(live: &Vec<(String, String)>, id: &String) -> (r: Option<String>)
    ensures
        match r {
            Some(pid) => pid_of(live_view(live@), id@) == Some(pid@),
            None => pid_of(live_view(live@), id@) is None,
        },
{
    let ghost all = live_view(live@);
    let mut i: usize = 0;
    assert(all.skip(0) =~= all);
    while i < live.len()
        invariant
            i <= live@.len(),
            all == live_view(live@),
            pid_of(all, id@) == pid_of(all.skip(i as int), id@),
        decreases live@.len() - i,
    {
        assert(all.skip(i as int).skip(1) =~= all.skip(i + 1));
        if live[i].0 == *id {
            return Some(live[i].1.clone());
        }
        i += 1;
    }
    None
}

/// The child whose instance has a pid.
fn find_child(live: &Vec<(String, String)>, pid: &String) -> (r: Option<String>)
    ensures
        match r {
            Some(id) => child_with(live_view(live@), pid@) == Some(id@),
            None => child_with(live_view(live@), pid@) is None,
        },
{
    let ghost all = live_view(live@);
    let mut i: usize = 0;
    assert(all.skip(0) =~= all);
    while i < live.len()
        invariant
            i <= live@.len(),
            all == live_view(live@),
            child_with(all, pid@) == child_with(all.skip(i as int), pid@),
        decreases live@.len() - i,
    {
        assert(all.skip(i as int).skip(1) =~= all.skip(i + 1));
        if live[i].1 == *pid {
            return Some(live[i].0.clone());
        }
        i += 1;
    }
    None
}

impl Driver {
    pub closed spec fn wf(&self) -> bool {
        self.sup.wf()
    }

    pub fn new(flags: SupFlags, children: Vec<ChildSpec>) -> (r: Self)
        ensures
            r.wf(),
            r@ == DriverView::fresh(flags, children@),
    {
        let mut sup = Supervisor::new(flags, children);
        let actions = sup.init();
        let mut r = Driver { sup, live: Vec::new(), pending: Vec::new(), queue: VecDeque::new() };
        r.enqueue(actions);
        r
    }

    fn enqueue(&mut self, actions: Vec<Action>)
        requires
            old(self).wf(),
        ensures
            final(self).wf(),
            final(self)@ == (DriverView { queue: old(self)@.queue + actions@, ..old(self)@ }),
    {
        let ghost all = actions@;
        let mut rest: VecDeque<Action> = VecDeque::new();
        let mut actions = actions;
        while actions.len() > 0
            invariant
                actions@ + rest@ == all,
            decreases actions@.len(),
        {
            match actions.pop() {
                Some(a) => {
                    rest.push_front(a);
                },
                None => {},
            }
        }
        self.queue.append(&mut rest);
    }

    /// The next thing to do.
    pub fn next_step(&mut self, now_ms: u64) -> (r: Step)
        requires
            old(self).wf(),
            old(self)@.deadlines_fit(now_ms),
        ensures
            final(self).wf(),
            r@ == old(self)@.step(now_ms),
            final(self)@ == old(self)@.stepped(now_ms),
    {
        match self.queue.pop_front() {
            None => Step::Wait(self.nearest(now_ms)),
            Some(action) => {
                match action {
                    Action::Start(child) => Step::Spawn(child),
                    Action::Stop { id, shutdown } => match find_pid(&self.live, &id) {
                        None => Step::Skip,
                        Some(pid) => match shutdown {
                            Shutdown::BrutalKill => {
                                self.live = retain_live(&self.live, &id);
                                Step::Kill(pid)
                            },
                            Shutdown::Timeout(ms) => {
                                let ghost before = self.pending@;
                                let asked = Asked { id, pid: pid.clone(), deadline: now_ms + ms };
                                self.pending.push(asked);
                                assert(pending_view(self.pending@) =~= pending_view(before).push(
                                    asked@,
                                ));
                                Step::AskToStop(pid)
                            },
                            Shutdown::Infinity => Step::AskToStop(pid),
                        },
                    },
                    Action::GiveUp => {
                        self.queue = VecDeque::new();
                        Step::GiveUp
                    },
                }
            },
        }
    }

    fn nearest(&self, now_ms: u64) -> (r: Option<u64>)
        ensures
            r == patience(self@.pending, now_ms),
    {
        let ghost all = pending_view(self.pending@);
        let mut best: Option<u64> = None;
        let mut i: usize = 0;
        while i < self.pending.len()
            invariant
                i <= self.pending@.len(),
                all == pending_view(self.pending@),
                best == patience(all.take(i as int), now_ms),
            decreases self.pending@.len() - i,
        {
            assert(all.take(i + 1).drop_last() =~= all.take(i as int));
            let left: u64 = self.pending[i].deadline.saturating_sub(now_ms);
            best = match best {
                None => Some(left),
                Some(other) => if left < other {
                    Some(left)
                } else {
                    Some(other)
                },
            };
            i += 1;
        }
        assert(all.take(all.len() as int) =~= all);
        best
    }

    /// A child's instance was spawned.
    pub fn child_spawned(&mut self, id: String, pid: String)
        requires
            old(self).wf(),
        ensures
            final(self).wf(),
            final(self)@ == old(self)@.spawned(id@, pid@),
    {
        self.live = retain_live(&self.live, &id);
        self.live.push((id, pid));
    }

    /// A child could not be spawned. It counts as having failed, so that the restart policy sees
    /// it.
    pub fn spawn_failed(&mut self, id: &str, now_ms: u64)
        requires
            old(self).wf(),
        ensures
            final(self).wf(),
            exists|why: String|
                #![trigger old(self)@.lost(id@, ExitReason::Exception(why), now_ms)]
                why@ == "start failed"@ && final(self)@ == old(self)@.lost(
                    id@,
                    ExitReason::Exception(why),
                    now_ms,
                ),
    {
        let why = "start failed".to_owned();
        let reason = ExitReason::Exception(why);
        let actions = self.sup.on_child_exit(id, &reason, now_ms);
        self.enqueue(actions);
        assert(self@ == old(self)@.lost(id@, ExitReason::Exception(why), now_ms));
    }

    /// Answers a management request that a supervisor takes on with an action, or refuses: the
    /// action is taken after those that wait already.
    pub fn manage(&mut self, op: &SupervisorOp, answer: Result<Action, String>) -> (r:
        SupervisorReply)
        requires
            old(self).wf(),
        ensures
            final(self).wf(),
            r@ == reply_to(*op, answer),
            final(self)@ == (match answer {
                Ok(action) => (DriverView { queue: old(self)@.queue.push(action), ..old(self)@ }),
                Err(_) => old(self)@,
            }),
    {
        match answer {
            Ok(action) => {
                self.queue.push_back(action);
                match op {
                    SupervisorOp::StartChild(child) => SupervisorReply::Started(child.id.clone()),
                    SupervisorOp::TerminateChild(_) => SupervisorReply::Terminated,
                }
            },
            Err(why) => match op {
                SupervisorOp::StartChild(_) => SupervisorReply::Refused(why),
                SupervisorOp::TerminateChild(id) => {
                    let mut text = "no child ".to_owned();
                    text.append(id.as_str());
                    SupervisorReply::Refused(text)
                },
            },
        }
    }

    /// An exit signal came from the particle with this pid.
    pub fn on_exit(&mut self, pid: &String, reason: &message::ExitReason, now_ms: u64)
        requires
            old(self).wf(),
        ensures
            final(self).wf(),
            final(self)@ == old(self)@.after_signal(pid@, supervisor_reason(*reason), now_ms),
    {
        self.pending = retain_pending(&self.pending, pid);
        match find_child(&self.live, pid) {
            None => {},
            Some(id) => {
                self.live = retain_live(&self.live, &id);
                let why = reason_from_host(reason);
                let actions = self.sup.on_child_exit(id.as_str(), &why, now_ms);
                self.enqueue(actions);
            },
        }
    }

    /// Waiting gave nothing: the instances to kill, those whose patience has run out.
    pub fn on_timeout(&mut self, now_ms: u64) -> (r: Vec<Asked>)
        requires
            old(self).wf(),
        ensures
            final(self).wf(),
            final(self)@ == old(self)@.reaped(now_ms),
            pending_view(r@) == overdue(old(self)@.pending, now_ms),
    {
        let late = self.overdue_now(now_ms);
        self.live = spare_live(&self.live, &late);
        self.pending = spare_pending(&self.pending, &late);
        late
    }

    fn overdue_now(&self, now_ms: u64) -> (r: Vec<Asked>)
        ensures
            pending_view(r@) == overdue(self@.pending, now_ms),
    {
        let ghost all = pending_view(self.pending@);
        let ghost late = |x: AskedView| x.deadline <= now_ms;
        let mut r: Vec<Asked> = Vec::new();
        let mut i: usize = 0;
        assert(pending_view(r@) =~= all.take(0).filter(late));
        while i < self.pending.len()
            invariant
                i <= self.pending@.len(),
                all == pending_view(self.pending@),
                late == (|x: AskedView| x.deadline <= now_ms),
                pending_view(r@) == all.take(i as int).filter(late),
            decreases self.pending@.len() - i,
        {
            proof {
                assert(all.take(i + 1).drop_last() =~= all.take(i as int));
                reveal(Seq::filter);
            }
            if self.pending[i].deadline <= now_ms {
                r.push(self.pending[i].copy());
            }
            i += 1;
        }
        assert(all.take(all.len() as int) =~= all);
        r
    }
}

/// An exit signal from a particle that is no child's instance, and is not waited for, changes
/// nothing.
pub proof fn law_strangers_are_ignored(
    d: DriverView,
    pid: Seq<char>,
    reason: ExitReason,
    now_ms: u64,
)
    requires
        forall|i: int| 0 <= i < d.live.len() ==> (#[trigger] d.live[i]).1 != pid,
        forall|i: int| 0 <= i < d.pending.len() ==> (#[trigger] d.pending[i]).pid != pid,
    ensures
        d.after_signal(pid, reason, now_ms) == d,
{
    lemma_no_child_with(d.live, pid);
    lemma_without_absent(d.pending, pid);
}

proof fn lemma_without_absent(pending: Seq<AskedView>, pid: Seq<char>)
    requires
        forall|i: int| 0 <= i < pending.len() ==> (#[trigger] pending[i]).pid != pid,
    ensures
        pending_without(pending, pid) == pending,
    decreases pending.len(),
{
    reveal(Seq::filter);
    if pending.len() > 0 {
        lemma_without_absent(pending.drop_last(), pid);
    }
}

proof fn lemma_no_child_with(live: Seq<(Seq<char>, Seq<char>)>, pid: Seq<char>)
    requires
        forall|i: int| 0 <= i < live.len() ==> (#[trigger] live[i]).1 != pid,
    ensures
        child_with(live, pid) is None,
    decreases live.len(),
{
    if live.len() > 0 {
        assert forall|i: int| 0 <= i < live.skip(1).len() implies (#[trigger] live.skip(1)[i]).1
            != pid by {}
        lemma_no_child_with(live.skip(1), pid);
    }
}

/// An instance was asked to stop, and its deadline has come.
pub open spec fn is_late(pending: Seq<AskedView>, now_ms: u64, pid: Seq<char>, i: int) -> bool {
    0 <= i < pending.len() && pending[i].pid == pid && pending[i].deadline <= now_ms
}

/// Whoever was asked to stop and has not exited when its deadline comes is killed, and nobody
/// else is. A child that was started anew in the meantime is another instance: it is not killed
/// for the one before it.
pub proof fn law_the_asked_are_killed_and_no_others(
    pending: Seq<AskedView>,
    now_ms: u64,
    pid: Seq<char>,
)
    ensures
        pids_of(overdue(pending, now_ms)).contains(pid) <==> exists|i: int| #[trigger]
            is_late(pending, now_ms, pid, i),
{
    let late = |x: AskedView| x.deadline <= now_ms;
    let kept = pending.filter(late);
    let pids = pids_of(kept);
    registry::lemma_filter_contains(pending, late);
    if pids.contains(pid) {
        let k = choose|k: int| 0 <= k < kept.len() && pids[k] == pid;
        assert(kept.contains(kept[k]));
        let i = choose|i: int| 0 <= i < pending.len() && pending[i] == kept[k];
        assert(is_late(pending, now_ms, pid, i));
    }
    if exists|i: int| #[trigger] is_late(pending, now_ms, pid, i) {
        let i = choose|i: int| #[trigger] is_late(pending, now_ms, pid, i);
        assert(kept.contains(pending[i]));
        let k = choose|k: int| 0 <= k < kept.len() && kept[k] == pending[i];
        assert(pids[k] == pid);
    }
}

/// The driver waits no longer than any instance that was asked to stop has left.
pub proof fn law_waiting_ends_by_every_deadline(
    pending: Seq<AskedView>,
    now_ms: u64,
    i: int,
)
    requires
        0 <= i < pending.len(),
        pending[i].deadline >= now_ms,
    ensures
        patience(pending, now_ms) matches Some(t) && now_ms + t <= pending[i].deadline,
    decreases pending.len(),
{
    if i < pending.len() - 1 {
        law_waiting_ends_by_every_deadline(pending.drop_last(), now_ms, i);
    }
}

} // verus!
