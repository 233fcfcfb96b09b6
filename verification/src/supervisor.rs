//! Supervision: restart policy as a decision core.
//!
//! A supervisor is an ordinary particle. What lives here decides what to do when a child dies;
//! spawning and signalling is the caller's job, driven by the [`Action`]s handed back.

use std::collections::VecDeque;
use vstd::prelude::*;
use vstd::string::*;

verus! {

/// Why a particle stopped, as a component sees it.
#[derive(PartialEq, Eq, Debug)]
pub enum ExitReason {
    Normal,
    Kill,
    Killed,
    Shutdown(String),
    Exception(String),
    NoProc,
    NoConnection,
}

impl Clone for ExitReason {
    fn clone(&self) -> (r: Self)
        ensures
            r == *self,
    {
        match self {
            ExitReason::Normal => ExitReason::Normal,
            ExitReason::Kill => ExitReason::Kill,
            ExitReason::Killed => ExitReason::Killed,
            ExitReason::Shutdown(why) => ExitReason::Shutdown(why.clone()),
            ExitReason::Exception(why) => ExitReason::Exception(why.clone()),
            ExitReason::NoProc => ExitReason::NoProc,
            ExitReason::NoConnection => ExitReason::NoConnection,
        }
    }
}

/// Whether a reason restarts a transient child: anything but a normal exit and a shutdown.
pub open spec fn warrants(reason: ExitReason) -> bool {
    reason !is Normal && reason !is Shutdown
}

impl ExitReason {
    /// Whether this reason should restart a `transient` child.
    ///
    /// Not the same question as whether it kills a linked particle: that one is every reason
    /// but `normal`. A supervisor stops siblings with `shutdown`, and those must stay down.
    pub fn warrants_restart(&self) -> (r: bool)
        ensures
            r == warrants(*self),
    {
        match self {
            ExitReason::Normal => false,
            ExitReason::Shutdown(_) => false,
            _ => true,
        }
    }
}

/// When a terminated child is restarted.
#[derive(Clone, Copy, PartialEq, Eq, Structural, Debug)]
pub enum Restart {
    /// Always.
    Permanent,
    /// Only after an abnormal exit.
    Transient,
    /// Never, even when a sibling's death is what terminated it.
    Temporary,
}

impl Default for Restart {
    fn default() -> (r: Self)
        ensures
            r is Permanent,
    {
        Restart::Permanent
    }
}

/// How a child is stopped on purpose.
#[derive(Clone, Copy, PartialEq, Eq, Structural, Debug)]
pub enum Shutdown {
    /// An untrappable kill, at once.
    BrutalKill,
    /// Ask with `shutdown`, wait this many milliseconds, then kill.
    Timeout(u64),
    /// Ask with `shutdown` and wait as long as it takes.
    Infinity,
}

impl Default for Shutdown {
    fn default() -> (r: Self)
        ensures
            r == Shutdown::Timeout(5_000),
    {
        Shutdown::Timeout(5_000)
    }
}

/// What to start for a child.
#[derive(PartialEq, Eq, Debug)]
pub struct Start {
    pub component: String,
    pub init_args: String,
}

impl Clone for Start {
    fn clone(&self) -> (r: Self)
        ensures
            r == *self,
    {
        Start { component: self.component.clone(), init_args: self.init_args.clone() }
    }
}

/// A child, as data that a supervisor holds. It is started again exactly as it was.
#[derive(PartialEq, Eq, Debug)]
pub struct ChildSpec {
    /// Stays the same when the child is restarted, unlike the pid.
    pub id: String,
    pub start: Start,
    pub restart: Restart,
    pub shutdown: Shutdown,
}

impl Clone for ChildSpec {
    fn clone(&self) -> (r: Self)
        ensures
            r == *self,
    {
        ChildSpec {
            id: self.id.clone(),
            start: self.start.clone(),
            restart: self.restart,
            shutdown: self.shutdown,
        }
    }
}

impl ChildSpec {
    /// A permanent child with no arguments and five seconds to shut down.
    pub fn new(id: &str, component: &str) -> (r: Self)
        ensures
            r.id@ == id@,
            r.start.component@ == component@,
            r.start.init_args@ == Seq::<char>::empty(),
            r.restart is Permanent,
            r.shutdown == Shutdown::Timeout(5_000),
    {
        ChildSpec {
            id: id.to_owned(),
            start: Start { component: component.to_owned(), init_args: String::new() },
            restart: Restart::default(),
            shutdown: Shutdown::default(),
        }
    }

    pub fn init_args(self, args: &str) -> (r: Self)
        ensures
            r.start.init_args@ == args@,
            r == (ChildSpec {
                start: Start { init_args: r.start.init_args, ..self.start },
                ..self
            }),
    {
        ChildSpec {
            id: self.id,
            start: Start { component: self.start.component, init_args: args.to_owned() },
            restart: self.restart,
            shutdown: self.shutdown,
        }
    }

    pub fn restart(self, restart: Restart) -> (r: Self)
        ensures
            r == (ChildSpec { restart, ..self }),
    {
        ChildSpec { id: self.id, start: self.start, restart, shutdown: self.shutdown }
    }

    pub fn shutdown(self, shutdown: Shutdown) -> (r: Self)
        ensures
            r == (ChildSpec { shutdown, ..self }),
    {
        ChildSpec { id: self.id, start: self.start, restart: self.restart, shutdown }
    }
}

#[derive(Clone, Copy, PartialEq, Eq, Structural, Debug)]
pub enum Strategy {
    /// Only the terminated child is restarted.
    OneForOne,
    /// All other children are terminated, then all are restarted.
    OneForAll,
    /// The children after the terminated one are terminated, then it and they are restarted.
    RestForOne,
}

impl Default for Strategy {
    fn default() -> (r: Self)
        ensures
            r is OneForOne,
    {
        Strategy::OneForOne
    }
}

/// The strategy, and the brake that stops a crash loop.
#[derive(Clone, Copy, PartialEq, Eq, Structural, Debug)]
pub struct SupFlags {
    pub strategy: Strategy,
    /// More than this many restarts within `period_ms`, and the supervisor gives up.
    pub intensity: u32,
    pub period_ms: u64,
}

impl Default for SupFlags {
    fn default() -> (r: Self)
        ensures
            r == (SupFlags { strategy: Strategy::OneForOne, intensity: 1, period_ms: 5_000 }),
    {
        SupFlags { strategy: Strategy::default(), intensity: 1, period_ms: 5_000 }
    }
}

/// Something the caller must do. The supervisor decides; it does not act.
#[derive(PartialEq, Eq, Debug)]
pub enum Action {
    /// Spawn this child, linked.
    Start(ChildSpec),
    /// Stop a running child, as its `shutdown` says.
    Stop { id: String, shutdown: Shutdown },
    /// Too many restarts. The `Stop`s of what still runs come before; after them the caller
    /// exits itself.
    GiveUp,
}

/// What a supervisor knows.
#[verifier::ext_equal]
pub struct SupervisorView {
    pub flags: SupFlags,
    pub children: Seq<ChildSpec>,
    /// Which children are believed to run.
    pub running: Seq<bool>,
    /// When recent restarts were, the oldest first.
    pub restarts: Seq<u64>,
}

/// The position of the first child with an id, at or after a position.
pub open spec fn child_index(children: Seq<ChildSpec>, id: Seq<char>, from: int) -> Option<int>
    decreases children.len() - from,
{
    if from < 0 || from >= children.len() {
        None
    } else if children[from].id@ == id {
        Some(from)
    } else {
        child_index(children, id, from + 1)
    }
}

/// The action that stops a child.
pub open spec fn stop_of(c: ChildSpec) -> Action {
    Action::Stop { id: c.id, shutdown: c.shutdown }
}

/// The stops of the running children from `lo` up to `hi`, in reverse start order, passing
/// over one of them.
pub open spec fn stops(s: SupervisorView, lo: int, hi: int, except: int) -> Seq<Action>
    decreases hi - lo,
{
    if hi <= lo {
        Seq::empty()
    } else if s.running[hi - 1] && hi - 1 != except {
        seq![stop_of(s.children[hi - 1])] + stops(s, lo, hi - 1, except)
    } else {
        stops(s, lo, hi - 1, except)
    }
}

/// The starts of the children from `lo` up to `hi` that may be restarted, in start order.
pub open spec fn restarts_of(children: Seq<ChildSpec>, lo: int, hi: int) -> Seq<Action>
    decreases hi - lo,
{
    if hi <= lo {
        Seq::empty()
    } else if children[hi - 1].restart is Temporary {
        restarts_of(children, lo, hi - 1)
    } else {
        restarts_of(children, lo, hi - 1).push(Action::Start(children[hi - 1]))
    }
}

/// Times without those at the front that lie before a cutoff.
pub open spec fn since(times: Seq<u64>, cutoff: u64) -> Seq<u64>
    decreases times.len(),
{
    if times.len() > 0 && times[0] < cutoff {
        since(times.skip(1), cutoff)
    } else {
        times
    }
}

impl SupervisorView {
    pub open spec fn sound(self) -> bool {
        self.running.len() == self.children.len()
    }

    /// A supervisor none of whose children runs.
    pub open spec fn fresh(flags: SupFlags, children: Seq<ChildSpec>) -> SupervisorView {
        SupervisorView {
            flags,
            children,
            running: Seq::new(children.len(), |i: int| false),
            restarts: Seq::empty(),
        }
    }

    /// With every child running.
    pub open spec fn all_running(self) -> SupervisorView {
        SupervisorView { running: Seq::new(self.children.len(), |i: int| true), ..self }
    }

    /// With no child running.
    pub open spec fn all_stopped(self) -> SupervisorView {
        SupervisorView { running: Seq::new(self.children.len(), |i: int| false), ..self }
    }

    /// With one child known to be gone.
    pub open spec fn without(self, idx: int) -> SupervisorView {
        SupervisorView { running: self.running.update(idx, false), ..self }
    }

    /// Whether the exit of a child is one to restart it for.
    pub open spec fn restarts_for(self, idx: int, reason: ExitReason) -> bool {
        match self.children[idx].restart {
            Restart::Permanent => true,
            Restart::Temporary => false,
            Restart::Transient => warrants(reason),
        }
    }

    /// The first child that the strategy disturbs when one dies.
    pub open spec fn first_affected(self, idx: int) -> int {
        match self.flags.strategy {
            Strategy::OneForAll => 0,
            _ => idx,
        }
    }

    /// The first child after those that the strategy disturbs.
    pub open spec fn end_affected(self, idx: int) -> int {
        match self.flags.strategy {
            Strategy::OneForOne => idx + 1,
            _ => self.children.len() as int,
        }
    }

    /// What is done for the death of a child: the disturbed siblings stop, last first, then
    /// the child and they start, first first.
    pub open spec fn recovery(self, idx: int) -> Seq<Action> {
        let lo = self.first_affected(idx);
        let hi = self.end_affected(idx);
        stops(self, lo, hi, idx) + restarts_of(self.children, lo, hi)
    }

    /// After the recovery from the death of a child: each restarted child counts.
    pub open spec fn recovered(self, idx: int, now_ms: u64) -> SupervisorView {
        let lo = self.first_affected(idx);
        let hi = self.end_affected(idx);
        let count = restarts_of(self.children, lo, hi).len();
        let cutoff = if now_ms >= self.flags.period_ms {
            (now_ms - self.flags.period_ms) as u64
        } else {
            0
        };
        SupervisorView {
            running: Seq::new(
                self.children.len(),
                |i: int|
                    if lo <= i < hi {
                        self.children[i].restart !is Temporary
                    } else {
                        self.running[i]
                    },
            ),
            restarts: since(self.restarts + Seq::new(count, |i: int| now_ms), cutoff),
            ..self
        }
    }

    /// More restarts than the intensity allows are on record.
    pub open spec fn spinning(self) -> bool {
        self.restarts.len() > self.flags.intensity
    }

    /// The stops of all that runs, last first, and the word to give up.
    pub open spec fn surrender(self) -> Seq<Action> {
        stops(self, 0, self.children.len() as int, -1).push(Action::GiveUp)
    }

    /// What is to be done when a child exits.
    pub open spec fn answer(self, id: Seq<char>, reason: ExitReason, now_ms: u64) -> Seq<Action> {
        match child_index(self.children, id, 0) {
            None => Seq::empty(),
            Some(idx) => {
                let s = self.without(idx);
                if !s.restarts_for(idx, reason) {
                    Seq::empty()
                } else if s.recovered(idx, now_ms).spinning() {
                    s.surrender()
                } else {
                    s.recovery(idx)
                }
            },
        }
    }

    /// What a supervisor knows after a child has exited.
    pub open spec fn after_exit(
        self,
        id: Seq<char>,
        reason: ExitReason,
        now_ms: u64,
    ) -> SupervisorView {
        match child_index(self.children, id, 0) {
            None => self,
            Some(idx) => {
                let s = self.without(idx);
                if !s.restarts_for(idx, reason) {
                    s
                } else if s.recovered(idx, now_ms).spinning() {
                    s.recovered(idx, now_ms).all_stopped()
                } else {
                    s.recovered(idx, now_ms)
                }
            },
        }
    }
}

/// A supervisor's policy state.
pub struct Supervisor {
    flags: SupFlags,
    children: Vec<ChildSpec>,
    running: Vec<bool>,
    restarts: VecDeque<u64>,
}

impl View for Supervisor {
    type V = SupervisorView;

    closed spec fn view(&self) -> SupervisorView {
        SupervisorView {
            flags: self.flags,
            children: self.children@,
            running: self.running@,
            restarts: self.restarts@,
        }
    }
}

/// Where the first child with an id is.
pub proof fn lemma_child_index(children: Seq<ChildSpec>, id: Seq<char>, from: int)
    requires
        0 <= from,
    ensures
        match child_index(children, id, from) {
            Some(i) => from <= i < children.len() && children[i].id@ == id && forall|j: int|
                from <= j < i ==> (#[trigger] children[j]).id@ != id,
            None => forall|j: int| from <= j < children.len() ==> (#[trigger] children[j]).id@ != id,
        },
    decreases children.len() - from,
{
    if from < children.len() && children[from].id@ != id {
        lemma_child_index(children, id, from + 1);
    }
}

impl Supervisor {
    pub open spec fn wf(&self) -> bool {
        self@.sound()
    }

    pub fn new(flags: SupFlags, children: Vec<ChildSpec>) -> (r: Self)
        ensures
            r.wf(),
            r@ == SupervisorView::fresh(flags, children@),
    {
        let mut running: Vec<bool> = Vec::new();
        let mut i: usize = 0;
        while i < children.len()
            invariant
                i <= children@.len(),
                running@ == Seq::new(i as nat, |j: int| false),
            decreases children@.len() - i,
        {
            running.push(false);
            i += 1;
        }
        Supervisor { flags, children, running, restarts: VecDeque::new() }
    }

    pub fn children(&self) -> (r: &[ChildSpec])
        ensures
            r@ == self@.children,
    {
        self.children.as_slice()
    }

    /// Whether a child is believed to run.
    pub fn is_running(&self, id: &str) -> (r: bool)
        requires
            self.wf(),
        ensures
            r == match child_index(self@.children, id@, 0) {
                Some(i) => self@.running[i],
                None => false,
            },
    {
        match self.index_of(id) {
            Some(i) => self.running[i],
            None => false,
        }
    }

    fn index_of(&self, id: &str) -> (r: Option<usize>)
        ensures
            match r {
                Some(i) => child_index(self@.children, id@, 0) == Some(i as int) && i
                    < self@.children.len(),
                None => child_index(self@.children, id@, 0) is None,
            },
    {
        let wanted = id.to_owned();
        let mut i: usize = 0;
        while i < self.children.len()
            invariant
                i <= self.children@.len(),
                wanted@ == id@,
                child_index(self.children@, id@, 0) == child_index(self.children@, id@, i as int),
            decreases self.children@.len() - i,
        {
            if self.children[i].id == wanted {
                return Some(i);
            }
            i += 1;
        }
        None
    }

    /// Starts every child, left to right.
    pub fn init(&mut self) -> (r: Vec<Action>)
        requires
            old(self).wf(),
        ensures
            final(self).wf(),
            final(self)@ == old(self)@.all_running(),
            r@ == old(self)@.children.map_values(|c: ChildSpec| Action::Start(c)),
    {
        let mut actions: Vec<Action> = Vec::new();
        let mut i: usize = 0;
        while i < self.children.len()
            invariant
                i <= self.children@.len(),
                self.wf(),
                self.children@ == old(self).children@,
                self.flags == old(self).flags,
                self.restarts == old(self).restarts,
                actions@.len() == i,
                forall|j: int| 0 <= j < i ==> #[trigger] self.running@[j],
                forall|j: int|
                    0 <= j < i ==> #[trigger] actions@[j] == Action::Start(self.children@[j]),
            decreases self.children@.len() - i,
        {
            self.running.set(i, true);
            actions.push(Action::Start(self.children[i].clone()));
            i += 1;
        }
        actions
    }

    /// Stops every running child, in reverse start order.
    pub fn shutdown(&mut self) -> (r: Vec<Action>)
        requires
            old(self).wf(),
        ensures
            final(self).wf(),
            final(self)@ == old(self)@.all_stopped(),
            r@ == stops(old(self)@, 0, old(self)@.children.len() as int, -1),
    {
        let n: usize = self.children.len();
        let r = self.stop_range(0, n, None);
        r
    }

    /// Stops the running children of a range, last first, passing over one of them.
    fn stop_range(&mut self, lo: usize, hi: usize, except: Option<usize>) -> (r: Vec<Action>)
        requires
            old(self).wf(),
            lo <= hi <= old(self)@.children.len(),
        ensures
            final(self).wf(),
            r@ == stops(old(self)@, lo as int, hi as int, passed_over(except)),
            final(self)@ == (SupervisorView {
                running: Seq::new(
                    old(self)@.children.len(),
                    |i: int|
                        old(self)@.running[i] && !(lo <= i < hi && i != passed_over(except)),
                ),
                ..old(self)@
            }),
    {
        let mut actions: Vec<Action> = Vec::new();
        let ghost all = stops(old(self)@, lo as int, hi as int, passed_over(except));
        let mut i: usize = hi;
        while i > lo
            invariant
                lo <= i <= hi <= self.children@.len(),
                self.wf(),
                self.children@ == old(self).children@,
                self.flags == old(self).flags,
                self.restarts == old(self).restarts,
                self.running@.len() == old(self).running@.len(),
                forall|j: int|
                    0 <= j < self.running@.len() ==> #[trigger] self.running@[j] == (old(
                        self,
                    )@.running[j] && !(i <= j < hi && j != passed_over(except))),
                all == stops(old(self)@, lo as int, hi as int, passed_over(except)),
                actions@ + stops(old(self)@, lo as int, i as int, passed_over(except)) == all,
            decreases i,
        {
            let k: usize = i - 1;
            let spared = match except {
                Some(e) => e == k,
                None => false,
            };
            let ghost before = actions@;
            if !spared && self.running[k] {
                self.running.set(k, false);
                actions.push(
                    Action::Stop {
                        id: self.children[k].id.clone(),
                        shutdown: self.children[k].shutdown,
                    },
                );
                proof {
                    let rest = stops(old(self)@, lo as int, k as int, passed_over(except));
                    assert(before + (seq![stop_of(self.children@[k as int])] + rest)
                        =~= before.push(stop_of(self.children@[k as int])) + rest);
                }
            }
            i -= 1;
        }
        actions
    }

    /// A child exited: decides what happens next.
    pub fn on_child_exit(&mut self, id: &str, reason: &ExitReason, now_ms: u64) -> (r: Vec<Action>)
        requires
            old(self).wf(),
        ensures
            final(self).wf(),
            r@ == old(self)@.answer(id@, *reason, now_ms),
            final(self)@ == old(self)@.after_exit(id@, *reason, now_ms),
    {
        let idx: usize = match self.index_of(id) {
            Some(idx) => idx,
            None => return Vec::new(),
        };
        self.running.set(idx, false);
        let ghost s = self@;
        if !self.should_restart(idx, reason) {
            return Vec::new();
        }
        let n: usize = self.children.len();
        let lo: usize = match self.flags.strategy {
            Strategy::OneForAll => 0,
            _ => idx,
        };
        let hi: usize = match self.flags.strategy {
            Strategy::OneForOne => idx + 1,
            _ => n,
        };
        let restarted: usize = self.count_restarts(lo, hi);
        let mut k: usize = 0;
        while k < restarted
            invariant
                k <= restarted,
                self.wf(),
                self.children@ == s.children,
                self.flags == s.flags,
                self.running@ == s.running,
                self.restarts@ == s.restarts + Seq::new(k as nat, |j: int| now_ms),
            decreases restarted - k,
        {
            self.restarts.push_back(now_ms);
            k += 1;
        }
        let cutoff: u64 = now_ms.saturating_sub(self.flags.period_ms);
        self.forget_restarts_before(cutoff);
        let ghost counted = self.restarts@;
        proof {
            lemma_same_stops(self@, s, 0, s.children.len() as int, -1);
            lemma_same_stops(self@, s, lo as int, hi as int, idx as int);
        }
        if self.restarts.len() > self.flags.intensity as usize {
            return self.give_up();
        }
        let mut actions = self.stop_range(lo, hi, Some(idx));
        let ghost stopped = actions@;
        let mut i: usize = lo;
        while i < hi
            invariant
                lo <= i <= hi <= self.children@.len(),
                lo <= idx < hi,
                self.wf(),
                s.sound(),
                self.children@ == s.children,
                self.flags == s.flags,
                self.restarts@ == counted,
                s.running[idx as int] == false,
                actions@ == stopped + restarts_of(self.children@, lo as int, i as int),
                forall|j: int|
                    0 <= j < self.running@.len() ==> #[trigger] self.running@[j] == (if lo <= j
                        < i {
                        s.children[j].restart !is Temporary
                    } else if lo <= j < hi {
                        false
                    } else {
                        s.running[j]
                    }),
            decreases hi - i,
        {
            if self.children[i].restart != Restart::Temporary {
                self.running.set(i, true);
                actions.push(Action::Start(self.children[i].clone()));
                proof {
                    assert(actions@ =~= stopped + restarts_of(
                        self.children@,
                        lo as int,
                        i as int,
                    ).push(Action::Start(self.children@[i as int])));
                }
            }
            i += 1;
        }
        actions
    }

    /// How many children of a range may be restarted.
    fn count_restarts(&self, lo: usize, hi: usize) -> (r: usize)
        requires
            lo <= hi <= self@.children.len(),
        ensures
            r == restarts_of(self@.children, lo as int, hi as int).len(),
    {
        let mut r: usize = 0;
        let mut i: usize = lo;
        while i < hi
            invariant
                lo <= i <= hi <= self.children@.len(),
                r == restarts_of(self.children@, lo as int, i as int).len(),
                r <= i - lo,
            decreases hi - i,
        {
            if self.children[i].restart != Restart::Temporary {
                r += 1;
            }
            i += 1;
        }
        r
    }

    /// Terminates everything that still runs, then stops.
    fn give_up(&mut self) -> (r: Vec<Action>)
        requires
            old(self).wf(),
        ensures
            final(self).wf(),
            final(self)@ == old(self)@.all_stopped(),
            r@ == old(self)@.surrender(),
    {
        let mut actions = self.shutdown();
        actions.push(Action::GiveUp);
        actions
    }

    fn forget_restarts_before(&mut self, cutoff: u64)
        requires
            old(self).wf(),
        ensures
            final(self).wf(),
            final(self)@ == (SupervisorView {
                restarts: since(old(self)@.restarts, cutoff),
                ..old(self)@
            }),
    {
        while self.restarts.len() > 0 && self.restarts[0] < cutoff
            invariant
                self.wf(),
                self.children@ == old(self).children@,
                self.flags == old(self).flags,
                self.running@ == old(self).running@,
                since(self.restarts@, cutoff) == since(old(self).restarts@, cutoff),
            decreases self.restarts@.len(),
        {
            self.restarts.pop_front();
        }
    }

    fn should_restart(&self, idx: usize, reason: &ExitReason) -> (r: bool)
        requires
            idx < self@.children.len(),
        ensures
            r == self@.restarts_for(idx as int, *reason),
    {
        match self.children[idx].restart {
            Restart::Permanent => true,
            Restart::Temporary => false,
            Restart::Transient => reason.warrants_restart(),
        }
    }
}

/// The position that is passed over; one that no child has, where there is none.
pub open spec fn passed_over(except: Option<usize>) -> int {
    match except {
        Some(i) => i as int,
        None => -1,
    }
}

/// Stops depend on the children and on who runs, on nothing else.
proof fn lemma_same_stops(a: SupervisorView, b: SupervisorView, lo: int, hi: int, except: int)
    requires
        a.children == b.children,
        a.running == b.running,
    ensures
        stops(a, lo, hi, except) == stops(b, lo, hi, except),
    decreases hi - lo,
{
    if hi > lo {
        lemma_same_stops(a, b, lo, hi - 1, except);
    }
}

/// The stops of a range are nothing but stops.
pub proof fn lemma_stops_are_stops(s: SupervisorView, lo: int, hi: int, except: int)
    ensures
        forall|i: int|
            0 <= i < stops(s, lo, hi, except).len() ==> #[trigger] stops(s, lo, hi, except)[i]
                is Stop,
    decreases hi - lo,
{
    if hi > lo {
        lemma_stops_are_stops(s, lo, hi - 1, except);
    }
}

/// The starts of a range are starts, none of a temporary child.
pub proof fn lemma_starts_are_not_temporary(children: Seq<ChildSpec>, lo: int, hi: int)
    ensures
        forall|i: int|
            0 <= i < restarts_of(children, lo, hi).len() ==> {
                &&& #[trigger] restarts_of(children, lo, hi)[i] is Start
                &&& restarts_of(children, lo, hi)[i]->Start_0.restart !is Temporary
            },
    decreases hi - lo,
{
    if hi > lo {
        lemma_starts_are_not_temporary(children, lo, hi - 1);
    }
}

/// A temporary child is never started again, whatever it was that stopped it.
pub proof fn law_temporary_is_never_restarted(
    s: SupervisorView,
    id: Seq<char>,
    reason: ExitReason,
    now_ms: u64,
)
    ensures
        forall|i: int|
            0 <= i < s.answer(id, reason, now_ms).len() && (#[trigger] s.answer(
                id,
                reason,
                now_ms,
            )[i]) is Start ==> s.answer(id, reason, now_ms)[i]->Start_0.restart !is Temporary,
{
    if let Some(idx) = child_index(s.children, id, 0) {
        let t = s.without(idx);
        let lo = t.first_affected(idx);
        let hi = t.end_affected(idx);
        lemma_stops_are_stops(t, lo, hi, idx);
        lemma_starts_are_not_temporary(t.children, lo, hi);
        lemma_stops_are_stops(t, 0, t.children.len() as int, -1);
    }
}

/// Every child has an id of its own.
pub open spec fn ids_distinct(children: Seq<ChildSpec>) -> bool {
    forall|a: int, b: int|
        0 <= a < b < children.len() ==> (#[trigger] children[a]).id@ != (
        #[trigger] children[b]).id@
}

/// A position of a batch holds the stop of a child.
pub open spec fn stops_at(s: SupervisorView, batch: Seq<Action>, i: int, c: int) -> bool {
    0 <= i < batch.len() && 0 <= c < s.children.len() && batch[i] == stop_of(s.children[c])
}

/// A position of a batch holds the stop of a child that runs, one before a position.
pub open spec fn stops_runner(s: SupervisorView, batch: Seq<Action>, i: int, hi: int) -> bool {
    exists|c: int| #[trigger] stops_at(s, batch, i, c) && c < hi && s.running[c]
}

/// Whose stops are in a batch of stops, and in what order.
proof fn lemma_stops_members(s: SupervisorView, hi: int)
    requires
        s.sound(),
        ids_distinct(s.children),
        0 <= hi <= s.children.len(),
    ensures
        ({
            let batch = stops(s, 0, hi, -1);
            &&& forall|i: int|
                0 <= i < batch.len() ==> #[trigger] stops_runner(s, batch, i, hi)
            &&& forall|c: int|
                0 <= c < hi && #[trigger] s.running[c] ==> exists|i: int| #[trigger]
                    stops_at(s, batch, i, c)
            &&& forall|i: int, j: int, c: int, d: int|
                i < j && #[trigger] stops_at(s, batch, i, c) && #[trigger] stops_at(s, batch, j, d)
                    ==> c > d
        }),
    decreases hi,
{
    if hi > 0 {
        lemma_stops_members(s, hi - 1);
        let batch = stops(s, 0, hi, -1);
        let rest = stops(s, 0, hi - 1, -1);
        let shift: int = if s.running[hi - 1] { 1 } else { 0 };
        assert forall|i: int| 0 <= i < batch.len() implies #[trigger] stops_runner(
            s,
            batch,
            i,
            hi,
        ) by {
            if i < shift {
                assert(stops_at(s, batch, i, hi - 1));
            } else {
                assert(stops_runner(s, rest, i - shift, hi - 1));
                let c = choose|c: int| #[trigger]
                    stops_at(s, rest, i - shift, c) && c < hi - 1 && s.running[c];
                assert(stops_at(s, batch, i, c));
            }
        }
        assert forall|c: int| 0 <= c < hi && #[trigger] s.running[c] implies exists|i: int|
            #[trigger]
            stops_at(s, batch, i, c) by {
            if c == hi - 1 {
                assert(stops_at(s, batch, 0, c));
            } else {
                let i = choose|i: int| #[trigger] stops_at(s, rest, i, c);
                assert(stops_at(s, batch, i + shift, c));
            }
        }
        assert forall|i: int, j: int, c: int, d: int|
            i < j && #[trigger] stops_at(s, batch, i, c) && #[trigger] stops_at(
                s,
                batch,
                j,
                d,
            ) implies c > d by {
            assert(stops_at(s, rest, j - shift, d));
            assert(stops_runner(s, rest, j - shift, hi - 1));
            let e = choose|e: int| #[trigger]
                stops_at(s, rest, j - shift, e) && e < hi - 1 && s.running[e];
            if i >= shift {
                assert(stops_at(s, rest, i - shift, c));
            }
        }
    }
}

/// A supervisor that gives up stops what still runs, and nothing more: the word to give up comes
/// last, and before it stand the stops of the other children that ran, one for each, in the
/// reverse of the order in which they started. Nothing is started, nobody who is gone is stopped,
/// and no child is counted as running.
pub proof fn law_giving_up_comes_last(
    s: SupervisorView,
    id: Seq<char>,
    reason: ExitReason,
    now_ms: u64,
    idx: int,
    last: int,
)
    requires
        s.sound(),
        ids_distinct(s.children),
        child_index(s.children, id, 0) == Some(idx),
        0 <= last < s.answer(id, reason, now_ms).len(),
        s.answer(id, reason, now_ms)[last] is GiveUp,
    ensures
        ({
            let batch = s.answer(id, reason, now_ms);
            let n = s.children.len() as int;
            &&& last == batch.len() - 1
            &&& forall|i: int|
                0 <= i < last ==> #[trigger] stops_runner(s.without(idx), batch, i, n)
            &&& forall|c: int|
                0 <= c < n && c != idx && #[trigger] s.running[c] ==> exists|i: int| #[trigger]
                    stops_at(s, batch, i, c)
            &&& forall|i: int, j: int, c: int, d: int|
                i < j && #[trigger] stops_at(s, batch, i, c) && #[trigger] stops_at(s, batch, j, d)
                    ==> c > d
            &&& forall|c: int|
                0 <= c < n ==> !#[trigger] s.after_exit(id, reason, now_ms).running[c]
        }),
{
    lemma_child_index(s.children, id, 0);
    let n = s.children.len() as int;
    let t = s.without(idx);
    let lo = t.first_affected(idx);
    let hi = t.end_affected(idx);
    lemma_stops_are_stops(t, lo, hi, idx);
    lemma_starts_are_not_temporary(t.children, lo, hi);
    lemma_stops_are_stops(t, 0, n, -1);
    lemma_stops_members(t, n);
    let batch = s.answer(id, reason, now_ms);
    let told = stops(t, 0, n, -1);
    assert forall|i: int| 0 <= i < last implies #[trigger] stops_runner(t, batch, i, n) by {
        assert(stops_runner(t, told, i, n));
        let c = choose|c: int| #[trigger] stops_at(t, told, i, c) && c < n && t.running[c];
        assert(stops_at(t, batch, i, c));
    }
    assert forall|c: int| 0 <= c < n && c != idx && #[trigger] s.running[c] implies exists|i: int|
        #[trigger]
        stops_at(s, batch, i, c) by {
        assert(t.running[c]);
        let i = choose|i: int| #[trigger] stops_at(t, told, i, c);
        assert(stops_at(s, batch, i, c));
    }
    assert forall|i: int, j: int, c: int, d: int|
        i < j && #[trigger] stops_at(s, batch, i, c) && #[trigger] stops_at(
            s,
            batch,
            j,
            d,
        ) implies c > d by {
        assert(stops_at(t, told, i, c) && stops_at(t, told, j, d));
    }
}

/// The supervisor gives up exactly when the restarts within the period, those of this decision
/// included, are more than the intensity.
pub proof fn law_intensity_is_the_brake(
    s: SupervisorView,
    id: Seq<char>,
    reason: ExitReason,
    now_ms: u64,
    idx: int,
)
    requires
        s.sound(),
        child_index(s.children, id, 0) == Some(idx),
        s.restarts_for(idx, reason),
    ensures
        s.answer(id, reason, now_ms).contains(Action::GiveUp) <==> s.without(idx).recovered(
            idx,
            now_ms,
        ).restarts.len() > s.flags.intensity,
{
    lemma_child_index(s.children, id, 0);
    let t = s.without(idx);
    let lo = t.first_affected(idx);
    let hi = t.end_affected(idx);
    lemma_stops_are_stops(t, lo, hi, idx);
    lemma_starts_are_not_temporary(t.children, lo, hi);
    if t.recovered(idx, now_ms).spinning() {
        let a = t.surrender();
        assert(a[a.len() - 1] is GiveUp);
    }
}

/// The death of a child leaves the siblings that the strategy does not name alone, unless the
/// supervisor gives up.
pub proof fn law_other_siblings_are_untouched(
    s: SupervisorView,
    id: Seq<char>,
    reason: ExitReason,
    now_ms: u64,
    idx: int,
    c: int,
)
    requires
        s.sound(),
        child_index(s.children, id, 0) == Some(idx),
        0 <= c < s.children.len(),
        s.flags.strategy is OneForOne ==> c != idx,
        s.flags.strategy is RestForOne ==> c < idx,
        s.flags.strategy is OneForAll ==> !s.restarts_for(idx, reason) && c != idx,
        !s.answer(id, reason, now_ms).contains(Action::GiveUp),
    ensures
        s.after_exit(id, reason, now_ms).running[c] == s.running[c],
{
    lemma_child_index(s.children, id, 0);
    if s.restarts_for(idx, reason) {
        law_intensity_is_the_brake(s, id, reason, now_ms, idx);
    }
}

/// Children stop in the reverse of the order in which they start.
pub proof fn law_children_stop_in_reverse(s: SupervisorView)
    requires
        s.sound(),
    ensures
        stops(s.all_running(), 0, s.children.len() as int, -1) == Seq::new(
            s.children.len(),
            |i: int| stop_of(s.children[s.children.len() - 1 - i]),
        ),
{
    lemma_stops_of_all(s.all_running(), s.children.len() as int);
}

proof fn lemma_stops_of_all(s: SupervisorView, hi: int)
    requires
        0 <= hi <= s.children.len(),
        s.running.len() == s.children.len(),
        forall|i: int| 0 <= i < s.children.len() ==> #[trigger] s.running[i],
    ensures
        stops(s, 0, hi, -1) == Seq::new(hi as nat, |i: int| stop_of(s.children[hi - 1 - i])),
    decreases hi,
{
    if hi > 0 {
        lemma_stops_of_all(s, hi - 1);
        assert(s.running[hi - 1]);
    }
}

proof fn lemma_restarts_hold(children: Seq<ChildSpec>, lo: int, hi: int, c: int)
    requires
        lo <= c < hi,
        children[c].restart !is Temporary,
    ensures
        restarts_of(children, lo, hi).contains(Action::Start(children[c])),
    decreases hi - lo,
{
    let all = restarts_of(children, lo, hi);
    let front = restarts_of(children, lo, hi - 1);
    if c == hi - 1 {
        assert(all[all.len() - 1] == Action::Start(children[c]));
    } else {
        lemma_restarts_hold(children, lo, hi - 1, c);
        let i = choose|i: int| 0 <= i < front.len() && front[i] == Action::Start(children[c]);
        assert(all[i] == Action::Start(children[c]));
    }
}

/// A permanent child is restarted whatever it exited with, a transient one only after a failure,
/// and a temporary one never; nothing is done for a child that is not restarted. A supervisor
/// that would restart too often gives up instead.
pub proof fn law_restarts_follow_the_policy(
    s: SupervisorView,
    id: Seq<char>,
    reason: ExitReason,
    now_ms: u64,
    idx: int,
)
    requires
        s.sound(),
        child_index(s.children, id, 0) == Some(idx),
    ensures
        ({
            let again = s.answer(id, reason, now_ms).contains(Action::Start(s.children[idx]))
                || s.answer(id, reason, now_ms).contains(Action::GiveUp);
            let nothing = s.answer(id, reason, now_ms).len() == 0;
            match s.children[idx].restart {
                Restart::Permanent => again,
                Restart::Transient => if warrants(reason) {
                    again
                } else {
                    nothing
                },
                Restart::Temporary => nothing,
            }
        }),
{
    lemma_child_index(s.children, id, 0);
    if s.restarts_for(idx, reason) {
        law_strategy_names_who_restarts(s, id, reason, now_ms, idx, idx);
    }
}

/// When a child is restarted, so are the siblings that the strategy names: all of them, or those
/// that started after it, or none. A temporary one stays down.
pub proof fn law_strategy_names_who_restarts(
    s: SupervisorView,
    id: Seq<char>,
    reason: ExitReason,
    now_ms: u64,
    idx: int,
    c: int,
)
    requires
        s.sound(),
        child_index(s.children, id, 0) == Some(idx),
        s.restarts_for(idx, reason),
        0 <= c < s.children.len(),
        match s.flags.strategy {
            Strategy::OneForOne => c == idx,
            Strategy::RestForOne => c >= idx,
            Strategy::OneForAll => true,
        },
        s.children[c].restart !is Temporary,
    ensures
        s.answer(id, reason, now_ms).contains(Action::Start(s.children[c])) || s.answer(
            id,
            reason,
            now_ms,
        ).contains(Action::GiveUp),
{
    lemma_child_index(s.children, id, 0);
    let t = s.without(idx);
    let lo = t.first_affected(idx);
    let hi = t.end_affected(idx);
    if t.recovered(idx, now_ms).spinning() {
        law_intensity_is_the_brake(s, id, reason, now_ms, idx);
    } else {
        lemma_restarts_hold(t.children, lo, hi, c);
        let starts = restarts_of(t.children, lo, hi);
        let i = choose|i: int| 0 <= i < starts.len() && starts[i] == Action::Start(s.children[c]);
        let a = t.recovery(idx);
        assert(a[stops(t, lo, hi, idx).len() + i] == Action::Start(s.children[c]));
    }
}

} // verus!
