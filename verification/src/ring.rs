//! The ring: particles that pass a message round, as a measure of how fast messages travel.

use vstd::prelude::*;
use vstd::string::*;

verus! {

/// What a particle of the ring is to be.
#[derive(PartialEq, Debug)]
pub enum RingInit {
    /// The one that starts the others: how many, and how many times the message is passed on.
    Orchestrator(u32, u32),
    Worker,
}

/// What particles of the ring say to each other.
#[derive(PartialEq, Debug)]
pub enum RingMsg {
    /// Who comes next in the ring.
    Setup(String),
    Hop { remaining: u32, master: String },
    Finished,
    Stop,
}

/// What a worker does that does not know its neighbour yet.
#[derive(PartialEq, Debug)]
pub enum SetupStep {
    /// Nothing more will come.
    Closed,
    /// Looks the neighbour up, and goes to work.
    Resolve(String),
    Stop,
    Wait,
}

/// What a worker does with a message before it knows its neighbour.
pub fn worker_setup(msg: Option<RingMsg>) -> (r: SetupStep)
    ensures
        r == match msg {
            None => SetupStep::Closed,
            Some(RingMsg::Setup(p)) => SetupStep::Resolve(p),
            Some(RingMsg::Stop) => SetupStep::Stop,
            Some(_) => SetupStep::Wait,
        },
{
    match msg {
        None => SetupStep::Closed,
        Some(RingMsg::Setup(p)) => SetupStep::Resolve(p),
        Some(RingMsg::Stop) => SetupStep::Stop,
        Some(_) => SetupStep::Wait,
    }
}

/// What a worker does that knows its neighbour.
#[derive(PartialEq, Debug)]
pub enum WorkStep {
    /// Tells the master that the message has arrived.
    Report(String),
    /// Passes the message on to its neighbour.
    Pass { remaining: u32, master: String },
    Stop,
    Wait,
}

/// What a worker does with a message: one that need not travel further is reported, any other
/// is passed on.
pub fn worker_step(msg: Option<RingMsg>) -> (r: WorkStep)
    ensures
        r == match msg {
            None => WorkStep::Stop,
            Some(RingMsg::Stop) => WorkStep::Stop,
            Some(RingMsg::Hop { remaining, master }) => if remaining == 0 {
                WorkStep::Report(master)
            } else {
                WorkStep::Pass { remaining: (remaining - 1) as u32, master }
            },
            Some(_) => WorkStep::Wait,
        },
{
    match msg {
        None => WorkStep::Stop,
        Some(RingMsg::Stop) => WorkStep::Stop,
        Some(RingMsg::Hop { remaining, master }) => if remaining == 0 {
            WorkStep::Report(master)
        } else {
            WorkStep::Pass { remaining: remaining - 1, master }
        },
        Some(_) => WorkStep::Wait,
    }
}

/// Who comes after a worker in a ring of so many.
pub open spec fn next_of(i: int, n: int) -> int {
    (i + 1) % n
}

/// What sets a ring going: each worker is told who comes next, and then the last one is handed
/// the message, to be passed on `m` times and reported to `me`.
pub fn opening(workers: &Vec<String>, m: u32, me: &str) -> (r: Vec<(String, RingMsg)>)
    requires
        workers@.len() > 0,
    ensures
        r@.len() == workers@.len() + 1,
        forall|i: int|
            0 <= i < workers@.len() ==> {
                &&& (#[trigger] r@[i]).0@ == workers@[i]@
                &&& r@[i].1 matches RingMsg::Setup(next) && next@ == workers@[next_of(
                    i,
                    workers@.len() as int,
                )]@
            },
        r@.last().0@ == workers@.last()@,
        r@.last().1 matches RingMsg::Hop { remaining, master } && remaining == m && master@ == me@,
{
    let n: usize = workers.len();
    let mut r: Vec<(String, RingMsg)> = Vec::new();
    let mut i: usize = 0;
    while i < n
        invariant
            i <= n == workers@.len(),
            r@.len() == i,
            forall|j: int|
                0 <= j < i ==> {
                    &&& (#[trigger] r@[j]).0@ == workers@[j]@
                    &&& r@[j].1 matches RingMsg::Setup(next) && next@ == workers@[next_of(
                        j,
                        n as int,
                    )]@
                },
        decreases n - i,
    {
        let next: usize = if i == n - 1 {
            assert((i + 1) % (n as int) == 0) by (nonlinear_arith)
                requires
                    i + 1 == n,
                    n > 0,
            ;
            0
        } else {
            assert((i + 1) % (n as int) == i + 1) by (nonlinear_arith)
                requires
                    i + 1 < n,
                    n > 0,
            ;
            i + 1
        };
        r.push((workers[i].clone(), RingMsg::Setup(workers[next].clone())));
        i += 1;
    }
    r.push((workers[n - 1].clone(), RingMsg::Hop { remaining: m, master: me.to_owned() }));
    r
}

/// What ends a ring: every worker is told to stop.
pub fn closing(workers: &Vec<String>) -> (r: Vec<(String, RingMsg)>)
    ensures
        r@.len() == workers@.len(),
        forall|i: int|
            0 <= i < workers@.len() ==> (#[trigger] r@[i]).0@ == workers@[i]@ && r@[i].1 is Stop,
{
    let mut r: Vec<(String, RingMsg)> = Vec::new();
    let mut i: usize = 0;
    while i < workers.len()
        invariant
            i <= workers@.len(),
            r@.len() == i,
            forall|j: int|
                0 <= j < i ==> (#[trigger] r@[j]).0@ == workers@[j]@ && r@[j].1 is Stop,
        decreases workers@.len() - i,
    {
        r.push((workers[i].clone(), RingMsg::Stop));
        i += 1;
    }
    r
}

/// What the orchestrator does with a message: it is done once the message has arrived.
pub fn orchestrator_done(msg: &RingMsg) -> (r: bool)
    ensures
        r == (*msg is Finished),
{
    match msg {
        RingMsg::Finished => true,
        _ => false,
    }
}

/// How many hops so many messages make in a ring of so many.
pub fn total_hops(n: u32, m: u32) -> (r: u64)
    ensures
        r == n * m,
{
    assert(n as int * m as int <= 0xffff_ffff * 0xffff_ffff) by (nonlinear_arith)
        requires
            0 <= n <= 0xffff_ffff,
            0 <= m <= 0xffff_ffff,
    ;
    n as u64 * m as u64
}

/// Where a message is in a ring of `n` after some hops from worker `at`.
pub open spec fn after_hops(at: int, n: int, hops: nat) -> int
    decreases hops,
{
    if hops == 0 {
        at
    } else {
        after_hops(next_of(at, n), n, (hops - 1) as nat)
    }
}

/// The message always comes to a worker of the ring, the one that is as many places on as it
/// made hops.
pub proof fn law_the_message_goes_round(at: int, n: int, hops: nat)
    requires
        n > 0,
        0 <= at < n,
    ensures
        0 <= after_hops(at, n, hops) < n,
        after_hops(at, n, hops) == (at + hops) % n,
    decreases hops,
{
    if hops == 0 {
        assert(at % n == at) by (nonlinear_arith)
            requires
                0 <= at < n,
        ;
    } else {
        let next = next_of(at, n);
        law_the_message_goes_round(next, n, (hops - 1) as nat);
        vstd::arithmetic::div_mod::lemma_add_mod_noop((at + 1) as int, (hops - 1) as int, n);
        vstd::arithmetic::div_mod::lemma_add_mod_noop(next, (hops - 1) as int, n);
        vstd::arithmetic::div_mod::lemma_mod_twice(at + 1, n);
    }
}

} // verus!
