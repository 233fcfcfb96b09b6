//! The supervised application: what its declarations ask of the supervisor.

use crate::supervisor::{ChildSpec, Restart, Shutdown, Strategy, SupFlags};
use vstd::prelude::*;
use vstd::string::*;

verus! {

/// What a particle of the application is to be.
#[derive(PartialEq, Debug)]
pub enum Role {
    /// The root: supervises children.
    Supervisor { strategy: String, intensity: u32, children: Vec<ChildDecl> },
    /// A pool: starts empty, children arrive by message.
    Pool { intensity: u32 },
    /// Stays up until told otherwise.
    Worker { name: String },
    /// Dies at once, abnormally.
    Crasher { name: String },
    /// Finishes its job at once and exits normally.
    Finisher { name: String },
}

/// A child, as it is declared.
#[derive(PartialEq, Debug)]
pub struct ChildDecl {
    pub id: String,
    pub role: String,
    pub restart: String,
}

/// The strategy of a name: one-for-one, unless it names another.
pub open spec fn strategy_named(s: Seq<char>) -> Strategy {
    if s == "one-for-all"@ {
        Strategy::OneForAll
    } else if s == "rest-for-one"@ {
        Strategy::RestForOne
    } else {
        Strategy::OneForOne
    }
}

/// The restart policy of a name: permanent, unless it names another.
pub open spec fn restart_named(s: Seq<char>) -> Restart {
    if s == "transient"@ {
        Restart::Transient
    } else if s == "temporary"@ {
        Restart::Temporary
    } else {
        Restart::Permanent
    }
}

/// The arguments that start a particle in a role: a worker, unless the role is another.
pub open spec fn role_args(role: Seq<char>, id: Seq<char>) -> Seq<char> {
    (if role == "crasher"@ {
        "{\"crasher\":{\"name\":\""@
    } else if role == "finisher"@ {
        "{\"finisher\":{\"name\":\""@
    } else {
        "{\"worker\":{\"name\":\""@
    }) + id + "\"}}"@
}

/// The flags that a declaration gives a supervisor.
pub fn flags(strategy: &str, intensity: u32) -> (r: SupFlags)
    ensures
        r.strategy == strategy_named(strategy@),
        r.intensity == intensity,
        r.period_ms == 5_000,
{
    let name = strategy.to_owned();
    SupFlags {
        strategy: if name == "one-for-all".to_owned() {
            Strategy::OneForAll
        } else if name == "rest-for-one".to_owned() {
            Strategy::RestForOne
        } else {
            Strategy::OneForOne
        },
        intensity,
        period_ms: 5_000,
    }
}

/// What a supervisor is told of a declared child.
pub open spec fn specified(s: ChildSpec, d: ChildDecl) -> bool {
    &&& s.id@ == d.id@
    &&& s.start.component@ == "supervised"@
    &&& s.start.init_args@ == role_args(d.role@, d.id@)
    &&& s.restart == restart_named(d.restart@)
    &&& s.shutdown == Shutdown::Timeout(1_000)
}

fn child(d: &ChildDecl) -> (r: ChildSpec)
    ensures
        specified(r, *d),
{
    let mut args = if d.role == "crasher".to_owned() {
        "{\"crasher\":{\"name\":\"".to_owned()
    } else if d.role == "finisher".to_owned() {
        "{\"finisher\":{\"name\":\"".to_owned()
    } else {
        "{\"worker\":{\"name\":\"".to_owned()
    };
    args.append(d.id.as_str());
    args.append("\"}}");
    let restart = if d.restart == "transient".to_owned() {
        Restart::Transient
    } else if d.restart == "temporary".to_owned() {
        Restart::Temporary
    } else {
        Restart::Permanent
    };
    ChildSpec::new(d.id.as_str(), "supervised").init_args(args.as_str()).restart(restart).shutdown(
        Shutdown::Timeout(1_000),
    )
}

/// What a supervisor is told of its declared children, in their order.
pub fn children(decls: &Vec<ChildDecl>) -> (r: Vec<ChildSpec>)
    ensures
        r@.len() == decls@.len(),
        forall|i: int| 0 <= i < r@.len() ==> specified(#[trigger] r@[i], decls@[i]),
{
    let mut r: Vec<ChildSpec> = Vec::new();
    let mut i: usize = 0;
    while i < decls.len()
        invariant
            i <= decls@.len(),
            r@.len() == i,
            forall|j: int| 0 <= j < i ==> specified(#[trigger] r@[j], decls@[j]),
        decreases decls@.len() - i,
    {
        r.push(child(&decls[i]));
        i += 1;
    }
    r
}

} // verus!
