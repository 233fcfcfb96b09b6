//! Starting particles: arguments, the `start` export, its result, and where a spawn goes.

use crate::assoc::Key;
use crate::exit_laws;
use crate::host;
use crate::host::parse_node;
use crate::mailbox::{MailboxMessage, SpawnFailure};
use crate::message::ExitReason;
use crate::pid::{NodeId, Pid};
use crate::protocol;
use crate::protocol::SpawnRefusal;
use crate::registry;
use crate::registry::{ParticleRegistry, RegistryView};
use crate::text;
use crate::wire::{SpawnFailureWire, SpawnResult};
use vstd::prelude::*;
use vstd::string::*;

verus! {

/// The type of a parameter of a `start` function, as far as its argument's form depends on it.
#[derive(Clone, Copy, PartialEq, Eq, Structural, Debug)]
pub enum ParamKind {
    /// A string: the argument is passed through as it is.
    Text,
    /// Anything else: the argument is a value in text form.
    Wave,
}

/// The text of one argument, and how it is to be read.
#[derive(PartialEq, Debug)]
pub enum ArgText {
    /// A string value, as it stands.
    Raw(String),
    /// The text form of a value.
    Wave(String),
}

/// What an argument says.
pub enum ArgView {
    Raw(Seq<char>),
    Wave(Seq<char>),
}

impl View for ArgText {
    type V = ArgView;

    open spec fn view(&self) -> ArgView {
        match *self {
            ArgText::Raw(s) => ArgView::Raw(s@),
            ArgText::Wave(s) => ArgView::Wave(s@),
        }
    }
}

/// Why arguments do not fit a `start` function.
#[derive(Clone, Copy, PartialEq, Eq, Structural, Debug)]
pub enum ArgError {
    /// One argument is expected, and there is none.
    Missing,
    /// Several arguments are expected, and there are fewer.
    WrongCount { expected: usize, got: usize },
}

/// A text cut at the first commas into at most `n` parts.
pub open spec fn cut(s: Seq<char>, n: nat) -> Seq<Seq<char>>
    decreases n,
{
    if n == 0 {
        Seq::empty()
    } else if n == 1 {
        seq![s]
    } else {
        match text::first_index_from(s, ',', 0) {
            None => seq![s],
            Some(i) => seq![s.take(i)] + cut(s.skip(i + 1), (n - 1) as nat),
        }
    }
}

/// The characters that Unicode gives the property `White_Space`.
pub open spec fn is_whitespace(c: char) -> bool {
    let n: int = c as int;
    ||| 0x9 <= n <= 0xd
    ||| n == 0x20
    ||| n == 0x85
    ||| n == 0xa0
    ||| n == 0x1680
    ||| 0x2000 <= n <= 0x200a
    ||| n == 0x2028
    ||| n == 0x2029
    ||| n == 0x202f
    ||| n == 0x205f
    ||| n == 0x3000
}

/// Whether a character is white space.
fn whitespace(c: char) -> (r: bool)
    ensures
        r == is_whitespace(c),
{
    let n: u32 = c as u32;
    (0x9 <= n && n <= 0xd) || n == 0x20 || n == 0x85 || n == 0xa0 || n == 0x1680 || (0x2000 <= n && n
        <= 0x200a) || n == 0x2028 || n == 0x2029 || n == 0x202f || n == 0x205f || n == 0x3000
}

/// A text without the white space at its front.
pub open spec fn trim_front(s: Seq<char>) -> Seq<char>
    decreases s.len(),
{
    if s.len() > 0 && is_whitespace(s[0]) {
        trim_front(s.skip(1))
    } else {
        s
    }
}

/// A text without the white space at its back.
pub open spec fn trim_back(s: Seq<char>) -> Seq<char>
    decreases s.len(),
{
    if s.len() > 0 && is_whitespace(s.last()) {
        trim_back(s.drop_last())
    } else {
        s
    }
}

/// A text without the white space around it.
pub open spec fn trimmed(s: Seq<char>) -> Seq<char> {
    trim_back(trim_front(s))
}

/// The text without the white space around it.
fn trim(s: &str) -> (r: String)
    ensures
        r@ == trimmed(s@),
{
    let n: usize = s.unicode_len();
    let mut lo: usize = 0;
    assert(s@.skip(0) =~= s@);
    while lo < n && whitespace(s.get_char(lo))
        invariant
            lo <= n == s@.len(),
            trim_front(s@) == trim_front(s@.skip(lo as int)),
        decreases n - lo,
    {
        assert(s@.skip(lo as int).skip(1) =~= s@.skip(lo + 1));
        lo += 1;
    }
    let ghost front = s@.skip(lo as int);
    let mut hi: usize = n;
    while hi > lo && whitespace(s.get_char(hi - 1))
        invariant
            lo <= hi <= n == s@.len(),
            trim_back(front) == trim_back(s@.subrange(lo as int, hi as int)),
        decreases hi - lo,
    {
        assert(s@.subrange(lo as int, hi as int).drop_last() =~= s@.subrange(
            lo as int,
            hi - 1,
        ));
        hi -= 1;
    }
    s.substring_char(lo, hi).to_owned()
}

/// The arguments that a text gives to parameters: the whole text to a single one, the parts
/// between commas to several.
pub open spec fn args_for(s: Seq<char>, params: Seq<ParamKind>) -> Result<Seq<ArgView>, ArgError> {
    if params.len() == 0 {
        Ok(Seq::empty())
    } else if params.len() == 1 {
        if s.len() == 0 {
            Err(ArgError::Missing)
        } else if params[0] is Text {
            Ok(seq![ArgView::Raw(s)])
        } else {
            Ok(seq![ArgView::Wave(s)])
        }
    } else {
        let parts = cut(s, params.len());
        if parts.len() != params.len() {
            Err(
                ArgError::WrongCount {
                    expected: params.len() as usize,
                    got: parts.len() as usize,
                },
            )
        } else {
            Ok(parts.map_values(|p: Seq<char>| ArgView::Wave(trimmed(p))))
        }
    }
}

/// What a list of arguments says.
pub open spec fn args_view(args: Seq<ArgText>) -> Seq<ArgView> {
    args.map_values(|a: ArgText| a@)
}

fn find_comma(s: &str) -> (r: Option<usize>)
    ensures
        match r {
            Some(i) => text::first_index_from(s@, ',', 0) == Some(i as int) && i < s@.len(),
            None => text::first_index_from(s@, ',', 0) is None,
        },
{
    let n: usize = s.unicode_len();
    let mut i: usize = 0;
    while i < n
        invariant
            i <= n == s@.len(),
            text::first_index_from(s@, ',', 0) == text::first_index_from(s@, ',', i as int),
        decreases n - i,
    {
        if s.get_char(i) == ',' {
            return Some(i);
        }
        i += 1;
    }
    None
}

fn cut_at_commas(s: &str, n: usize) -> (r: Vec<String>)
    ensures
        text::texts(r@) == cut(s@, n as nat),
        r@.len() <= n,
    decreases n,
{
    let mut r: Vec<String> = Vec::new();
    if n == 0 {
        return r;
    }
    if n > 1 {
        match find_comma(s) {
            Some(i) => {
                let len: usize = s.unicode_len();
                let head = s.substring_char(0, i);
                let tail = s.substring_char(i + 1, len);
                let mut rest = cut_at_commas(tail, n - 1);
                r.push(head.to_owned());
                r.append(&mut rest);
                return r;
            },
            None => {},
        }
    }
    r.push(s.to_owned());
    r
}

/// Works out the text of each argument of a `start` function.
pub fn parse_wave_args(init_args: &str, params: &Vec<ParamKind>) -> (r: Result<Vec<ArgText>, ArgError>)
    ensures
        match r {
            Ok(args) => args_for(init_args@, params@) == Ok::<Seq<ArgView>, ArgError>(
                args_view(args@),
            ),
            Err(e) => args_for(init_args@, params@) == Err::<Seq<ArgView>, ArgError>(e),
        },
{
    let mut args: Vec<ArgText> = Vec::new();
    if params.len() == 0 {
        assert(args_view(args@) =~= Seq::<ArgView>::empty());
        return Ok(args);
    }
    if params.len() == 1 {
        if init_args.unicode_len() == 0 {
            return Err(ArgError::Missing);
        }
        match params[0] {
            ParamKind::Text => {
                args.push(ArgText::Raw(init_args.to_owned()));
            },
            ParamKind::Wave => {
                args.push(ArgText::Wave(init_args.to_owned()));
            },
        }
        assert(args_view(args@) =~= args_for(init_args@, params@)->Ok_0);
        return Ok(args);
    }
    let parts = cut_at_commas(init_args, params.len());
    let ghost cuts = text::texts(parts@);
    if parts.len() != params.len() {
        return Err(ArgError::WrongCount { expected: params.len(), got: parts.len() });
    }
    let mut i: usize = 0;
    while i < parts.len()
        invariant
            i <= parts@.len(),
            cuts == text::texts(parts@),
            args@.len() == i,
            forall|j: int|
                0 <= j < i ==> (#[trigger] args@[j])@ == ArgView::Wave(trimmed(cuts[j])),
        decreases parts@.len() - i,
    {
        args.push(ArgText::Wave(trim(parts[i].as_str())));
        i += 1;
    }
    assert(args_view(args@) =~= cuts.map_values(|p: Seq<char>| ArgView::Wave(trimmed(p))));
    Ok(args)
}

/// An export of a component, as far as a `start` function is looked for in it.
#[derive(PartialEq, Debug)]
pub enum ExportItem {
    /// A nested instance, with the names of its exports.
    Instance(String, Vec<String>),
    /// A function of this name.
    CoreFunc(String),
    Other,
}

/// What an export says.
pub enum ExportView {
    Instance(Seq<char>, Seq<Seq<char>>),
    CoreFunc(Seq<char>),
    Other,
}

impl View for ExportItem {
    type V = ExportView;

    open spec fn view(&self) -> ExportView {
        match *self {
            ExportItem::Instance(n, e) => ExportView::Instance(n@, text::texts(e@)),
            ExportItem::CoreFunc(n) => ExportView::CoreFunc(n@),
            ExportItem::Other => ExportView::Other,
        }
    }
}

/// The paths to try for the functions of an instance: one for each that is called `start`.
pub open spec fn instance_paths(name: Seq<char>, exports: Seq<Seq<char>>) -> Seq<Seq<char>>
    decreases exports.len(),
{
    if exports.len() == 0 {
        Seq::empty()
    } else if exports.last() == "start"@ {
        instance_paths(name, exports.drop_last()).push(name + "/start"@)
    } else {
        instance_paths(name, exports.drop_last())
    }
}

/// The paths to try for one export.
pub open spec fn export_paths(e: ExportView) -> Seq<Seq<char>> {
    match e {
        ExportView::Instance(name, exports) => instance_paths(name, exports),
        ExportView::CoreFunc(name) => if name == "start"@ {
            seq![name]
        } else {
            Seq::empty()
        },
        ExportView::Other => Seq::empty(),
    }
}

/// The paths at which to look for `start`, in order: at the top first, then in each export.
pub open spec fn start_paths(exports: Seq<ExportView>) -> Seq<Seq<char>>
    decreases exports.len(),
{
    if exports.len() == 0 {
        seq!["start"@]
    } else {
        start_paths(exports.drop_last()) + export_paths(exports.last())
    }
}

/// The paths at which a component's `start` function may be found, in the order to try them.
pub fn start_candidates(exports: &Vec<ExportItem>) -> (r: Vec<String>)
    ensures
        text::texts(r@) == start_paths(exports@.map_values(|e: ExportItem| e@)),
{
    let ghost all = exports@.map_values(|e: ExportItem| e@);
    let start = "start".to_owned();
    let mut r: Vec<String> = Vec::new();
    r.push(start.clone());
    let mut i: usize = 0;
    while i < exports.len()
        invariant
            i <= exports@.len(),
            start@ == "start"@,
            all == exports@.map_values(|e: ExportItem| e@),
            text::texts(r@) == start_paths(all.take(i as int)),
        decreases exports@.len() - i,
    {
        let ghost before = text::texts(r@);
        proof {
            assert(all.take(i + 1).drop_last() =~= all.take(i as int));
        }
        match &exports[i] {
            ExportItem::Instance(name, inner) => {
                let ghost names = text::texts(inner@);
                let mut j: usize = 0;
                while j < inner.len()
                    invariant
                        j <= inner@.len(),
                        start@ == "start"@,
                        names == text::texts(inner@),
                        text::texts(r@) == before + instance_paths(name@, names.take(j as int)),
                    decreases inner@.len() - j,
                {
                    let ghost so_far = text::texts(r@);
                    assert(names.take(j + 1).drop_last() =~= names.take(j as int));
                    if inner[j] == start {
                        let mut path = name.clone();
                        path.append("/start");
                        r.push(path);
                        assert(so_far.push(name@ + "/start"@) =~= before + instance_paths(
                            name@,
                            names.take(j as int),
                        ).push(name@ + "/start"@));
                    }
                    j += 1;
                }
                assert(names.take(names.len() as int) =~= names);
            },
            ExportItem::CoreFunc(name) => {
                if *name == start {
                    r.push(name.clone());
                }
            },
            ExportItem::Other => {},
        }
        i += 1;
    }
    assert(all.take(all.len() as int) =~= all);
    r
}

/// The first value that a `start` function handed back.
#[derive(PartialEq, Debug)]
pub enum StartValue {
    /// Not a result.
    Plain,
    Good,
    /// A failure, with an explanation.
    Bad(String),
    /// A failure without one.
    BadSilent,
}

/// A reason is an exception with a given text.
pub open spec fn is_exception(r: ExitReason, why: Seq<char>) -> bool {
    r matches ExitReason::Exception(s) && s@ == why
}

/// What the end of a `start` function means for its particle: a failed result is an exception, and
/// anything else a normal exit.
pub fn interpret_start_result(results: &Vec<StartValue>) -> (r: ExitReason)
    ensures
        if results@.len() == 0 {
            r is Normal
        } else {
            match results@[0] {
                StartValue::Plain => r is Normal,
                StartValue::Good => r is Normal,
                StartValue::Bad(e) => is_exception(r, "start failed: "@ + e@),
                StartValue::BadSilent => is_exception(r, "start failed (no error details)"@),
            }
        },
{
    if results.len() == 0 {
        return ExitReason::Normal;
    }
    match &results[0] {
        StartValue::Plain => ExitReason::Normal,
        StartValue::Good => ExitReason::Normal,
        StartValue::Bad(e) => {
            let mut why = "start failed: ".to_owned();
            why.append(e.as_str());
            ExitReason::Exception(why)
        },
        StartValue::BadSilent => ExitReason::Exception(
            "start failed (no error details)".to_owned(),
        ),
    }
}

/// What a trapped `start` function means for its particle.
pub fn trap_reason(error: &str) -> (r: ExitReason)
    ensures
        is_exception(r, "start trap: "@ + error@),
{
    let mut why = "start trap: ".to_owned();
    why.append(error);
    ExitReason::Exception(why)
}

/// Where a spawn on a node goes.
#[derive(PartialEq, Debug)]
pub enum SpawnRoute {
    /// Nowhere.
    Unreachable,
    /// This node itself.
    Local,
    Remote(NodeId),
}

/// Where a spawn on the node with this id goes, from a node with this endpoint. A node's own id
/// is not dialled.
pub fn route_spawn(me: Option<NodeId>, node: &str) -> (r: SpawnRoute)
    ensures
        match r {
            SpawnRoute::Unreachable => me is None || host::spells_no_node(node@),
            SpawnRoute::Local => me is Some && host::spells_node(node@, me->0),
            SpawnRoute::Remote(n) => me is Some && host::spells_node(node@, n) && n != me->0,
        },
{
    match me {
        None => SpawnRoute::Unreachable,
        Some(me) => match parse_node(node) {
            None => SpawnRoute::Unreachable,
            Some(n) => if n.same(&me) {
                SpawnRoute::Local
            } else {
                SpawnRoute::Remote(n)
            },
        },
    }
}

/// The outcome of a spawn on another node: its answer, or that it could not be reached.
pub fn remote_spawn_outcome(answer: Option<Result<SpawnResult, SpawnFailureWire>>) -> (r: Result<
    Pid,
    SpawnFailure,
>)
    ensures
        r == match answer {
            None => Err::<Pid, SpawnFailure>(SpawnFailure::NodeUnreachable),
            Some(Ok(x)) => Ok(x.pid),
            Some(Err(SpawnFailureWire::ComponentNotFound)) => Err(SpawnFailure::ComponentNotFound),
            Some(Err(SpawnFailureWire::InitFailed)) => Err(SpawnFailure::InitFailed),
            Some(Err(SpawnFailureWire::ResourceLimit)) => Err(SpawnFailure::ResourceLimit),
        },
{
    match answer {
        None => Err(SpawnFailure::NodeUnreachable),
        Some(Ok(x)) => Ok(x.pid),
        Some(Err(e)) => match e {
            SpawnFailureWire::ComponentNotFound => Err(SpawnFailure::ComponentNotFound),
            SpawnFailureWire::InitFailed => Err(SpawnFailure::InitFailed),
            SpawnFailureWire::ResourceLimit => Err(SpawnFailure::ResourceLimit),
        },
    }
}

/// Registers a particle for a spawn on this node; the caller starts it.
pub fn begin_local_spawn(
    registry: &mut ParticleRegistry,
    component: &str,
    name: Option<&str>,
) -> (r: Result<Pid, SpawnFailure>)
    requires
        old(registry).wf(),
    ensures
        final(registry).wf(),
        match protocol::spawn_refused(old(registry)@, component@, registry::opt_str(name)) {
            Some(SpawnRefusal::UnknownComponent) => r == Err::<Pid, SpawnFailure>(
                SpawnFailure::ComponentNotFound,
            ) && final(registry)@ == old(registry)@,
            Some(SpawnRefusal::Refused) => r == Err::<Pid, SpawnFailure>(
                SpawnFailure::ResourceLimit,
            ) && final(registry)@ == old(registry)@,
            None => r == Ok::<Pid, SpawnFailure>(old(registry)@.next_pid()) && final(registry)@
                == old(registry)@.spawned(component@, registry::opt_str(name), None),
        },
{
    match protocol::begin_spawn(registry, component, name) {
        Ok(pid) => Ok(pid),
        Err(SpawnRefusal::UnknownComponent) => Err(SpawnFailure::ComponentNotFound),
        Err(SpawnRefusal::Refused) => Err(SpawnFailure::ResourceLimit),
    }
}

/// Registers a particle that another particle spawns on this node; the caller starts it.
pub fn begin_child_spawn(
    registry: &mut ParticleRegistry,
    component: &str,
    name: Option<&str>,
) -> (r: Result<Pid, SpawnFailure>)
    requires
        old(registry).wf(),
    ensures
        final(registry).wf(),
        match protocol::spawn_refused(old(registry)@, component@, registry::opt_str(name)) {
            Some(SpawnRefusal::UnknownComponent) => r == Err::<Pid, SpawnFailure>(
                SpawnFailure::ComponentNotFound,
            ) && final(registry)@ == old(registry)@,
            Some(SpawnRefusal::Refused) => r == Err::<Pid, SpawnFailure>(
                SpawnFailure::InitFailed,
            ) && final(registry)@ == old(registry)@,
            None => r == Ok::<Pid, SpawnFailure>(old(registry)@.next_pid()) && final(registry)@
                == old(registry)@.spawned(component@, registry::opt_str(name), None),
        },
{
    match protocol::begin_spawn(registry, component, name) {
        Ok(pid) => Ok(pid),
        Err(SpawnRefusal::UnknownComponent) => Err(SpawnFailure::ComponentNotFound),
        Err(SpawnRefusal::Refused) => Err(SpawnFailure::InitFailed),
    }
}

/// After a particle was spawned by another and linked to it, in one step.
pub open spec fn linked_spawn(
    m: RegistryView,
    parent: Pid,
    component: Seq<char>,
    name: Option<Seq<char>>,
) -> RegistryView {
    let child = m.next_pid();
    let spawned = m.spawned(component, name, None);
    if spawned.states.contains_key(parent) {
        spawned.half_linked(parent, child).half_linked(child, parent)
    } else {
        spawned
    }
}

/// Registers a particle that another particle spawns on this node, linked to it before it can
/// run; the caller starts it.
pub fn begin_linked_spawn(
    registry: &mut ParticleRegistry,
    parent: &Pid,
    component: &str,
    name: Option<&str>,
) -> (r: Result<Pid, SpawnFailure>)
    requires
        old(registry).wf(),
    ensures
        final(registry).wf(),
        match protocol::spawn_refused(old(registry)@, component@, registry::opt_str(name)) {
            Some(SpawnRefusal::UnknownComponent) => r == Err::<Pid, SpawnFailure>(
                SpawnFailure::ComponentNotFound,
            ) && final(registry)@ == old(registry)@,
            Some(SpawnRefusal::Refused) => r == Err::<Pid, SpawnFailure>(
                SpawnFailure::InitFailed,
            ) && final(registry)@ == old(registry)@,
            None => r == Ok::<Pid, SpawnFailure>(old(registry)@.next_pid()) && final(registry)@
                == linked_spawn(old(registry)@, *parent, component@, registry::opt_str(name)),
        },
{
    let child = match begin_child_spawn(registry, component, name) {
        Ok(child) => child,
        Err(e) => return Err(e),
    };
    let _ = registry.link(parent, &child);
    Ok(child)
}

/// The outcome of a spawn on this node once the particle was started, or failed to start.
pub fn finish_local_spawn(pid: Pid, started: bool) -> (r: Result<Pid, SpawnFailure>)
    ensures
        r == (if started {
            Ok::<Pid, SpawnFailure>(pid)
        } else {
            Err(SpawnFailure::InitFailed)
        }),
{
    if started {
        Ok(pid)
    } else {
        Err(SpawnFailure::InitFailed)
    }
}

/// The text that `String::from_utf8_lossy` reads in bytes.
pub uninterp spec fn lossy_text(bytes: Seq<u8>) -> Seq<char>;

/// `String::from_utf8_lossy`.
#[verifier::external_body]
fn read_lossy(bytes: &[u8]) -> (r: String)
    ensures
        r@ == lossy_text(bytes@),
{
    String::from_utf8_lossy(bytes).into_owned()
}

/// The answer to a call of an actor.
#[derive(PartialEq, Debug)]
pub struct Response {
    pub id: u64,
    pub result: Result<Vec<String>, String>,
}

/// The arguments of a call, with commas between them.
pub open spec fn joined(args: Seq<Seq<char>>) -> Seq<char>
    decreases args.len(),
{
    if args.len() == 0 {
        Seq::empty()
    } else if args.len() == 1 {
        args[0]
    } else {
        joined(args.drop_last()) + ","@ + args.last()
    }
}

/// What an actor is called with: its arguments, with commas between them.
pub fn actor_payload(args: &Vec<String>) -> (r: String)
    ensures
        r@ == joined(text::texts(args@)),
{
    let ghost all = text::texts(args@);
    let mut r = String::new();
    let mut i: usize = 0;
    while i < args.len()
        invariant
            i <= args@.len(),
            all == text::texts(args@),
            r@ == joined(all.take(i as int)),
        decreases args@.len() - i,
    {
        assert(all.take(i + 1).drop_last() =~= all.take(i as int));
        if i > 0 {
            r.append(",");
        }
        r.append(args[i].as_str());
        i += 1;
    }
    assert(all.take(all.len() as int) =~= all);
    r
}

/// The answer to a call: the text of what the actor handed back, or why it failed.
pub fn actor_response(id: u64, result: Result<Vec<u8>, String>) -> (r: Response)
    ensures
        r.id == id,
        match result {
            Ok(bytes) => r.result matches Ok(v) && text::texts(v@) == seq![lossy_text(bytes@)],
            Err(e) => r.result == Err::<Vec<String>, String>(e),
        },
{
    match result {
        Ok(bytes) => {
            let mut v: Vec<String> = Vec::new();
            v.push(read_lossy(bytes.as_slice()));
            Response { id, result: Ok(v) }
        },
        Err(e) => Response { id, result: Err(e) },
    }
}

/// A linked spawn loses no exit reason: however soon the child dies, a parent that traps exits
/// hears of it with the reason that the child died of.
pub proof fn law_a_linked_child_dies_with_its_own_reason(
    m: RegistryView,
    parent: Pid,
    component: Seq<char>,
    name: Option<Seq<char>>,
    reason: ExitReason,
)
    requires
        m.sound(),
        m.states.contains_key(parent),
        m.states[parent].trap_exit,
        !m.states.contains_key(m.next_pid()),
    ensures
        ({
            let child = m.next_pid();
            let linked = linked_spawn(m, parent, component, name);
            let after = registry::exited(linked, seq![child], reason);
            &&& linked.states.contains_key(child)
            &&& after.states.contains_key(parent)
            &&& after.mailboxes[parent].queue.contains(
                MailboxMessage::Exit { from: child, reason },
            )
        }),
{
    let child = m.next_pid();
    let linked = linked_spawn(m, parent, component, name);
    let spawned = m.spawned(component, name, None);
    assert(linked.states[child].links.contains(parent)) by {
        let links = spawned.states[child].links;
        assert(links.push(parent)[links.len() as int] == parent);
    }
    exit_laws::law_trapping_survives(linked, child, parent, reason);
    exit_laws::law_exit_is_final(linked, child, reason, reason);
    exit_laws::law_linked_survivors_hear(linked, child, reason, child, parent);
}

} // verus!
