//! What the host does for a particle: routing, relationships, storage and log levels.

use crate::assoc::{AssocMap, Key};
use crate::message::{ExitReason, SystemMessage};
use crate::pid;
use crate::pid::{vec_to_array, NodeId, Pid};
use crate::policy::PolicySet;
use crate::protocol;
use crate::registry;
use crate::registry::{ParticleRegistry, RegistryView};
use crate::text;
use crate::text::hex_decode;
use crate::transport;
use crate::transport::{Addressee, AddresseeView, Effect, EffectView, Envelope, PeerMessage, PeerMessageView};
use vstd::prelude::*;
use vstd::string::*;

verus! {

/// Why a database operation failed.
#[derive(Clone, Copy, PartialEq, Eq, Structural, Debug)]
pub enum DatabaseError {
    /// Another thread died while it held the database.
    LockPoisoned,
}

/// An in-memory key-value store for the state of particles.
pub struct Database {
    data: AssocMap<String, Vec<u8>>,
}

impl View for Database {
    type V = Map<Seq<char>, Seq<u8>>;

    closed spec fn view(&self) -> Map<Seq<char>, Seq<u8>> {
        self.data@
    }
}

/// A text begins with a prefix.
pub open spec fn has_prefix(s: Seq<char>, prefix: Seq<char>) -> bool {
    prefix.len() <= s.len() && s.take(prefix.len() as int) == prefix
}

/// Whether a text begins with a prefix.
pub fn starts_with(s: &str, prefix: &str) -> (r: bool)
    ensures
        r == has_prefix(s@, prefix@),
{
    let n: usize = prefix.unicode_len();
    let len: usize = s.unicode_len();
    if n > len {
        return false;
    }
    let mut i: usize = 0;
    while i < n
        invariant
            i <= n <= len,
            n == prefix@.len(),
            len == s@.len(),
            forall|j: int| 0 <= j < i ==> s@[j] == prefix@[j],
        decreases n - i,
    {
        if s.get_char(i) != prefix.get_char(i) {
            return false;
        }
        i += 1;
    }
    assert(s@.take(n as int) =~= prefix@);
    true
}

impl Database {
    pub closed spec fn wf(&self) -> bool {
        self.data.wf()
    }

    pub fn new() -> (r: Self)
        ensures
            r.wf(),
            r@ == Map::<Seq<char>, Seq<u8>>::empty(),
    {
        Database { data: AssocMap::new() }
    }

    /// The value of a key.
    pub fn get(&self, key: &str) -> (r: Option<Vec<u8>>)
        requires
            self.wf(),
        ensures
            match r {
                Some(v) => self@.contains_key(key@) && v@ == self@[key@],
                None => !self@.contains_key(key@),
            },
    {
        match self.data.get(&key.to_owned()) {
            Some(v) => {
                let copy = v.clone();
                Some(copy)
            },
            None => None,
        }
    }

    /// Sets the value of a key.
    pub fn set(&mut self, key: &str, value: Vec<u8>) -> (r: Result<(), DatabaseError>)
        requires
            old(self).wf(),
        ensures
            final(self).wf(),
            r is Ok,
            final(self)@ == old(self)@.insert(key@, value@),
    {
        self.data.insert(key.to_owned(), value);
        Ok(())
    }

    /// Deletes a key; tells whether it was there.
    pub fn delete(&mut self, key: &str) -> (r: Result<bool, DatabaseError>)
        requires
            old(self).wf(),
        ensures
            final(self).wf(),
            r == Ok::<bool, DatabaseError>(old(self)@.contains_key(key@)),
            final(self)@ == old(self)@.remove(key@),
    {
        let removed = self.data.remove(&key.to_owned()).is_some();
        Ok(removed)
    }

    /// The keys that begin with a prefix, each once.
    pub fn list_keys(&self, prefix: &str) -> (r: Vec<String>)
        requires
            self.wf(),
        ensures
            forall|i: int, j: int| 0 <= i < j < r@.len() ==> (#[trigger] r@[i])@ != (#[trigger] r@[j])@,
            forall|i: int|
                0 <= i < r@.len() ==> self@.contains_key((#[trigger] r@[i])@) && has_prefix(
                    r@[i]@,
                    prefix@,
                ),
            forall|k: Seq<char>| #[trigger]
                self@.contains_key(k) && has_prefix(k, prefix@) ==> exists|i: int|
                    0 <= i < r@.len() && (#[trigger] r@[i])@ == k,
    {
        let ghost items = self.data.items();
        let mut r: Vec<String> = Vec::new();
        let mut i: usize = 0;
        while i < self.data.len()
            invariant
                i <= items.len(),
                items == self.data.items(),
                self.data.wf(),
                forall|a: int, b: int|
                    0 <= a < b < r@.len() ==> (#[trigger] r@[a])@ != (#[trigger] r@[b])@,
                forall|a: int|
                    0 <= a < r@.len() ==> has_prefix((#[trigger] r@[a])@, prefix@)
                        && registry::held_before(items, i as int, r@[a]@),
                forall|j: int|
                    0 <= j < i && has_prefix((#[trigger] items[j]).0@, prefix@) ==> exists|a: int|
                        0 <= a < r@.len() && (#[trigger] r@[a])@ == items[j].0@,
            decreases items.len() - i,
        {
            let key = self.data.key_at(i).clone();
            let ghost before = r@;
            proof {
                registry::lemma_held_step(items, i as int);
            }
            if starts_with(key.as_str(), prefix) {
                r.push(key);
                proof {
                    assert forall|j: int|
                        0 <= j < i + 1 && has_prefix(
                            (#[trigger] items[j]).0@,
                            prefix@,
                        ) implies exists|a: int|
                        0 <= a < r@.len() && (#[trigger] r@[a])@ == items[j].0@ by {
                        if j < i {
                            let a = choose|a: int|
                                0 <= a < before.len() && (#[trigger] before[a])@ == items[j].0@;
                            assert(r@[a]@ == items[j].0@);
                        } else {
                            assert(r@[before.len() as int]@ == items[j].0@);
                        }
                    }
                }
            }
            i += 1;
        }
        r
    }
}

impl Default for Database {
    fn default() -> (r: Self)
        ensures
            r.wf(),
            r@ == Map::<Seq<char>, Seq<u8>>::empty(),
    {
        Database::new()
    }
}

/// A read gives back what was last written under the key, and a deleted key is gone. The other
/// keys keep their values.
pub proof fn law_reads_give_back_writes(
    db: Map<Seq<char>, Seq<u8>>,
    key: Seq<char>,
    value: Seq<u8>,
    other: Seq<char>,
)
    ensures
        db.insert(key, value).contains_key(key),
        db.insert(key, value)[key] == value,
        !db.remove(key).contains_key(key),
        other != key ==> db.insert(key, value).contains_key(other) == db.contains_key(other),
        other != key && db.contains_key(other) ==> db.insert(key, value)[other] == db[other],
        other != key ==> db.remove(key).contains_key(other) == db.contains_key(other),
        other != key && db.contains_key(other) ==> db.remove(key)[other] == db[other],
{
}

/// How loud a log line is.
#[derive(Clone, Copy, PartialEq, Eq, Structural, Debug)]
pub enum LogLevel {
    Trace,
    Debug,
    Info,
    Warn,
    Error,
}

/// The level of a number; numbers beyond the last level mean errors.
pub open spec fn level_of(value: u32) -> LogLevel {
    if value == 0 {
        LogLevel::Trace
    } else if value == 1 {
        LogLevel::Debug
    } else if value == 2 {
        LogLevel::Info
    } else if value == 3 {
        LogLevel::Warn
    } else {
        LogLevel::Error
    }
}

impl From<u32> for LogLevel {
    fn from(value: u32) -> (r: Self) {
        match value {
            0 => LogLevel::Trace,
            1 => LogLevel::Debug,
            2 => LogLevel::Info,
            3 => LogLevel::Warn,
            _ => LogLevel::Error,
        }
    }
}

impl vstd::std_specs::convert::FromSpecImpl<u32> for LogLevel {
    open spec fn obeys_from_spec() -> bool {
        true
    }

    open spec fn from_spec(value: u32) -> LogLevel {
        level_of(value)
    }
}

/// Anything that a particle can address.
#[derive(PartialEq, Debug)]
pub enum Destination {
    /// A pid; none where the particle's handle to it is stale.
    Pid(Option<Pid>),
    /// A name on this node.
    LocalNamed(String),
    /// A name on the node with this id, in hexadecimal.
    Named(String, String),
}

/// What a destination says.
pub enum DestinationView {
    Pid(Option<Pid>),
    LocalNamed(Seq<char>),
    Named(Seq<char>, Seq<char>),
}

impl View for Destination {
    type V = DestinationView;

    open spec fn view(&self) -> DestinationView {
        match *self {
            Destination::Pid(p) => DestinationView::Pid(p),
            Destination::LocalNamed(n) => DestinationView::LocalNamed(n@),
            Destination::Named(node, n) => DestinationView::Named(node@, n@),
        }
    }
}

/// Where a destination points, before any name has been looked up.
#[derive(PartialEq, Debug)]
pub enum LocalTarget {
    Here(Addressee),
    /// On another node; a name is resolved there.
    Elsewhere(NodeId, Addressee),
    /// Nothing to address.
    Unknown,
}

/// What a local target says.
pub enum LocalTargetView {
    Here(AddresseeView),
    Elsewhere(NodeId, AddresseeView),
    Unknown,
}

impl View for LocalTarget {
    type V = LocalTargetView;

    open spec fn view(&self) -> LocalTargetView {
        match *self {
            LocalTarget::Here(a) => LocalTargetView::Here(a@),
            LocalTarget::Elsewhere(n, a) => LocalTargetView::Elsewhere(n, a@),
            LocalTarget::Unknown => LocalTargetView::Unknown,
        }
    }
}

/// A node is the one that a text names in full hexadecimal.
pub open spec fn spells_node(s: Seq<char>, node: NodeId) -> bool {
    text::hex_bytes(s) == Some(node.bytes()) && pid::is_public_key(node.bytes())
}

/// A text names no node.
pub open spec fn spells_no_node(s: Seq<char>) -> bool {
    match text::hex_bytes(s) {
        None => true,
        Some(b) => b.len() != 32 || !pid::is_public_key(b),
    }
}

/// The node that a text names in full hexadecimal.
pub fn parse_node(node: &str) -> (r: Option<NodeId>)
    ensures
        match r {
            Some(n) => spells_node(node@, n),
            None => spells_no_node(node@),
        },
{
    match hex_decode(node) {
        Ok(bytes) => match vec_to_array(&bytes) {
            Some(array) => NodeId::from_bytes(&array),
            None => None,
        },
        Err(_) => None,
    }
}

/// Where a destination points, for a node that is `me`.
pub open spec fn points_to(me: Option<NodeId>, dest: DestinationView, r: LocalTargetView) -> bool {
    match dest {
        DestinationView::Pid(None) => r is Unknown,
        DestinationView::Pid(Some(p)) => r == (if me is None || p.node == me->0 {
            LocalTargetView::Here(AddresseeView::Pid(p))
        } else {
            LocalTargetView::Elsewhere(p.node, AddresseeView::Pid(p))
        }),
        DestinationView::LocalNamed(n) => r == LocalTargetView::Here(AddresseeView::Name(n)),
        DestinationView::Named(node, n) => {
            &&& spells_no_node(node) ==> r is Unknown
            &&& forall|k: NodeId| #[trigger]
                spells_node(node, k) ==> r == (if me == Some(k) {
                    LocalTargetView::Here(AddresseeView::Name(n))
                } else {
                    LocalTargetView::Elsewhere(k, AddresseeView::Name(n))
                })
        },
    }
}

/// The state that the host keeps for a running particle.
pub struct HostState {
    pid: Pid,
    name: Option<String>,
    capabilities: PolicySet,
    endpoint: Option<NodeId>,
    peers: bool,
}

/// What the host knows of a particle.
#[verifier::ext_equal]
pub struct HostView {
    pub pid: Pid,
    pub name: Option<Seq<char>>,
    pub capabilities: Set<Seq<char>>,
    /// The node of the endpoint; none where the particle runs without a network.
    pub endpoint: Option<NodeId>,
    /// Whether there are links to other nodes.
    pub peers: bool,
}

impl View for HostState {
    type V = HostView;

    closed spec fn view(&self) -> HostView {
        HostView {
            pid: self.pid,
            name: registry::opt_text(self.name),
            capabilities: self.capabilities@,
            endpoint: self.endpoint,
            peers: self.peers,
        }
    }
}

/// The effect of queueing a message for a node, where there are links.
pub open spec fn sent_if(peers: bool, node: NodeId, msg: PeerMessageView) -> Seq<EffectView> {
    if peers {
        seq![EffectView::Send(node, msg)]
    } else {
        Seq::empty()
    }
}

/// What signalling does here.
pub open spec fn signalled_here(
    m: RegistryView,
    me: Pid,
    t: LocalTargetView,
    reason: ExitReason,
) -> RegistryView {
    match t {
        LocalTargetView::Here(a) => match protocol::resolved(m, a) {
            Some(p) => registry::directed(m, p, me, reason),
            None => m,
        },
        _ => m,
    }
}

/// What delivering does here.
pub open spec fn delivered_here(
    m: RegistryView,
    t: LocalTargetView,
    ref_id: Option<u64>,
    payload: Vec<u8>,
) -> RegistryView {
    match t {
        LocalTargetView::Here(a) => match protocol::resolved(m, a) {
            Some(p) => m.sent(p, protocol::delivered(ref_id, payload)),
            None => m,
        },
        _ => m,
    }
}

/// What linking does here: where there is nothing to link to, the linker is told as a death would
/// tell it.
pub open spec fn linked_here(m: RegistryView, me: Pid, t: LocalTargetView) -> RegistryView {
    match t {
        LocalTargetView::Here(a) => match protocol::resolved(m, a) {
            Some(p) => if m.states.contains_key(me) && m.states.contains_key(p) {
                m.half_linked(me, p).half_linked(p, me)
            } else {
                m.told(me, SystemMessage::Exit { from: me, reason: ExitReason::NoProc })
            },
            None => m.told(me, SystemMessage::Exit { from: me, reason: ExitReason::NoProc }),
        },
        LocalTargetView::Elsewhere(_, AddresseeView::Pid(p)) => m.half_linked(me, p),
        _ => m,
    }
}

/// What unlinking does here.
pub open spec fn unlinked_here(m: RegistryView, me: Pid, t: LocalTargetView) -> RegistryView {
    match t {
        LocalTargetView::Here(a) => match protocol::resolved(m, a) {
            Some(p) => m.half_unlinked(me, p).half_unlinked(p, me),
            None => m,
        },
        LocalTargetView::Elsewhere(_, AddresseeView::Pid(p)) => m.half_unlinked(me, p),
        _ => m,
    }
}

/// What monitoring does here, under a reference.
pub open spec fn monitored_here(
    m: RegistryView,
    me: Pid,
    t: LocalTargetView,
    ref_id: u64,
) -> RegistryView {
    let nobody = SystemMessage::Down { from: me, monitor_ref: ref_id, reason: ExitReason::NoProc };
    match t {
        LocalTargetView::Here(a) => match protocol::reached(m, a) {
            Some(p) => m.monitoring(me, p, ref_id).watched(p, me, ref_id),
            None => m.told(me, nobody),
        },
        LocalTargetView::Elsewhere(_, AddresseeView::Pid(p)) => m.monitoring(
            me,
            p,
            ref_id,
        ).watched(p, me, ref_id),
        LocalTargetView::Elsewhere(_, AddresseeView::Name(_)) => m,
        LocalTargetView::Unknown => m.told(me, nobody),
    }
}

/// What is sent to another node for a destination there.
pub open spec fn sent_for(peers: bool, t: LocalTargetView, msg: spec_fn(AddresseeView) -> PeerMessageView) -> Seq<
    EffectView,
> {
    match t {
        LocalTargetView::Elsewhere(node, a) => sent_if(peers, node, msg(a)),
        _ => Seq::empty(),
    }
}

impl HostState {
    pub fn new(pid: Pid, name: Option<String>, capabilities: PolicySet) -> (r: Self)
        ensures
            r@ == (HostView {
                pid,
                name: registry::opt_text(name),
                capabilities: capabilities@,
                endpoint: None,
                peers: false,
            }),
    {
        HostState { pid, name, capabilities, endpoint: None, peers: false }
    }

    pub fn pid(&self) -> (r: &Pid)
        ensures
            *r == self@.pid,
    {
        &self.pid
    }

    pub fn name(&self) -> (r: Option<&str>)
        ensures
            registry::opt_str(r) == self@.name,
    {
        match &self.name {
            Some(n) => Some(n.as_str()),
            None => None,
        }
    }

    pub fn set_name(&mut self, name: Option<String>)
        ensures
            final(self)@ == (HostView { name: registry::opt_text(name), ..old(self)@ }),
    {
        self.name = name;
    }

    pub fn capabilities(&self) -> (r: &PolicySet)
        ensures
            r@ == self@.capabilities,
    {
        &self.capabilities
    }

    pub fn endpoint(&self) -> (r: Option<NodeId>)
        ensures
            r == self@.endpoint,
    {
        self.endpoint
    }

    pub fn set_endpoint(&mut self, endpoint: Option<NodeId>)
        ensures
            final(self)@ == (HostView { endpoint, ..old(self)@ }),
    {
        self.endpoint = endpoint;
    }

    pub fn has_peers(&self) -> (r: bool)
        ensures
            r == self@.peers,
    {
        self.peers
    }

    pub fn set_peers(&mut self, peers: bool)
        ensures
            final(self)@ == (HostView { peers, ..old(self)@ }),
    {
        self.peers = peers;
    }

    /// This node, in hexadecimal; empty where there is no endpoint.
    pub fn self_node(&self) -> (r: String)
        ensures
            r@ == match self@.endpoint {
                Some(n) => text::hex_text(n.bytes()),
                None => Seq::<char>::empty(),
            },
    {
        match self.endpoint {
            Some(n) => n.to_hex(),
            None => String::new(),
        }
    }

    /// The node of a pid, in hexadecimal; empty for a stale handle.
    pub fn node_of(&self, p: Option<Pid>) -> (r: String)
        ensures
            r@ == match p {
                Some(p) => text::hex_text(p.node.bytes()),
                None => Seq::<char>::empty(),
            },
    {
        match p {
            Some(p) => p.node.to_hex(),
            None => String::new(),
        }
    }

    /// Decides which node a destination belongs to, without resolving names.
    pub fn resolve_local(&self, dest: &Destination) -> (r: LocalTarget)
        ensures
            points_to(self@.endpoint, dest@, r@),
    {
        match dest {
            Destination::Pid(handle) => match handle {
                Some(pid) => match self.endpoint {
                    None => LocalTarget::Here(Addressee::Pid(*pid)),
                    Some(me) => if pid.is_local_to(&me) {
                        LocalTarget::Here(Addressee::Pid(*pid))
                    } else {
                        LocalTarget::Elsewhere(pid.node, Addressee::Pid(*pid))
                    },
                },
                None => LocalTarget::Unknown,
            },
            Destination::LocalNamed(name) => LocalTarget::Here(Addressee::Name(name.clone())),
            Destination::Named(node, name) => {
                broadcast use pid::lemma_node_bytes;

                match parse_node(node.as_str()) {
                    Some(n) => {
                        let here = match self.endpoint {
                            Some(me) => n.same(&me),
                            None => false,
                        };
                        if here {
                            LocalTarget::Here(Addressee::Name(name.clone()))
                        } else {
                            LocalTarget::Elsewhere(n, Addressee::Name(name.clone()))
                        }
                    },
                    None => LocalTarget::Unknown,
                }
            },
        }
    }

    fn send_control(&self, node: NodeId, msg: PeerMessage) -> (r: Vec<Effect>)
        ensures
            transport::effects_view(r@) == sent_if(self@.peers, node, msg@),
    {
        broadcast use {transport::lemma_effects_push, transport::lemma_effects_empty};

        let mut r: Vec<Effect> = Vec::new();
        if self.peers {
            r.push(Effect::Send(node, msg));
        }
        r
    }

    /// Terminates the particle, unconditionally.
    pub fn exit(&self, registry: &mut ParticleRegistry, reason: ExitReason)
        requires
            old(registry).wf(),
        ensures
            final(registry).wf(),
            final(registry)@ == registry::exited(old(registry)@, seq![self@.pid], reason),
    {
        registry.exit_particle(&self.pid, reason);
    }

    /// Sends an exit signal to a destination, wherever it is.
    pub fn exit_signal(
        &self,
        registry: &mut ParticleRegistry,
        dest: &Destination,
        reason: ExitReason,
    ) -> (r: Vec<Effect>)
        requires
            old(registry).wf(),
        ensures
            final(registry).wf(),
            exists|t: LocalTargetView| #[trigger]
                points_to(self@.endpoint, dest@, t) && final(registry)@ == signalled_here(
                    old(registry)@,
                    self@.pid,
                    t,
                    reason,
                ) && transport::effects_view(r@) == sent_for(
                    self@.peers,
                    t,
                    |a: AddresseeView|
                        PeerMessageView::ExitSignal { from: self@.pid, to: a, reason },
                ),
    {
        broadcast use transport::lemma_effects_empty;

        let target = self.resolve_local(dest);
        match target {
            LocalTarget::Here(a) => {
                match protocol::resolve(registry, &a) {
                    Some(p) => {
                        registry.apply_directed_exit(&p, &self.pid, reason);
                    },
                    None => {},
                }
                Vec::new()
            },
            LocalTarget::Elsewhere(node, a) => self.send_control(
                node,
                PeerMessage::ExitSignal { from: self.pid, to: a, reason },
            ),
            LocalTarget::Unknown => Vec::new(),
        }
    }

    /// Routes a message to wherever its destination is. A message that cannot be delivered is
    /// dropped, and the sender is not told.
    pub fn deliver_to(
        &self,
        registry: &mut ParticleRegistry,
        dest: &Destination,
        ref_id: Option<u64>,
        msg: Vec<u8>,
    ) -> (r: Vec<Effect>)
        requires
            old(registry).wf(),
        ensures
            final(registry).wf(),
            exists|t: LocalTargetView| #[trigger]
                points_to(self@.endpoint, dest@, t) && final(registry)@ == delivered_here(
                    old(registry)@,
                    t,
                    ref_id,
                    msg,
                ) && transport::effects_view(r@) == sent_for(
                    self@.peers,
                    t,
                    |a: AddresseeView|
                        PeerMessageView::Deliver { target: a, ref_id, payload: msg@ },
                ),
    {
        broadcast use transport::lemma_effects_empty;

        let target = self.resolve_local(dest);
        match target {
            LocalTarget::Here(a) => {
                match protocol::resolve(registry, &a) {
                    Some(p) => {
                        match ref_id {
                            Some(id) => {
                                let _ = registry.send_tagged_to_pid(&p, id, msg);
                            },
                            None => {
                                let _ = registry.send_to_pid(&p, msg);
                            },
                        }
                    },
                    None => {},
                }
                Vec::new()
            },
            LocalTarget::Elsewhere(node, a) => self.send_control(
                node,
                PeerMessage::Deliver(Envelope { target: a, ref_id, payload: msg }),
            ),
            LocalTarget::Unknown => Vec::new(),
        }
    }

    /// Links to a destination, wherever it is. It does not fail: a target that is gone is
    /// reported through the channel of its death.
    pub fn link(&self, registry: &mut ParticleRegistry, dest: &Destination) -> (r: Vec<Effect>)
        requires
            old(registry).wf(),
        ensures
            final(registry).wf(),
            exists|t: LocalTargetView| #[trigger]
                points_to(self@.endpoint, dest@, t) && final(registry)@ == linked_here(
                    old(registry)@,
                    self@.pid,
                    t,
                ) && transport::effects_view(r@) == sent_for(
                    self@.peers,
                    t,
                    |a: AddresseeView| PeerMessageView::Link { from: self@.pid, to: a },
                ),
    {
        broadcast use transport::lemma_effects_empty;

        let me = self.pid;
        let target = self.resolve_local(dest);
        match target {
            LocalTarget::Here(a) => {
                let linked = match protocol::resolve(registry, &a) {
                    Some(p) => registry.link(&me, &p).is_ok(),
                    None => false,
                };
                if !linked {
                    registry.deliver_exit(&me, &me, ExitReason::NoProc);
                }
                Vec::new()
            },
            LocalTarget::Elsewhere(node, a) => {
                match &a {
                    Addressee::Pid(p) => {
                        registry.link_remote(&me, *p);
                    },
                    Addressee::Name(_) => {},
                }
                self.send_control(node, PeerMessage::Link { from: me, to: a })
            },
            LocalTarget::Unknown => Vec::new(),
        }
    }

    /// Unlinks from a destination.
    pub fn unlink(&self, registry: &mut ParticleRegistry, dest: &Destination) -> (r: Vec<Effect>)
        requires
            old(registry).wf(),
        ensures
            final(registry).wf(),
            exists|t: LocalTargetView| #[trigger]
                points_to(self@.endpoint, dest@, t) && final(registry)@ == unlinked_here(
                    old(registry)@,
                    self@.pid,
                    t,
                ) && transport::effects_view(r@) == sent_for(
                    self@.peers,
                    t,
                    |a: AddresseeView| PeerMessageView::Unlink { from: self@.pid, to: a },
                ),
    {
        broadcast use transport::lemma_effects_empty;

        let me = self.pid;
        let target = self.resolve_local(dest);
        match target {
            LocalTarget::Here(a) => {
                match protocol::resolve(registry, &a) {
                    Some(p) => {
                        registry.unlink(&me, &p);
                    },
                    None => {},
                }
                Vec::new()
            },
            LocalTarget::Elsewhere(node, a) => {
                match &a {
                    Addressee::Pid(p) => {
                        registry.unlink_remote(&me, p);
                    },
                    Addressee::Name(_) => {},
                }
                self.send_control(node, PeerMessage::Unlink { from: me, to: a })
            },
            LocalTarget::Unknown => Vec::new(),
        }
    }

    /// Monitors a destination under a new reference, which is always valid.
    pub fn monitor(&self, registry: &mut ParticleRegistry, dest: &Destination) -> (r: (
        u64,
        Vec<Effect>,
    ))
        requires
            old(registry).wf(),
        ensures
            final(registry).wf(),
            r.0 == old(registry)@.next_ref,
            exists|t: LocalTargetView| #[trigger]
                points_to(self@.endpoint, dest@, t) && final(registry)@ == monitored_here(
                    RegistryView {
                        next_ref: pid::next_counter(old(registry)@.next_ref),
                        ..old(registry)@
                    },
                    self@.pid,
                    t,
                    r.0,
                ) && transport::effects_view(r.1@) == sent_for(
                    self@.peers,
                    t,
                    |a: AddresseeView|
                        PeerMessageView::Monitor { watcher: self@.pid, target: a, ref_id: r.0 },
                ),
    {
        broadcast use transport::lemma_effects_empty;

        let me = self.pid;
        let ref_id: u64 = registry.make_ref();
        let target = self.resolve_local(dest);
        let effects = match target {
            LocalTarget::Here(a) => {
                match protocol::reach(registry, &a) {
                    Some(p) => {
                        registry.monitor_with_ref(&me, &p, ref_id);
                    },
                    None => {
                        registry.deliver_down(&me, &me, ref_id, ExitReason::NoProc);
                    },
                }
                Vec::new()
            },
            LocalTarget::Elsewhere(node, a) => {
                match &a {
                    Addressee::Pid(p) => {
                        registry.monitor_remote(&me, *p, ref_id);
                    },
                    Addressee::Name(_) => {},
                }
                self.send_control(node, PeerMessage::Monitor { watcher: me, target: a, ref_id })
            },
            LocalTarget::Unknown => {
                registry.deliver_down(&me, &me, ref_id, ExitReason::NoProc);
                Vec::new()
            },
        };
        (ref_id, effects)
    }

    /// Gives up a monitor.
    pub fn demonitor(&self, registry: &mut ParticleRegistry, monitor_ref: u64)
        requires
            old(registry).wf(),
        ensures
            final(registry).wf(),
            final(registry)@ == registry::demonitored(old(registry)@, self@.pid, monitor_ref),
    {
        registry.demonitor(&self.pid, monitor_ref);
    }

    /// Registers a name for the particle; tells whether it was free.
    pub fn register(&self, registry: &mut ParticleRegistry, name: &str) -> (r: bool)
        requires
            old(registry).wf(),
        ensures
            final(registry).wf(),
            r == !old(registry)@.names.contains_key(name@),
            final(registry)@ == (if r {
                RegistryView {
                    names: old(registry)@.names.insert(name@, self@.pid),
                    ..old(registry)@
                }
            } else {
                old(registry)@
            }),
    {
        registry.register_name(&self.pid, name).is_ok()
    }

    /// Gives up a name of the particle; tells whether it had it.
    pub fn unregister(&self, registry: &mut ParticleRegistry, name: &str) -> (r: bool)
        requires
            old(registry).wf(),
        ensures
            final(registry).wf(),
            r == (old(registry)@.names.contains_key(name@) && old(registry)@.names[name@]
                == self@.pid),
            final(registry)@ == (if r {
                RegistryView { names: old(registry)@.names.remove(name@), ..old(registry)@ }
            } else {
                old(registry)@
            }),
    {
        registry.unregister_name(&self.pid, name).is_ok()
    }
}

/// A destination points to one place only.
pub proof fn law_destinations_are_unambiguous(
    me: Option<NodeId>,
    dest: DestinationView,
    a: LocalTargetView,
    b: LocalTargetView,
)
    requires
        points_to(me, dest, a),
        points_to(me, dest, b),
    ensures
        a == b,
{
    match dest {
        DestinationView::Named(s, n) => {
            if !spells_no_node(s) {
                let k = pid::lemma_node_of_bytes(text::hex_bytes(s)->0);
                assert(spells_node(s, k));
            }
        },
        _ => {},
    }
}

/// A name on another node is not looked up here: the message carries the name there, and nothing
/// changes on this node.
pub proof fn law_remote_names_travel_unresolved(
    m: RegistryView,
    me: NodeId,
    node: NodeId,
    name: Seq<char>,
    ref_id: Option<u64>,
    payload: Vec<u8>,
    t: LocalTargetView,
)
    requires
        node != me,
        pid::is_public_key(node.bytes()),
        points_to(
            Some(me),
            DestinationView::Named(text::hex_text(node.bytes()), name),
            t,
        ),
    ensures
        t == LocalTargetView::Elsewhere(node, AddresseeView::Name(name)),
        delivered_here(m, t, ref_id, payload) == m,
{
    text::lemma_hex_roundtrip(node.bytes());
    assert(spells_node(text::hex_text(node.bytes()), node));
}

} // verus!
