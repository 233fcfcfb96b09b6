//! Discovery of other nodes' processes by gossip: what each message makes known.

use crate::assoc::{AssocMap, Held, Key};
use crate::doc_registry;
use crate::doc_registry::{blake3_hash, copy_addr};
use crate::pid::{NodeId, Pid};
use crate::registry;
use crate::registry::{ParticleRegistry, RegistryView};
use vstd::prelude::*;
use vstd::string::*;

verus! {

/// The topic on which all nodes gossip about processes.
pub fn registry_topic() -> (r: [u8; 32])
    ensures
        r@ == doc_registry::blake3_digest(
            vstd::utf8::encode_utf8(doc_registry::registry_seed()),
        ),
{
    blake3_hash("plasmoid-registry-v1".as_bytes())
}

/// What nodes tell each other about their processes.
#[derive(Debug)]
#[allow(inconsistent_fields)]
pub enum RegistryMessage {
    ProcessUp {
        pid: Pid,
        behavior: String,
        name: Option<String>,
        node: NodeId,
        addr: iroh::EndpointAddr,
    },
    ProcessDown { pid: Pid, node: NodeId },
    ClaimName { name: String, pid: Pid, node: NodeId, timestamp: u64 },
    ReleaseName { name: String, node: NodeId },
}

/// Information about a process on another node.
#[derive(Debug)]
pub struct RemoteProcess {
    pub pid: Pid,
    pub behavior: String,
    pub name: Option<String>,
    pub node: NodeId,
    pub addr: iroh::EndpointAddr,
}

/// What is known of a process on another node.
pub struct ProcessView {
    pub pid: Pid,
    pub behavior: Seq<char>,
    pub name: Option<Seq<char>>,
    pub node: NodeId,
    pub addr: iroh::EndpointAddr,
}

impl View for RemoteProcess {
    type V = ProcessView;

    open spec fn view(&self) -> ProcessView {
        ProcessView {
            pid: self.pid,
            behavior: self.behavior@,
            name: registry::opt_text(self.name),
            node: self.node,
            addr: self.addr,
        }
    }
}

impl Held for RemoteProcess {
    open spec fn valid(&self) -> bool {
        true
    }
}

impl Clone for RemoteProcess {
    fn clone(&self) -> (r: Self)
        ensures
            r@ == self@,
    {
        RemoteProcess {
            pid: self.pid,
            behavior: self.behavior.clone(),
            name: match &self.name {
                Some(n) => Some(n.clone()),
                None => None,
            },
            node: self.node,
            addr: copy_addr(&self.addr),
        }
    }
}

/// What a name or a pid stands for.
#[derive(Debug)]
pub enum ResolvedProcess {
    Local(Pid),
    Remote(RemoteProcess),
}

/// What a name or a pid stands for.
pub enum ResolvedProcessView {
    Local(Pid),
    Remote(ProcessView),
}

/// What an outcome says.
pub open spec fn opt_resolved(r: Option<ResolvedProcess>) -> Option<ResolvedProcessView> {
    match r {
        Some(ResolvedProcess::Local(p)) => Some(ResolvedProcessView::Local(p)),
        Some(ResolvedProcess::Remote(x)) => Some(ResolvedProcessView::Remote(x@)),
        None => None,
    }
}

/// What gossip has made known.
#[verifier::ext_equal]
pub struct GossipView {
    pub me: NodeId,
    pub names: Map<Seq<char>, ProcessView>,
    pub pids: Map<Pid, ProcessView>,
}

impl GossipView {
    /// After a message. A node's own messages change nothing.
    pub open spec fn told(self, local: RegistryView, msg: RegistryMessage) -> GossipView {
        match msg {
            RegistryMessage::ProcessUp { pid, behavior, name, node, addr } => {
                let remote = ProcessView {
                    pid,
                    behavior: behavior@,
                    name: registry::opt_text(name),
                    node,
                    addr,
                };
                if node == self.me {
                    self
                } else {
                    GossipView {
                        pids: self.pids.insert(pid, remote),
                        names: match name {
                            Some(n) => self.names.insert(n@, remote),
                            None => self.names,
                        },
                        ..self
                    }
                }
            },
            RegistryMessage::ProcessDown { pid, node } => if node == self.me
                || !self.pids.contains_key(pid) {
                self
            } else {
                GossipView {
                    pids: self.pids.remove(pid),
                    names: match self.pids[pid].name {
                        Some(n) => self.names.remove(n),
                        None => self.names,
                    },
                    ..self
                }
            },
            RegistryMessage::ClaimName { name, pid, node, .. } => if node == self.me
                || local.names.contains_key(name@) || self.names.contains_key(name@)
                || !self.pids.contains_key(pid) {
                self
            } else {
                GossipView { names: self.names.insert(name@, self.pids[pid]), ..self }
            },
            RegistryMessage::ReleaseName { name, node } => if node != self.me
                && self.names.contains_key(name@) && self.names[name@].node == node {
                GossipView { names: self.names.remove(name@), ..self }
            } else {
                self
            },
        }
    }
}

/// The processes of other nodes that gossip has made known to a node.
pub struct DistributedRegistry {
    me: NodeId,
    remote_names: AssocMap<String, RemoteProcess>,
    remote_pids: AssocMap<Pid, RemoteProcess>,
}

impl View for DistributedRegistry {
    type V = GossipView;

    closed spec fn view(&self) -> GossipView {
        GossipView { me: self.me, names: self.remote_names@, pids: self.remote_pids@ }
    }
}

impl DistributedRegistry {
    pub closed spec fn wf(&self) -> bool {
        self.remote_names.wf() && self.remote_pids.wf()
    }

    pub fn new(me: NodeId) -> (r: Self)
        ensures
            r.wf(),
            r@ == (GossipView { me, names: Map::empty(), pids: Map::empty() }),
    {
        DistributedRegistry { me, remote_names: AssocMap::new(), remote_pids: AssocMap::new() }
    }

    /// Takes in a message. The first claim on a name wins: one that a process here or elsewhere
    /// already has is not given to another claimant.
    pub fn handle_message(&mut self, local: &ParticleRegistry, msg: RegistryMessage)
        requires
            old(self).wf(),
            local.wf(),
        ensures
            final(self).wf(),
            final(self)@ == old(self)@.told(local@, msg),
    {
        match msg {
            RegistryMessage::ProcessUp { pid, behavior, name, node, addr } => {
                if node.same(&self.me) {
                    return;
                }
                let known_as = match &name {
                    Some(n) => Some(n.clone()),
                    None => None,
                };
                let remote = RemoteProcess { pid, behavior, name, node, addr };
                self.remote_pids.insert(pid, remote.clone());
                match known_as {
                    Some(n) => {
                        self.remote_names.insert(n, remote);
                    },
                    None => {},
                }
            },
            RegistryMessage::ProcessDown { pid, node } => {
                if node.same(&self.me) {
                    return;
                }
                match self.remote_pids.remove(&pid) {
                    Some(remote) => match &remote.name {
                        Some(n) => {
                            self.remote_names.remove(n);
                        },
                        None => {},
                    },
                    None => {},
                }
            },
            RegistryMessage::ClaimName { name, pid, node, .. } => {
                if node.same(&self.me) {
                    return;
                }
                if local.get_by_name(name.as_str()).is_some() {
                    return;
                }
                if self.remote_names.contains_key(&name) {
                    return;
                }
                let claimant = match self.remote_pids.get(&pid) {
                    Some(remote) => Some(remote.clone()),
                    None => None,
                };
                match claimant {
                    Some(remote) => {
                        self.remote_names.insert(name, remote);
                    },
                    None => {},
                }
            },
            RegistryMessage::ReleaseName { name, node } => {
                if node.same(&self.me) {
                    return;
                }
                let held = match self.remote_names.get(&name) {
                    Some(remote) => remote.node.same(&node),
                    None => false,
                };
                if held {
                    self.remote_names.remove(&name);
                }
            },
        }
    }

    /// What a name stands for: a process here first, then one elsewhere.
    pub fn resolve_name(&self, local: &ParticleRegistry, name: &str) -> (r: Option<ResolvedProcess>)
        requires
            self.wf(),
            local.wf(),
        ensures
            opt_resolved(r) == (if local@.names.contains_key(name@) {
                Some(ResolvedProcessView::Local(local@.names[name@]))
            } else if self@.names.contains_key(name@) {
                Some(ResolvedProcessView::Remote(self@.names[name@]))
            } else {
                None
            }),
    {
        match local.get_by_name(name) {
            Some(p) => return Some(ResolvedProcess::Local(p)),
            None => {},
        }
        match self.remote_names.get(&name.to_owned()) {
            Some(x) => Some(ResolvedProcess::Remote(x.clone())),
            None => None,
        }
    }

    /// What a pid stands for: a process that runs here, or else what is known from elsewhere.
    pub fn resolve_pid(&self, local: &ParticleRegistry, pid: &Pid) -> (r: Option<ResolvedProcess>)
        requires
            self.wf(),
            local.wf(),
        ensures
            opt_resolved(r) == (if pid.node == self@.me && local@.entries.contains_key(*pid) {
                Some(ResolvedProcessView::Local(*pid))
            } else if self@.pids.contains_key(*pid) {
                Some(ResolvedProcessView::Remote(self@.pids[*pid]))
            } else {
                None
            }),
    {
        if pid.is_local_to(&self.me) && local.get_by_pid(pid).is_some() {
            return Some(ResolvedProcess::Local(*pid));
        }
        match self.remote_pids.get(pid) {
            Some(x) => Some(ResolvedProcess::Remote(x.clone())),
            None => None,
        }
    }

    /// What is told of a new process of this node.
    pub fn announce_spawn(
        &self,
        pid: &Pid,
        behavior: &str,
        name: Option<&str>,
        addr: iroh::EndpointAddr,
    ) -> (r: RegistryMessage)
        ensures
            r matches RegistryMessage::ProcessUp { pid: p, behavior: b, name: n, node, addr: a } && p
                == *pid && b@ == behavior@ && registry::opt_text(n) == registry::opt_str(name)
                && node == self@.me && a == addr,
    {
        RegistryMessage::ProcessUp {
            pid: *pid,
            behavior: behavior.to_owned(),
            name: match name {
                Some(n) => Some(n.to_owned()),
                None => None,
            },
            node: self.me,
            addr,
        }
    }

    /// What is told of a process of this node that is down.
    pub fn announce_down(&self, pid: &Pid) -> (r: RegistryMessage)
        ensures
            r == (RegistryMessage::ProcessDown { pid: *pid, node: self@.me }),
    {
        RegistryMessage::ProcessDown { pid: *pid, node: self.me }
    }
}

/// The node that a message comes from.
pub open spec fn sender(msg: RegistryMessage) -> NodeId {
    match msg {
        RegistryMessage::ProcessUp { node, .. } => node,
        RegistryMessage::ProcessDown { node, .. } => node,
        RegistryMessage::ClaimName { node, .. } => node,
        RegistryMessage::ReleaseName { node, .. } => node,
    }
}

/// A node learns nothing from its own messages.
pub proof fn law_own_messages_are_ignored(g: GossipView, local: RegistryView, msg: RegistryMessage)
    requires
        sender(msg) == g.me,
    ensures
        g.told(local, msg) == g,
{
}

/// The news that a process is down undoes the news that it is up: neither its pid nor its name
/// is known after both.
pub proof fn law_down_undoes_up(
    g: GossipView,
    local: RegistryView,
    pid: Pid,
    behavior: String,
    name: Option<String>,
    node: NodeId,
    addr: iroh::EndpointAddr,
)
    requires
        node != g.me,
    ensures
        ({
            let up = RegistryMessage::ProcessUp { pid, behavior, name, node, addr };
            let down = RegistryMessage::ProcessDown { pid, node };
            let after = g.told(local, up).told(local, down);
            &&& !after.pids.contains_key(pid)
            &&& name matches Some(n) ==> !after.names.contains_key(n@)
        }),
{
}

/// The first claim on a name wins: after it, a claim by any other process changes nothing.
pub proof fn law_first_claim_wins(
    g: GossipView,
    local: RegistryView,
    name: String,
    first: Pid,
    home: NodeId,
    first_at: u64,
    second: Pid,
    away: NodeId,
    second_at: u64,
)
    requires
        home != g.me,
        g.pids.contains_key(first),
        !local.names.contains_key(name@),
        !g.names.contains_key(name@),
    ensures
        ({
            let claim = RegistryMessage::ClaimName {
                name,
                pid: first,
                node: home,
                timestamp: first_at,
            };
            let later = RegistryMessage::ClaimName {
                name,
                pid: second,
                node: away,
                timestamp: second_at,
            };
            let after = g.told(local, claim);
            &&& after.names.contains_key(name@)
            &&& after.names[name@] == g.pids[first]
            &&& after.told(local, later) == after
        }),
{
}

/// Only the node that a name points at can release it.
pub proof fn law_names_are_released_by_their_node(
    g: GossipView,
    local: RegistryView,
    name: String,
    node: NodeId,
)
    requires
        g.names.contains_key(name@),
        g.names[name@].node != node,
    ensures
        g.told(local, RegistryMessage::ReleaseName { name, node }) == g,
{
}

} // verus!
