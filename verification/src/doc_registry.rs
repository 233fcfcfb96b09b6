//! The distributed registry: which particle lives where, as a replicated document tells it.
//!
//! Each particle has an entry under its pid, and one under its name if it has one. A deletion
//! arrives as an empty entry, so only its key says what went away.

use crate::assoc;
use crate::assoc::{AssocMap, Held, Key};
use crate::host;
use crate::host::starts_with;
use crate::pid;
use crate::pid::{NodeId, Pid};
use crate::registry;
use crate::registry::ParticleRegistry;
use crate::text::read_utf8;
use crate::text;
use vstd::prelude::*;
use vstd::string::*;

verus! {

/// Where an endpoint can be reached. Addresses are carried, never looked into.
#[verifier::external_type_specification]
#[verifier::external_body]
pub struct ExEndpointAddr(iroh::EndpointAddr);

/// `EndpointAddr::clone`: an address equal to the one that it copies.
#[verifier::external_body]
pub(crate) fn copy_addr(addr: &iroh::EndpointAddr) -> (r: iroh::EndpointAddr)
    ensures
        r == *addr,
{
    addr.clone()
}

/// What the document says of a particle.
#[derive(Debug)]
pub struct RegistryEntry {
    pub pid: Pid,
    pub name: Option<String>,
    pub component: String,
    pub node: NodeId,
    pub addr: iroh::EndpointAddr,
}

/// Information about a particle on another node.
#[derive(Debug)]
pub struct RemoteParticle {
    pub pid: Pid,
    pub component: String,
    pub name: Option<String>,
    pub node: NodeId,
    pub addr: iroh::EndpointAddr,
}

/// What is known of a particle on another node.
pub struct RemoteView {
    pub pid: Pid,
    pub component: Seq<char>,
    pub name: Option<Seq<char>>,
    pub node: NodeId,
    pub addr: iroh::EndpointAddr,
}

impl View for RemoteParticle {
    type V = RemoteView;

    open spec fn view(&self) -> RemoteView {
        RemoteView {
            pid: self.pid,
            component: self.component@,
            name: registry::opt_text(self.name),
            node: self.node,
            addr: self.addr,
        }
    }
}

impl View for RegistryEntry {
    type V = RemoteView;

    open spec fn view(&self) -> RemoteView {
        RemoteView {
            pid: self.pid,
            component: self.component@,
            name: registry::opt_text(self.name),
            node: self.node,
            addr: self.addr,
        }
    }
}

impl Held for RemoteParticle {
    open spec fn valid(&self) -> bool {
        true
    }
}

impl From<RegistryEntry> for RemoteParticle {
    fn from(e: RegistryEntry) -> (r: RemoteParticle) {
        RemoteParticle {
            pid: e.pid,
            component: e.component,
            name: e.name,
            node: e.node,
            addr: e.addr,
        }
    }
}

impl vstd::std_specs::convert::FromSpecImpl<RegistryEntry> for RemoteParticle {
    open spec fn obeys_from_spec() -> bool {
        true
    }

    open spec fn from_spec(e: RegistryEntry) -> RemoteParticle {
        RemoteParticle {
            pid: e.pid,
            component: e.component,
            name: e.name,
            node: e.node,
            addr: e.addr,
        }
    }
}

impl Clone for RemoteParticle {
    fn clone(&self) -> (r: Self)
        ensures
            r@ == self@,
    {
        RemoteParticle {
            pid: self.pid,
            component: self.component.clone(),
            name: match &self.name {
                Some(n) => Some(n.clone()),
                None => None,
            },
            node: self.node,
            addr: copy_addr(&self.addr),
        }
    }
}

/// What a name or a pid stands for.
#[derive(Debug)]
pub enum ResolvedParticle {
    Local(Pid),
    Remote(RemoteParticle),
}

/// What a name or a pid stands for.
pub enum ResolvedView {
    Local(Pid),
    Remote(RemoteView),
}

impl View for ResolvedParticle {
    type V = ResolvedView;

    open spec fn view(&self) -> ResolvedView {
        match *self {
            ResolvedParticle::Local(p) => ResolvedView::Local(p),
            ResolvedParticle::Remote(r) => ResolvedView::Remote(r@),
        }
    }
}

/// A key of the document.
#[derive(Debug, PartialEq, Eq)]
pub enum RegistryKey<'a> {
    Pid(&'a str),
    Name(&'a str),
}

/// What a key says.
pub enum KeyView {
    Pid(Seq<char>),
    Name(Seq<char>),
}

impl<'a> View for RegistryKey<'a> {
    type V = KeyView;

    open spec fn view(&self) -> KeyView {
        match *self {
            RegistryKey::Pid(s) => KeyView::Pid(s@),
            RegistryKey::Name(s) => KeyView::Name(s@),
        }
    }
}

/// How a key is written in the document.
pub open spec fn rendered(key: KeyView) -> Seq<char> {
    match key {
        KeyView::Pid(s) => "pid/"@ + s,
        KeyView::Name(s) => "name/"@ + s,
    }
}

/// The key that a text of the document is, if it is one of ours.
pub open spec fn parsed_key(s: Seq<char>) -> Option<KeyView> {
    if host::has_prefix(s, "pid/"@) {
        Some(KeyView::Pid(s.skip("pid/"@.len() as int)))
    } else if host::has_prefix(s, "name/"@) {
        Some(KeyView::Name(s.skip("name/"@.len() as int)))
    } else {
        None
    }
}

impl<'a> RegistryKey<'a> {
    pub fn parse(key: &'a str) -> (r: Option<RegistryKey<'a>>)
        ensures
            match r {
                Some(k) => parsed_key(key@) == Some(k@),
                None => parsed_key(key@) is None,
            },
    {
        let n: usize = key.unicode_len();
        proof {
            reveal_strlit("pid/");
            reveal_strlit("name/");
        }
        if starts_with(key, "pid/") {
            let rest = key.substring_char(4, n);
            Some(RegistryKey::Pid(rest))
        } else if starts_with(key, "name/") {
            let rest = key.substring_char(5, n);
            Some(RegistryKey::Name(rest))
        } else {
            None
        }
    }

    /// The key as the document holds it.
    pub fn render(&self) -> (r: String)
        ensures
            r@ == rendered(self@),
    {
        match self {
            RegistryKey::Pid(p) => {
                let mut r = "pid/".to_owned();
                r.append(*p);
                r
            },
            RegistryKey::Name(n) => {
                let mut r = "name/".to_owned();
                r.append(*n);
                r
            },
        }
    }
}

/// The pid that the text of a pid key carries.
pub open spec fn pid_of_key(s: Seq<char>) -> Option<Pid> {
    match pid::key_parts(s) {
        Ok((node, seq)) => Some(Pid { node: choose|n: NodeId| #[trigger] n.bytes() == node, seq }),
        Err(_) => None,
    }
}

proof fn lemma_pid_of_key(s: Seq<char>, p: Pid)
    requires
        pid::key_parts(s) == Ok::<(Seq<u8>, u64), pid::PidKeyError>((p.node.bytes(), p.seq)),
    ensures
        pid_of_key(s) == Some(p),
{
    let n = choose|n: NodeId| #[trigger] n.bytes() == p.node.bytes();
    pid::lemma_node_bytes(n, p.node);
}

/// What is cached of other nodes' particles.
#[verifier::ext_equal]
pub struct CacheView {
    pub names: Map<Seq<char>, RemoteView>,
    pub pids: Map<Pid, RemoteView>,
}

impl CacheView {
    pub open spec fn empty() -> CacheView {
        CacheView { names: Map::empty(), pids: Map::empty() }
    }

    /// With a particle under a key. What the key says counts, not what the entry says: a pid key
    /// that cannot be read is ignored.
    pub open spec fn inserted(self, key: KeyView, remote: RemoteView) -> CacheView {
        match key {
            KeyView::Name(n) => CacheView { names: self.names.insert(n, remote), ..self },
            KeyView::Pid(s) => match pid_of_key(s) {
                Some(p) => CacheView { pids: self.pids.insert(p, remote), ..self },
                None => self,
            },
        }
    }

    /// Without what a key stands for.
    pub open spec fn removed(self, key: KeyView) -> CacheView {
        match key {
            KeyView::Name(n) => CacheView { names: self.names.remove(n), ..self },
            KeyView::Pid(s) => match pid_of_key(s) {
                Some(p) => CacheView { pids: self.pids.remove(p), ..self },
                None => self,
            },
        }
    }

    /// Without anything of a node.
    pub open spec fn without_node(self, node: NodeId) -> CacheView {
        CacheView {
            names: self.names.restrict(
                Set::new(|n: Seq<char>| self.names.contains_key(n) && self.names[n].node != node),
            ),
            pids: self.pids.restrict(
                Set::new(|p: Pid| self.pids.contains_key(p) && self.pids[p].node != node),
            ),
        }
    }

    /// How many entries there are.
    pub open spec fn size(self) -> nat {
        self.names.dom().len() + self.pids.dom().len()
    }

    /// None of the entries is a node's own.
    pub open spec fn foreign_to(self, me: NodeId) -> bool {
        &&& forall|n: Seq<char>| #[trigger] self.names.contains_key(n) ==> self.names[n].node != me
        &&& forall|p: Pid| #[trigger] self.pids.contains_key(p) ==> self.pids[p].node != me
    }
}

/// What is cached of particles that live on other nodes.
///
/// Entries may be evicted here without anything being deleted from the document: a node can
/// delete only what it wrote itself.
pub struct RemoteCache {
    names: AssocMap<String, RemoteParticle>,
    pids: AssocMap<Pid, RemoteParticle>,
}

impl View for RemoteCache {
    type V = CacheView;

    closed spec fn view(&self) -> CacheView {
        CacheView { names: self.names@, pids: self.pids@ }
    }
}

impl Default for RemoteCache {
    fn default() -> (r: Self)
        ensures
            r.wf(),
            r@ == CacheView::empty(),
    {
        RemoteCache { names: AssocMap::new(), pids: AssocMap::new() }
    }
}

impl RemoteCache {
    pub closed spec fn wf(&self) -> bool {
        self.names.wf() && self.pids.wf()
    }

    /// Remembers a particle under a key.
    pub fn insert(&mut self, key: RegistryKey<'_>, remote: RemoteParticle)
        requires
            old(self).wf(),
        ensures
            final(self).wf(),
            final(self)@ == old(self)@.inserted(key@, remote@),
    {
        match key {
            RegistryKey::Name(name) => {
                self.names.insert(name.to_owned(), remote);
            },
            RegistryKey::Pid(s) => match Pid::from_key(s) {
                Ok(p) => {
                    proof {
                        lemma_pid_of_key(s@, p);
                    }
                    self.pids.insert(p, remote);
                },
                Err(_) => {},
            },
        }
    }

    /// Evicts whatever a key stands for.
    pub fn remove(&mut self, key: RegistryKey<'_>)
        requires
            old(self).wf(),
        ensures
            final(self).wf(),
            final(self)@ == old(self)@.removed(key@),
    {
        match key {
            RegistryKey::Name(name) => {
                self.names.remove(&name.to_owned());
            },
            RegistryKey::Pid(s) => match Pid::from_key(s) {
                Ok(p) => {
                    proof {
                        lemma_pid_of_key(s@, p);
                    }
                    self.pids.remove(&p);
                },
                Err(_) => {},
            },
        }
    }

    /// Evicts everything of a node, and says how many entries went.
    pub fn remove_node(&mut self, node: &NodeId) -> (r: usize)
        requires
            old(self).wf(),
            old(self)@.size() <= usize::MAX,
        ensures
            final(self).wf(),
            final(self)@ == old(self)@.without_node(*node),
            final(self)@.size() <= old(self)@.size(),
            r == old(self)@.size() - final(self)@.size(),
    {
        let before: usize = self.len();
        remove_names_of(&mut self.names, node);
        remove_pids_of(&mut self.pids, node);
        proof {
            assoc::lemma_entries_len(old(self).names.items());
            assoc::lemma_entries_len(old(self).pids.items());
            vstd::set_lib::lemma_len_subset(self.names@.dom(), old(self).names@.dom());
            vstd::set_lib::lemma_len_subset(self.pids@.dom(), old(self).pids@.dom());
        }
        let after: usize = self.len();
        before - after
    }

    /// Whether the number of entries fits a machine word.
    pub fn countable(&self) -> (r: bool)
        requires
            self.wf(),
        ensures
            r == (self@.size() <= usize::MAX),
    {
        proof {
            assoc::lemma_entries_len(self.names.items());
            assoc::lemma_entries_len(self.pids.items());
        }
        self.names.len().checked_add(self.pids.len()).is_some()
    }

    /// How many entries there are.
    pub fn len(&self) -> (r: usize)
        requires
            self.wf(),
            self@.size() <= usize::MAX,
        ensures
            r == self@.size(),
    {
        proof {
            assoc::lemma_entries_len(self.names.items());
            assoc::lemma_entries_len(self.pids.items());
        }
        self.names.len() + self.pids.len()
    }

    pub fn get_name(&self, name: &str) -> (r: Option<&RemoteParticle>)
        requires
            self.wf(),
        ensures
            match r {
                Some(x) => self@.names.contains_key(name@) && x@ == self@.names[name@],
                None => !self@.names.contains_key(name@),
            },
    {
        self.names.get(&name.to_owned())
    }

    pub fn get_pid(&self, pid: &Pid) -> (r: Option<&RemoteParticle>)
        requires
            self.wf(),
        ensures
            match r {
                Some(x) => self@.pids.contains_key(*pid) && x@ == self@.pids[*pid],
                None => !self@.pids.contains_key(*pid),
            },
    {
        self.pids.get(pid)
    }
}

fn remove_names_of(names: &mut AssocMap<String, RemoteParticle>, node: &NodeId)
    requires
        old(names).wf(),
    ensures
        final(names).wf(),
        final(names)@ == old(names)@.restrict(
            Set::new(
                |n: Seq<char>| old(names)@.contains_key(n) && old(names)@[n].node != *node,
            ),
        ),
{
    let ghost items = names.items();
    let mut doomed: Vec<String> = Vec::new();
    let mut i: usize = 0;
    while i < names.len()
        invariant
            i <= items.len(),
            items == names.items(),
            *names == *old(names),
            names.wf(),
            forall|j: int|
                0 <= j < doomed@.len() ==> names@.contains_key((#[trigger] doomed@[j])@)
                    && names@[doomed@[j]@].node == *node,
            forall|j: int|
                0 <= j < i && (#[trigger] items[j]).1.node == *node ==> exists|k: int|
                    0 <= k < doomed@.len() && (#[trigger] doomed@[k])@ == items[j].0@,
        decreases items.len() - i,
    {
        if names.value_at(i).node.same(node) {
            let ghost before = doomed@;
            doomed.push(names.key_at(i).clone());
            proof {
                assoc::lemma_entry(items, i as int);
                assert(doomed@[before.len() as int]@ == items[i as int].0@);
                assert forall|j: int|
                    0 <= j < i + 1 && (#[trigger] items[j]).1.node == *node implies exists|k: int|
                    0 <= k < doomed@.len() && (#[trigger] doomed@[k])@ == items[j].0@ by {
                    if j < i {
                        let k = choose|k: int|
                            0 <= k < before.len() && (#[trigger] before[k])@ == items[j].0@;
                        assert(doomed@[k] == before[k]);
                    }
                }
            }
        }
        i += 1;
    }
    let ghost start = names@;
    let mut d: usize = 0;
    while d < doomed.len()
        invariant
            d <= doomed@.len(),
            names.wf(),
            forall|j: int|
                0 <= j < doomed@.len() ==> start.contains_key((#[trigger] doomed@[j])@)
                    && start[doomed@[j]@].node == *node,
            forall|n: Seq<char>| #[trigger]
                names@.contains_key(n) <==> start.contains_key(n) && !(exists|k: int|
                    0 <= k < d && (#[trigger] doomed@[k])@ == n),
            forall|n: Seq<char>| #[trigger] names@.contains_key(n) ==> names@[n] == start[n],
        decreases doomed@.len() - d,
    {
        names.remove(&doomed[d]);
        d += 1;
    }
}

fn remove_pids_of(pids: &mut AssocMap<Pid, RemoteParticle>, node: &NodeId)
    requires
        old(pids).wf(),
    ensures
        final(pids).wf(),
        final(pids)@ == old(pids)@.restrict(
            Set::new(|p: Pid| old(pids)@.contains_key(p) && old(pids)@[p].node != *node),
        ),
{
    let ghost items = pids.items();
    let mut doomed: Vec<Pid> = Vec::new();
    let mut i: usize = 0;
    while i < pids.len()
        invariant
            i <= items.len(),
            items == pids.items(),
            *pids == *old(pids),
            pids.wf(),
            forall|j: int|
                0 <= j < doomed@.len() ==> pids@.contains_key(#[trigger] doomed@[j])
                    && pids@[doomed@[j]].node == *node,
            forall|j: int|
                0 <= j < i && (#[trigger] items[j]).1.node == *node ==> doomed@.contains(
                    items[j].0,
                ),
        decreases items.len() - i,
    {
        if pids.value_at(i).node.same(node) {
            let ghost before = doomed@;
            doomed.push(*pids.key_at(i));
            proof {
                assoc::lemma_entry(items, i as int);
                assert forall|j: int|
                    0 <= j < i + 1 && (#[trigger] items[j]).1.node
                        == *node implies doomed@.contains(items[j].0) by {
                    if j < i {
                        let k = choose|k: int| 0 <= k < before.len() && before[k] == items[j].0;
                        assert(doomed@[k] == items[j].0);
                    } else {
                        assert(doomed@[before.len() as int] == items[j].0);
                    }
                }
            }
        }
        i += 1;
    }
    let ghost start = pids@;
    let mut d: usize = 0;
    while d < doomed.len()
        invariant
            d <= doomed@.len(),
            pids.wf(),
            forall|j: int|
                0 <= j < doomed@.len() ==> start.contains_key(#[trigger] doomed@[j])
                    && start[doomed@[j]].node == *node,
            forall|p: Pid| #[trigger]
                pids@.contains_key(p) <==> start.contains_key(p) && !doomed@.take(
                    d as int,
                ).contains(p),
            forall|p: Pid| #[trigger] pids@.contains_key(p) ==> pids@[p] == start[p],
        decreases doomed@.len() - d,
    {
        pids.remove(&doomed[d]);
        proof {
            let gone = doomed@[d as int];
            let fewer = doomed@.take(d as int);
            let more = doomed@.take(d + 1);
            assert(more =~= fewer.push(gone));
            registry::lemma_push_contains(fewer, gone);
        }
        d += 1;
    }
    proof {
        assert(doomed@.take(doomed@.len() as int) =~= doomed@);
    }
}

/// The digest that `blake3::hash` makes of bytes.
pub uninterp spec fn blake3_digest(data: Seq<u8>) -> Seq<u8>;

/// `blake3::hash`: the digest depends on the bytes alone and is 32 bytes long.
#[verifier::external_body]
pub(crate) fn blake3_hash(data: &[u8]) -> (r: [u8; 32])
    ensures
        r@ == blake3_digest(data@),
{
    *blake3::hash(data).as_bytes()
}

/// What the shared document's namespace and the gossip topic are derived from.
pub open spec fn registry_seed() -> Seq<char> {
    "plasmoid-registry-v1"@
}

/// The secret of the document that all nodes share. Every node derives the same one, so nothing
/// needs to be handed round.
pub fn registry_namespace_secret() -> (r: [u8; 32])
    ensures
        r@ == blake3_digest(vstd::utf8::encode_utf8(registry_seed())),
{
    blake3_hash("plasmoid-registry-v1".as_bytes())
}

/// What an entry that was written to the document calls for.
#[derive(PartialEq, Debug)]
pub enum InsertStep {
    /// The key is not text. Nothing was done.
    BadKey,
    /// The key is not one of the registry's. Nothing was done.
    NotOurs,
    /// The entry was a deletion, and what its key stands for was evicted.
    Evicted,
    /// The content is to be fetched and read.
    Fetch,
}

/// What an entry calls for, by its key and the length of its content.
pub open spec fn insert_step(key: Seq<u8>, content_len: u64) -> InsertStep {
    if !vstd::utf8::valid_utf8(key) {
        InsertStep::BadKey
    } else if parsed_key(vstd::utf8::decode_utf8(key)) is None {
        InsertStep::NotOurs
    } else if content_len == 0 {
        InsertStep::Evicted
    } else {
        InsertStep::Fetch
    }
}

/// An entry of the document, as a rebuild of the cache meets it.
pub struct DocEntry {
    pub key: Vec<u8>,
    pub content_len: u64,
    /// The content, where it is here and can be read.
    pub content: Option<RegistryEntry>,
}

/// A cache after an entry of the document was taken in by a node.
pub open spec fn taken_in(c: CacheView, me: NodeId, e: DocEntry) -> CacheView {
    if insert_step(e.key@, e.content_len) is Fetch {
        match e.content {
            Some(x) => if x.node == me {
                c
            } else {
                c.inserted(parsed_key(vstd::utf8::decode_utf8(e.key@))->0, x@)
            },
            None => c,
        }
    } else {
        c
    }
}

/// The cache that a node makes of the document's entries.
pub open spec fn rebuilt(me: NodeId, entries: Seq<DocEntry>) -> CacheView
    decreases entries.len(),
{
    if entries.len() == 0 {
        CacheView::empty()
    } else {
        taken_in(rebuilt(me, entries.drop_last()), me, entries.last())
    }
}

/// The keys under which a particle stands in the document.
pub open spec fn keys_of(p: Pid, name: Option<Seq<char>>) -> Seq<Seq<char>> {
    let pid_key = rendered(KeyView::Pid(pid::key_text(p.node.bytes(), p.seq)));
    match name {
        Some(n) => seq![pid_key, rendered(KeyView::Name(n))],
        None => seq![pid_key],
    }
}

/// What is to be written to the document for a new particle.
pub struct Announcement {
    pub keys: Vec<String>,
    pub entry: RegistryEntry,
}

/// What a name stands for: a particle here first, then one elsewhere.
pub open spec fn resolved_name(
    local: registry::RegistryView,
    c: CacheView,
    name: Seq<char>,
) -> Option<ResolvedView> {
    if local.names.contains_key(name) {
        Some(ResolvedView::Local(local.names[name]))
    } else if c.names.contains_key(name) {
        Some(ResolvedView::Remote(c.names[name]))
    } else {
        None
    }
}

/// What a pid stands for: a particle that runs here, or else what is known from elsewhere.
pub open spec fn resolved_pid(
    me: NodeId,
    local: registry::RegistryView,
    c: CacheView,
    p: Pid,
) -> Option<ResolvedView> {
    if p.node == me && local.entries.contains_key(p) {
        Some(ResolvedView::Local(p))
    } else if c.pids.contains_key(p) {
        Some(ResolvedView::Remote(c.pids[p]))
    } else {
        None
    }
}

/// What an outcome says.
pub open spec fn opt_resolved(r: Option<ResolvedParticle>) -> Option<ResolvedView> {
    match r {
        Some(x) => Some(x@),
        None => None,
    }
}

fn opt_owned(name: Option<&str>) -> (r: Option<String>)
    ensures
        registry::opt_text(r) == registry::opt_str(name),
{
    match name {
        Some(n) => Some(n.to_owned()),
        None => None,
    }
}

/// The registry of a node, fed by a document that is replicated between all nodes.
pub struct DocRegistry {
    me: NodeId,
    remote: RemoteCache,
}

impl DocRegistry {
    pub closed spec fn wf(&self) -> bool {
        self.remote.wf() && self.remote@.foreign_to(self.me)
    }

    pub closed spec fn node(&self) -> NodeId {
        self.me
    }

    pub closed spec fn cache(&self) -> CacheView {
        self.remote@
    }

    /// Only other nodes' particles are cached.
    pub proof fn lemma_wf(&self)
        requires
            self.wf(),
        ensures
            self.cache().foreign_to(self.node()),
    {
    }

    pub fn new(me: NodeId) -> (r: Self)
        ensures
            r.wf(),
            r.node() == me,
            r.cache() == CacheView::empty(),
    {
        DocRegistry { me, remote: RemoteCache::default() }
    }

    /// An entry was written to the document by another node. A deletion has no content, so its
    /// key alone says what went away.
    pub fn begin_insert(&mut self, key: &[u8], content_len: u64) -> (r: InsertStep)
        requires
            old(self).wf(),
        ensures
            final(self).wf(),
            final(self).node() == old(self).node(),
            r == insert_step(key@, content_len),
            final(self).cache() == (if r is Evicted {
                old(self).cache().removed(parsed_key(vstd::utf8::decode_utf8(key@))->0)
            } else {
                old(self).cache()
            }),
    {
        let text = match read_utf8(key) {
            Some(text) => text,
            None => return InsertStep::BadKey,
        };
        let parsed = match RegistryKey::parse(text) {
            Some(parsed) => parsed,
            None => return InsertStep::NotOurs,
        };
        if content_len == 0 {
            self.remote.remove(parsed);
            return InsertStep::Evicted;
        }
        InsertStep::Fetch
    }

    /// The content of an entry was fetched and read.
    pub fn finish_insert(&mut self, key: &[u8], entry: RegistryEntry)
        requires
            old(self).wf(),
        ensures
            final(self).wf(),
            final(self).node() == old(self).node(),
            final(self).cache() == (if entry.node != old(self).node() && vstd::utf8::valid_utf8(
                key@,
            ) && parsed_key(vstd::utf8::decode_utf8(key@)) is Some {
                old(self).cache().inserted(
                    parsed_key(vstd::utf8::decode_utf8(key@))->0,
                    entry@,
                )
            } else {
                old(self).cache()
            }),
    {
        if entry.node.same(&self.me) {
            return;
        }
        match read_utf8(key) {
            Some(text) => match RegistryKey::parse(text) {
                Some(parsed) => {
                    self.remote.insert(parsed, RemoteParticle::from(entry));
                },
                None => {},
            },
            None => {},
        }
    }

    /// The content of some entry became available. Its key is not known, but follows from it.
    pub fn content_ready(&mut self, entry: RegistryEntry)
        requires
            old(self).wf(),
        ensures
            final(self).wf(),
            final(self).node() == old(self).node(),
            final(self).cache() == (if entry.node == old(self).node() {
                old(self).cache()
            } else {
                let under_pid = old(self).cache().inserted(
                    KeyView::Pid(pid::key_text(entry.pid.node.bytes(), entry.pid.seq)),
                    entry@,
                );
                match entry.name {
                    Some(n) => under_pid.inserted(KeyView::Name(n@), entry@),
                    None => under_pid,
                }
            }),
    {
        if entry.node.same(&self.me) {
            return;
        }
        let pid_key = entry.pid.to_key();
        let name = match &entry.name {
            Some(n) => Some(n.clone()),
            None => None,
        };
        let remote = RemoteParticle::from(entry);
        self.remote.insert(RegistryKey::Pid(pid_key.as_str()), remote.clone());
        match name {
            Some(n) => {
                self.remote.insert(RegistryKey::Name(n.as_str()), remote);
            },
            None => {},
        }
    }

    /// Whether the number of cached entries fits a machine word.
    pub fn countable(&self) -> (r: bool)
        requires
            self.wf(),
        ensures
            r == (self.cache().size() <= usize::MAX),
    {
        self.remote.countable()
    }

    /// Evicts a peer's particles, and says how many entries went. The document is not touched:
    /// this says only that they cannot be reached from here.
    pub fn evict_node(&mut self, node: &NodeId) -> (r: usize)
        requires
            old(self).wf(),
            old(self).cache().size() <= usize::MAX,
        ensures
            final(self).wf(),
            final(self).node() == old(self).node(),
            final(self).cache() == old(self).cache().without_node(*node),
            r == old(self).cache().size() - final(self).cache().size(),
    {
        self.remote.remove_node(node)
    }

    /// Rebuilds the cache from the document's entries, and says how many entries it has. What
    /// was evicted comes back.
    pub fn reload_from_doc(&mut self, entries: Vec<DocEntry>) -> (r: usize)
        requires
            old(self).wf(),
        ensures
            final(self).wf(),
            final(self).node() == old(self).node(),
            final(self).cache() == rebuilt(old(self).node(), entries@),
            r == final(self).cache().size(),
    {
        let mut cache = RemoteCache::default();
        let ghost all = entries@;
        let mut rest = entries;
        let mut taken: usize = 0;
        let n: usize = rest.len();
        while taken < n
            invariant
                taken <= n,
                n == all.len(),
                rest@ == all.skip(taken as int),
                cache.wf(),
                self.remote.wf(),
                *self == *old(self),
                cache@ == rebuilt(self.me, all.take(taken as int)),
                cache@.foreign_to(self.me),
                cache@.names.dom().finite(),
                cache@.pids.dom().finite(),
                cache@.size() <= taken,
            decreases n - taken,
        {
            let entry = rest.remove(0);
            proof {
                assert(all.take(taken + 1).drop_last() =~= all.take(taken as int));
            }
            if entry.content_len != 0 {
                match entry.content {
                    Some(x) => {
                        if !x.node.same(&self.me) {
                            match read_utf8(entry.key.as_slice()) {
                                Some(text) => match RegistryKey::parse(text) {
                                    Some(parsed) => {
                                        cache.insert(parsed, RemoteParticle::from(x));
                                    },
                                    None => {},
                                },
                                None => {},
                            }
                        }
                    },
                    None => {},
                }
            }
            taken += 1;
        }
        assert(all.take(all.len() as int) =~= all);
        let count: usize = cache.len();
        self.remote = cache;
        count
    }

    /// What a name stands for: a particle here first, then one elsewhere.
    pub fn resolve_name(&self, local: &ParticleRegistry, name: &str) -> (r: Option<ResolvedParticle>)
        requires
            self.wf(),
            local.wf(),
        ensures
            opt_resolved(r) == resolved_name(local@, self.cache(), name@),
    {
        match local.get_by_name(name) {
            Some(p) => return Some(ResolvedParticle::Local(p)),
            None => {},
        }
        match self.remote.get_name(name) {
            Some(x) => Some(ResolvedParticle::Remote(x.clone())),
            None => None,
        }
    }

    /// What a pid stands for: a particle that runs here, or else what is known from elsewhere.
    pub fn resolve_pid(&self, local: &ParticleRegistry, pid: &Pid) -> (r: Option<ResolvedParticle>)
        requires
            self.wf(),
            local.wf(),
        ensures
            opt_resolved(r) == resolved_pid(self.node(), local@, self.cache(), *pid),
    {
        if pid.is_local_to(&self.me) && local.get_by_pid(pid).is_some() {
            return Some(ResolvedParticle::Local(*pid));
        }
        match self.remote.get_pid(pid) {
            Some(x) => Some(ResolvedParticle::Remote(x.clone())),
            None => None,
        }
    }

    /// What is to be written to the document for a new particle of this node.
    pub fn announce_spawn(
        &self,
        pid: &Pid,
        component: &str,
        name: Option<&str>,
        addr: iroh::EndpointAddr,
    ) -> (r: Announcement)
        ensures
            text::texts(r.keys@) == keys_of(*pid, registry::opt_str(name)),
            r.entry@ == (RemoteView {
                pid: *pid,
                component: component@,
                name: registry::opt_str(name),
                node: self.node(),
                addr,
            }),
    {
        let keys = self.announce_down(pid, name);
        Announcement {
            keys,
            entry: RegistryEntry {
                pid: *pid,
                name: opt_owned(name),
                component: component.to_owned(),
                node: self.me,
                addr,
            },
        }
    }

    /// The keys that are to be deleted from the document for a particle that is down. The name
    /// is the caller's to give: the registry has forgotten it by then.
    pub fn announce_down(&self, pid: &Pid, name: Option<&str>) -> (r: Vec<String>)
        ensures
            text::texts(r@) == keys_of(*pid, registry::opt_str(name)),
    {
        let mut keys: Vec<String> = Vec::new();
        let pid_key = pid.to_key();
        keys.push(RegistryKey::Pid(pid_key.as_str()).render());
        match name {
            Some(n) => {
                keys.push(RegistryKey::Name(n).render());
            },
            None => {},
        }
        keys
    }

    /// The keys that are to be deleted for every particle here, when the node stops.
    pub fn announce_all_down(&self, local: &ParticleRegistry) -> (r: Vec<(Pid, Vec<String>)>)
        requires
            local.wf(),
        ensures
            r@.len() == local@.entries.dom().len(),
            forall|p: Pid| #[trigger]
                local@.entries.contains_key(p) ==> exists|i: int|
                    0 <= i < r@.len() && is_down_of(#[trigger] r@[i], local@.entries[p]),
            forall|i: int| 0 <= i < r@.len() ==> is_some_down(local@, #[trigger] r@[i]),
    {
        let listed = local.list_particles();
        let mut r: Vec<(Pid, Vec<String>)> = Vec::new();
        let mut i: usize = 0;
        while i < listed.len()
            invariant
                i <= listed@.len(),
                r@.len() == i,
                forall|j: int|
                    0 <= j < i ==> (#[trigger] r@[j]).0 == listed@[j].0 && text::texts(
                        r@[j].1@,
                    ) == keys_of(listed@[j].0, registry::opt_text(listed@[j].2)),
            decreases listed@.len() - i,
        {
            let pid = listed[i].0;
            let keys = match &listed[i].2 {
                Some(n) => self.announce_down(&pid, Some(n.as_str())),
                None => self.announce_down(&pid, None),
            };
            r.push((pid, keys));
            i += 1;
        }
        proof {
            assert forall|p: Pid| #[trigger] local@.entries.contains_key(p) implies exists|i: int|
                0 <= i < r@.len() && is_down_of(#[trigger] r@[i], local@.entries[p]) by {
                let k = choose|k: int|
                    0 <= k < listed@.len() && registry::listed(local@.entries[p]) == (
                        (#[trigger] listed@[k]).0,
                        listed@[k].1@,
                        registry::opt_text(listed@[k].2),
                    );
                assert(is_down_of(r@[k], local@.entries[p]));
            }
        }
        r
    }
}

/// A pid and the keys to delete for it are those of a registry entry.
pub open spec fn is_down_of(x: (Pid, Vec<String>), e: registry::EntryView) -> bool {
    x.0 == e.pid && text::texts(x.1@) == keys_of(e.pid, e.name)
}

/// A pid and the keys to delete for it are those of some particle of a registry.
pub open spec fn is_some_down(m: registry::RegistryView, x: (Pid, Vec<String>)) -> bool {
    exists|p: Pid| #[trigger] m.entries.contains_key(p) && is_down_of(x, m.entries[p])
}

/// Writing a key and reading it gives the key back, whatever text it carries: a name with a
/// slash in it is not cut short.
pub proof fn law_keys_read_back(key: KeyView)
    ensures
        parsed_key(rendered(key)) == Some(key),
{
    reveal_strlit("pid/");
    reveal_strlit("name/");
    match key {
        KeyView::Pid(s) => {
            assert(rendered(key).take(4) =~= "pid/"@);
            assert(rendered(key).skip(4) =~= s);
        },
        KeyView::Name(s) => {
            assert(rendered(key).take(5) =~= "name/"@);
            assert(rendered(key).skip(5) =~= s);
            assert(rendered(key)[0] == 'n');
        },
    }
}

/// A text that is read as a key is what the key is written as.
pub proof fn law_keys_are_written_as_read(s: Seq<char>)
    requires
        parsed_key(s) is Some,
    ensures
        rendered(parsed_key(s)->0) == s,
{
    reveal_strlit("pid/");
}

/// A deletion evicts what its key stands for: a particle that was cached under its pid, or
/// under a name, is gone after the deletion of that key.
pub proof fn law_deletions_evict(c: CacheView, p: Pid, name: Seq<char>, remote: RemoteView)
    requires
        pid::is_public_key(p.node.bytes()),
    ensures
        ({
            let key = KeyView::Pid(pid::key_text(p.node.bytes(), p.seq));
            &&& c.inserted(key, remote).pids.contains_key(p)
            &&& c.inserted(key, remote).pids[p] == remote
            &&& !c.inserted(key, remote).removed(key).pids.contains_key(p)
        }),
        ({
            let key = KeyView::Name(name);
            &&& c.inserted(key, remote).names.contains_key(name)
            &&& c.inserted(key, remote).names[name] == remote
            &&& !c.inserted(key, remote).removed(key).names.contains_key(name)
        }),
{
    pid::lemma_node_bytes(p.node, p.node);
    pid::law_key_roundtrip(p.node.bytes(), p.seq);
    lemma_pid_of_key(pid::key_text(p.node.bytes(), p.seq), p);
}

/// What was announced can be retracted: the deletion of every key of a particle leaves nothing of
/// it in a cache that its announcement reached.
pub proof fn law_retraction_undoes_announcement(c: CacheView, remote: RemoteView)
    requires
        pid::is_public_key(remote.pid.node.bytes()),
    ensures
        ({
            let pid_key = KeyView::Pid(pid::key_text(remote.pid.node.bytes(), remote.pid.seq));
            match remote.name {
                Some(n) => {
                    let announced = c.inserted(pid_key, remote).inserted(KeyView::Name(n), remote);
                    let retracted = announced.removed(pid_key).removed(KeyView::Name(n));
                    &&& announced.pids.contains_key(remote.pid) && announced.names.contains_key(n)
                    &&& !retracted.pids.contains_key(remote.pid)
                    &&& !retracted.names.contains_key(n)
                },
                None => {
                    let announced = c.inserted(pid_key, remote);
                    &&& announced.pids.contains_key(remote.pid)
                    &&& !announced.removed(pid_key).pids.contains_key(remote.pid)
                },
            }
        }),
{
    pid::lemma_node_bytes(remote.pid.node, remote.pid.node);
    pid::law_key_roundtrip(remote.pid.node.bytes(), remote.pid.seq);
    lemma_pid_of_key(pid::key_text(remote.pid.node.bytes(), remote.pid.seq), remote.pid);
}

/// The bytes of a key are read as that key, and an empty entry under them is its deletion.
pub proof fn law_key_bytes_read_back(key: KeyView)
    ensures
        vstd::utf8::valid_utf8(vstd::utf8::encode_utf8(rendered(key))),
        parsed_key(vstd::utf8::decode_utf8(vstd::utf8::encode_utf8(rendered(key)))) == Some(key),
        insert_step(vstd::utf8::encode_utf8(rendered(key)), 0) is Evicted,
{
    law_keys_read_back(key);
    vstd::utf8::encode_utf8_valid_utf8(rendered(key));
    vstd::utf8::encode_utf8_decode_utf8(rendered(key));
}

/// A pid key that cannot be read changes nothing.
pub proof fn law_unreadable_keys_are_ignored(c: CacheView, s: Seq<char>, remote: RemoteView)
    requires
        pid::key_parts(s) is Err,
    ensures
        c.removed(KeyView::Pid(s)) == c,
        c.inserted(KeyView::Pid(s), remote) == c,
{
}

/// Losing a peer evicts all of its entries, and nobody else's.
pub proof fn law_losing_a_peer_evicts_only_its_entries(c: CacheView, node: NodeId)
    ensures
        forall|p: Pid| #[trigger]
            c.without_node(node).pids.contains_key(p) <==> c.pids.contains_key(p)
                && c.pids[p].node != node,
        forall|n: Seq<char>| #[trigger]
            c.without_node(node).names.contains_key(n) <==> c.names.contains_key(n)
                && c.names[n].node != node,
        forall|p: Pid| #[trigger]
            c.without_node(node).pids.contains_key(p) ==> c.without_node(node).pids[p]
                == c.pids[p],
        forall|n: Seq<char>| #[trigger]
            c.without_node(node).names.contains_key(n) ==> c.without_node(node).names[n]
                == c.names[n],
{
}

/// A rebuilt cache never holds a node's own particles.
pub proof fn law_a_node_does_not_cache_itself(me: NodeId, entries: Seq<DocEntry>)
    ensures
        rebuilt(me, entries).foreign_to(me),
    decreases entries.len(),
{
    if entries.len() > 0 {
        law_a_node_does_not_cache_itself(me, entries.drop_last());
    }
}

/// Two keys of the document stand for the same: the same name, or the same particle, however its
/// pid is written.
pub open spec fn same_place(a: Option<KeyView>, b: Option<KeyView>) -> bool {
    match (a, b) {
        (Some(KeyView::Name(m)), Some(KeyView::Name(n))) => m == n,
        (Some(KeyView::Pid(s)), Some(KeyView::Pid(t))) => pid_of_key(s) is Some && pid_of_key(s)
            == pid_of_key(t),
        _ => false,
    }
}

/// What the key of an entry stands for.
pub open spec fn place_of(e: DocEntry) -> Option<KeyView> {
    parsed_key(vstd::utf8::decode_utf8(e.key@))
}

/// A particle that the document still tells of comes back when the cache is rebuilt, whatever was
/// evicted before: an entry that can be read, from another node and under a key that stands for
/// what no later entry's does, is in the cache as the document has it.
pub proof fn law_documented_particles_come_back(me: NodeId, entries: Seq<DocEntry>, i: int)
    requires
        0 <= i < entries.len(),
        insert_step(entries[i].key@, entries[i].content_len) is Fetch,
        entries[i].content is Some,
        entries[i].content->0.node != me,
        forall|j: int|
            i < j < entries.len() ==> !same_place(
                place_of(#[trigger] entries[j]),
                place_of(entries[i]),
            ),
    ensures
        match place_of(entries[i])->0 {
            KeyView::Name(n) => rebuilt(me, entries).names.contains_key(n) && rebuilt(
                me,
                entries,
            ).names[n] == entries[i].content->0@,
            KeyView::Pid(s) => pid_of_key(s) matches Some(p) ==> rebuilt(
                me,
                entries,
            ).pids.contains_key(p) && rebuilt(me, entries).pids[p] == entries[i].content->0@,
        },
    decreases entries.len(),
{
    if i < entries.len() - 1 {
        law_documented_particles_come_back(me, entries.drop_last(), i);
        assert(!same_place(place_of(entries.last()), place_of(entries[i])));
    }
}

} // verus!
