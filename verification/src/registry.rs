//! The local particle registry: components, running particles, their links and monitors.

use crate::assoc;
use crate::assoc::{AssocMap, Held, Key};
use crate::mailbox;
use crate::mailbox::{Mailbox, MailboxMessage, MailboxView, Received, SpawnFailure};
use crate::message::{ExitReason, SystemMessage};
use crate::particle::{ParticleState, ParticleView};
use crate::pid;
use crate::pid::{NodeId, Pid, PidGenerator};
use crate::policy::PolicySet;
use vstd::prelude::*;
use vstd::string::*;

verus! {

/// A component that particles can be spawned from.
pub struct ComponentTemplate {
    pub default_capabilities: PolicySet,
}

impl View for ComponentTemplate {
    type V = Set<Seq<char>>;

    open spec fn view(&self) -> Set<Seq<char>> {
        self.default_capabilities@
    }
}

impl Held for ComponentTemplate {
    open spec fn valid(&self) -> bool {
        self.default_capabilities.valid()
    }
}

/// A running particle: what it runs and under which name it was spawned.
pub struct ParticleEntry {
    pub pid: Pid,
    pub capabilities: PolicySet,
    pub component_name: String,
    pub name: Option<String>,
}

/// What a particle entry says.
#[verifier::ext_equal]
pub struct EntryView {
    pub pid: Pid,
    pub capabilities: Set<Seq<char>>,
    pub component_name: Seq<char>,
    pub name: Option<Seq<char>>,
}

/// The text in an optional string.
pub open spec fn opt_text(s: Option<String>) -> Option<Seq<char>> {
    match s {
        Some(t) => Some(t@),
        None => None,
    }
}

impl View for ParticleEntry {
    type V = EntryView;

    open spec fn view(&self) -> EntryView {
        EntryView {
            pid: self.pid,
            capabilities: self.capabilities@,
            component_name: self.component_name@,
            name: opt_text(self.name),
        }
    }
}

impl Held for ParticleEntry {
    open spec fn valid(&self) -> bool {
        self.capabilities.valid()
    }
}

/// Published when a particle dies, so that observers can react after the fact.
///
/// The registered name rides along because it is gone from the registry by then.
pub struct ParticleDeath {
    pub pid: Pid,
    pub name: Option<String>,
    pub reason: ExitReason,
    /// Particles of other nodes that were linked to the dead one.
    pub remote_links: Vec<Pid>,
    /// Watchers on other nodes, each with the reference it waits for.
    pub remote_monitors: Vec<(Pid, u64)>,
}

/// What a published death says.
#[verifier::ext_equal]
pub struct DeathView {
    pub pid: Pid,
    pub name: Option<Seq<char>>,
    pub reason: ExitReason,
    pub remote_links: Seq<Pid>,
    pub remote_monitors: Seq<(Pid, u64)>,
}

impl View for ParticleDeath {
    type V = DeathView;

    open spec fn view(&self) -> DeathView {
        DeathView {
            pid: self.pid,
            name: opt_text(self.name),
            reason: self.reason,
            remote_links: self.remote_links@,
            remote_monitors: self.remote_monitors@,
        }
    }
}

/// The deaths of a list.
pub open spec fn deaths_view(deaths: Seq<ParticleDeath>) -> Seq<DeathView> {
    deaths.map_values(|d: ParticleDeath| d@)
}

/// Why a registry operation was refused.
#[derive(Clone, Copy, PartialEq, Eq, Debug)]
pub enum RegistryError {
    /// The name is taken.
    NameTaken,
    /// There is no component of that name.
    UnknownComponent,
    /// There is no such particle.
    NoParticle(Pid),
    /// The name belongs to another particle.
    NotOwner,
    /// Nothing has that name.
    UnknownName,
}

/// Why a user message was not delivered.
#[derive(Clone, Copy, PartialEq, Eq, Structural, Debug)]
pub enum SendError {
    NoParticle,
}

/// What a registry holds.
#[verifier::ext_equal]
pub struct RegistryView {
    pub node: NodeId,
    /// The sequence number of the next pid.
    pub next_seq: u64,
    /// The next monitor reference.
    pub next_ref: u64,
    /// The running particles, by pid.
    pub states: Map<Pid, ParticleView>,
    /// The mailboxes, by pid. That of a dead particle stays, closed, until it is discarded.
    pub mailboxes: Map<Pid, MailboxView>,
    pub entries: Map<Pid, EntryView>,
    pub names: Map<Seq<char>, Pid>,
    /// The components, by name, with their default capabilities.
    pub components: Map<Seq<char>, Set<Seq<char>>>,
    /// The deaths that were published and not yet taken.
    pub deaths: Seq<DeathView>,
}

impl RegistryView {
    /// A registry in which nothing runs.
    pub open spec fn fresh(node: NodeId, next_seq: u64) -> RegistryView {
        RegistryView {
            node,
            next_seq,
            next_ref: 1,
            states: Map::empty(),
            mailboxes: Map::empty(),
            entries: Map::empty(),
            names: Map::empty(),
            components: Map::empty(),
            deaths: Seq::empty(),
        }
    }

    /// The running particles are finitely many, and each has an open mailbox without a bound.
    pub open spec fn sound(self) -> bool {
        &&& self.states.dom().finite()
        &&& forall|p: Pid| #[trigger]
            self.states.contains_key(p) ==> self.mailboxes.contains_key(p)
                && !self.mailboxes[p].closed && self.mailboxes[p].capacity is None
    }

    /// With the ties of a running particle changed.
    pub open spec fn with_state(self, p: Pid, s: ParticleView) -> RegistryView {
        RegistryView { states: self.states.insert(p, s), ..self }
    }

    /// With a mailbox changed.
    pub open spec fn with_mailbox(self, p: Pid, m: MailboxView) -> RegistryView {
        RegistryView { mailboxes: self.mailboxes.insert(p, m), ..self }
    }

    /// After one side of a link is recorded.
    pub open spec fn half_linked(self, p: Pid, q: Pid) -> RegistryView {
        if self.states.contains_key(p) {
            self.with_state(p, self.states[p].linked(q))
        } else {
            self
        }
    }

    /// After one side of a link is erased.
    pub open spec fn half_unlinked(self, p: Pid, q: Pid) -> RegistryView {
        if self.states.contains_key(p) {
            self.with_state(p, self.states[p].unlinked(q))
        } else {
            self
        }
    }

    /// After a watcher has noted whom it monitors.
    pub open spec fn monitoring(self, w: Pid, t: Pid, r: u64) -> RegistryView {
        if self.states.contains_key(w) {
            self.with_state(w, self.states[w].monitoring(r, t))
        } else {
            self
        }
    }

    /// After a particle has noted who monitors it.
    pub open spec fn watched(self, t: Pid, w: Pid, r: u64) -> RegistryView {
        if self.states.contains_key(t) {
            self.with_state(t, self.states[t].watched(w, r))
        } else {
            self
        }
    }

    /// After a system message is put at the front of a running particle's mailbox.
    pub open spec fn told(self, p: Pid, msg: SystemMessage) -> RegistryView {
        if self.states.contains_key(p) {
            self.with_mailbox(p, self.mailboxes[p].with_front(mailbox::queued(msg)))
        } else {
            self
        }
    }

    /// After a user message is put at the back of a running particle's mailbox.
    pub open spec fn sent(self, p: Pid, msg: MailboxMessage) -> RegistryView {
        if self.states.contains_key(p) {
            self.with_mailbox(p, self.mailboxes[p].with_back(msg))
        } else {
            self
        }
    }

    /// The pid that the next particle gets.
    pub open spec fn next_pid(self) -> Pid {
        Pid { node: self.node, seq: self.next_seq }
    }

    /// After the next pid was handed out.
    pub open spec fn pid_taken(self) -> RegistryView {
        RegistryView { next_seq: pid::next_counter(self.next_seq), ..self }
    }

    /// After a particle without a component was started.
    pub open spec fn started(self) -> RegistryView {
        self.pid_taken().with_state(self.next_pid(), ParticleView::fresh()).with_mailbox(
            self.next_pid(),
            MailboxView::fresh(None),
        )
    }

    /// What spawning is refused for.
    pub open spec fn spawn_refusal(self, component: Seq<char>, name: Option<Seq<char>>) -> Option<
        RegistryError,
    > {
        if name matches Some(n) && self.names.contains_key(n) {
            Some(RegistryError::NameTaken)
        } else if !self.components.contains_key(component) {
            Some(RegistryError::UnknownComponent)
        } else {
            None
        }
    }

    /// After a particle was spawned.
    pub open spec fn spawned(
        self,
        component: Seq<char>,
        name: Option<Seq<char>>,
        capabilities: Option<Set<Seq<char>>>,
    ) -> RegistryView {
        let entry = EntryView {
            pid: self.next_pid(),
            capabilities: match capabilities {
                Some(c) => c,
                None => self.components[component],
            },
            component_name: component,
            name,
        };
        RegistryView {
            entries: self.entries.insert(self.next_pid(), entry),
            names: match name {
                Some(n) => self.names.insert(n, self.next_pid()),
                None => self.names,
            },
            ..self.started()
        }
    }
}

/// Ties of the peers of a dead particle: each has forgotten its link to it.
pub open spec fn unlinked_from(
    states: Map<Pid, ParticleView>,
    peers: Seq<Pid>,
    pid: Pid,
) -> Map<Pid, ParticleView> {
    Map::new(
        |q: Pid| states.contains_key(q),
        |q: Pid|
            if peers.contains(q) {
                states[q].unlinked(pid)
            } else {
                states[q]
            },
    )
}

/// Ties of the watchers of a dead particle: each has forgotten that it monitored it.
pub open spec fn released_watchers(
    states: Map<Pid, ParticleView>,
    watch: Seq<(Pid, u64)>,
) -> Map<Pid, ParticleView> {
    Map::new(
        |q: Pid| states.contains_key(q),
        |q: Pid|
            ParticleView {
                monitors: states[q].monitors.remove_keys(
                    Set::new(|r: u64| watch.contains((q, r))),
                ),
                ..states[q]
            },
    )
}

/// Mailboxes after the peers that trap exits were sent one.
pub open spec fn exits_told(
    states: Map<Pid, ParticleView>,
    mailboxes: Map<Pid, MailboxView>,
    peers: Seq<Pid>,
    pid: Pid,
    reason: ExitReason,
) -> Map<Pid, MailboxView> {
    Map::new(
        |q: Pid| mailboxes.contains_key(q),
        |q: Pid|
            if peers.contains(q) && states.contains_key(q) && states[q].trap_exit {
                mailboxes[q].with_front(MailboxMessage::Exit { from: pid, reason })
            } else {
                mailboxes[q]
            },
    )
}

/// Mailboxes after the watchers were sent the end of their monitors, one after the other.
pub open spec fn downs_told(
    states: Map<Pid, ParticleView>,
    mailboxes: Map<Pid, MailboxView>,
    watch: Seq<(Pid, u64)>,
    pid: Pid,
    reason: ExitReason,
) -> Map<Pid, MailboxView>
    decreases watch.len(),
{
    if watch.len() == 0 {
        mailboxes
    } else {
        let before = downs_told(states, mailboxes, watch.drop_last(), pid, reason);
        let w = watch.last().0;
        if states.contains_key(w) {
            before.insert(
                w,
                before[w].with_front(
                    MailboxMessage::Down { from: pid, ref_id: watch.last().1, reason },
                ),
            )
        } else {
            before
        }
    }
}

/// The name that a particle was spawned under.
pub open spec fn spawn_name(m: RegistryView, pid: Pid) -> Option<Seq<char>> {
    if m.entries.contains_key(pid) {
        m.entries[pid].name
    } else {
        None
    }
}

/// The names that do not belong to a particle.
pub open spec fn without_owner(names: Map<Seq<char>, Pid>, pid: Pid) -> Map<Seq<char>, Pid> {
    names.restrict(Set::new(|n: Seq<char>| names.contains_key(n) && names[n] != pid))
}

/// What is published of a death.
pub open spec fn death_of(m: RegistryView, pid: Pid, reason: ExitReason) -> DeathView {
    DeathView {
        pid,
        name: spawn_name(m, pid),
        reason,
        remote_links: m.states[pid].links.filter(|p: Pid| p.node != m.node),
        remote_monitors: m.states[pid].monitored_by.filter(|x: (Pid, u64)| x.0.node != m.node),
    }
}

/// After one particle has died: it is gone with its entry and its names, its mailbox is closed,
/// the death is published, its peers and watchers are free of it and those that are to hear of
/// it have a message.
pub open spec fn died(m: RegistryView, pid: Pid, reason: ExitReason) -> RegistryView {
    let gone = m.states[pid];
    let others = m.states.remove(pid);
    let closed = m.mailboxes.insert(pid, m.mailboxes[pid].shut());
    RegistryView {
        states: released_watchers(unlinked_from(others, gone.links, pid), gone.monitored_by),
        mailboxes: downs_told(
            others,
            exits_told(others, closed, gone.links, pid, reason),
            gone.monitored_by,
            pid,
            reason,
        ),
        entries: m.entries.remove(pid),
        names: without_owner(m.names, pid),
        deaths: m.deaths.push(death_of(m, pid, reason)),
        ..m
    }
}

/// Whether the death of a peer takes a particle with it.
pub open spec fn drags_along(states: Map<Pid, ParticleView>, q: Pid, reason: ExitReason) -> bool {
    states.contains_key(q) && !states[q].trap_exit && reason !is Normal
}

/// The peers that a death takes along, in the order in which they were linked.
pub open spec fn heirs(m: RegistryView, pid: Pid, reason: ExitReason) -> Seq<Pid> {
    m.states[pid].links.filter(|q: Pid| drags_along(m.states.remove(pid), q, reason))
}

/// After every particle of a list has exited, and every particle that their deaths take along.
pub open spec fn exited(m: RegistryView, work: Seq<Pid>, reason: ExitReason) -> RegistryView
    decreases m.states.dom().len(), work.len(),
    when m.states.dom().finite()
    via exited_decreases
{
    if work.len() == 0 {
        m
    } else {
        let p = work[0];
        if m.states.contains_key(p) {
            exited(died(m, p, reason), heirs(m, p, reason) + work.skip(1), reason)
        } else {
            exited(m, work.skip(1), reason)
        }
    }
}

#[via_fn]
proof fn exited_decreases(m: RegistryView, work: Seq<Pid>, reason: ExitReason) {
    if work.len() > 0 && m.states.contains_key(work[0]) {
        lemma_died_states(m, work[0], reason);
    }
}

/// A death takes one particle out of those that run.
pub proof fn lemma_died_states(m: RegistryView, pid: Pid, reason: ExitReason)
    requires
        m.states.dom().finite(),
        m.states.contains_key(pid),
    ensures
        died(m, pid, reason).states.dom() == m.states.dom().remove(pid),
        died(m, pid, reason).states.dom().finite(),
        died(m, pid, reason).states.dom().len() == m.states.dom().len() - 1,
{
}

/// Manages components and running particles.
pub struct ParticleRegistry {
    pid_gen: PidGenerator,
    particles: AssocMap<Pid, ParticleEntry>,
    names: AssocMap<String, Pid>,
    components: AssocMap<String, ComponentTemplate>,
    particle_states: AssocMap<Pid, ParticleState>,
    mailboxes: AssocMap<Pid, Mailbox>,
    next_ref: u64,
    deaths: Vec<ParticleDeath>,
}

impl View for ParticleRegistry {
    type V = RegistryView;

    closed spec fn view(&self) -> RegistryView {
        RegistryView {
            node: self.pid_gen.owner(),
            next_seq: self.pid_gen.upcoming(),
            next_ref: self.next_ref,
            states: self.particle_states@,
            mailboxes: self.mailboxes@,
            entries: self.particles@,
            names: self.names@,
            components: self.components@,
            deaths: deaths_view(self.deaths@),
        }
    }
}

impl ParticleRegistry {
    /// The tables are in order, and every running particle can be reached.
    pub closed spec fn wf(&self) -> bool {
        &&& self.particles.wf()
        &&& self.names.wf()
        &&& self.components.wf()
        &&& self.particle_states.wf()
        &&& self.mailboxes.wf()
        &&& self@.sound()
    }

    /// What `wf` says of the contents.
    pub proof fn lemma_wf(&self)
        requires
            self.wf(),
        ensures
            self@.sound(),
    {
    }

    pub fn new(pid_gen: PidGenerator) -> (r: Self)
        ensures
            r.wf(),
            r@ == RegistryView::fresh(pid_gen.owner(), pid_gen.upcoming()),
    {
        let r = ParticleRegistry {
            pid_gen,
            particles: AssocMap::new(),
            names: AssocMap::new(),
            components: AssocMap::new(),
            particle_states: AssocMap::new(),
            mailboxes: AssocMap::new(),
            next_ref: 1,
            deaths: Vec::new(),
        };
        r
    }

    /// Closes the mailbox of a particle and takes it out of every table.
    ///
    /// Hands back its ties.
    fn bury(&mut self, pid: &Pid, reason: &ExitReason) -> (gone: ParticleState)
        requires
            old(self).wf(),
            old(self)@.states.contains_key(*pid),
        ensures
            final(self).wf(),
            gone.valid(),
            gone@ == old(self)@.states[*pid],
            final(self)@ == (RegistryView {
                states: old(self)@.states.remove(*pid),
                mailboxes: old(self)@.mailboxes.insert(
                    *pid,
                    old(self)@.mailboxes[*pid].shut(),
                ),
                entries: old(self)@.entries.remove(*pid),
                names: without_owner(old(self)@.names, *pid),
                deaths: old(self)@.deaths.push(death_of(old(self)@, *pid, *reason)),
                ..old(self)@
            }),
    {
        let state = match self.particle_states.remove(pid) {
            Some(state) => state,
            None => ParticleState::fresh(),
        };
        match self.mailboxes.get_mut(pid) {
            Some(mailbox) => {
                mailbox.close();
            },
            None => {},
        }
        let name = match self.particles.remove(pid) {
            Some(entry) => entry.name,
            None => None,
        };
        forget_names_of(&mut self.names, pid);
        let me = self.pid_gen.node();
        let remote_links = remote_pids(state.links(), &me);
        let remote_monitors = remote_watchers(state.monitored_by(), &me);
        let ghost before = self.deaths@;
        self.deaths.push(
            ParticleDeath { pid: *pid, name, reason: reason.clone(), remote_links, remote_monitors },
        );
        proof {
            assert(deaths_view(self.deaths@) =~= deaths_view(before).push(
                death_of(old(self)@, *pid, *reason),
            ));
        }
        state
    }
}

impl ParticleRegistry {
    /// Takes a link out of a running particle; tells whether the particle traps exits.
    fn drop_half_link(&mut self, p: &Pid, q: &Pid) -> (trapping: Option<bool>)
        requires
            old(self).wf(),
        ensures
            final(self).wf(),
            final(self)@ == old(self)@.half_unlinked(*p, *q),
            trapping == (if old(self)@.states.contains_key(*p) {
                Some(old(self)@.states[*p].trap_exit)
            } else {
                None
            }),
    {
        let r = match self.particle_states.get_mut(p) {
            Some(state) => {
                state.drop_link(q);
                Some(state.trap_exit())
            },
            None => None,
        };
        r
    }

    /// Makes a running particle forget a monitor.
    fn drop_monitor(&mut self, w: &Pid, monitor_ref: u64)
        requires
            old(self).wf(),
        ensures
            final(self).wf(),
            final(self)@ == (if old(self)@.states.contains_key(*w) {
                old(self)@.with_state(*w, old(self)@.states[*w].not_monitoring(monitor_ref))
            } else {
                old(self)@
            }),
    {
        match self.particle_states.get_mut(w) {
            Some(state) => {
                state.drop_monitor(monitor_ref);
            },
            None => {},
        }
    }

    /// Puts a system message at the front of a running particle's mailbox.
    fn tell(&mut self, p: &Pid, msg: SystemMessage) -> (r: bool)
        requires
            old(self).wf(),
        ensures
            final(self).wf(),
            final(self)@ == old(self)@.told(*p, msg),
            r == old(self)@.states.contains_key(*p),
    {
        if self.particle_states.contains_key(p) {
            match self.mailboxes.get_mut(p) {
                Some(mailbox) => {
                    mailbox.push_system(msg);
                },
                None => {},
            }
            true
        } else {
            false
        }
    }

    /// Lets one particle die; hands back the peers that its death takes along.
    fn die(&mut self, pid: &Pid, reason: &ExitReason) -> (cascade: Vec<Pid>)
        requires
            old(self).wf(),
            old(self)@.states.contains_key(*pid),
        ensures
            final(self).wf(),
            final(self)@ == died(old(self)@, *pid, *reason),
            cascade@ == heirs(old(self)@, *pid, *reason),
    {
        let gone = self.bury(pid, reason);
        let ghost buried = self@;
        let ghost others = buried.states;
        let links = gone.links();
        let ghost heir = |q: Pid| drags_along(others, q, *reason);
        let mut cascade: Vec<Pid> = Vec::new();
        let mut trapping: Vec<Pid> = Vec::new();
        let abnormal = reason.is_abnormal();
        let mut i: usize = 0;
        proof {
            reveal(Seq::filter);
        }
        while i < links.len()
            invariant
                i <= links@.len(),
                links@.no_duplicates(),
                self.wf(),
                others == buried.states,
                heir == (|q: Pid| drags_along(others, q, *reason)),
                abnormal == (*reason !is Normal),
                self@ == (RegistryView {
                    states: unlinked_from(others, links@.take(i as int), *pid),
                    ..buried
                }),
                cascade@ == links@.take(i as int).filter(heir),
                trapping@.no_duplicates(),
                forall|q: Pid| #[trigger]
                    trapping@.contains(q) <==> links@.take(i as int).contains(q)
                        && others.contains_key(q) && others[q].trap_exit,
            decreases links@.len() - i,
        {
            let peer = links[i];
            let ghost so_far = links@.take(i as int);
            let ghost further = links@.take(i + 1);
            let ghost trapping0 = trapping@;
            proof {
                assert(further =~= so_far.push(peer));
                assert(further.drop_last() =~= so_far);
                reveal(Seq::filter);
                lemma_push_contains(so_far, peer);
            }
            match self.drop_half_link(&peer, pid) {
                Some(true) => {
                    trapping.push(peer);
                    proof {
                        assert(!trapping0.contains(peer));
                        lemma_push_contains(trapping0, peer);
                    }
                },
                Some(false) => {
                    if abnormal {
                        cascade.push(peer);
                    }
                },
                None => {},
            }
            i += 1;
        }
        assert(links@.take(links@.len() as int) =~= links@);

        let ghost unlinked = self@;
        let mut j: usize = 0;
        while j < trapping.len()
            invariant
                j <= trapping@.len(),
                trapping@.no_duplicates(),
                self.wf(),
                unlinked.states.dom() == others.dom(),
                forall|q: Pid| #[trigger]
                    trapping@.contains(q) ==> others.contains_key(q) && others[q].trap_exit,
                unlinked.mailboxes == buried.mailboxes,
                self@ == (RegistryView {
                    mailboxes: exits_told(
                        others,
                        buried.mailboxes,
                        trapping@.take(j as int),
                        *pid,
                        *reason,
                    ),
                    ..unlinked
                }),
            decreases trapping@.len() - j,
        {
            let peer = trapping[j];
            let ghost so_far = trapping@.take(j as int);
            proof {
                assert(trapping@.contains(peer));
                assert(trapping@.take(j + 1) =~= so_far.push(peer));
                lemma_push_contains(so_far, peer);
            }
            self.tell(&peer, SystemMessage::Exit { from: *pid, reason: reason.clone() });
            j += 1;
        }
        proof {
            assert(trapping@.take(trapping@.len() as int) =~= trapping@);
            assert(exits_told(others, buried.mailboxes, trapping@, *pid, *reason) =~= exits_told(
                others,
                buried.mailboxes,
                links@,
                *pid,
                *reason,
            ));
        }

        let ghost warned = self@;
        let watch = gone.monitored_by();
        let mut k: usize = 0;
        proof {
            assert(watch@.take(0) =~= Seq::<(Pid, u64)>::empty());
            lemma_no_watchers(warned.states);
        }
        while k < watch.len()
            invariant
                k <= watch@.len(),
                self.wf(),
                warned.states.dom() == others.dom(),
                self@ == (RegistryView {
                    states: released_watchers(warned.states, watch@.take(k as int)),
                    mailboxes: downs_told(
                        others,
                        warned.mailboxes,
                        watch@.take(k as int),
                        *pid,
                        *reason,
                    ),
                    ..warned
                }),
            decreases watch@.len() - k,
        {
            let (watcher, monitor_ref) = watch[k];
            proof {
                assert(watch@.take(k + 1) =~= watch@.take(k as int).push((watcher, monitor_ref)));
                assert(watch@.take(k + 1).drop_last() =~= watch@.take(k as int));
                lemma_released_step(warned.states, watch@.take(k as int), watcher, monitor_ref);
            }
            self.drop_monitor(&watcher, monitor_ref);
            self.tell(
                &watcher,
                SystemMessage::Down { from: *pid, monitor_ref, reason: reason.clone() },
            );
            k += 1;
        }
        assert(watch@.take(watch@.len() as int) =~= watch@);
        cascade
    }

    /// Exits a particle. Its death takes along the particles linked to it that do not trap
    /// exits, and theirs, unless the reason is normal.
    pub fn exit_particle(&mut self, pid: &Pid, reason: ExitReason)
        requires
            old(self).wf(),
        ensures
            final(self).wf(),
            final(self)@ == exited(old(self)@, seq![*pid], reason),
    {
        let mut work: Vec<Pid> = Vec::new();
        work.push(*pid);
        // The next particle stands last in `work`.
        assert(work@.reverse() =~= seq![*pid]);
        while work.len() > 0
            invariant
                self.wf(),
                exited(self@, work@.reverse(), reason) == exited(old(self)@, seq![*pid], reason),
            decreases self@.states.dom().len(), work@.len(),
        {
            proof {
                self.lemma_wf();
            }
            let ghost before = work@.reverse();
            let ghost now = self@;
            match work.pop() {
                Some(next) => {
                    assert(work@.reverse() =~= before.skip(1));
                    if self.particle_states.contains_key(&next) {
                        proof {
                            lemma_died_states(now, next, reason);
                        }
                        let ghost rest = work@;
                        let mut cascade = self.die(&next, &reason);
                        let ghost fallen = cascade@;
                        let mut n: usize = cascade.len();
                        while n > 0
                            invariant
                                n == cascade@.len(),
                                n <= fallen.len(),
                                cascade@ == fallen.take(n as int),
                                work@ == rest + fallen.skip(n as int).reverse(),
                            decreases n,
                        {
                            match cascade.pop() {
                                Some(q) => {
                                    work.push(q);
                                },
                                None => {},
                            }
                            n -= 1;
                        }
                        proof {
                            assert(work@.reverse() =~= fallen + before.skip(1));
                        }
                    }
                },
                None => {},
            }
        }
    }
}

/// Takes every name of a particle out.
fn forget_names_of(names: &mut AssocMap<String, Pid>, pid: &Pid)
    requires
        old(names).wf(),
    ensures
        final(names).wf(),
        final(names)@ == without_owner(old(names)@, *pid),
{
    let ghost items = names.items();
    let mut owned: Vec<String> = Vec::new();
    let mut i: usize = 0;
    while i < names.len()
        invariant
            i <= items.len(),
            items == names.items(),
            *names == *old(names),
            names.wf(),
            forall|j: int|
                0 <= j < owned@.len() ==> names@.contains_key((#[trigger] owned@[j])@)
                    && names@[owned@[j]@] == *pid,
            forall|j: int|
                0 <= j < i && (#[trigger] items[j]).1 == *pid ==> exists|k: int|
                    0 <= k < owned@.len() && (#[trigger] owned@[k])@ == items[j].0@,
        decreases items.len() - i,
    {
        if names.value_at(i).same(pid) {
            let ghost before = owned@;
            owned.push(names.key_at(i).clone());
            proof {
                assoc::lemma_entry(items, i as int);
                assert(owned@[before.len() as int]@ == items[i as int].0@);
                assert forall|j: int|
                    0 <= j < i + 1 && (#[trigger] items[j]).1 == *pid implies exists|k: int|
                    0 <= k < owned@.len() && (#[trigger] owned@[k])@ == items[j].0@ by {
                    if j < i {
                        let k = choose|k: int|
                            0 <= k < before.len() && (#[trigger] before[k])@ == items[j].0@;
                        assert(owned@[k] == before[k]);
                    }
                }
            }
        }
        i += 1;
    }
    let ghost start = names@;
    let mut d: usize = 0;
    while d < owned.len()
        invariant
            d <= owned@.len(),
            names.wf(),
            forall|n: Seq<char>| #[trigger]
                names@.contains_key(n) <==> start.contains_key(n) && !(exists|k: int|
                    0 <= k < d && (#[trigger] owned@[k])@ == n),
            forall|n: Seq<char>| #[trigger] names@.contains_key(n) ==> names@[n] == start[n],
        decreases owned@.len() - d,
    {
        names.remove(&owned[d]);
        d += 1;
    }
}

/// What a filtered sequence contains.
pub proof fn lemma_filter_contains<A>(s: Seq<A>, keep: spec_fn(A) -> bool)
    ensures
        forall|x: A| #[trigger] s.filter(keep).contains(x) <==> s.contains(x) && keep(x),
{
    assert forall|x: A| #[trigger] s.filter(keep).contains(x) <==> s.contains(x) && keep(x) by {
        broadcast use vstd::seq_lib::group_filter_ensures;

        if s.filter(keep).contains(x) {
            s.lemma_filter_contains_rev(keep, x);
        }
        if s.contains(x) && keep(x) {
            let i = choose|i: int| 0 <= i < s.len() && s[i] == x;
            s.lemma_filter_contains(keep, i);
        }
    }
}

/// What a longer sequence contains.
pub proof fn lemma_push_contains<A>(s: Seq<A>, x: A)
    ensures
        forall|y: A| #[trigger] s.push(x).contains(y) <==> s.contains(y) || y == x,
{
    assert forall|y: A| #[trigger] s.push(x).contains(y) <==> s.contains(y) || y == x by {
        if s.contains(y) {
            let i = choose|i: int| 0 <= i < s.len() && s[i] == y;
            assert(s.push(x)[i] == y);
        }
        if y == x {
            assert(s.push(x)[s.len() as int] == y);
        }
        if s.push(x).contains(y) && y != x {
            let i = choose|i: int| 0 <= i < s.push(x).len() && s.push(x)[i] == y;
        }
    }
}

/// Nobody was watching.
proof fn lemma_no_watchers(states: Map<Pid, ParticleView>)
    ensures
        released_watchers(states, Seq::empty()) == states,
{
    let none = Seq::<(Pid, u64)>::empty();
    assert forall|q: Pid| states.contains_key(q) implies #[trigger] released_watchers(
        states,
        none,
    )[q] == states[q] by {}
}

/// Releasing one more watcher.
proof fn lemma_released_step(
    states: Map<Pid, ParticleView>,
    watch: Seq<(Pid, u64)>,
    w: Pid,
    r: u64,
)
    ensures
        released_watchers(states, watch.push((w, r))) == (if states.contains_key(w) {
            released_watchers(states, watch).insert(
                w,
                released_watchers(states, watch)[w].not_monitoring(r),
            )
        } else {
            released_watchers(states, watch)
        }),
        released_watchers(states, watch).contains_key(w) == states.contains_key(w),
{
    lemma_push_contains(watch, (w, r));
    let before = released_watchers(states, watch);
    let after = released_watchers(states, watch.push((w, r)));
    let wanted = if states.contains_key(w) {
        before.insert(w, before[w].not_monitoring(r))
    } else {
        before
    };
    assert forall|q: Pid| states.contains_key(q) implies #[trigger] after[q] == wanted[q] by {}
}

/// The pids of a list that belong to another node.
fn remote_pids(pids: &Vec<Pid>, me: &NodeId) -> (r: Vec<Pid>)
    ensures
        r@ == pids@.filter(|p: Pid| p.node != *me),
{
    let mut r: Vec<Pid> = Vec::new();
    let mut i: usize = 0;
    let ghost away = |p: Pid| p.node != *me;
    assert(pids@.take(0).filter(away) =~= Seq::<Pid>::empty());
    while i < pids.len()
        invariant
            i <= pids@.len(),
            away == (|p: Pid| p.node != *me),
            r@ == pids@.take(i as int).filter(away),
        decreases pids@.len() - i,
    {
        proof {
            assert(pids@.take(i + 1).drop_last() =~= pids@.take(i as int));
            reveal(Seq::filter);
        }
        if !pids[i].is_local_to(me) {
            r.push(pids[i]);
        }
        i += 1;
    }
    assert(pids@.take(pids@.len() as int) =~= pids@);
    r
}

/// The watchers of a list that belong to another node.
fn remote_watchers(watch: &Vec<(Pid, u64)>, me: &NodeId) -> (r: Vec<(Pid, u64)>)
    ensures
        r@ == watch@.filter(|x: (Pid, u64)| x.0.node != *me),
{
    let mut r: Vec<(Pid, u64)> = Vec::new();
    let mut i: usize = 0;
    let ghost away = |x: (Pid, u64)| x.0.node != *me;
    assert(watch@.take(0).filter(away) =~= Seq::<(Pid, u64)>::empty());
    while i < watch.len()
        invariant
            i <= watch@.len(),
            away == (|x: (Pid, u64)| x.0.node != *me),
            r@ == watch@.take(i as int).filter(away),
        decreases watch@.len() - i,
    {
        proof {
            assert(watch@.take(i + 1).drop_last() =~= watch@.take(i as int));
            reveal(Seq::filter);
        }
        let x = watch[i];
        if !x.0.is_local_to(me) {
            r.push(x);
        }
        i += 1;
    }
    assert(watch@.take(watch@.len() as int) =~= watch@);
    r
}

/// After an exit signal that was inherited through a link: a particle that traps exits gets it
/// as a message, whatever the reason; another dies of it, unless the reason is normal.
pub open spec fn inherited(
    m: RegistryView,
    to: Pid,
    from: Pid,
    reason: ExitReason,
) -> RegistryView {
    if !m.states.contains_key(to) {
        m
    } else if m.states[to].trap_exit {
        m.told(to, SystemMessage::Exit { from, reason })
    } else if reason !is Normal {
        exited(m, seq![to], reason)
    } else {
        m
    }
}

/// After an exit signal that was sent at a particle: a kill cannot be trapped, and is died of
/// as killed; any other signal goes as an inherited one.
pub open spec fn directed(m: RegistryView, to: Pid, from: Pid, reason: ExitReason) -> RegistryView {
    if reason is Kill {
        exited(m, seq![to], ExitReason::Killed)
    } else {
        inherited(m, to, from, reason)
    }
}

/// After a monitor was asked for.
pub open spec fn monitored(m: RegistryView, watcher: Pid, target: Pid) -> RegistryView {
    let r = m.next_ref;
    let counted = RegistryView { next_ref: pid::next_counter(r), ..m };
    if m.states.contains_key(target) {
        counted.watched(target, watcher, r).monitoring(watcher, target, r)
    } else {
        counted.told(
            watcher,
            SystemMessage::Down { from: target, monitor_ref: r, reason: ExitReason::Normal },
        )
    }
}

/// After a monitor was given up: the watcher no longer holds it, whether it runs here or on
/// another node, and nobody is watched under it.
pub open spec fn demonitored(m: RegistryView, watcher: Pid, r: u64) -> RegistryView {
    RegistryView {
        states: Map::new(
            |p: Pid| m.states.contains_key(p),
            |p: Pid|
                {
                    let unwatched = m.states[p].not_watched(watcher, r);
                    if p == watcher {
                        unwatched.not_monitoring(r)
                    } else {
                        unwatched
                    }
                },
        ),
        ..m
    }
}

/// After every tie to a node was dropped.
pub open spec fn node_forgotten(m: RegistryView, node: NodeId) -> RegistryView {
    RegistryView {
        states: Map::new(
            |p: Pid| m.states.contains_key(p),
            |p: Pid| m.states[p].without_node(node),
        ),
        ..m
    }
}

impl ParticleRegistry {
    /// The node of this registry.
    pub fn node(&self) -> (r: NodeId)
        ensures
            r == self@.node,
    {
        self.pid_gen.node()
    }

    /// Hands out the next pid.
    pub fn next_pid(&mut self) -> (r: Pid)
        requires
            old(self).wf(),
        ensures
            final(self).wf(),
            r == old(self)@.next_pid(),
            final(self)@ == old(self)@.pid_taken(),
    {
        self.pid_gen.next()
    }

    /// Hands out a reference that no other call gets.
    pub fn make_ref(&mut self) -> (r: u64)
        requires
            old(self).wf(),
        ensures
            final(self).wf(),
            r == old(self)@.next_ref,
            final(self)@ == (RegistryView { next_ref: pid::next_counter(r), ..old(self)@ }),
    {
        let r: u64 = self.next_ref;
        self.next_ref = r.wrapping_add(1);
        r
    }

    /// Registers a component by name, replacing what had the name.
    pub fn register_component(&mut self, name: &str, capabilities: PolicySet)
        requires
            old(self).wf(),
            capabilities.valid(),
        ensures
            final(self).wf(),
            final(self)@ == (RegistryView {
                components: old(self)@.components.insert(name@, capabilities@),
                ..old(self)@
            }),
    {
        self.components.insert(
            name.to_owned(),
            ComponentTemplate { default_capabilities: capabilities },
        );
    }

    fn start(&mut self) -> (r: Pid)
        requires
            old(self).wf(),
        ensures
            final(self).wf(),
            r == old(self)@.next_pid(),
            final(self)@ == old(self)@.started(),
    {
        let pid = self.pid_gen.next();
        self.particle_states.insert(pid, ParticleState::fresh());
        self.mailboxes.insert(pid, Mailbox::unbounded());
        pid
    }

    /// Spawns a particle from a registered component, optionally under a name.
    pub fn spawn(
        &mut self,
        component: &str,
        name: Option<&str>,
        capabilities: Option<PolicySet>,
    ) -> (r: Result<Pid, RegistryError>)
        requires
            old(self).wf(),
            capabilities matches Some(c) ==> c.valid(),
        ensures
            final(self).wf(),
            match old(self)@.spawn_refusal(component@, opt_str(name)) {
                Some(e) => r == Err::<Pid, RegistryError>(e) && final(self)@ == old(self)@,
                None => {
                    &&& r == Ok::<Pid, RegistryError>(old(self)@.next_pid())
                    &&& final(self)@ == old(self)@.spawned(
                        component@,
                        opt_str(name),
                        match capabilities {
                            Some(c) => Some(c@),
                            None => None,
                        },
                    )
                },
            },
    {
        match name {
            Some(n) => {
                if self.names.contains_key(&n.to_owned()) {
                    return Err(RegistryError::NameTaken);
                }
            },
            None => {},
        }
        let defaults = match self.components.get(&component.to_owned()) {
            Some(template) => template.default_capabilities.clone(),
            None => return Err(RegistryError::UnknownComponent),
        };
        let granted = match capabilities {
            Some(c) => c,
            None => defaults,
        };
        let pid = self.start();
        let own_name = match name {
            Some(n) => Some(n.to_owned()),
            None => None,
        };
        self.particles.insert(
            pid,
            ParticleEntry {
                pid,
                capabilities: granted,
                component_name: component.to_owned(),
                name: own_name,
            },
        );
        match name {
            Some(n) => {
                self.names.insert(n.to_owned(), pid);
            },
            None => {},
        }
        Ok(pid)
    }

    /// Starts a particle with no component behind it.
    pub fn insert_test_particle(&mut self) -> (r: Pid)
        requires
            old(self).wf(),
        ensures
            final(self).wf(),
            r == old(self)@.next_pid(),
            final(self)@ == old(self)@.started(),
    {
        self.start()
    }

    /// Records this node's half of a link to a particle of another node.
    pub fn link_remote(&mut self, local: &Pid, remote: Pid)
        requires
            old(self).wf(),
        ensures
            final(self).wf(),
            final(self)@ == old(self)@.half_linked(*local, remote),
    {
        match self.particle_states.get_mut(local) {
            Some(state) => {
                state.add_link(remote);
            },
            None => {},
        }
    }

    /// Erases this node's half of a link.
    pub fn unlink_remote(&mut self, local: &Pid, remote: &Pid)
        requires
            old(self).wf(),
        ensures
            final(self).wf(),
            final(self)@ == old(self)@.half_unlinked(*local, *remote),
    {
        self.drop_half_link(local, remote);
    }

    fn add_monitor(&mut self, watcher: &Pid, target: Pid, ref_id: u64)
        requires
            old(self).wf(),
        ensures
            final(self).wf(),
            final(self)@ == old(self)@.monitoring(*watcher, target, ref_id),
    {
        match self.particle_states.get_mut(watcher) {
            Some(state) => {
                state.add_monitor(ref_id, target);
            },
            None => {},
        }
    }

    fn add_watcher(&mut self, target: &Pid, watcher: Pid, ref_id: u64)
        requires
            old(self).wf(),
        ensures
            final(self).wf(),
            final(self)@ == old(self)@.watched(*target, watcher, ref_id),
    {
        match self.particle_states.get_mut(target) {
            Some(state) => {
                state.add_watcher(watcher, ref_id);
            },
            None => {},
        }
    }

    /// Records a monitor, on each side that is here.
    pub fn monitor_remote(&mut self, watcher: &Pid, target: Pid, ref_id: u64)
        requires
            old(self).wf(),
        ensures
            final(self).wf(),
            final(self)@ == old(self)@.monitoring(*watcher, target, ref_id).watched(
                target,
                *watcher,
                ref_id,
            ),
    {
        self.add_monitor(watcher, target, ref_id);
        self.add_watcher(&target, *watcher, ref_id);
    }

    /// Records a monitor under a reference that the caller has already made.
    pub fn monitor_with_ref(&mut self, watcher: &Pid, target: &Pid, ref_id: u64)
        requires
            old(self).wf(),
        ensures
            final(self).wf(),
            final(self)@ == old(self)@.monitoring(*watcher, *target, ref_id).watched(
                *target,
                *watcher,
                ref_id,
            ),
    {
        self.add_monitor(watcher, *target, ref_id);
        self.add_watcher(target, *watcher, ref_id);
    }

    /// Delivers an exit signal to a particle's mailbox.
    pub fn deliver_exit(&mut self, to: &Pid, from: &Pid, reason: ExitReason)
        requires
            old(self).wf(),
        ensures
            final(self).wf(),
            final(self)@ == old(self)@.told(*to, SystemMessage::Exit { from: *from, reason }),
    {
        self.tell(to, SystemMessage::Exit { from: *from, reason });
    }

    /// Applies an exit signal that was inherited through a link.
    pub fn apply_inherited_exit(&mut self, to: &Pid, from: &Pid, reason: ExitReason)
        requires
            old(self).wf(),
        ensures
            final(self).wf(),
            final(self)@ == inherited(old(self)@, *to, *from, reason),
    {
        let trapping = match self.particle_states.get(to) {
            Some(state) => state.trap_exit(),
            None => return,
        };
        if trapping {
            self.deliver_exit(to, from, reason);
        } else if reason.is_abnormal() {
            self.exit_particle(to, reason);
        }
    }

    /// Applies an exit signal that was sent at a particle.
    pub fn apply_directed_exit(&mut self, to: &Pid, from: &Pid, reason: ExitReason)
        requires
            old(self).wf(),
        ensures
            final(self).wf(),
            final(self)@ == directed(old(self)@, *to, *from, reason),
    {
        match reason {
            ExitReason::Kill => {
                self.exit_particle(to, ExitReason::Killed);
            },
            _ => {
                self.apply_inherited_exit(to, from, reason);
            },
        }
    }

    /// Delivers a down signal to a particle's mailbox.
    pub fn deliver_down(&mut self, to: &Pid, from: &Pid, ref_id: u64, reason: ExitReason)
        requires
            old(self).wf(),
        ensures
            final(self).wf(),
            final(self)@ == old(self)@.told(
                *to,
                SystemMessage::Down { from: *from, monitor_ref: ref_id, reason },
            ),
    {
        self.tell(to, SystemMessage::Down { from: *from, monitor_ref: ref_id, reason });
    }

    /// Resolves a name to a pid.
    pub fn get_by_name(&self, name: &str) -> (r: Option<Pid>)
        requires
            self.wf(),
        ensures
            r == (if self@.names.contains_key(name@) {
                Some(self@.names[name@])
            } else {
                None
            }),
    {
        match self.names.get(&name.to_owned()) {
            Some(pid) => Some(*pid),
            None => None,
        }
    }

    /// Resolves a name to a pid.
    pub fn lookup_name(&self, name: &str) -> (r: Option<Pid>)
        requires
            self.wf(),
        ensures
            r == (if self@.names.contains_key(name@) {
                Some(self@.names[name@])
            } else {
                None
            }),
    {
        self.get_by_name(name)
    }

    /// The entry of a particle that was spawned from a component.
    pub fn get_by_pid(&self, pid: &Pid) -> (r: Option<&ParticleEntry>)
        requires
            self.wf(),
        ensures
            match r {
                Some(e) => self@.entries.contains_key(*pid) && e@ == self@.entries[*pid],
                None => !self@.entries.contains_key(*pid),
            },
    {
        self.particles.get(pid)
    }

    /// The default capabilities of a registered component.
    pub fn get_component(&self, name: &str) -> (r: Option<PolicySet>)
        requires
            self.wf(),
        ensures
            match r {
                Some(c) => self@.components.contains_key(name@) && c@ == self@.components[name@]
                    && c.valid(),
                None => !self@.components.contains_key(name@),
            },
    {
        match self.components.get(&name.to_owned()) {
            Some(template) => Some(template.default_capabilities.clone()),
            None => None,
        }
    }

    /// Sends a user message to a particle.
    pub fn send_to_pid(&mut self, pid: &Pid, msg: Vec<u8>) -> (r: Result<(), SendError>)
        requires
            old(self).wf(),
        ensures
            final(self).wf(),
            r == (if old(self)@.states.contains_key(*pid) {
                Ok::<(), SendError>(())
            } else {
                Err(SendError::NoParticle)
            }),
            final(self)@ == old(self)@.sent(*pid, MailboxMessage::Data(msg)),
    {
        if !self.particle_states.contains_key(pid) {
            return Err(SendError::NoParticle);
        }
        match self.mailboxes.get_mut(pid) {
            Some(mailbox) => match mailbox.push_data(msg) {
                Ok(()) => Ok(()),
                Err(_) => Err(SendError::NoParticle),
            },
            None => Err(SendError::NoParticle),
        }
    }

    /// Sends a tagged message to a particle.
    pub fn send_tagged_to_pid(&mut self, pid: &Pid, ref_id: u64, msg: Vec<u8>) -> (r: Result<
        (),
        SendError,
    >)
        requires
            old(self).wf(),
        ensures
            final(self).wf(),
            r == (if old(self)@.states.contains_key(*pid) {
                Ok::<(), SendError>(())
            } else {
                Err(SendError::NoParticle)
            }),
            final(self)@ == old(self)@.sent(
                *pid,
                MailboxMessage::Tagged { ref_id, payload: msg },
            ),
    {
        if !self.particle_states.contains_key(pid) {
            return Err(SendError::NoParticle);
        }
        match self.mailboxes.get_mut(pid) {
            Some(mailbox) => match mailbox.push_tagged(ref_id, msg) {
                Ok(()) => Ok(()),
                Err(_) => Err(SendError::NoParticle),
            },
            None => Err(SendError::NoParticle),
        }
    }

    /// Sends a system message to a particle.
    pub fn send_system(&mut self, pid: &Pid, msg: SystemMessage) -> (r: Result<(), RegistryError>)
        requires
            old(self).wf(),
        ensures
            final(self).wf(),
            r == (if old(self)@.states.contains_key(*pid) {
                Ok::<(), RegistryError>(())
            } else {
                Err(RegistryError::NoParticle(*pid))
            }),
            final(self)@ == old(self)@.told(*pid, msg),
    {
        if self.tell(pid, msg) {
            Ok(())
        } else {
            Err(RegistryError::NoParticle(*pid))
        }
    }

    /// Queues the answer to a spawn request in a running particle's mailbox.
    pub fn push_spawn_reply(
        &mut self,
        pid: &Pid,
        ref_id: u64,
        outcome: Result<Pid, SpawnFailure>,
    )
        requires
            old(self).wf(),
        ensures
            final(self).wf(),
            final(self)@ == old(self)@.sent(*pid, MailboxMessage::SpawnReply { ref_id, outcome }),
    {
        if self.particle_states.contains_key(pid) {
            match self.mailboxes.get_mut(pid) {
                Some(mailbox) => {
                    mailbox.push_spawn_reply(ref_id, outcome);
                },
                None => {},
            }
        }
    }

    /// Takes the next message of a particle. A dead particle's mailbox can still be emptied.
    pub fn recv(&mut self, pid: &Pid) -> (r: Received)
        requires
            old(self).wf(),
        ensures
            final(self).wf(),
            if old(self)@.mailboxes.contains_key(*pid) {
                let m = old(self)@.mailboxes[*pid];
                if m.queue.len() > 0 {
                    &&& r == Received::Message(m.queue[0])
                    &&& final(self)@ == old(self)@.with_mailbox(
                        *pid,
                        MailboxView { queue: m.queue.skip(1), ..m },
                    )
                } else {
                    &&& r == (if m.closed {
                        Received::Closed
                    } else {
                        Received::Empty
                    })
                    &&& final(self)@ == old(self)@
                }
            } else {
                r == Received::Closed && final(self)@ == old(self)@
            },
    {
        let r = match self.mailboxes.get_mut(pid) {
            Some(mailbox) => mailbox.recv(),
            None => Received::Closed,
        };
        r
    }

    /// Takes the first message of a particle that answers to a reference.
    pub fn recv_ref(&mut self, pid: &Pid, ref_id: u64) -> (r: Received)
        requires
            old(self).wf(),
        ensures
            final(self).wf(),
            match r {
                Received::Message(m) => exists|i: int|
                    #![trigger old(self)@.mailboxes[*pid].queue[i]]
                    {
                        let was = old(self)@.mailboxes[*pid];
                        &&& old(self)@.mailboxes.contains_key(*pid)
                        &&& mailbox::first_answer(was.queue, ref_id, i)
                        &&& m == was.queue[i]
                        &&& final(self)@ == old(self)@.with_mailbox(
                            *pid,
                            MailboxView { queue: was.queue.remove(i), ..was },
                        )
                    },
                Received::Closed => final(self)@ == old(self)@ && (old(
                    self,
                )@.mailboxes.contains_key(*pid) ==> old(self)@.mailboxes[*pid].closed),
                Received::Empty => final(self)@ == old(self)@ && old(
                    self,
                )@.mailboxes.contains_key(*pid) && !old(self)@.mailboxes[*pid].closed,
            },
            r is Message <==> old(self)@.mailboxes.contains_key(*pid) && exists|i: int|
                0 <= i < old(self)@.mailboxes[*pid].queue.len() && mailbox::answers(
                    #[trigger] old(self)@.mailboxes[*pid].queue[i],
                    ref_id,
                ),
    {
        let r = match self.mailboxes.get_mut(pid) {
            Some(mailbox) => mailbox.recv_ref(ref_id),
            None => Received::Closed,
        };
        r
    }

    /// Lets go of the mailbox of a particle that is dead.
    pub fn discard_mailbox(&mut self, pid: &Pid)
        requires
            old(self).wf(),
        ensures
            final(self).wf(),
            final(self)@ == (if old(self)@.states.contains_key(*pid) {
                old(self)@
            } else {
                RegistryView { mailboxes: old(self)@.mailboxes.remove(*pid), ..old(self)@ }
            }),
    {
        if !self.particle_states.contains_key(pid) {
            self.mailboxes.remove(pid);
        }
    }

    /// Links two particles, each to the other.
    pub fn link(&mut self, pid_a: &Pid, pid_b: &Pid) -> (r: Result<(), RegistryError>)
        requires
            old(self).wf(),
        ensures
            final(self).wf(),
            if !old(self)@.states.contains_key(*pid_a) {
                r == Err::<(), RegistryError>(RegistryError::NoParticle(*pid_a)) && final(self)@
                    == old(self)@
            } else if !old(self)@.states.contains_key(*pid_b) {
                r == Err::<(), RegistryError>(RegistryError::NoParticle(*pid_b)) && final(self)@
                    == old(self)@
            } else {
                r is Ok && final(self)@ == old(self)@.half_linked(*pid_a, *pid_b).half_linked(
                    *pid_b,
                    *pid_a,
                )
            },
    {
        if !self.particle_states.contains_key(pid_a) {
            return Err(RegistryError::NoParticle(*pid_a));
        }
        if !self.particle_states.contains_key(pid_b) {
            return Err(RegistryError::NoParticle(*pid_b));
        }
        self.link_remote(pid_a, *pid_b);
        self.link_remote(pid_b, *pid_a);
        Ok(())
    }

    /// Unlinks two particles.
    pub fn unlink(&mut self, pid_a: &Pid, pid_b: &Pid)
        requires
            old(self).wf(),
        ensures
            final(self).wf(),
            final(self)@ == old(self)@.half_unlinked(*pid_a, *pid_b).half_unlinked(*pid_b, *pid_a),
    {
        self.drop_half_link(pid_a, pid_b);
        self.drop_half_link(pid_b, pid_a);
    }

    /// Monitors a particle under a new reference. A target that is not there is reported at
    /// once, as having exited normally.
    pub fn monitor(&mut self, watcher: &Pid, target: &Pid) -> (r: Result<u64, RegistryError>)
        requires
            old(self).wf(),
        ensures
            final(self).wf(),
            final(self)@ == monitored(old(self)@, *watcher, *target),
            r == (if old(self)@.states.contains_key(*target) && !old(self)@.states.contains_key(
                *watcher,
            ) {
                Err(RegistryError::NoParticle(*watcher))
            } else {
                Ok::<u64, RegistryError>(old(self)@.next_ref)
            }),
    {
        let monitor_ref: u64 = self.make_ref();
        if !self.particle_states.contains_key(target) {
            self.tell(
                watcher,
                SystemMessage::Down { from: *target, monitor_ref, reason: ExitReason::Normal },
            );
            return Ok(monitor_ref);
        }
        self.add_watcher(target, *watcher, monitor_ref);
        if !self.particle_states.contains_key(watcher) {
            return Err(RegistryError::NoParticle(*watcher));
        }
        self.add_monitor(watcher, *target, monitor_ref);
        Ok(monitor_ref)
    }

    /// The running particles, each once.
    fn running_pids(&self) -> (r: Vec<Pid>)
        requires
            self.wf(),
        ensures
            r@.len() == self.particle_states.items().len(),
            forall|j: int|
                0 <= j < r@.len() ==> #[trigger] r@[j] == self.particle_states.items()[j].0,
    {
        let mut pids: Vec<Pid> = Vec::new();
        let mut n: usize = 0;
        while n < self.particle_states.len()
            invariant
                n <= self.particle_states.items().len(),
                pids@.len() == n,
                forall|j: int|
                    0 <= j < n ==> #[trigger] pids@[j] == self.particle_states.items()[j].0,
            decreases self.particle_states.items().len() - n,
        {
            pids.push(*self.particle_states.key_at(n));
            n += 1;
        }
        pids
    }

    /// Gives up a monitor. The watcher may run here or on another node.
    pub fn demonitor(&mut self, watcher: &Pid, monitor_ref: u64)
        requires
            old(self).wf(),
        ensures
            final(self).wf(),
            final(self)@ == demonitored(old(self)@, *watcher, monitor_ref),
    {
        let pids = self.running_pids();
        let ghost items = self.particle_states.items();
        let mut i: usize = 0;
        while i < pids.len()
            invariant
                i <= pids@.len(),
                self.wf(),
                old(self).wf(),
                items == old(self).particle_states.items(),
                pids@.len() == items.len(),
                forall|j: int| 0 <= j < items.len() ==> #[trigger] pids@[j] == items[j].0,
                self@.states.dom() == old(self)@.states.dom(),
                self@ == (RegistryView { states: self@.states, ..old(self)@ }),
                forall|j: int|
                    0 <= j < i ==> #[trigger] self@.states[pids@[j]] == old(
                        self,
                    )@.states[pids@[j]].not_watched(*watcher, monitor_ref),
                forall|j: int|
                    i <= j < pids@.len() ==> #[trigger] self@.states[pids@[j]] == old(
                        self,
                    )@.states[pids@[j]],
            decreases pids@.len() - i,
        {
            let pid = pids[i];
            proof {
                assoc::lemma_entry(items, i as int);
            }
            match self.particle_states.get_mut(&pid) {
                Some(state) => {
                    state.drop_watcher(watcher, monitor_ref);
                },
                None => {},
            }
            i += 1;
        }
        proof {
            assert forall|p: Pid| old(self)@.states.contains_key(p) implies #[trigger] self@.states[p]
                == old(self)@.states[p].not_watched(*watcher, monitor_ref) by {
                let j = assoc::lemma_entry_of(items, p);
                assert(pids@[j] == p);
            }
        }
        self.drop_monitor(watcher, monitor_ref);
    }

    /// Sets whether a particle traps exits.
    pub fn set_trap_exit(&mut self, pid: &Pid, enabled: bool)
        requires
            old(self).wf(),
        ensures
            final(self).wf(),
            final(self)@ == (if old(self)@.states.contains_key(*pid) {
                old(self)@.with_state(
                    *pid,
                    ParticleView { trap_exit: enabled, ..old(self)@.states[*pid] },
                )
            } else {
                old(self)@
            }),
    {
        match self.particle_states.get_mut(pid) {
            Some(state) => {
                state.set_trap_exit(enabled);
            },
            None => {},
        }
    }

    /// Registers a name for a particle.
    pub fn register_name(&mut self, pid: &Pid, name: &str) -> (r: Result<(), RegistryError>)
        requires
            old(self).wf(),
        ensures
            final(self).wf(),
            if old(self)@.names.contains_key(name@) {
                r == Err::<(), RegistryError>(RegistryError::NameTaken) && final(self)@ == old(
                    self,
                )@
            } else {
                r is Ok && final(self)@ == (RegistryView {
                    names: old(self)@.names.insert(name@, *pid),
                    ..old(self)@
                })
            },
    {
        let key = name.to_owned();
        if self.names.contains_key(&key) {
            return Err(RegistryError::NameTaken);
        }
        self.names.insert(key, *pid);
        Ok(())
    }

    /// Unregisters a name. Only the particle that has it can.
    pub fn unregister_name(&mut self, pid: &Pid, name: &str) -> (r: Result<(), RegistryError>)
        requires
            old(self).wf(),
        ensures
            final(self).wf(),
            if !old(self)@.names.contains_key(name@) {
                r == Err::<(), RegistryError>(RegistryError::UnknownName) && final(self)@ == old(
                    self,
                )@
            } else if old(self)@.names[name@] != *pid {
                r == Err::<(), RegistryError>(RegistryError::NotOwner) && final(self)@ == old(
                    self,
                )@
            } else {
                r is Ok && final(self)@ == (RegistryView {
                    names: old(self)@.names.remove(name@),
                    ..old(self)@
                })
            },
    {
        let key = name.to_owned();
        let owner = match self.names.get(&key) {
            Some(owner) => *owner,
            None => return Err(RegistryError::UnknownName),
        };
        if owner.same(pid) {
            self.names.remove(&key);
            Ok(())
        } else {
            Err(RegistryError::NotOwner)
        }
    }

    /// Whether a particle runs.
    pub fn particle_exists(&self, pid: &Pid) -> (r: bool)
        ensures
            r == self@.states.contains_key(*pid),
    {
        self.particle_states.contains_key(pid)
    }

    /// How many particles are running.
    pub fn particle_count(&self) -> (r: usize)
        requires
            self.wf(),
        ensures
            r == self@.states.dom().len(),
    {
        proof {
            assoc::lemma_entries_len(self.particle_states.items());
        }
        self.particle_states.len()
    }

    /// Whether a running particle traps exits.
    pub fn traps_exits(&self, pid: &Pid) -> (r: bool)
        requires
            self.wf(),
        ensures
            r == (self@.states.contains_key(*pid) && self@.states[*pid].trap_exit),
    {
        match self.particle_states.get(pid) {
            Some(state) => state.trap_exit(),
            None => false,
        }
    }

    /// Takes the deaths that were published since the last time, in order.
    pub fn take_deaths(&mut self) -> (r: Vec<ParticleDeath>)
        requires
            old(self).wf(),
        ensures
            final(self).wf(),
            deaths_view(r@) == old(self)@.deaths,
            final(self)@ == (RegistryView { deaths: Seq::empty(), ..old(self)@ }),
    {
        let mut taken: Vec<ParticleDeath> = Vec::new();
        std::mem::swap(&mut taken, &mut self.deaths);
        taken
    }

    /// Drops every tie to a node that can no longer be reached.
    pub fn forget_node(&mut self, node: &NodeId)
        requires
            old(self).wf(),
        ensures
            final(self).wf(),
            final(self)@ == node_forgotten(old(self)@, *node),
    {
        let pids = self.running_pids();
        let ghost items = self.particle_states.items();
        let mut i: usize = 0;
        while i < pids.len()
            invariant
                i <= pids@.len(),
                self.wf(),
                old(self).wf(),
                items == old(self).particle_states.items(),
                pids@.len() == items.len(),
                forall|j: int| 0 <= j < items.len() ==> #[trigger] pids@[j] == items[j].0,
                self@.states.dom() == old(self)@.states.dom(),
                self@ == (RegistryView { states: self@.states, ..old(self)@ }),
                forall|j: int|
                    0 <= j < i ==> #[trigger] self@.states[pids@[j]] == old(
                        self,
                    )@.states[pids@[j]].without_node(*node),
                forall|j: int|
                    i <= j < pids@.len() ==> #[trigger] self@.states[pids@[j]] == old(
                        self,
                    )@.states[pids@[j]],
            decreases pids@.len() - i,
        {
            let pid = pids[i];
            proof {
                assoc::lemma_entry(items, i as int);
            }
            match self.particle_states.get_mut(&pid) {
                Some(state) => {
                    state.forget_node(node);
                },
                None => {},
            }
            i += 1;
        }
        proof {
            assert forall|p: Pid| old(self)@.states.contains_key(p) implies #[trigger] self@.states[p]
                == old(self)@.states[p].without_node(*node) by {
                let j = assoc::lemma_entry_of(items, p);
                assert(pids@[j] == p);
            }
        }
    }
}

/// The links of running particles to particles of a node.
pub open spec fn is_link_to(m: RegistryView, node: NodeId, x: (Pid, Pid)) -> bool {
    &&& m.states.contains_key(x.0)
    &&& m.states[x.0].links.contains(x.1)
    &&& x.1.node == node
}

/// The monitors that running particles have on particles of a node.
pub open spec fn is_monitor_of(m: RegistryView, node: NodeId, x: (Pid, Pid, u64)) -> bool {
    &&& m.states.contains_key(x.0)
    &&& m.states[x.0].monitors.contains_key(x.2)
    &&& m.states[x.0].monitors[x.2] == x.1
    &&& x.1.node == node
}

/// What stands in the list of particles for one of them.
pub open spec fn listed(e: EntryView) -> (Pid, Seq<char>, Option<Seq<char>>) {
    (e.pid, e.component_name, e.name)
}

/// Something is what the list of particles says of one of them.
pub open spec fn is_listed(m: RegistryView, x: (Pid, Seq<char>, Option<Seq<char>>)) -> bool {
    exists|p: Pid| #[trigger] m.entries.contains_key(p) && listed(m.entries[p]) == x
}

impl ParticleRegistry {
    /// Every link and every monitor that a running particle has with a particle of a node, each
    /// once. When the node is lost each of them is to fire.
    pub fn relationships_with_node(&self, node: &NodeId) -> (r: (
        Vec<(Pid, Pid)>,
        Vec<(Pid, Pid, u64)>,
    ))
        requires
            self.wf(),
        ensures
            r.0@.no_duplicates(),
            r.1@.no_duplicates(),
            forall|x: (Pid, Pid)| #[trigger] r.0@.contains(x) <==> is_link_to(self@, *node, x),
            forall|x: (Pid, Pid, u64)| #[trigger]
                r.1@.contains(x) <==> is_monitor_of(self@, *node, x),
    {
        let mut links: Vec<(Pid, Pid)> = Vec::new();
        let mut monitors: Vec<(Pid, Pid, u64)> = Vec::new();
        let ghost items = self.particle_states.items();
        let mut i: usize = 0;
        while i < self.particle_states.len()
            invariant
                i <= items.len(),
                items == self.particle_states.items(),
                self.wf(),
                links@.no_duplicates(),
                monitors@.no_duplicates(),
                forall|x: (Pid, Pid)| #[trigger]
                    links@.contains(x) <==> is_link_to(self@, *node, x) && held_before(
                        items,
                        i as int,
                        x.0,
                    ),
                forall|x: (Pid, Pid, u64)| #[trigger]
                    monitors@.contains(x) <==> is_monitor_of(self@, *node, x) && held_before(
                        items,
                        i as int,
                        x.0,
                    ),
            decreases items.len() - i,
        {
            let pid = *self.particle_states.key_at(i);
            let state = self.particle_states.value_at(i);
            proof {
                assoc::lemma_entry(items, i as int);
            }
            let pid_links = state.links();
            let ghost links0 = links@;
            let mut j: usize = 0;
            while j < pid_links.len()
                invariant
                    j <= pid_links@.len(),
                    pid_links@.no_duplicates(),
                    pid_links@ == self@.states[pid].links,
                    self@.states.contains_key(pid),
                    links@.no_duplicates(),
                    forall|x: (Pid, Pid)| #[trigger] links0.contains(x) ==> x.0 != pid,
                    forall|x: (Pid, Pid)| #[trigger]
                        links@.contains(x) <==> links0.contains(x) || (x.0 == pid
                            && pid_links@.take(j as int).contains(x.1) && x.1.node == *node),
                decreases pid_links@.len() - j,
            {
                let linked = pid_links[j];
                let ghost links1 = links@;
                proof {
                    assert(pid_links@.take(j + 1) =~= pid_links@.take(j as int).push(linked));
                    lemma_push_contains(pid_links@.take(j as int), linked);
                }
                if linked.is_local_to(node) {
                    assert(!links1.contains((pid, linked)));
                    links.push((pid, linked));
                    proof {
                        lemma_push_contains(links1, (pid, linked));
                    }
                }
                j += 1;
            }
            assert(pid_links@.take(pid_links@.len() as int) =~= pid_links@);

            let pid_monitors = state.monitors();
            let ghost watched = pid_monitors.items();
            let ghost monitors0 = monitors@;
            let mut k: usize = 0;
            while k < pid_monitors.len()
                invariant
                    k <= watched.len(),
                    watched == pid_monitors.items(),
                    pid_monitors.wf(),
                    pid_monitors@ == self@.states[pid].monitors,
                    self@.states.contains_key(pid),
                    monitors@.no_duplicates(),
                    forall|x: (Pid, Pid, u64)| #[trigger] monitors0.contains(x) ==> x.0 != pid,
                    forall|x: (Pid, Pid, u64)| #[trigger]
                        monitors@.contains(x) <==> monitors0.contains(x) || (x.0 == pid
                            && held_before(watched, k as int, x.2) && pid_monitors@[x.2] == x.1
                            && x.1.node == *node),
                decreases watched.len() - k,
            {
                let ref_id: u64 = *pid_monitors.key_at(k);
                let target = *pid_monitors.value_at(k);
                let ghost monitors1 = monitors@;
                if target.is_local_to(node) {
                    assert(!monitors1.contains((pid, target, ref_id)));
                    monitors.push((pid, target, ref_id));
                    proof {
                        lemma_push_contains(monitors1, (pid, target, ref_id));
                    }
                }
                k += 1;
            }
            i += 1;
        }
        (links, monitors)
    }

    /// The names of all components, each once.
    pub fn list_components(&self) -> (r: Vec<String>)
        requires
            self.wf(),
        ensures
            forall|i: int, j: int| 0 <= i < j < r@.len() ==> (#[trigger] r@[i])@ != (#[trigger] r@[j])@,
            forall|i: int| 0 <= i < r@.len() ==> self@.components.contains_key((#[trigger] r@[i])@),
            forall|n: Seq<char>| #[trigger]
                self@.components.contains_key(n) ==> exists|i: int|
                    0 <= i < r@.len() && (#[trigger] r@[i])@ == n,
    {
        let ghost items = self.components.items();
        let mut r: Vec<String> = Vec::new();
        let mut i: usize = 0;
        while i < self.components.len()
            invariant
                i <= items.len(),
                items == self.components.items(),
                r@.len() == i,
                forall|j: int| 0 <= j < i ==> #[trigger] r@[j] == items[j].0,
            decreases items.len() - i,
        {
            r.push(self.components.key_at(i).clone());
            i += 1;
        }
        proof {
            assert forall|j: int| 0 <= j < r@.len() implies self@.components.contains_key(
                (#[trigger] r@[j])@,
            ) by {}
            assert forall|n: Seq<char>| #[trigger] self@.components.contains_key(n) implies exists|
                j: int,
            |
                0 <= j < r@.len() && (#[trigger] r@[j])@ == n by {
                let j = assoc::lemma_entry_of(items, n);
                assert(r@[j]@ == n);
            }
        }
        r
    }

    /// Every particle that was spawned from a component and runs, once: its pid, its component
    /// and its name.
    pub fn list_particles(&self) -> (r: Vec<(Pid, String, Option<String>)>)
        requires
            self.wf(),
        ensures
            r@.len() == self@.entries.dom().len(),
            forall|p: Pid| #[trigger]
                self@.entries.contains_key(p) ==> exists|i: int|
                    0 <= i < r@.len() && listed(self@.entries[p]) == (
                        (#[trigger] r@[i]).0,
                        r@[i].1@,
                        opt_text(r@[i].2),
                    ),
            forall|i: int|
                0 <= i < r@.len() ==> is_listed(
                    self@,
                    ((#[trigger] r@[i]).0, r@[i].1@, opt_text(r@[i].2)),
                ),
    {
        let ghost items = self.particles.items();
        let mut r: Vec<(Pid, String, Option<String>)> = Vec::new();
        let mut i: usize = 0;
        while i < self.particles.len()
            invariant
                i <= items.len(),
                items == self.particles.items(),
                r@.len() == i,
                forall|j: int|
                    0 <= j < i ==> listed(items[j].1@) == (
                        (#[trigger] r@[j]).0,
                        r@[j].1@,
                        opt_text(r@[j].2),
                    ),
            decreases items.len() - i,
        {
            let entry = self.particles.value_at(i);
            let name = match &entry.name {
                Some(n) => Some(n.clone()),
                None => None,
            };
            r.push((entry.pid, entry.component_name.clone(), name));
            i += 1;
        }
        proof {
            assoc::lemma_entries_len(items);
            assert forall|p: Pid| #[trigger] self@.entries.contains_key(p) implies exists|j: int|
                0 <= j < r@.len() && listed(self@.entries[p]) == (
                    (#[trigger] r@[j]).0,
                    r@[j].1@,
                    opt_text(r@[j].2),
                ) by {
                let j = assoc::lemma_entry_of(items, p);
                assert(listed(items[j].1@) == (r@[j].0, r@[j].1@, opt_text(r@[j].2)));
            }
            assert forall|j: int| 0 <= j < r@.len() implies is_listed(
                self@,
                ((#[trigger] r@[j]).0, r@[j].1@, opt_text(r@[j].2)),
            ) by {
                assert(self@.entries.contains_key(items[j].0));
            }
        }
        r
    }

    /// Resolves a text to a pid: a name first, then the short text of a running particle's pid.
    pub fn resolve_target(&self, target: &str) -> (r: Option<Pid>)
        requires
            self.wf(),
        ensures
            if self@.names.contains_key(target@) {
                r == Some(self@.names[target@])
            } else {
                match r {
                    Some(p) => self@.states.contains_key(p) && pid::display_text(
                        p.node.bytes(),
                        p.seq,
                    ) == target@,
                    None => forall|p: Pid| #[trigger]
                        self@.states.contains_key(p) ==> pid::display_text(p.node.bytes(), p.seq)
                            != target@,
                }
            },
    {
        match self.get_by_name(target) {
            Some(pid) => return Some(pid),
            None => {},
        }
        let wanted = target.to_owned();
        let ghost items = self.particle_states.items();
        let mut i: usize = 0;
        while i < self.particle_states.len()
            invariant
                i <= items.len(),
                items == self.particle_states.items(),
                self.wf(),
                wanted@ == target@,
                !self@.names.contains_key(target@),
                forall|j: int|
                    0 <= j < i ==> pid::display_text(
                        (#[trigger] items[j]).0.node.bytes(),
                        items[j].0.seq,
                    ) != target@,
            decreases items.len() - i,
        {
            let pid = *self.particle_states.key_at(i);
            if pid.to_text() == wanted {
                proof {
                    assoc::lemma_entry(items, i as int);
                }
                return Some(pid);
            }
            i += 1;
        }
        None
    }
}

/// A key stands among the first entries of a list.
pub open spec fn held_before<K: Key, V: Held>(entries: Seq<(K, V)>, i: int, k: K::V) -> bool {
    exists|j: int| 0 <= j < i && j < entries.len() && (#[trigger] entries[j]).0@ == k
}

/// One entry more is held.
pub proof fn lemma_held_step<K: Key, V: Held>(entries: Seq<(K, V)>, i: int)
    requires
        assoc::keys_distinct(entries),
        0 <= i < entries.len(),
    ensures
        forall|k: K::V|
            #![trigger held_before(entries, i + 1, k)]
            #![trigger held_before(entries, i, k)]
            held_before(entries, i + 1, k) <==> held_before(entries, i, k) || k == entries[i].0@,
        !held_before(entries, i, entries[i].0@),
{
    assert forall|k: K::V|
        #![trigger held_before(entries, i + 1, k)]
        #![trigger held_before(entries, i, k)]
        held_before(entries, i + 1, k) <==> held_before(entries, i, k) || k == entries[i].0@ by {
        if held_before(entries, i, k) {
            let j = choose|j: int| 0 <= j < i && j < entries.len() && (#[trigger] entries[j]).0@ == k;
        }
    }
}

/// The text in an optional string slice.
pub open spec fn opt_str(s: Option<&str>) -> Option<Seq<char>> {
    match s {
        Some(t) => Some(t@),
        None => None,
    }
}

} // verus!
