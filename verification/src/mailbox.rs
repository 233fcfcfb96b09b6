//! Per-particle message queues.

use crate::assoc::Held;
use crate::message::{ExitReason, SystemMessage};
use crate::pid::Pid;
use std::collections::VecDeque;
use vstd::prelude::*;

verus! {

/// How many data messages a mailbox of the default size holds.
pub const DEFAULT_MAILBOX_CAPACITY: usize = 1024;

/// Why a spawn request was not granted.
#[derive(Clone, Copy, PartialEq, Eq, Structural, Debug)]
pub enum SpawnFailure {
    ComponentNotFound,
    InitFailed,
    ResourceLimit,
    NodeUnreachable,
}

#[derive(PartialEq, Debug)]
pub enum MailboxMessage {
    Data(Vec<u8>),
    Tagged { ref_id: u64, payload: Vec<u8> },
    Exit { from: Pid, reason: ExitReason },
    Down { from: Pid, ref_id: u64, reason: ExitReason },
    SpawnReply { ref_id: u64, outcome: Result<Pid, SpawnFailure> },
}

/// Why a message was not queued.
#[derive(Clone, Copy, PartialEq, Eq, Structural, Debug)]
pub enum SendError {
    /// The mailbox is closed.
    NoProcess,
    /// The mailbox holds as many data messages as it may.
    MailboxFull,
}

/// What asking a mailbox for a message gives.
#[derive(PartialEq, Debug)]
pub enum Received {
    Message(MailboxMessage),
    /// Nothing to take, and nothing will come.
    Closed,
    /// Nothing to take yet: wait, and ask again.
    Empty,
}

/// A queue of messages. Data and tagged messages count against its capacity; the others do not.
#[derive(PartialEq, Debug)]
pub struct Mailbox {
    queue: VecDeque<MailboxMessage>,
    capacity: Option<usize>,
    closed: bool,
}

/// What a mailbox holds.
#[verifier::ext_equal]
pub struct MailboxView {
    /// The messages, the next one first.
    pub queue: Seq<MailboxMessage>,
    /// How many data messages it may hold; none where there is no bound.
    pub capacity: Option<usize>,
    pub closed: bool,
}

/// Whether a message counts against the capacity.
pub open spec fn is_data(m: MailboxMessage) -> bool {
    m is Data || m is Tagged
}

/// How many messages of a queue count against the capacity.
pub open spec fn data_count(queue: Seq<MailboxMessage>) -> nat {
    queue.filter(|m: MailboxMessage| is_data(m)).len()
}

/// Whether a message answers to a reference.
pub open spec fn answers(m: MailboxMessage, ref_id: u64) -> bool {
    match m {
        MailboxMessage::Tagged { ref_id: r, .. } => r == ref_id,
        MailboxMessage::Down { ref_id: r, .. } => r == ref_id,
        MailboxMessage::SpawnReply { ref_id: r, .. } => r == ref_id,
        _ => false,
    }
}

/// The queued form of a system message.
pub open spec fn queued(m: SystemMessage) -> MailboxMessage {
    match m {
        SystemMessage::Exit { from, reason } => MailboxMessage::Exit { from, reason },
        SystemMessage::Down { from, monitor_ref, reason } => MailboxMessage::Down {
            from,
            ref_id: monitor_ref,
            reason,
        },
    }
}

/// A position is that of the first message that answers to a reference.
pub open spec fn first_answer(queue: Seq<MailboxMessage>, ref_id: u64, i: int) -> bool {
    &&& 0 <= i < queue.len()
    &&& answers(queue[i], ref_id)
    &&& forall|j: int| 0 <= j < i ==> !answers(#[trigger] queue[j], ref_id)
}

impl MailboxView {
    /// An open mailbox with nothing in it.
    pub open spec fn fresh(capacity: Option<usize>) -> MailboxView {
        MailboxView { queue: Seq::empty(), capacity, closed: false }
    }

    /// Whether another data message may be queued, and why not.
    pub open spec fn admits(self) -> Result<(), SendError> {
        if self.closed {
            Err(SendError::NoProcess)
        } else if self.capacity matches Some(most) && data_count(self.queue) >= most {
            Err(SendError::MailboxFull)
        } else {
            Ok(())
        }
    }

    /// With a message at the back.
    pub open spec fn with_back(self, m: MailboxMessage) -> MailboxView {
        MailboxView { queue: self.queue.push(m), ..self }
    }

    /// With a message at the front.
    pub open spec fn with_front(self, m: MailboxMessage) -> MailboxView {
        MailboxView { queue: seq![m] + self.queue, ..self }
    }

    /// With a data message sent to it: unchanged where it is not admitted.
    pub open spec fn sent(self, m: MailboxMessage) -> MailboxView {
        if self.admits() is Ok {
            self.with_back(m)
        } else {
            self
        }
    }

    pub open spec fn shut(self) -> MailboxView {
        MailboxView { closed: true, ..self }
    }
}

impl View for Mailbox {
    type V = MailboxView;

    closed spec fn view(&self) -> MailboxView {
        MailboxView { queue: self.queue@, capacity: self.capacity, closed: self.closed }
    }
}

impl Held for Mailbox {
    open spec fn valid(&self) -> bool {
        true
    }
}

impl Mailbox {
    /// A mailbox that holds at most `capacity` data messages.
    pub fn new(capacity: usize) -> (r: Self)
        ensures
            r@ == MailboxView::fresh(Some(capacity)),
    {
        Mailbox { queue: VecDeque::new(), capacity: Some(capacity), closed: false }
    }

    pub fn with_default_capacity() -> (r: Self)
        ensures
            r@ == MailboxView::fresh(Some(DEFAULT_MAILBOX_CAPACITY)),
    {
        Mailbox::new(DEFAULT_MAILBOX_CAPACITY)
    }

    /// A mailbox without a bound, as particles have.
    pub fn unbounded() -> (r: Self)
        ensures
            r@ == MailboxView::fresh(None),
    {
        Mailbox { queue: VecDeque::new(), capacity: None, closed: false }
    }

    /// How many queued messages count against the capacity.
    pub fn data_len(&self) -> (r: usize)
        ensures
            r == data_count(self@.queue),
    {
        let mut n: usize = 0;
        let mut i: usize = 0;
        let ghost data = |m: MailboxMessage| is_data(m);
        assert(self.queue@.take(0).filter(data) =~= Seq::<MailboxMessage>::empty());
        while i < self.queue.len()
            invariant
                i <= self.queue@.len(),
                n <= i,
                data == (|m: MailboxMessage| is_data(m)),
                n == self.queue@.take(i as int).filter(data).len(),
            decreases self.queue@.len() - i,
        {
            proof {
                assert(self.queue@.take(i + 1).drop_last() =~= self.queue@.take(i as int));
                reveal(Seq::filter);
            }
            let counts = match &self.queue[i] {
                MailboxMessage::Data(_) => true,
                MailboxMessage::Tagged { .. } => true,
                _ => false,
            };
            if counts {
                n += 1;
            }
            i += 1;
        }
        assert(self.queue@.take(self.queue@.len() as int) =~= self.queue@);
        n
    }

    fn room(&self) -> (r: Result<(), SendError>)
        ensures
            r == self@.admits(),
    {
        if self.closed {
            return Err(SendError::NoProcess);
        }
        match self.capacity {
            Some(most) => {
                if self.data_len() >= most {
                    Err(SendError::MailboxFull)
                } else {
                    Ok(())
                }
            },
            None => Ok(()),
        }
    }

    /// Queues a data message. Bounded by the capacity.
    pub fn push_data(&mut self, msg: Vec<u8>) -> (r: Result<(), SendError>)
        ensures
            r == old(self)@.admits(),
            final(self)@ == old(self)@.sent(MailboxMessage::Data(msg)),
    {
        match self.room() {
            Ok(()) => {
                self.queue.push_back(MailboxMessage::Data(msg));
                Ok(())
            },
            Err(e) => Err(e),
        }
    }

    /// Queues a tagged message. Bounded by the capacity.
    pub fn push_tagged(&mut self, ref_id: u64, payload: Vec<u8>) -> (r: Result<(), SendError>)
        ensures
            r == old(self)@.admits(),
            final(self)@ == old(self)@.sent(MailboxMessage::Tagged { ref_id, payload }),
    {
        match self.room() {
            Ok(()) => {
                self.queue.push_back(MailboxMessage::Tagged { ref_id, payload });
                Ok(())
            },
            Err(e) => Err(e),
        }
    }

    /// Queues the answer to a spawn request. Not bounded.
    pub fn push_spawn_reply(&mut self, ref_id: u64, outcome: Result<Pid, SpawnFailure>)
        ensures
            final(self)@ == old(self)@.with_back(MailboxMessage::SpawnReply { ref_id, outcome }),
    {
        self.queue.push_back(MailboxMessage::SpawnReply { ref_id, outcome });
    }

    /// Puts a system message at the front. Not bounded.
    pub fn push_system(&mut self, msg: SystemMessage)
        ensures
            final(self)@ == old(self)@.with_front(queued(msg)),
    {
        let m = match msg {
            SystemMessage::Exit { from, reason } => MailboxMessage::Exit { from, reason },
            SystemMessage::Down { from, monitor_ref, reason } => MailboxMessage::Down {
                from,
                ref_id: monitor_ref,
                reason,
            },
        };
        self.queue.push_front(m);
    }

    /// Takes the next message.
    pub fn recv(&mut self) -> (r: Received)
        ensures
            final(self)@ == (MailboxView {
                queue: if old(self)@.queue.len() > 0 {
                    old(self)@.queue.skip(1)
                } else {
                    old(self)@.queue
                },
                ..old(self)@
            }),
            r == (if old(self)@.queue.len() > 0 {
                Received::Message(old(self)@.queue[0])
            } else if old(self)@.closed {
                Received::Closed
            } else {
                Received::Empty
            }),
    {
        match self.queue.pop_front() {
            Some(msg) => {
                Received::Message(msg)
            },
            None => if self.closed {
                Received::Closed
            } else {
                Received::Empty
            },
        }
    }

    /// Takes the first message that answers to a reference. The others stay where they are.
    pub fn recv_ref(&mut self, ref_id: u64) -> (r: Received)
        ensures
            match r {
                Received::Message(m) => exists|i: int|
                    #![trigger old(self)@.queue[i]]
                    {
                        &&& first_answer(old(self)@.queue, ref_id, i)
                        &&& m == old(self)@.queue[i]
                        &&& final(self)@ == (MailboxView {
                            queue: old(self)@.queue.remove(i),
                            ..old(self)@
                        })
                    },
                Received::Closed => old(self)@.closed && *final(self) == *old(self),
                Received::Empty => !old(self)@.closed && *final(self) == *old(self),
            },
            r is Message <==> exists|i: int|
                0 <= i < old(self)@.queue.len() && answers(#[trigger] old(self)@.queue[i], ref_id),
    {
        let mut i: usize = 0;
        while i < self.queue.len()
            invariant
                i <= self.queue@.len(),
                *self == *old(self),
                forall|j: int| 0 <= j < i ==> !answers(#[trigger] self.queue@[j], ref_id),
            decreases self.queue@.len() - i,
        {
            let found = match &self.queue[i] {
                MailboxMessage::Tagged { ref_id: r, .. } => *r == ref_id,
                MailboxMessage::Down { ref_id: r, .. } => *r == ref_id,
                MailboxMessage::SpawnReply { ref_id: r, .. } => *r == ref_id,
                _ => false,
            };
            if found {
                assert(first_answer(old(self)@.queue, ref_id, i as int));
                match self.queue.remove(i) {
                    Some(msg) => {
                        return Received::Message(msg);
                    },
                    None => {},
                }
            }
            i += 1;
        }
        if self.closed {
            Received::Closed
        } else {
            Received::Empty
        }
    }

    /// Closes the mailbox: nothing more can be sent to it.
    pub fn close(&mut self)
        ensures
            final(self)@ == old(self)@.shut(),
    {
        self.closed = true;
    }
}

/// A mailbox that may hold no more than some number of data messages never does.
pub proof fn law_capacity_is_kept(m: MailboxView, most: usize, msg: MailboxMessage)
    requires
        m.capacity == Some(most),
        data_count(m.queue) <= most,
    ensures
        data_count(m.sent(msg).queue) <= most,
{
    reveal(Seq::filter);
    assert(m.queue.push(msg).drop_last() =~= m.queue);
}

/// A system message is the next one taken, whatever is queued and however full the mailbox is.
pub proof fn law_system_messages_come_first(m: MailboxView, msg: SystemMessage)
    ensures
        m.with_front(queued(msg)).queue[0] == queued(msg),
        m.with_front(queued(msg)).queue.skip(1) == m.queue,
        data_count(m.with_front(queued(msg)).queue) == data_count(m.queue),
{
    let data = |x: MailboxMessage| is_data(x);
    m.queue.lemma_filter_prepend(queued(msg), data);
}

/// The messages of a queue that were sent, not told by the system: the first sent first.
pub open spec fn sent_ones(queue: Seq<MailboxMessage>) -> Seq<MailboxMessage> {
    queue.filter(|m: MailboxMessage| is_data(m))
}

/// Messages that are sent to a particle are taken in the order in which they were sent, whatever
/// the system tells it in between.
pub proof fn law_messages_keep_their_order(m: MailboxView, msg: MailboxMessage, word: SystemMessage)
    requires
        is_data(msg),
    ensures
        sent_ones(m.with_back(msg).queue) == sent_ones(m.queue).push(msg),
        sent_ones(m.with_front(queued(word)).queue) == sent_ones(m.queue),
        m.queue.len() > 0 ==> sent_ones(m.queue) == if is_data(m.queue[0]) {
            seq![m.queue[0]] + sent_ones(m.queue.skip(1))
        } else {
            sent_ones(m.queue.skip(1))
        },
{
    let data = |x: MailboxMessage| is_data(x);
    assert(m.queue.push(msg).filter(data) == m.queue.filter(data).push(msg)) by {
        reveal(Seq::filter);
        assert(m.queue.push(msg).drop_last() =~= m.queue);
    }
    m.queue.lemma_filter_prepend(queued(word), data);
    if m.queue.len() > 0 {
        m.queue.skip(1).lemma_filter_prepend(m.queue[0], data);
        assert(seq![m.queue[0]] + m.queue.skip(1) =~= m.queue);
    }
}

} // verus!
