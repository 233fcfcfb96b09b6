//! What nodes say to each other, and how it is framed on an ordered stream.

use crate::message::ExitReason;
use crate::pid::{NodeId, Pid};
use vstd::prelude::*;

verus! {

/// Whom a message is for: a name is resolved on the receiving node.
#[derive(PartialEq, Debug)]
pub enum Addressee {
    Pid(Pid),
    Name(String),
}

/// One particle message on the wire.
#[derive(PartialEq, Debug)]
pub struct Envelope {
    pub target: Addressee,
    /// The reference of a tagged message.
    pub ref_id: Option<u64>,
    pub payload: Vec<u8>,
}

/// What one node sends to another on their message link. None of it is answered.
#[allow(inconsistent_fields)]
#[derive(PartialEq, Debug)]
pub enum PeerMessage {
    /// Nodes that the sender knows.
    Announce { nodes: Vec<NodeId> },
    Deliver(Envelope),
    Link { from: Pid, to: Addressee },
    Unlink { from: Pid, to: Addressee },
    Monitor { watcher: Pid, target: Addressee, ref_id: u64 },
    Demonitor { watcher: Pid, ref_id: u64 },
    /// A linked particle died.
    Exit { from: Pid, to: Pid, reason: ExitReason },
    /// A signal sent at a particle.
    ExitSignal { from: Pid, to: Addressee, reason: ExitReason },
    /// A monitored particle died.
    Down { from: Pid, to: Pid, ref_id: u64, reason: ExitReason },
    /// The reporter lost its link to a node.
    LostConnection { reporter: NodeId, lost: NodeId, op_id: u64 },
    /// The sender asks to be dropped.
    RemoveConnection { from: NodeId },
}

/// What an addressee says.
pub enum AddresseeView {
    Pid(Pid),
    Name(Seq<char>),
}

impl View for Addressee {
    type V = AddresseeView;

    open spec fn view(&self) -> AddresseeView {
        match *self {
            Addressee::Pid(p) => AddresseeView::Pid(p),
            Addressee::Name(n) => AddresseeView::Name(n@),
        }
    }
}

/// What a peer message says.
#[allow(inconsistent_fields)]
#[verifier::ext_equal]
pub enum PeerMessageView {
    Announce { nodes: Seq<NodeId> },
    Deliver { target: AddresseeView, ref_id: Option<u64>, payload: Seq<u8> },
    Link { from: Pid, to: AddresseeView },
    Unlink { from: Pid, to: AddresseeView },
    Monitor { watcher: Pid, target: AddresseeView, ref_id: u64 },
    Demonitor { watcher: Pid, ref_id: u64 },
    Exit { from: Pid, to: Pid, reason: ExitReason },
    ExitSignal { from: Pid, to: AddresseeView, reason: ExitReason },
    Down { from: Pid, to: Pid, ref_id: u64, reason: ExitReason },
    LostConnection { reporter: NodeId, lost: NodeId, op_id: u64 },
    RemoveConnection { from: NodeId },
}

impl View for PeerMessage {
    type V = PeerMessageView;

    open spec fn view(&self) -> PeerMessageView {
        match *self {
            PeerMessage::Announce { nodes } => PeerMessageView::Announce { nodes: nodes@ },
            PeerMessage::Deliver(e) => PeerMessageView::Deliver {
                target: e.target@,
                ref_id: e.ref_id,
                payload: e.payload@,
            },
            PeerMessage::Link { from, to } => PeerMessageView::Link { from, to: to@ },
            PeerMessage::Unlink { from, to } => PeerMessageView::Unlink { from, to: to@ },
            PeerMessage::Monitor { watcher, target, ref_id } => PeerMessageView::Monitor {
                watcher,
                target: target@,
                ref_id,
            },
            PeerMessage::Demonitor { watcher, ref_id } => PeerMessageView::Demonitor {
                watcher,
                ref_id,
            },
            PeerMessage::Exit { from, to, reason } => PeerMessageView::Exit { from, to, reason },
            PeerMessage::ExitSignal { from, to, reason } => PeerMessageView::ExitSignal {
                from,
                to: to@,
                reason,
            },
            PeerMessage::Down { from, to, ref_id, reason } => PeerMessageView::Down {
                from,
                to,
                ref_id,
                reason,
            },
            PeerMessage::LostConnection { reporter, lost, op_id } => {
                PeerMessageView::LostConnection { reporter, lost, op_id }
            },
            PeerMessage::RemoveConnection { from } => PeerMessageView::RemoveConnection { from },
        }
    }
}

/// Something to be done on the links to other nodes.
#[derive(PartialEq, Debug)]
pub enum Effect {
    /// Queue a message for a node.
    Send(NodeId, PeerMessage),
    /// Take the link to a node down.
    Disconnect(NodeId),
}

/// What an effect says.
#[verifier::ext_equal]
pub enum EffectView {
    Send(NodeId, PeerMessageView),
    Disconnect(NodeId),
}

impl View for Effect {
    type V = EffectView;

    open spec fn view(&self) -> EffectView {
        match *self {
            Effect::Send(n, m) => EffectView::Send(n, m@),
            Effect::Disconnect(n) => EffectView::Disconnect(n),
        }
    }
}

/// What a list of effects says.
pub open spec fn effects_view(effects: Seq<Effect>) -> Seq<EffectView> {
    effects.map_values(|e: Effect| e@)
}

/// One effect more.
pub broadcast proof fn lemma_effects_push(effects: Seq<Effect>, e: Effect)
    ensures
        #[trigger] effects_view(effects.push(e)) == effects_view(effects).push(e@),
{
}

/// No effect.
pub broadcast proof fn lemma_effects_empty()
    ensures
        #[trigger] effects_view(Seq::empty()) == Seq::<EffectView>::empty(),
{
}

/// The longest body of a frame. A peer cannot make a node hold more for a single message.
pub const MAX_FRAME_LEN: u32 = 1_048_576;

/// Why bytes are not framed or not accepted as a frame.
#[derive(Clone, Copy, PartialEq, Eq, Structural, Debug)]
pub enum FrameError {
    /// The body is longer than a frame may be.
    TooLarge,
}

/// A number below two to the thirty-second, in four bytes, the least first.
pub open spec fn le_bytes(n: int) -> Seq<u8> {
    seq![
        (n % 256) as u8,
        (n / 256 % 256) as u8,
        (n / 65536 % 256) as u8,
        (n / 16777216 % 256) as u8,
    ]
}

/// The number in the first four bytes.
pub open spec fn le_value(b: Seq<u8>) -> int {
    b[0] + b[1] * 256 + b[2] * 65536 + b[3] * 16777216
}

/// A body with its length before it.
pub open spec fn frame(body: Seq<u8>) -> Seq<u8> {
    le_bytes(body.len() as int) + body
}

/// What is at the front of a stream.
pub enum FrontView {
    /// Not all of a frame is there yet.
    Incomplete,
    /// The frame claims to be longer than a frame may be.
    Oversized,
    /// A whole frame: its body, and what follows it.
    Whole(Seq<u8>, Seq<u8>),
}

/// What is at the front of a stream of frames.
pub open spec fn front(bytes: Seq<u8>) -> FrontView {
    if bytes.len() < 4 {
        FrontView::Incomplete
    } else if le_value(bytes) > MAX_FRAME_LEN {
        FrontView::Oversized
    } else if bytes.len() < 4 + le_value(bytes) {
        FrontView::Incomplete
    } else {
        FrontView::Whole(
            bytes.subrange(4, 4 + le_value(bytes)),
            bytes.skip(4 + le_value(bytes)),
        )
    }
}

/// Reading a number gives back what was written.
pub proof fn lemma_le_roundtrip(n: int, rest: Seq<u8>)
    requires
        0 <= n < 0x1_0000_0000,
    ensures
        le_value(le_bytes(n) + rest) == n,
{
    let b = le_bytes(n) + rest;
    assert(b[0] == n % 256 && b[1] == n / 256 % 256 && b[2] == n / 65536 % 256 && b[3] == n
        / 16777216 % 256);
}

/// Frames that follow one another on a stream can be told apart from their lengths alone: what is
/// at the front is the frame that was written first, whole, and then the rest.
pub proof fn law_frames_split_where_they_join(body: Seq<u8>, rest: Seq<u8>)
    requires
        body.len() <= MAX_FRAME_LEN,
    ensures
        front(frame(body) + rest) == FrontView::Whole(body, rest),
{
    let bytes = frame(body) + rest;
    lemma_le_roundtrip(body.len() as int, body + rest);
    assert(bytes.subrange(4, 4 + body.len() as int) =~= body);
    assert(bytes.skip(4 + body.len() as int) =~= rest);
}

/// Part of a frame is not taken for a frame.
pub proof fn law_partial_frames_wait(body: Seq<u8>, k: int)
    requires
        body.len() <= MAX_FRAME_LEN,
        0 <= k < frame(body).len(),
    ensures
        front(frame(body).take(k)) is Incomplete,
{
    if k >= 4 {
        lemma_le_roundtrip(body.len() as int, body.take(k - 4));
    }
}

/// What was found at the front of a stream.
#[derive(PartialEq, Debug)]
pub enum Front {
    Incomplete,
    Oversized,
    Whole(Vec<u8>, Vec<u8>),
}

impl View for Front {
    type V = FrontView;

    open spec fn view(&self) -> FrontView {
        match *self {
            Front::Incomplete => FrontView::Incomplete,
            Front::Oversized => FrontView::Oversized,
            Front::Whole(body, rest) => FrontView::Whole(body@, rest@),
        }
    }
}

/// A number as its four bytes, the least first.
pub(crate) fn le_prefix(n: u32) -> (r: Vec<u8>)
    ensures
        r@ == le_bytes(n as int),
{
    let mut r: Vec<u8> = Vec::new();
    r.push((n % 256) as u8);
    r.push((n / 256 % 256) as u8);
    r.push((n / 65536 % 256) as u8);
    r.push((n / 16777216 % 256) as u8);
    r
}

/// The number in the first four bytes.
pub(crate) fn le_read(b: &[u8]) -> (r: u32)
    requires
        b@.len() >= 4,
    ensures
        r == le_value(b@),
{
    (b[0] as u32) + (b[1] as u32) * 256 + (b[2] as u32) * 65536 + (b[3] as u32) * 16777216
}

/// Frames a serialised message. One that the receiver would refuse is not framed.
pub fn encode_frame(body: &[u8]) -> (r: Result<Vec<u8>, FrameError>)
    ensures
        match r {
            Ok(f) => body@.len() <= MAX_FRAME_LEN && f@ == frame(body@),
            Err(e) => body@.len() > MAX_FRAME_LEN && e == FrameError::TooLarge,
        },
{
    if body.len() > 1_048_576 {
        return Err(FrameError::TooLarge);
    }
    let mut out = le_prefix(body.len() as u32);
    let ghost start = out@;
    let mut i: usize = 0;
    while i < body.len()
        invariant
            i <= body@.len(),
            out@ == start + body@.take(i as int),
        decreases body@.len() - i,
    {
        out.push(body[i]);
        i += 1;
    }
    Ok(out)
}

/// The length of the body that a prefix announces; refused where it is longer than a frame may
/// be.
pub fn frame_body_len(prefix: &[u8]) -> (r: Result<u32, FrameError>)
    requires
        prefix@.len() >= 4,
    ensures
        match r {
            Ok(n) => n == le_value(prefix@) && n <= MAX_FRAME_LEN,
            Err(e) => le_value(prefix@) > MAX_FRAME_LEN && e == FrameError::TooLarge,
        },
{
    let n: u32 = le_read(prefix);
    if n > MAX_FRAME_LEN {
        Err(FrameError::TooLarge)
    } else {
        Ok(n)
    }
}

/// Takes a frame off the front of the bytes that a stream has delivered.
pub fn read_frame(bytes: &[u8]) -> (r: Front)
    ensures
        r@ == front(bytes@),
{
    if bytes.len() < 4 {
        return Front::Incomplete;
    }
    let n: usize = match frame_body_len(bytes) {
        Ok(n) => n as usize,
        Err(_) => return Front::Oversized,
    };
    if bytes.len() - 4 < n {
        return Front::Incomplete;
    }
    let end: usize = 4 + n;
    let mut body: Vec<u8> = Vec::new();
    let mut i: usize = 4;
    while i < end
        invariant
            4 <= i <= end <= bytes@.len(),
            body@ == bytes@.subrange(4, i as int),
        decreases end - i,
    {
        body.push(bytes[i]);
        i += 1;
    }
    let mut rest: Vec<u8> = Vec::new();
    while i < bytes.len()
        invariant
            end <= i <= bytes@.len(),
            rest@ == bytes@.subrange(end as int, i as int),
        decreases bytes@.len() - i,
    {
        rest.push(bytes[i]);
        i += 1;
    }
    Front::Whole(body, rest)
}

/// How writing a frame to a peer goes on.
#[derive(Clone, Copy, PartialEq, Eq, Structural, Debug)]
pub enum LinkAction {
    /// Open a stream to the peer.
    Open,
    /// Write the frame to the stream.
    Write,
    /// The frame is written.
    Written,
    /// The frame is dropped.
    Dropped,
}

/// What happened on the link to a peer.
#[derive(Clone, Copy, PartialEq, Eq, Structural, Debug)]
pub enum LinkEvent {
    Opened,
    OpenFailed,
    WriteDone,
    WriteFailed,
}

/// One frame on its way to a peer. A stream may have died since the last write, so a second
/// attempt is made over a new one; there is no third.
#[derive(Clone, Copy, PartialEq, Eq, Structural, Debug)]
pub struct Delivery {
    /// Whether a write has already failed.
    pub retrying: bool,
}

/// The first thing to do for a frame.
pub fn begin_delivery(connected: bool) -> (r: (Delivery, LinkAction))
    ensures
        r.0 == (Delivery { retrying: false }),
        r.1 == (if connected {
            LinkAction::Write
        } else {
            LinkAction::Open
        }),
{
    (Delivery { retrying: false }, if connected { LinkAction::Write } else { LinkAction::Open })
}

/// What is done after an event, for a frame that was or was not tried before.
pub open spec fn delivery_next(d: Delivery, event: LinkEvent) -> (Delivery, LinkAction) {
    match event {
        LinkEvent::Opened => (d, LinkAction::Write),
        LinkEvent::OpenFailed => (d, LinkAction::Dropped),
        LinkEvent::WriteDone => (d, LinkAction::Written),
        LinkEvent::WriteFailed => if d.retrying {
            (d, LinkAction::Dropped)
        } else {
            (Delivery { retrying: true }, LinkAction::Open)
        },
    }
}

/// What to do next for a frame.
pub fn continue_delivery(d: Delivery, event: LinkEvent) -> (r: (Delivery, LinkAction))
    ensures
        r == delivery_next(d, event),
{
    match event {
        LinkEvent::Opened => (d, LinkAction::Write),
        LinkEvent::OpenFailed => (d, LinkAction::Dropped),
        LinkEvent::WriteDone => (d, LinkAction::Written),
        LinkEvent::WriteFailed => if d.retrying {
            (d, LinkAction::Dropped)
        } else {
            (Delivery { retrying: true }, LinkAction::Open)
        },
    }
}

/// A second failed write drops the frame, whether or not the stream could be opened again.
pub proof fn law_no_third_attempt(d: Delivery)
    ensures
        ({
            let once = delivery_next(d, LinkEvent::WriteFailed).0;
            delivery_next(
                delivery_next(once, LinkEvent::Opened).0,
                LinkEvent::WriteFailed,
            ).1 is Dropped
        }),
{
}

} // verus!
