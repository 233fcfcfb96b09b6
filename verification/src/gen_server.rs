//! Servers: how calls and casts are written, and which handler a message is for.

use crate::mailbox;
use crate::mailbox::MailboxMessage;
use crate::registry;
use crate::text::read_utf8;
use crate::transport;
use crate::transport::{le_prefix, le_read};
use vstd::prelude::*;
use vstd::string::*;

verus! {

/// Whether a server goes on after a message.
#[derive(Clone, Copy, PartialEq, Eq, Structural, Debug)]
pub enum CastResult {
    Continue,
    Stop,
}

/// Why a call brought no reply.
#[derive(PartialEq, Debug)]
pub enum CallError {
    Timeout,
    SendFailed,
    Decode(String),
}

impl CallError {
    /// The error in words.
    pub fn to_text(&self) -> (r: String)
        ensures
            r@ == match *self {
                CallError::Timeout => "call timed out"@,
                CallError::SendFailed => "send failed"@,
                CallError::Decode(e) => "decode error: "@ + e@,
            },
    {
        match self {
            CallError::Timeout => "call timed out".to_owned(),
            CallError::SendFailed => "send failed".to_owned(),
            CallError::Decode(e) => {
                let mut r = "decode error: ".to_owned();
                r.append(e.as_str());
                r
            },
        }
    }
}

/// A call: the length of the caller's pid text in four bytes, that text, and the request.
pub open spec fn call_bytes(from: Seq<char>, request: Seq<u8>) -> Seq<u8> {
    let text = vstd::utf8::encode_utf8(from);
    transport::le_bytes(text.len() as int) + text + request
}

/// The caller's pid text and the request that a call carries, if it is one.
pub open spec fn call_parts(payload: Seq<u8>) -> Option<(Seq<char>, Seq<u8>)> {
    if payload.len() < 4 || payload.len() < 4 + transport::le_value(payload) {
        None
    } else {
        let end = 4 + transport::le_value(payload);
        let text = payload.subrange(4, end);
        if vstd::utf8::valid_utf8(text) {
            Some((vstd::utf8::decode_utf8(text), payload.skip(end)))
        } else {
            None
        }
    }
}

/// The payload of a call, from the particle with this pid text.
pub fn call_payload(from: &str, request: &[u8]) -> (r: Vec<u8>)
    requires
        vstd::utf8::encode_utf8(from@).len() <= u32::MAX,
    ensures
        r@ == call_bytes(from@, request@),
{
    let text = from.as_bytes();
    let mut r = le_prefix(text.len() as u32);
    r.extend_from_slice(text);
    r.extend_from_slice(request);
    r
}

/// The caller's pid text and the request that a call carries, if it is one.
pub fn read_call(payload: &[u8]) -> (r: Option<(String, Vec<u8>)>)
    ensures
        match r {
            Some((from, request)) => call_parts(payload@) == Some((from@, request@)),
            None => call_parts(payload@) is None,
        },
{
    let n: usize = payload.len();
    if n < 4 {
        return None;
    }
    let len: u32 = le_read(payload);
    if ((n - 4) as u64) < len as u64 {
        return None;
    }
    let end: usize = 4 + len as usize;
    let text = vstd::slice::slice_subrange(payload, 4, end);
    match read_utf8(text) {
        Some(from) => {
            let rest = vstd::slice::slice_subrange(payload, end, n);
            Some((from.to_owned(), vstd::slice::slice_to_vec(rest)))
        },
        None => None,
    }
}

/// What a cast begins with.
pub const CAST_TAG: u8 = 1;

/// A cast: its tag, then the message.
pub fn cast_payload(msg: &[u8]) -> (r: Vec<u8>)
    ensures
        r@ == seq![CAST_TAG] + msg@,
{
    let mut r: Vec<u8> = Vec::new();
    r.push(CAST_TAG);
    r.extend_from_slice(msg);
    r
}

/// Which handlers a server has.
#[derive(Clone, Copy, PartialEq, Eq, Structural, Debug)]
pub struct Handlers {
    pub init: bool,
    pub call: bool,
    pub cast: bool,
    pub info: bool,
}

/// The handler that a message is for.
#[derive(PartialEq, Debug)]
pub enum Dispatch {
    Call { ref_id: u64, from: String, request: Vec<u8> },
    Cast(Vec<u8>),
    Info(Vec<u8>),
    /// None: the message is dropped.
    Ignore,
}

/// The handler that a message is for.
pub enum DispatchView {
    Call { ref_id: u64, from: Seq<char>, request: Seq<u8> },
    Cast(Seq<u8>),
    Info(Seq<u8>),
    Ignore,
}

impl View for Dispatch {
    type V = DispatchView;

    open spec fn view(&self) -> DispatchView {
        match *self {
            Dispatch::Call { ref_id, from, request } => DispatchView::Call {
                ref_id,
                from: from@,
                request: request@,
            },
            Dispatch::Cast(m) => DispatchView::Cast(m@),
            Dispatch::Info(d) => DispatchView::Info(d@),
            Dispatch::Ignore => DispatchView::Ignore,
        }
    }
}

/// Where plain data goes: what is tagged as a cast to that handler, the rest to the one for
/// anything else. A server without a handler for casts hands it everything.
pub open spec fn data_route(h: Handlers, data: Seq<u8>) -> DispatchView {
    if h.cast && data.len() > 0 && data[0] == CAST_TAG {
        DispatchView::Cast(data.skip(1))
    } else if h.info {
        DispatchView::Info(data)
    } else {
        DispatchView::Ignore
    }
}

/// Where a call goes.
pub open spec fn call_route(h: Handlers, ref_id: u64, payload: Seq<u8>) -> DispatchView {
    match call_parts(payload) {
        Some((from, request)) if h.call => DispatchView::Call { ref_id, from, request },
        _ => DispatchView::Ignore,
    }
}

/// Where a message goes.
pub open spec fn routed(h: Handlers, msg: MailboxMessage) -> DispatchView {
    match msg {
        MailboxMessage::Tagged { ref_id, payload } => call_route(h, ref_id, payload@),
        MailboxMessage::Data(data) => data_route(h, data@),
        _ => DispatchView::Ignore,
    }
}

/// The handler that a message is for.
pub fn route(h: Handlers, msg: MailboxMessage) -> (r: Dispatch)
    ensures
        r@ == routed(h, msg),
{
    match msg {
        MailboxMessage::Tagged { ref_id, payload } => {
            if !h.call {
                return Dispatch::Ignore;
            }
            match read_call(payload.as_slice()) {
                Some((from, request)) => Dispatch::Call { ref_id, from, request },
                None => Dispatch::Ignore,
            }
        },
        MailboxMessage::Data(data) => {
            if h.cast && data.len() > 0 && data[0] == CAST_TAG {
                let rest = vstd::slice::slice_subrange(data.as_slice(), 1, data.len());
                Dispatch::Cast(vstd::slice::slice_to_vec(rest))
            } else if h.info {
                Dispatch::Info(data)
            } else {
                Dispatch::Ignore
            }
        },
        _ => Dispatch::Ignore,
    }
}

/// What a handler made of the bytes that it was handed.
#[derive(PartialEq, Debug)]
pub enum Handled {
    /// They could not be decoded, and it was not run.
    Undecoded,
    /// It answered a call: the reply, encoded.
    Replied(Vec<u8>),
    /// It took in what it was told.
    Told(CastResult),
}

/// What a handler made of the bytes that it was handed.
pub enum HandledView {
    Undecoded,
    Replied(Seq<u8>),
    Told(CastResult),
}

impl View for Handled {
    type V = HandledView;

    open spec fn view(&self) -> HandledView {
        match *self {
            Handled::Undecoded => HandledView::Undecoded,
            Handled::Replied(b) => HandledView::Replied(b@),
            Handled::Told(c) => HandledView::Told(c),
        }
    }
}

/// How one pass of a server's loop ends.
pub struct PassEnd {
    /// What is sent: to the particle with this pid text, under this reference, these bytes.
    pub reply: Option<(String, u64, Vec<u8>)>,
    /// Whether the server waits for the next message.
    pub goes_on: bool,
}

/// How one pass of a server's loop ends.
pub struct PassEndView {
    pub reply: Option<(Seq<char>, u64, Seq<u8>)>,
    pub goes_on: bool,
}

impl View for PassEnd {
    type V = PassEndView;

    open spec fn view(&self) -> PassEndView {
        PassEndView {
            reply: match self.reply {
                Some((to, ref_id, bytes)) => Some((to@, ref_id, bytes@)),
                None => None,
            },
            goes_on: self.goes_on,
        }
    }
}

/// How a pass ends: a call that was answered is replied to, under its own reference, where the
/// caller is found; a server that is told something may stop; anything else leaves it waiting.
pub open spec fn pass_end(d: DispatchView, handled: HandledView, caller_found: bool) -> PassEndView {
    match (d, handled) {
        (DispatchView::Call { ref_id, from, .. }, HandledView::Replied(bytes)) => PassEndView {
            reply: if caller_found {
                Some((from, ref_id, bytes))
            } else {
                None
            },
            goes_on: true,
        },
        (DispatchView::Cast(_), HandledView::Told(c)) => PassEndView {
            reply: None,
            goes_on: c is Continue,
        },
        (DispatchView::Info(_), HandledView::Told(c)) => PassEndView {
            reply: None,
            goes_on: c is Continue,
        },
        _ => PassEndView { reply: None, goes_on: true },
    }
}

/// Begins a pass of a server's loop: the handler to run. None where the mailbox is closed, and
/// with it the loop is over.
pub fn begin_pass(h: Handlers, received: Option<MailboxMessage>) -> (r: Option<Dispatch>)
    ensures
        match received {
            None => r is None,
            Some(msg) => r matches Some(d) && d@ == routed(h, msg),
        },
{
    match received {
        None => None,
        Some(msg) => Some(route(h, msg)),
    }
}

/// Ends a pass of a server's loop.
pub fn finish_pass(d: &Dispatch, handled: Handled, caller_found: bool) -> (r: PassEnd)
    ensures
        r@ == pass_end(d@, handled@, caller_found),
{
    match (d, handled) {
        (Dispatch::Call { ref_id, from, .. }, Handled::Replied(bytes)) => {
            if caller_found {
                PassEnd { reply: Some((from.clone(), *ref_id, bytes)), goes_on: true }
            } else {
                PassEnd { reply: None, goes_on: true }
            }
        },
        (Dispatch::Cast(_), Handled::Told(c)) => PassEnd {
            reply: None,
            goes_on: c == CastResult::Continue,
        },
        (Dispatch::Info(_), Handled::Told(c)) => PassEnd {
            reply: None,
            goes_on: c == CastResult::Continue,
        },
        _ => PassEnd { reply: None, goes_on: true },
    }
}

/// The handlers of a server: what each makes of its state and of the bytes it is handed. None
/// where the bytes cannot be decoded.
#[verifier::reject_recursive_types(S)]
pub struct Behaviour<S> {
    pub call: spec_fn(S, Seq<u8>) -> Option<(S, Seq<u8>)>,
    pub cast: spec_fn(S, Seq<u8>) -> Option<(S, CastResult)>,
    pub info: spec_fn(S, Seq<u8>) -> (S, CastResult),
}

/// A server at work.
#[verifier::ext_equal]
pub struct ServerRun<S> {
    pub state: S,
    /// The requests that the handler for calls was run with.
    pub answered: Seq<Seq<u8>>,
    /// What was sent.
    pub sent: Seq<(Seq<char>, u64, Seq<u8>)>,
    pub over: bool,
}

impl<S> Behaviour<S> {
    /// The state after a message was handed to its handler, and what that made of it.
    pub open spec fn handling(self, s: S, d: DispatchView) -> (S, HandledView) {
        match d {
            DispatchView::Call { request, .. } => match (self.call)(s, request) {
                Some((next, reply)) => (next, HandledView::Replied(reply)),
                None => (s, HandledView::Undecoded),
            },
            DispatchView::Cast(msg) => match (self.cast)(s, msg) {
                Some((next, c)) => (next, HandledView::Told(c)),
                None => (s, HandledView::Undecoded),
            },
            DispatchView::Info(data) => {
                let (next, c) = (self.info)(s, data);
                (next, HandledView::Told(c))
            },
            DispatchView::Ignore => (s, HandledView::Undecoded),
        }
    }
}

impl<S> ServerRun<S> {
    /// After one pass of the loop. `found` says which callers are found.
    pub open spec fn passed(
        self,
        h: Handlers,
        b: Behaviour<S>,
        received: Option<MailboxMessage>,
        found: spec_fn(Seq<char>) -> bool,
    ) -> ServerRun<S> {
        match received {
            _ if self.over => self,
            None => ServerRun { over: true, ..self },
            Some(msg) => {
                let d = routed(h, msg);
                let (state, handled) = b.handling(self.state, d);
                let end = pass_end(d, handled, d matches DispatchView::Call { from, .. } && found(from));
                ServerRun {
                    state,
                    answered: match (d, handled) {
                        (DispatchView::Call { request, .. }, HandledView::Replied(_)) =>
                            self.answered.push(request),
                        _ => self.answered,
                    },
                    sent: match end.reply {
                        Some(reply) => self.sent.push(reply),
                        None => self.sent,
                    },
                    over: !end.goes_on,
                }
            },
        }
    }
}

/// The reply to a call: what came back under its reference, or nothing in time.
pub fn call_reply(received: Option<MailboxMessage>) -> (r: Result<Vec<u8>, CallError>)
    ensures
        match received {
            Some(MailboxMessage::Tagged { payload, .. }) => r == Ok::<Vec<u8>, CallError>(payload),
            _ => r == Err::<Vec<u8>, CallError>(CallError::Timeout),
        },
{
    match received {
        Some(MailboxMessage::Tagged { payload, .. }) => Ok(payload),
        _ => Err(CallError::Timeout),
    }
}

/// A method of a server, as its source declares it.
pub struct Method {
    pub name: String,
    /// The type of what it takes besides itself.
    pub takes: Option<String>,
    /// The type of what it hands back.
    pub returns: Option<String>,
}

/// Why nothing can be generated for a server.
#[derive(Clone, Copy, PartialEq, Eq, Structural, Debug)]
pub enum PlanError {
    /// What it is written for is no struct: its type is not a path.
    NoStruct,
}

/// What is generated for a server.
pub struct ServerPlan {
    /// The struct that it is written for.
    pub name: String,
    pub handlers: Handlers,
    pub call_request: Option<String>,
    pub call_reply: Option<String>,
    pub cast_message: Option<String>,
}

/// What is generated for a server.
#[verifier::ext_equal]
pub struct PlanView {
    pub name: Seq<char>,
    pub handlers: Handlers,
    pub call_request: Option<Seq<char>>,
    pub call_reply: Option<Seq<char>>,
    pub cast_message: Option<Seq<char>>,
}

impl View for ServerPlan {
    type V = PlanView;

    open spec fn view(&self) -> PlanView {
        PlanView {
            name: self.name@,
            handlers: self.handlers,
            call_request: registry::opt_text(self.call_request),
            call_reply: registry::opt_text(self.call_reply),
            cast_message: registry::opt_text(self.cast_message),
        }
    }
}

/// The later of two optional texts.
pub open spec fn or_earlier(later: Option<Seq<char>>, earlier: Option<Seq<char>>) -> Option<
    Seq<char>,
> {
    match later {
        Some(t) => Some(t),
        None => earlier,
    }
}

impl PlanView {
    pub open spec fn empty(name: Seq<char>) -> PlanView {
        PlanView {
            name,
            handlers: Handlers { init: false, call: false, cast: false, info: false },
            call_request: None,
            call_reply: None,
            cast_message: None,
        }
    }

    /// With one more method.
    pub open spec fn with(self, m: Method) -> PlanView {
        if m.name@ == "init"@ {
            PlanView { handlers: Handlers { init: true, ..self.handlers }, ..self }
        } else if m.name@ == "handle_call"@ {
            PlanView {
                handlers: Handlers { call: true, ..self.handlers },
                call_request: or_earlier(registry::opt_text(m.takes), self.call_request),
                call_reply: or_earlier(registry::opt_text(m.returns), self.call_reply),
                ..self
            }
        } else if m.name@ == "handle_cast"@ {
            PlanView {
                handlers: Handlers { cast: true, ..self.handlers },
                cast_message: or_earlier(registry::opt_text(m.takes), self.cast_message),
                ..self
            }
        } else if m.name@ == "handle_info"@ {
            PlanView { handlers: Handlers { info: true, ..self.handlers }, ..self }
        } else {
            self
        }
    }
}

/// What is generated for a struct with these methods.
pub open spec fn planned(name: Seq<char>, methods: Seq<Method>) -> PlanView
    decreases methods.len(),
{
    if methods.len() == 0 {
        PlanView::empty(name)
    } else {
        planned(name, methods.drop_last()).with(methods.last())
    }
}

fn is(name: &String, word: &str) -> (r: bool)
    ensures
        r == (name@ == word@),
{
    *name == word.to_owned()
}

fn set_from(slot: &mut Option<String>, given: &Option<String>)
    ensures
        registry::opt_text(*final(slot)) == or_earlier(
            registry::opt_text(*given),
            registry::opt_text(*old(slot)),
        ),
{
    match given {
        Some(t) => {
            *slot = Some(t.clone());
        },
        None => {},
    }
}

/// What is generated for a server: its handlers go by the names of the methods. `self_type` is the
/// last segment of the type that it is written for, where that is a path.
pub fn plan_gen_server(self_type: &Option<String>, methods: &Vec<Method>) -> (r: Result<
    ServerPlan,
    PlanError,
>)
    ensures
        match *self_type {
            Some(name) => r matches Ok(plan) && plan@ == planned(name@, methods@),
            None => r == Err::<ServerPlan, PlanError>(PlanError::NoStruct),
        },
{
    let name = match self_type {
        Some(name) => name.clone(),
        None => return Err(PlanError::NoStruct),
    };
    let mut plan = ServerPlan {
        name,
        handlers: Handlers { init: false, call: false, cast: false, info: false },
        call_request: None,
        call_reply: None,
        cast_message: None,
    };
    let ghost name = self_type->0;
    let mut i: usize = 0;
    while i < methods.len()
        invariant
            i <= methods@.len(),
            plan@ == planned(name@, methods@.take(i as int)),
        decreases methods@.len() - i,
    {
        let m = &methods[i];
        proof {
            assert(methods@.take(i + 1).drop_last() =~= methods@.take(i as int));
        }
        if is(&m.name, "init") {
            plan.handlers.init = true;
        } else if is(&m.name, "handle_call") {
            plan.handlers.call = true;
            set_from(&mut plan.call_request, &m.takes);
            set_from(&mut plan.call_reply, &m.returns);
        } else if is(&m.name, "handle_cast") {
            plan.handlers.cast = true;
            set_from(&mut plan.cast_message, &m.takes);
        } else if is(&m.name, "handle_info") {
            plan.handlers.info = true;
        }
        i += 1;
    }
    assert(methods@.take(methods@.len() as int) =~= methods@);
    Ok(plan)
}

/// A parameter of an entry point.
pub enum MainParam {
    Receiver,
    /// The last segment of its type, where the type is a path.
    Typed(Option<String>),
}

/// How an entry point gets its arguments.
#[derive(Clone, Copy, PartialEq, Eq, Structural, Debug)]
pub enum MainPlan {
    /// It takes none.
    NoArguments,
    /// It takes the text as it is.
    Text,
    /// It takes what the text says as JSON.
    Json,
}

/// Whether a type is `String`, by the last segment of its path.
pub fn is_string_type(last_segment: &Option<String>) -> (r: bool)
    ensures
        r == (last_segment matches Some(s) && s@ == "String"@),
{
    match last_segment {
        Some(s) => is(s, "String"),
        None => false,
    }
}

/// How an entry point with these parameters gets its arguments: only the first counts.
pub fn plan_main(params: &Vec<MainParam>) -> (r: MainPlan)
    ensures
        r == (if params@.len() == 0 {
            MainPlan::NoArguments
        } else {
            match params@[0] {
                MainParam::Receiver => MainPlan::NoArguments,
                MainParam::Typed(t) => if t matches Some(s) && s@ == "String"@ {
                    MainPlan::Text
                } else {
                    MainPlan::Json
                },
            }
        }),
{
    if params.len() == 0 {
        return MainPlan::NoArguments;
    }
    match &params[0] {
        MainParam::Receiver => MainPlan::NoArguments,
        MainParam::Typed(t) => if is_string_type(t) {
            MainPlan::Text
        } else {
            MainPlan::Json
        },
    }
}

/// A server reads back the caller and the request that the client wrote.
pub proof fn law_calls_read_back(from: Seq<char>, request: Seq<u8>)
    requires
        vstd::utf8::encode_utf8(from).len() <= u32::MAX,
    ensures
        call_parts(call_bytes(from, request)) == Some((from, request)),
{
    let text = vstd::utf8::encode_utf8(from);
    let n = text.len() as int;
    let bytes = call_bytes(from, request);
    transport::lemma_le_roundtrip(n, text + request);
    assert(bytes.subrange(4, 4 + n) =~= text);
    vstd::utf8::encode_utf8_valid_utf8(from);
    vstd::utf8::encode_utf8_decode_utf8(from);
}

/// What was cast reaches the handler for casts, where there is one.
pub proof fn law_casts_reach_their_handler(h: Handlers, msg: Seq<u8>)
    requires
        h.cast,
    ensures
        data_route(h, seq![CAST_TAG] + msg) == DispatchView::Cast(msg),
{
    assert((seq![CAST_TAG] + msg).skip(1) =~= msg);
}

/// A call reaches the handler for calls, where there is one, with its reference.
pub proof fn law_calls_reach_their_handler(
    h: Handlers,
    ref_id: u64,
    from: Seq<char>,
    request: Seq<u8>,
)
    requires
        h.call,
        vstd::utf8::encode_utf8(from).len() <= u32::MAX,
    ensures
        call_route(h, ref_id, call_bytes(from, request)) == (DispatchView::Call {
            ref_id,
            from,
            request,
        }),
{
    law_calls_read_back(from, request);
}

/// How values are written as bytes and read back.
#[verifier::reject_recursive_types(T)]
pub struct Codec<T> {
    pub encode: spec_fn(T) -> Seq<u8>,
    pub decode: spec_fn(Seq<u8>) -> Option<T>,
}

impl<T> Codec<T> {
    /// What was written is read back.
    pub open spec fn reads_back(self, t: T) -> bool {
        (self.decode)((self.encode)(t)) == Some(t)
    }
}

/// The handler for calls that decodes the request, runs `handle` and encodes the reply.
pub open spec fn calling<S, Q, R>(
    requests: Codec<Q>,
    replies: Codec<R>,
    handle: spec_fn(S, Q) -> (S, R),
) -> spec_fn(S, Seq<u8>) -> Option<(S, Seq<u8>)> {
    |s: S, bytes: Seq<u8>|
        match (requests.decode)(bytes) {
            Some(q) => {
                let (next, reply) = handle(s, q);
                Some((next, (replies.encode)(reply)))
            },
            None => None,
        }
}

/// A call is answered once, and its caller gets the reply: a server that receives what a caller
/// has sent runs its handler with an equal request and sends the reply to the caller, under the
/// reference of the call. In a mailbox where nothing else answers to that reference it is what the
/// caller's wait ends with, and is read as that reply. The server goes on.
pub proof fn law_a_call_returns_the_reply<S, Q, R>(
    h: Handlers,
    b: Behaviour<S>,
    run: ServerRun<S>,
    requests: Codec<Q>,
    replies: Codec<R>,
    handle: spec_fn(S, Q) -> (S, R),
    found: spec_fn(Seq<char>) -> bool,
    from: Seq<char>,
    ref_id: u64,
    q: Q,
    payload: Vec<u8>,
    returned: Vec<u8>,
    waiting: Seq<MailboxMessage>,
)
    requires
        h.call,
        !run.over,
        b.call == calling(requests, replies, handle),
        requests.reads_back(q),
        replies.reads_back(handle(run.state, q).1),
        found(from),
        vstd::utf8::encode_utf8(from).len() <= u32::MAX,
        payload@ == call_bytes(from, (requests.encode)(q)),
        returned@ == (replies.encode)(handle(run.state, q).1),
        forall|i: int|
            0 <= i < waiting.len() ==> !mailbox::answers(#[trigger] waiting[i], ref_id),
    ensures
        run.passed(h, b, Some(MailboxMessage::Tagged { ref_id, payload }), found) == (ServerRun {
            state: handle(run.state, q).0,
            answered: run.answered.push((requests.encode)(q)),
            sent: run.sent.push((from, ref_id, returned@)),
            over: false,
        }),
        mailbox::first_answer(
            waiting.push(MailboxMessage::Tagged { ref_id, payload: returned }),
            ref_id,
            waiting.len() as int,
        ),
        (replies.decode)(returned@) == Some(handle(run.state, q).1),
{
    law_calls_reach_their_handler(h, ref_id, from, (requests.encode)(q));
}

/// A call that cannot be decoded is passed over: no handler runs, nothing is sent, and the server
/// goes on.
pub proof fn law_undecodable_calls_are_passed_over<S>(
    h: Handlers,
    b: Behaviour<S>,
    run: ServerRun<S>,
    found: spec_fn(Seq<char>) -> bool,
    ref_id: u64,
    payload: Vec<u8>,
)
    requires
        !run.over,
        call_parts(payload@) matches Some((_, request)) ==> (b.call)(run.state, request) is None,
    ensures
        run.passed(h, b, Some(MailboxMessage::Tagged { ref_id, payload }), found) == run,
{
}

/// A server's loop ends when its mailbox is closed, or when a handler that it told something says
/// so, and for nothing else.
pub proof fn law_what_ends_a_server<S>(
    h: Handlers,
    b: Behaviour<S>,
    run: ServerRun<S>,
    received: Option<MailboxMessage>,
    found: spec_fn(Seq<char>) -> bool,
)
    requires
        !run.over,
    ensures
        run.passed(h, b, received, found).over <==> match received {
            None => true,
            Some(msg) => b.handling(run.state, routed(h, msg)).1 == HandledView::Told(
                CastResult::Stop,
            ),
        },
{
}

} // verus!
