//! What a server does with what it receives, what is generated for one, and how a frame is
//! delivered.

use crate::gen_server;
use crate::gen_server::{
    Behaviour,
    CastResult,
    DispatchView,
    HandledView,
    Handlers,
    Method,
    ServerRun,
};
use crate::mailbox::MailboxMessage;
use crate::policy;
use crate::supervised;
use crate::supervisor::{Restart, Strategy};
use crate::transport;
use crate::transport::{Delivery, FrontView, LinkAction, LinkEvent};
use vstd::prelude::*;

verus! {

/// A message goes to the handler that it is for, if the server has it: a call to the call
/// handler, data that is marked as a cast to the cast handler with the mark taken off, and other
/// data to the info handler. What there is no handler for is ignored, and so is what the system
/// says.
pub proof fn law_messages_go_to_their_handlers(h: Handlers, msg: MailboxMessage)
    ensures
        ({
            let d = gen_server::routed(h, msg);
            match msg {
                MailboxMessage::Tagged { ref_id, payload } => {
                    &&& !h.call ==> d is Ignore
                    &&& gen_server::call_parts(payload@) is None ==> d is Ignore
                    &&& h.call ==> (gen_server::call_parts(payload@) matches Some((from, request))
                        ==> d == (DispatchView::Call { ref_id, from, request }))
                },
                MailboxMessage::Data(data) => {
                    let cast = h.cast && data@.len() > 0 && data@[0] == 1u8;
                    &&& cast ==> d == DispatchView::Cast(data@.skip(1))
                    &&& !cast && h.info ==> d == DispatchView::Info(data@)
                    &&& !cast && !h.info ==> d is Ignore
                },
                _ => d is Ignore,
            }
        }),
{
}

/// A handler's answer goes back to the caller, under the reference of the call, where the caller
/// is found; a server goes on unless a handler that was told something stops it.
pub proof fn law_answers_go_to_the_caller(
    ref_id: u64,
    from: Seq<char>,
    request: Seq<u8>,
    bytes: Seq<u8>,
    told: Seq<u8>,
    c: CastResult,
    found: bool,
)
    ensures
        ({
            let call = DispatchView::Call { ref_id, from, request };
            let end = gen_server::pass_end(call, HandledView::Replied(bytes), found);
            &&& found ==> end.reply == Some((from, ref_id, bytes))
            &&& !found ==> end.reply is None
            &&& end.goes_on
        }),
        ({
            let cast = gen_server::pass_end(
                DispatchView::Cast(told),
                HandledView::Told(c),
                found,
            );
            let info = gen_server::pass_end(
                DispatchView::Info(told),
                HandledView::Told(c),
                found,
            );
            &&& cast.reply is None && info.reply is None
            &&& cast.goes_on <==> c is Continue
            &&& info.goes_on <==> c is Continue
        }),
{
}

/// A cast or another message changes the server's state as its handler says, sends nothing back,
/// and ends the server exactly where the handler says so. One that cannot be read changes
/// nothing.
pub proof fn law_casts_change_the_state<S>(
    h: Handlers,
    b: Behaviour<S>,
    run: ServerRun<S>,
    found: spec_fn(Seq<char>) -> bool,
    data: Vec<u8>,
)
    requires
        !run.over,
    ensures
        ({
            let after = run.passed(h, b, Some(MailboxMessage::Data(data)), found);
            let cast = h.cast && data@.len() > 0 && data@[0] == 1u8;
            &&& after.sent == run.sent && after.answered == run.answered
            &&& cast ==> match (b.cast)(run.state, data@.skip(1)) {
                Some((next, c)) => after.state == next && (after.over <==> c is Stop),
                None => after == run,
            }
            &&& !cast && h.info ==> after.state == (b.info)(run.state, data@).0 && (after.over <==> (
            b.info)(run.state, data@).1 is Stop)
            &&& !cast && !h.info ==> after == run
        }),
{
}

/// A method of a name.
pub open spec fn method_at(methods: Seq<Method>, name: Seq<char>, i: int) -> bool {
    0 <= i < methods.len() && methods[i].name@ == name
}

/// There is a method of a name.
pub open spec fn has_method(methods: Seq<Method>, name: Seq<char>) -> bool {
    exists|i: int| #[trigger] method_at(methods, name, i)
}

proof fn lemma_has_method(methods: Seq<Method>, name: Seq<char>)
    requires
        methods.len() > 0,
    ensures
        has_method(methods, name) <==> has_method(methods.drop_last(), name)
            || methods.last().name@ == name,
{
    let init = methods.drop_last();
    if has_method(init, name) {
        let i = choose|i: int| #[trigger] method_at(init, name, i);
        assert(method_at(methods, name, i));
    }
    if methods.last().name@ == name {
        assert(method_at(methods, name, methods.len() - 1));
    }
    if has_method(methods, name) {
        let i = choose|i: int| #[trigger] method_at(methods, name, i);
        if i < init.len() {
            assert(method_at(init, name, i));
        }
    }
}

proof fn lemma_method_words()
    ensures
        "init"@ != "handle_call"@,
        "init"@ != "handle_cast"@,
        "init"@ != "handle_info"@,
        "handle_call"@ != "handle_cast"@,
        "handle_call"@ != "handle_info"@,
        "handle_cast"@ != "handle_info"@,
{
    reveal_strlit("init");
    reveal_strlit("handle_call");
    reveal_strlit("handle_cast");
    reveal_strlit("handle_info");
    assert("init"@.len() == 4);
    assert("handle_call"@.len() == 11);
    assert("handle_cast"@.len() == 11);
    assert("handle_info"@.len() == 11);
    assert("handle_call"@[9] == 'l' && "handle_cast"@[9] == 's' && "handle_info"@[9] == 'f');
}

/// A server has the handlers that are written for it, and no others.
pub proof fn law_handlers_are_those_written(name: Seq<char>, methods: Seq<Method>)
    ensures
        ({
            let plan = gen_server::planned(name, methods);
            &&& plan.name == name
            &&& plan.handlers.init <==> has_method(methods, "init"@)
            &&& plan.handlers.call <==> has_method(methods, "handle_call"@)
            &&& plan.handlers.cast <==> has_method(methods, "handle_cast"@)
            &&& plan.handlers.info <==> has_method(methods, "handle_info"@)
        }),
    decreases methods.len(),
{
    lemma_method_words();
    if methods.len() > 0 {
        law_handlers_are_those_written(name, methods.drop_last());
        lemma_has_method(methods, "init"@);
        lemma_has_method(methods, "handle_call"@);
        lemma_has_method(methods, "handle_cast"@);
        lemma_has_method(methods, "handle_info"@);
    }
}

/// What a method of a name takes, where it says so.
pub open spec fn takes_at(methods: Seq<Method>, name: Seq<char>, i: int, t: Seq<char>) -> bool {
    method_at(methods, name, i) && (methods[i].takes matches Some(s) && s@ == t)
}

/// What a method of a name returns, where it says so.
pub open spec fn returns_at(methods: Seq<Method>, name: Seq<char>, i: int, t: Seq<char>) -> bool {
    method_at(methods, name, i) && (methods[i].returns matches Some(s) && s@ == t)
}

/// The types of a call and of a cast are those that their handlers are written with.
pub proof fn law_types_are_those_written(name: Seq<char>, methods: Seq<Method>, i: int)
    ensures
        ({
            let plan = gen_server::planned(name, methods);
            &&& plan.call_request matches Some(t) ==> exists|k: int| #[trigger]
                takes_at(methods, "handle_call"@, k, t)
            &&& plan.call_reply matches Some(t) ==> exists|k: int| #[trigger]
                returns_at(methods, "handle_call"@, k, t)
            &&& plan.cast_message matches Some(t) ==> exists|k: int| #[trigger]
                takes_at(methods, "handle_cast"@, k, t)
            &&& method_at(methods, "handle_call"@, i) && methods[i].takes is Some
                ==> plan.call_request is Some
            &&& method_at(methods, "handle_call"@, i) && methods[i].returns is Some
                ==> plan.call_reply is Some
            &&& method_at(methods, "handle_cast"@, i) && methods[i].takes is Some
                ==> plan.cast_message is Some
        }),
    decreases methods.len(),
{
    lemma_method_words();
    if methods.len() > 0 {
        let init = methods.drop_last();
        let last = methods.len() - 1;
        let m = methods[last];
        law_types_are_those_written(name, init, i);
        let before = gen_server::planned(name, init);
        let plan = gen_server::planned(name, methods);
        if i < last && i >= 0 {
            assert(init[i] == methods[i]);
        }
        if let Some(t) = plan.call_request {
            if m.name@ == "handle_call"@ && m.takes is Some {
                assert(takes_at(methods, "handle_call"@, last, t));
            } else {
                let k = choose|k: int| #[trigger] takes_at(init, "handle_call"@, k, t);
                assert(takes_at(methods, "handle_call"@, k, t));
            }
        }
        if let Some(t) = plan.call_reply {
            if m.name@ == "handle_call"@ && m.returns is Some {
                assert(returns_at(methods, "handle_call"@, last, t));
            } else {
                let k = choose|k: int| #[trigger] returns_at(init, "handle_call"@, k, t);
                assert(returns_at(methods, "handle_call"@, k, t));
            }
        }
        if let Some(t) = plan.cast_message {
            if m.name@ == "handle_cast"@ && m.takes is Some {
                assert(takes_at(methods, "handle_cast"@, last, t));
            } else {
                let k = choose|k: int| #[trigger] takes_at(init, "handle_cast"@, k, t);
                assert(takes_at(methods, "handle_cast"@, k, t));
            }
        }
    }
}

/// A frame is written once its stream is open, and is done when it is written. A stream that
/// cannot be opened drops it. A write that fails is tried once more on a new stream, and then
/// drops it.
pub proof fn law_a_frame_is_tried_twice(d: Delivery)
    ensures
        transport::delivery_next(d, LinkEvent::Opened) == (d, LinkAction::Write),
        transport::delivery_next(d, LinkEvent::WriteDone).1 is Written,
        transport::delivery_next(d, LinkEvent::OpenFailed).1 is Dropped,
        !d.retrying ==> transport::delivery_next(d, LinkEvent::WriteFailed).1 is Open
            && transport::delivery_next(d, LinkEvent::WriteFailed).0.retrying,
        d.retrying ==> transport::delivery_next(d, LinkEvent::WriteFailed).1 is Dropped,
{
}

/// A frame says its length first, in four bytes, the lowest first, and then holds its body. A
/// length over the greatest one is refused at once.
pub proof fn law_how_frames_are_laid_out(body: Seq<u8>, bytes: Seq<u8>)
    requires
        body.len() <= 1_048_576,
    ensures
        ({
            let f = transport::frame(body);
            &&& f.len() == 4 + body.len()
            &&& f[0] + f[1] * 256 + f[2] * 65536 + f[3] * 16777216 == body.len()
            &&& f.skip(4) == body
        }),
        bytes.len() >= 4 ==> (transport::front(bytes) is Oversized <==> bytes[0] + bytes[1] * 256
            + bytes[2] * 65536 + bytes[3] * 16777216 > 1_048_576),
        transport::front(bytes) matches FrontView::Whole(b, rest) ==> bytes == bytes.take(4) + b
            + rest,
{
    let f = transport::frame(body);
    let n = body.len() as int;
    assert(f.skip(4) =~= body);
    transport::lemma_le_roundtrip(n, body);
    assert(f =~= transport::le_bytes(n) + body);
    if let FrontView::Whole(b, rest) = transport::front(bytes) {
        assert(bytes =~= bytes.take(4) + b + rest);
    }
}

/// A call says the length of its caller's text first, in four bytes, the lowest first; then that
/// text, and then the request.
pub proof fn law_how_calls_are_laid_out(from: Seq<char>, request: Seq<u8>)
    requires
        vstd::utf8::encode_utf8(from).len() <= u32::MAX,
    ensures
        ({
            let text = vstd::utf8::encode_utf8(from);
            let p = gen_server::call_bytes(from, request);
            &&& p.len() == 4 + text.len() + request.len()
            &&& p[0] + p[1] * 256 + p[2] * 65536 + p[3] * 16777216 == text.len()
            &&& p.subrange(4, 4 + text.len() as int) == text
            &&& p.skip(4 + text.len() as int) == request
        }),
{
    let text = vstd::utf8::encode_utf8(from);
    let p = gen_server::call_bytes(from, request);
    transport::lemma_le_roundtrip(text.len() as int, text + request);
    assert(p =~= transport::le_bytes(text.len() as int) + (text + request));
    assert(p.subrange(4, 4 + text.len() as int) =~= text);
    assert(p.skip(4 + text.len() as int) =~= request);
}

/// A set of capabilities allows what it was made of, and nothing else.
pub proof fn law_capabilities_are_those_named(caps: Seq<&str>, c: Seq<char>)
    ensures
        policy::named_set(caps).contains(c) <==> exists|i: int|
            0 <= i < caps.len() && (#[trigger] caps[i])@ == c,
{
}

/// All that can be allowed: logging, what particles and actors do, and reading and writing the
/// database.
pub proof fn law_what_can_be_allowed(c: Seq<char>)
    ensures
        policy::known_capabilities().contains(c) <==> c == "logging"@ || c == "particle:send"@ || c
            == "particle:spawn"@ || c == "particle:link"@ || c == "particle:monitor"@ || c
            == "particle:register"@ || c == "particle:lookup"@ || c == "actor:call"@ || c
            == "actor:notify"@ || c == "actor:send"@ || c == "actor:receive"@ || c == "db:read"@
            || c == "db:write"@,
{
}

/// The words for a strategy and for a restart each name their own, and any other word names the
/// plainest one.
pub proof fn law_words_for_supervision(s: Seq<char>)
    ensures
        supervised::strategy_named(s) == Strategy::OneForAll <==> s == "one-for-all"@,
        supervised::strategy_named(s) == Strategy::RestForOne <==> s == "rest-for-one"@,
        supervised::restart_named(s) == Restart::Transient <==> s == "transient"@,
        supervised::restart_named(s) == Restart::Temporary <==> s == "temporary"@,
{
    reveal_strlit("one-for-all");
    reveal_strlit("rest-for-one");
    reveal_strlit("transient");
    reveal_strlit("temporary");
    assert("one-for-all"@.len() == 11 && "rest-for-one"@.len() == 12);
    assert("transient"@[1] != "temporary"@[1]);
}

} // verus!
