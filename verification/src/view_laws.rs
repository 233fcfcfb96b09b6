//! What is seen of lists, options and messages is all of them: item by item, field by field.

use crate::actors;
use crate::cli;
use crate::cli::CliError;
use crate::doc_registry;
use crate::doc_registry::{CacheView, KeyView, RemoteView};
use crate::global;
use crate::global::{RequestView, ResponseView};
use crate::host::{Destination, DestinationView};
use crate::invoke;
use crate::invoke::ArgText;
use crate::message::ExitReason;
use crate::pid;
use crate::pid::{NodeId, Pid};
use crate::registry;
use crate::registry::{EntryView, ParticleDeath};
use crate::supervise;
use crate::supervise::Asked;
use crate::supervised;
use crate::supervised::ChildDecl;
use crate::supervisor::{ChildSpec, Restart, Shutdown};
use crate::text;
use crate::transport;
use crate::transport::{Addressee, AddresseeView, Effect, EffectView, PeerMessage, PeerMessageView};
use crate::wire::{GlobalRequest, GlobalResponse};
use vstd::prelude::*;

verus! {

/// A list is seen item by item, in its order.
pub proof fn law_lists_are_seen_whole(
    effects: Seq<Effect>,
    deaths: Seq<ParticleDeath>,
    strings: Seq<String>,
    args: Seq<ArgText>,
    requests: Seq<(NodeId, GlobalRequest)>,
    i: int,
)
    ensures
        transport::effects_view(effects).len() == effects.len(),
        0 <= i < effects.len() ==> transport::effects_view(effects)[i] == effects[i]@,
        registry::deaths_view(deaths).len() == deaths.len(),
        0 <= i < deaths.len() ==> registry::deaths_view(deaths)[i] == deaths[i]@,
        text::texts(strings).len() == strings.len(),
        0 <= i < strings.len() ==> text::texts(strings)[i] == strings[i]@,
        cli::words(strings) == text::texts(strings),
        invoke::args_view(args).len() == args.len(),
        0 <= i < args.len() ==> invoke::args_view(args)[i] == args[i]@,
        global::requests_view(requests).len() == requests.len(),
        0 <= i < requests.len() ==> global::requests_view(requests)[i] == (
            requests[i].0,
            requests[i].1@,
        ),
{
    assert(cli::words(strings) =~= text::texts(strings));
}

/// Lists of names and of children are seen item by item, in their order.
pub proof fn law_pairs_are_seen_whole(
    pairs: Seq<(String, Pid)>,
    losers: Seq<(String, Pid, Pid)>,
    live: Seq<(String, String)>,
    pending: Seq<Asked>,
    i: int,
)
    ensures
        global::pairs_view(pairs).len() == pairs.len(),
        0 <= i < pairs.len() ==> global::pairs_view(pairs)[i] == (pairs[i].0@, pairs[i].1),
        global::losers_view(losers).len() == losers.len(),
        0 <= i < losers.len() ==> global::losers_view(losers)[i] == (
            losers[i].0@,
            losers[i].1,
            losers[i].2,
        ),
        supervise::live_view(live).len() == live.len(),
        0 <= i < live.len() ==> supervise::live_view(live)[i] == (live[i].0@, live[i].1@),
        supervise::pending_view(pending).len() == pending.len(),
        0 <= i < pending.len() ==> supervise::pending_view(pending)[i].id == pending[i].id@
            && supervise::pending_view(pending)[i].pid == pending[i].pid@
            && supervise::pending_view(pending)[i].deadline == pending[i].deadline,
{
}

/// An option is seen as what it holds, and as nothing where it holds nothing.
pub proof fn law_options_are_seen_whole(
    s: Option<String>,
    t: Option<&str>,
    n: Option<NodeId>,
    e: Option<CliError>,
)
    ensures
        registry::opt_text(s) is Some <==> s is Some,
        s matches Some(x) ==> registry::opt_text(s) == Some(x@),
        registry::opt_str(t) is Some <==> t is Some,
        t matches Some(x) ==> registry::opt_str(t) == Some(x@),
        cli::opt_node(n) is Some <==> n is Some,
        n matches Some(x) ==> cli::opt_node(n) == Some(x.bytes()),
        cli::opt_error(e) is Some <==> e is Some,
        e matches Some(x) ==> cli::opt_error(e) == Some(x@),
{
}

/// Of a destination and of an addressee the pid or the name is seen.
pub proof fn law_addresses_are_seen_whole(d: Destination, a: Addressee)
    ensures
        match d {
            Destination::Pid(p) => d@ == DestinationView::Pid(p),
            Destination::LocalNamed(n) => d@ == DestinationView::LocalNamed(n@),
            Destination::Named(node, n) => d@ == DestinationView::Named(node@, n@),
        },
        match a {
            Addressee::Pid(p) => a@ == AddresseeView::Pid(p),
            Addressee::Name(n) => a@ == AddresseeView::Name(n@),
        },
{
}

/// Of what goes to another node everything is seen: two messages that are seen as the same say
/// the same.
pub proof fn law_peer_messages_are_seen_whole(m: PeerMessage, n: NodeId)
    ensures
        Effect::Send(n, m)@ == EffectView::Send(n, m@),
        Effect::Disconnect(n)@ == EffectView::Disconnect(n),
        match m {
            PeerMessage::Announce { nodes } => m@ == PeerMessageView::Announce { nodes: nodes@ },
            PeerMessage::Deliver(e) => m@ == PeerMessageView::Deliver {
                target: e.target@,
                ref_id: e.ref_id,
                payload: e.payload@,
            },
            PeerMessage::Link { from, to } => m@ == PeerMessageView::Link { from, to: to@ },
            PeerMessage::Unlink { from, to } => m@ == PeerMessageView::Unlink { from, to: to@ },
            PeerMessage::Monitor { watcher, target, ref_id } => m@ == PeerMessageView::Monitor {
                watcher,
                target: target@,
                ref_id,
            },
            PeerMessage::Demonitor { watcher, ref_id } => m@ == PeerMessageView::Demonitor {
                watcher,
                ref_id,
            },
            PeerMessage::Exit { from, to, reason } => m@ == PeerMessageView::Exit {
                from,
                to,
                reason,
            },
            PeerMessage::ExitSignal { from, to, reason } => m@ == PeerMessageView::ExitSignal {
                from,
                to: to@,
                reason,
            },
            PeerMessage::Down { from, to, ref_id, reason } => m@ == PeerMessageView::Down {
                from,
                to,
                ref_id,
                reason,
            },
            PeerMessage::LostConnection { reporter, lost, op_id } => m@
                == PeerMessageView::LostConnection { reporter, lost, op_id },
            PeerMessage::RemoveConnection { from } => m@ == PeerMessageView::RemoveConnection {
                from,
            },
        },
{
}

/// Of what nodes ask each other about names everything is seen.
pub proof fn law_name_requests_are_seen_whole(req: GlobalRequest, r: GlobalResponse)
    ensures
        match req {
            GlobalRequest::Lock { name, holder } => req@ == RequestView::Lock {
                name: name@,
                holder,
            },
            GlobalRequest::Commit { name, pid, holder } => req@ == RequestView::Commit {
                name: name@,
                pid,
                holder,
            },
            GlobalRequest::Unlock { name, holder } => req@ == RequestView::Unlock {
                name: name@,
                holder,
            },
            GlobalRequest::Release { name, pid } => req@ == RequestView::Release {
                name: name@,
                pid,
            },
            GlobalRequest::Sync { names } => req@ == RequestView::Sync {
                names: global::pairs_view(names@),
            },
        },
        r is Locked <==> r@ is Locked,
        r is Busy <==> r@ is Busy,
        r is Done <==> r@ is Done,
        r matches GlobalResponse::Taken(p) ==> r@ == ResponseView::Taken(p),
        r matches GlobalResponse::Names(v) ==> r@ == ResponseView::Names(global::pairs_view(v@)),
{
}

/// When a node goes down, what it takes out of the document for a particle is every key that the
/// particle has there: that of its pid, and that of its name.
pub proof fn law_every_key_is_taken_out(x: (Pid, Vec<String>), e: EntryView)
    requires
        doc_registry::is_down_of(x, e),
        pid::is_public_key(e.pid.node.bytes()),
    ensures
        x.0 == e.pid,
        x.1@.len() == (if e.name is Some {
            2nat
        } else {
            1
        }),
        x.1@[0]@ == doc_registry::rendered(
            KeyView::Pid(pid::key_text(e.pid.node.bytes(), e.pid.seq)),
        ),
        e.name matches Some(n) ==> x.1@[1]@ == doc_registry::rendered(KeyView::Name(n)),
{
    let keys = doc_registry::keys_of(e.pid, e.name);
    assert(text::texts(x.1@).len() == keys.len());
    assert(text::texts(x.1@)[0] == keys[0]);
    if e.name is Some {
        assert(text::texts(x.1@)[1] == keys[1]);
    }
}

/// What is cached is counted: nothing at first, and one more for every new name.
pub proof fn law_what_is_cached_is_counted(c: CacheView, name: Seq<char>, r: RemoteView)
    requires
        c.names.dom().finite(),
    ensures
        CacheView::empty().size() == 0,
        c.size() == c.names.dom().len() + c.pids.dom().len(),
        !c.names.contains_key(name) ==> c.inserted(KeyView::Name(name), r).size() == c.size() + 1,
        c.names.contains_key(name) ==> c.inserted(KeyView::Name(name), r).size() == c.size(),
{
    assert(CacheView::empty().names.dom() =~= Set::<Seq<char>>::empty());
    assert(CacheView::empty().pids.dom() =~= Set::<Pid>::empty());
    let put = c.inserted(KeyView::Name(name), r);
    assert(put.names.dom() =~= c.names.dom().insert(name));
}

/// A reason is an exception with a text exactly where it holds that text.
pub proof fn law_what_an_exception_says(r: ExitReason, why: Seq<char>)
    ensures
        invoke::is_exception(r, why) <==> (r matches ExitReason::Exception(s) && s@ == why),
{
}

/// What stops an echo is the word `stop`, and nothing else.
pub proof fn law_the_word_that_stops(data: Seq<u8>)
    ensures
        data == actors::stop_word() <==> vstd::utf8::valid_utf8(data) && vstd::utf8::decode_utf8(
            data,
        ) == "stop"@,
{
    vstd::utf8::encode_utf8_valid_utf8("stop"@);
    vstd::utf8::encode_utf8_decode_utf8("stop"@);
    if vstd::utf8::valid_utf8(data) {
        vstd::utf8::decode_utf8_encode_utf8(data);
    }
}

/// A declared child is specified as it is declared: under its id, with its restart, and started in
/// its role under that id.
pub proof fn law_children_are_specified_as_declared(s: ChildSpec, d: ChildDecl)
    requires
        supervised::specified(s, d),
    ensures
        s.id@ == d.id@,
        s.start.component@ == "supervised"@,
        s.shutdown == Shutdown::Timeout(1_000),
        s.restart == Restart::Transient <==> d.restart@ == "transient"@,
        s.restart == Restart::Temporary <==> d.restart@ == "temporary"@,
        d.role@ == "crasher"@ ==> s.start.init_args@ == "{\"crasher\":{\"name\":\""@ + d.id@
            + "\"}}"@,
        d.role@ == "finisher"@ ==> s.start.init_args@ == "{\"finisher\":{\"name\":\""@ + d.id@
            + "\"}}"@,
        d.role@ != "crasher"@ && d.role@ != "finisher"@ ==> s.start.init_args@
            == "{\"worker\":{\"name\":\""@ + d.id@ + "\"}}"@,
{
    reveal_strlit("transient");
    reveal_strlit("temporary");
    reveal_strlit("crasher");
    reveal_strlit("finisher");
    assert("transient"@[1] != "temporary"@[1]);
    assert("crasher"@.len() == 7 && "finisher"@.len() == 8);
}

} // verus!
