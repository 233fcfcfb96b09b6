//! Servers, the driver of a supervisor, the examples, and how particles are started.

use plasmoid::actors::{echo, echo_answer, echo_argument, reverse, strip_quotes, Echo};
use plasmoid::gen_server::{
    begin_pass, call_payload, call_reply, cast_payload, finish_pass, is_string_type,
    plan_gen_server, plan_main, read_call, route, CallError, CastResult, Dispatch, Handled,
    Handlers, MainParam, MainPlan, Method, PlanError,
};
use plasmoid::invoke::{
    actor_payload, actor_response, begin_child_spawn, begin_linked_spawn, begin_local_spawn, finish_local_spawn,
    interpret_start_result, parse_wave_args, remote_spawn_outcome, start_candidates, trap_reason,
    ArgError, ArgText, ExportItem, ParamKind, StartValue,
};
use plasmoid::mailbox::{MailboxMessage, Received, SpawnFailure};
use plasmoid::message;
use plasmoid::message::ExitReason;
use plasmoid::pid::{NodeId, Pid, PidGenerator};
use plasmoid::policy::PolicySet;
use plasmoid::protocol::{finish_spawn, handle_send, handle_spawn, SpawnBegun};
use plasmoid::registry::ParticleRegistry;
use plasmoid::ring::{
    closing, opening, orchestrator_done, total_hops, worker_setup, worker_step, RingMsg, SetupStep,
    WorkStep,
};
use plasmoid::supervise::{Driver, Step, SupervisorOp, SupervisorReply};
use plasmoid::supervised::{children, flags, ChildDecl};
use plasmoid::supervisor::{Action, ChildSpec, Restart, Shutdown, Strategy, SupFlags};
use plasmoid::wire::{
    send_command, send_outcome, spawn_command, spawn_outcome, ClientError, Command,
    CommandResponse, SendRequest, SendResponse, SpawnFailureWire, SpawnRequest, SpawnResponse,
    SpawnResult, Target,
};

fn a_node() -> NodeId {
    NodeId::from_bytes(iroh::SecretKey::generate().public().as_bytes()).unwrap()
}

fn make_registry() -> ParticleRegistry {
    ParticleRegistry::new(PidGenerator::new(a_node()))
}

const ALL: Handlers = Handlers { init: true, call: true, cast: true, info: true };

#[test]
fn calls_are_read_as_they_are_written() {
    let payload = call_payload("<ab.1>", b"request");
    assert_eq!(&payload[..4], &6u32.to_le_bytes());
    assert_eq!(read_call(&payload), Some(("<ab.1>".to_string(), b"request".to_vec())));
    assert_eq!(read_call(&payload[..3]), None);
    assert_eq!(read_call(&payload[..9]), None);
    assert_eq!(read_call(&[1, 0, 0, 0, 0xff]), None);
    assert_eq!(read_call(&[0xff, 0xff, 0xff, 0xff, 1]), None);
    assert_eq!(read_call(&[0, 0, 0, 0]), Some((String::new(), vec![])));
}

#[test]
fn messages_reach_their_handlers() {
    let call = MailboxMessage::Tagged { ref_id: 9, payload: call_payload("<a.1>", b"q") };
    assert_eq!(
        route(ALL, call),
        Dispatch::Call { ref_id: 9, from: "<a.1>".to_string(), request: b"q".to_vec() }
    );
    let bad = MailboxMessage::Tagged { ref_id: 9, payload: vec![1] };
    assert_eq!(route(ALL, bad), Dispatch::Ignore);

    let cast = || MailboxMessage::Data(cast_payload(b"go"));
    let info = || MailboxMessage::Data(b"info".to_vec());
    assert_eq!(route(ALL, cast()), Dispatch::Cast(b"go".to_vec()));
    assert_eq!(route(ALL, info()), Dispatch::Info(b"info".to_vec()));

    let no_cast = Handlers { cast: false, ..ALL };
    assert_eq!(route(no_cast, cast()), Dispatch::Info(b"\x01go".to_vec()));
    let no_info = Handlers { info: false, ..ALL };
    assert_eq!(route(no_info, info()), Dispatch::Ignore);
    assert_eq!(route(no_info, cast()), Dispatch::Cast(b"go".to_vec()));
    let none = Handlers { init: false, call: false, cast: false, info: false };
    assert_eq!(route(none, cast()), Dispatch::Ignore);
    assert_eq!(
        route(none, MailboxMessage::Tagged { ref_id: 1, payload: call_payload("a", b"") }),
        Dispatch::Ignore
    );
    let exit = MailboxMessage::Exit {
        from: Pid { node: a_node(), seq: 1 },
        reason: message::ExitReason::Normal,
    };
    assert_eq!(route(ALL, exit), Dispatch::Ignore);
}

#[test]
fn a_pass_of_a_server_answers_a_call_under_its_reference() {
    let call = |payload: Vec<u8>| Some(MailboxMessage::Tagged { ref_id: 9, payload });
    let good = || call(call_payload("<a.1>", b"q"));

    let d = begin_pass(ALL, good()).unwrap();
    assert!(matches!(&d, Dispatch::Call { request, .. } if request == b"q"));
    let end = finish_pass(&d, Handled::Replied(b"r".to_vec()), true);
    assert_eq!(end.reply, Some(("<a.1>".to_string(), 9, b"r".to_vec())));
    assert!(end.goes_on);
    let (_, ref_id, payload) = end.reply.unwrap();
    assert_eq!(
        call_reply(Some(MailboxMessage::Tagged { ref_id, payload })),
        Ok(b"r".to_vec())
    );

    let d = begin_pass(ALL, good()).unwrap();
    let gone = finish_pass(&d, Handled::Replied(b"r".to_vec()), false);
    assert!(gone.reply.is_none() && gone.goes_on, "a caller that is gone gets nothing");
    let skipped = finish_pass(&d, Handled::Undecoded, true);
    assert!(skipped.reply.is_none() && skipped.goes_on);
    let d = begin_pass(ALL, call(vec![1])).unwrap();
    assert_eq!(d, Dispatch::Ignore);
    assert!(finish_pass(&d, Handled::Undecoded, true).goes_on);

    for data in [cast_payload(b"go"), b"info".to_vec()] {
        let d = begin_pass(ALL, Some(MailboxMessage::Data(data))).unwrap();
        assert!(finish_pass(&d, Handled::Told(CastResult::Continue), false).goes_on);
        assert!(!finish_pass(&d, Handled::Told(CastResult::Stop), false).goes_on);
        assert!(finish_pass(&d, Handled::Undecoded, false).goes_on);
    }
    assert!(begin_pass(ALL, None).is_none(), "a closed mailbox ends the loop");
}

#[test]
fn a_call_has_its_reply_or_a_timeout() {
    assert_eq!(
        call_reply(Some(MailboxMessage::Tagged { ref_id: 1, payload: vec![7] })),
        Ok(vec![7])
    );
    assert_eq!(call_reply(Some(MailboxMessage::Data(vec![7]))), Err(CallError::Timeout));
    assert_eq!(call_reply(None), Err(CallError::Timeout));
    assert_eq!(CallError::Timeout.to_text(), "call timed out");
    assert_eq!(CallError::SendFailed.to_text(), "send failed");
    assert_eq!(CallError::Decode("x".to_string()).to_text(), "decode error: x");
}

fn method(name: &str, takes: Option<&str>, returns: Option<&str>) -> Method {
    Method {
        name: name.to_string(),
        takes: takes.map(|s| s.to_string()),
        returns: returns.map(|s| s.to_string()),
    }
}

#[test]
fn a_server_is_planned_by_its_methods() {
    let counter = Some("Counter".to_string());
    let methods = vec![
        method("helper", Some("u8"), None),
        method("handle_call", Some("Vec<u8>"), Some("String")),
        method("handle_info", Some("Vec<u8>"), None),
    ];
    assert_eq!(plan_gen_server(&None, &methods).err(), Some(PlanError::NoStruct));
    let plan = plan_gen_server(&counter, &methods).unwrap();
    assert_eq!(plan.name, "Counter");
    assert_eq!(plan.handlers, Handlers { init: false, call: true, cast: false, info: true });
    assert_eq!(plan.call_request.as_deref(), Some("Vec<u8>"));
    assert_eq!(plan.call_reply.as_deref(), Some("String"));
    assert_eq!(plan.cast_message, None);
    let methods = vec![
        method("init", Some("String"), None),
        method("handle_cast", Some("Msg"), None),
    ];
    let plan = plan_gen_server(&counter, &methods).unwrap();
    assert_eq!(plan.handlers, Handlers { init: true, call: false, cast: true, info: false });
    assert_eq!(plan.cast_message.as_deref(), Some("Msg"));
}

#[test]
fn an_entry_point_gets_its_arguments_by_their_type() {
    assert_eq!(plan_main(&vec![]), MainPlan::NoArguments);
    assert_eq!(plan_main(&vec![MainParam::Receiver]), MainPlan::NoArguments);
    assert_eq!(plan_main(&vec![MainParam::Typed(Some("String".to_string()))]), MainPlan::Text);
    assert_eq!(plan_main(&vec![MainParam::Typed(Some("Config".to_string()))]), MainPlan::Json);
    assert_eq!(plan_main(&vec![MainParam::Typed(None)]), MainPlan::Json);
    assert!(is_string_type(&Some("String".to_string())));
    assert!(!is_string_type(&Some("str".to_string())));
    assert!(!is_string_type(&None));
}

#[test]
fn the_echo_actors_give_back_what_they_get() {
    let mut server = Echo;
    assert_eq!(server.handle_call(vec![1, 2]), vec![1, 2]);
    assert_eq!(server.handle_info(b"stop".to_vec()), CastResult::Stop);
    assert_eq!(server.handle_info(b"stop!".to_vec()), CastResult::Continue);
    assert_eq!(server.handle_info(b"step".to_vec()), CastResult::Continue);
    assert_eq!(echo("hi".to_string()), "hi");
    assert_eq!(reverse("héllo"), "olléh");
    assert_eq!(echo_argument("hi"), "\"hi\"");
    assert_eq!(strip_quotes("\"hi\""), "hi");
    assert_eq!(strip_quotes("\""), "\"");
    assert_eq!(strip_quotes("\"hi"), "\"hi");
    assert_eq!(echo_answer(Ok(vec!["\"hi\"".to_string()])), Ok("hi".to_string()));
    assert_eq!(echo_answer(Ok(vec![])), Err("echo returned no results".to_string()));
    assert_eq!(echo_answer(Err("down".to_string())), Err("down".to_string()));
}

#[test]
fn a_message_goes_round_the_ring() {
    let workers: Vec<String> = (0..5).map(|i| format!("<w.{i}>")).collect();
    let sent = opening(&workers, 7, "m");
    let n = workers.len();
    assert_eq!(sent.len(), n + 1);
    for (i, (to, msg)) in sent.iter().take(n).enumerate() {
        assert_eq!(to, &workers[i]);
        assert_eq!(msg, &RingMsg::Setup(workers[(i + 1) % n].clone()));
    }
    assert_eq!(sent[n].0, workers[n - 1]);
    assert_eq!(sent[n].1, RingMsg::Hop { remaining: 7, master: "m".to_string() });
    let mut at = n - 1;
    let mut msg = RingMsg::Hop { remaining: 7, master: "m".to_string() };
    let mut hops = 0;
    loop {
        match worker_step(Some(msg)) {
            WorkStep::Pass { remaining, master } => {
                msg = RingMsg::Hop { remaining, master };
                at = (at + 1) % n;
                hops += 1;
            }
            WorkStep::Report(master) => {
                assert_eq!(master, "m");
                break;
            }
            other => panic!("unexpected {other:?}"),
        }
    }
    assert_eq!(hops, 7);
    assert_eq!(at, (n - 1 + 7) % n);
    let alone = vec!["<w.0>".to_string()];
    assert_eq!(opening(&alone, 1, "m")[0].1, RingMsg::Setup("<w.0>".to_string()));
    assert_eq!(
        closing(&workers),
        workers.iter().map(|w| (w.clone(), RingMsg::Stop)).collect::<Vec<_>>()
    );
    assert!(closing(&vec![]).is_empty());
    assert_eq!(total_hops(100, 1000), 100_000);
    assert_eq!(total_hops(u32::MAX, u32::MAX), 18446744065119617025);
    assert!(orchestrator_done(&RingMsg::Finished));
    assert!(!orchestrator_done(&RingMsg::Stop));
}

#[test]
fn a_worker_waits_for_its_neighbour() {
    assert_eq!(worker_setup(None), SetupStep::Closed);
    assert_eq!(worker_setup(Some(RingMsg::Finished)), SetupStep::Wait);
    assert_eq!(worker_setup(Some(RingMsg::Stop)), SetupStep::Stop);
    assert_eq!(
        worker_setup(Some(RingMsg::Setup("<a.1>".to_string()))),
        SetupStep::Resolve("<a.1>".to_string())
    );
    assert_eq!(worker_step(None), WorkStep::Stop);
    assert_eq!(worker_step(Some(RingMsg::Stop)), WorkStep::Stop);
    assert_eq!(worker_step(Some(RingMsg::Finished)), WorkStep::Wait);
}

#[test]
fn declared_children_become_specifications() {
    let decl = |id: &str, role: &str, restart: &str| ChildDecl {
        id: id.to_string(),
        role: role.to_string(),
        restart: restart.to_string(),
    };
    let specs = children(&vec![
        decl("w", "worker", "permanent"),
        decl("c", "crasher", "transient"),
        decl("f", "finisher", "temporary"),
        decl("o", "other", "other"),
    ]);
    assert_eq!(specs[0].start.init_args, r#"{"worker":{"name":"w"}}"#);
    assert_eq!(specs[1].start.init_args, r#"{"crasher":{"name":"c"}}"#);
    assert_eq!(specs[2].start.init_args, r#"{"finisher":{"name":"f"}}"#);
    assert_eq!(specs[3].start.init_args, r#"{"worker":{"name":"o"}}"#);
    assert_eq!(
        specs.iter().map(|s| s.restart).collect::<Vec<_>>(),
        vec![Restart::Permanent, Restart::Transient, Restart::Temporary, Restart::Permanent]
    );
    assert!(specs.iter().all(|s| s.start.component == "supervised"));
    assert!(specs.iter().all(|s| s.shutdown == Shutdown::Timeout(1_000)));
    assert_eq!(flags("one-for-all", 3).strategy, Strategy::OneForAll);
    assert_eq!(flags("rest-for-one", 3).strategy, Strategy::RestForOne);
    assert_eq!(flags("anything", 3).strategy, Strategy::OneForOne);
    assert_eq!(flags("anything", 3).intensity, 3);
    assert_eq!(flags("anything", 3).period_ms, 5_000);
}

fn spawned(d: &mut Driver, now: u64) -> String {
    match d.next_step(now) {
        Step::Spawn(c) => c.id,
        other => panic!("expected a spawn, got {other:?}"),
    }
}

#[test]
fn a_crashed_child_is_spawned_again() {
    let mut d = Driver::new(SupFlags::default(), vec![ChildSpec::new("a", "worker")]);
    assert_eq!(spawned(&mut d, 0), "a");
    d.child_spawned("a".to_string(), "<x.1>".to_string());
    assert_eq!(d.next_step(0), Step::Wait(None));

    d.on_exit(&"<stranger.1>".to_string(), &message::ExitReason::Kill, 0);
    assert_eq!(d.next_step(0), Step::Wait(None), "an exit of a stranger changes nothing");

    d.on_exit(&"<x.1>".to_string(), &message::ExitReason::Exception("boom".into()), 0);
    assert_eq!(spawned(&mut d, 0), "a");
    d.child_spawned("a".to_string(), "<x.2>".to_string());
    d.on_exit(&"<x.2>".to_string(), &message::ExitReason::Exception("boom".into()), 1);
    assert_eq!(d.next_step(1), Step::GiveUp, "twice within five seconds is too often");
}

#[test]
fn a_child_that_cannot_start_counts_as_failed() {
    let mut d = Driver::new(
        SupFlags { strategy: Strategy::OneForOne, intensity: 1, period_ms: 5_000 },
        vec![ChildSpec::new("a", "worker")],
    );
    assert_eq!(spawned(&mut d, 0), "a");
    d.spawn_failed("a", 0);
    assert_eq!(spawned(&mut d, 0), "a");
    d.spawn_failed("a", 0);
    assert_eq!(d.next_step(0), Step::GiveUp);
}

#[test]
fn a_restarted_child_is_not_killed_for_the_instance_before_it() {
    for stubborn in [false, true] {
        let mut d = Driver::new(
            SupFlags { strategy: Strategy::OneForAll, intensity: 100, period_ms: 5_000 },
            vec![
                ChildSpec::new("a", "worker"),
                ChildSpec::new("b", "worker").shutdown(Shutdown::Timeout(1_000)),
            ],
        );
        for (id, pid) in [("a", "<x.1>"), ("b", "<x.2>")] {
            assert_eq!(spawned(&mut d, 0), id);
            d.child_spawned(id.to_string(), pid.to_string());
        }
        d.on_exit(&"<x.1>".to_string(), &message::ExitReason::Exception("boom".into()), 0);
        assert_eq!(d.next_step(0), Step::AskToStop("<x.2>".to_string()));
        for (id, pid) in [("a", "<x.3>"), ("b", "<x.4>")] {
            assert_eq!(spawned(&mut d, 0), id);
            d.child_spawned(id.to_string(), pid.to_string());
        }
        if !stubborn {
            let why = message::ExitReason::Shutdown("shutdown".into());
            d.on_exit(&"<x.2>".to_string(), &why, 10);
            assert_eq!(d.next_step(10), Step::Wait(None));
        }
        let killed: Vec<String> = if stubborn { vec!["<x.2>".to_string()] } else { vec![] };
        let late: Vec<String> = d.on_timeout(1_000).into_iter().map(|x| x.pid).collect();
        assert_eq!(late, killed);

        d.on_exit(&"<x.4>".to_string(), &message::ExitReason::Killed, 1_000);
        assert_eq!(d.next_step(1_000), Step::AskToStop("<x.3>".to_string()));
    }
}

#[test]
fn a_child_that_does_not_stop_in_time_is_killed() {
    let mut d = Driver::new(
        SupFlags { strategy: Strategy::OneForAll, intensity: 100, period_ms: 5_000 },
        vec![
            ChildSpec::new("a", "worker"),
            ChildSpec::new("b", "worker").shutdown(Shutdown::Timeout(1_000)),
            ChildSpec::new("c", "worker").shutdown(Shutdown::BrutalKill),
        ],
    );
    for (id, pid) in [("a", "<x.1>"), ("b", "<x.2>"), ("c", "<x.3>")] {
        assert_eq!(spawned(&mut d, 0), id);
        d.child_spawned(id.to_string(), pid.to_string());
    }
    d.on_exit(&"<x.1>".to_string(), &message::ExitReason::Exception("boom".into()), 0);
    assert_eq!(d.next_step(0), Step::Kill("<x.3>".to_string()));
    assert_eq!(d.next_step(0), Step::AskToStop("<x.2>".to_string()));
    assert_eq!(spawned(&mut d, 0), "a");
    d.child_spawned("a".to_string(), "<x.4>".to_string());
    assert_eq!(spawned(&mut d, 0), "b");
    assert_eq!(spawned(&mut d, 0), "c");
    d.child_spawned("c".to_string(), "<x.5>".to_string());
    assert_eq!(d.next_step(400), Step::Wait(Some(600)));
    assert!(d.on_timeout(999).is_empty());
    let late = d.on_timeout(1_000);
    assert_eq!(late.len(), 1);
    assert_eq!((late[0].id.as_str(), late[0].pid.as_str()), ("b", "<x.2>"));
    assert_eq!(d.next_step(1_000), Step::Wait(None));
}

#[test]
fn arguments_are_cut_for_the_parameters_of_start() {
    let raw = |s: &str| ArgText::Raw(s.to_string());
    let wave = |s: &str| ArgText::Wave(s.to_string());
    assert_eq!(parse_wave_args("", &vec![]), Ok(vec![]));
    assert_eq!(
        parse_wave_args("{\"a\": 1, \"b\": 2}", &vec![ParamKind::Text]),
        Ok(vec![raw("{\"a\": 1, \"b\": 2}")])
    );
    assert_eq!(
        parse_wave_args("1, 2", &vec![ParamKind::Wave, ParamKind::Wave]),
        Ok(vec![wave("1"), wave("2")])
    );
    assert_eq!(
        parse_wave_args("1", &vec![ParamKind::Wave, ParamKind::Wave]),
        Err(ArgError::WrongCount { expected: 2, got: 1 })
    );
    assert_eq!(parse_wave_args("", &vec![ParamKind::Wave]), Err(ArgError::Missing));
}

#[test]
fn white_space_around_an_argument_is_what_unicode_says() {
    let params = vec![ParamKind::Wave, ParamKind::Wave];
    let is_space = |n: u32| {
        matches!(n, 0x9..=0xd | 0x20 | 0x85 | 0xa0 | 0x1680 | 0x2000..=0x200a)
            || matches!(n, 0x2028 | 0x2029 | 0x202f | 0x205f | 0x3000)
    };
    for c in '\0'..=char::MAX {
        if c == ',' {
            continue;
        }
        let first = if is_space(c as u32) { "1".to_string() } else { format!("{c}1{c}") };
        assert_eq!(
            parse_wave_args(&format!("{c}1{c},2"), &params),
            Ok(vec![ArgText::Wave(first), ArgText::Wave("2".to_string())]),
            "{:x}",
            c as u32
        );
    }
}

#[test]
fn start_is_looked_for_at_the_top_and_then_inside() {
    assert_eq!(
        start_candidates(&vec![
            ExportItem::Other,
            ExportItem::Instance(
                "plasmoid:app/main".to_string(),
                vec!["stop".to_string(), "start".to_string()]
            ),
            ExportItem::CoreFunc("start".to_string()),
            ExportItem::CoreFunc("init".to_string()),
        ]),
        vec!["start", "plasmoid:app/main/start", "start"]
    );
}

#[test]
fn the_end_of_start_is_the_reason_of_the_particle() {
    assert_eq!(interpret_start_result(&vec![]), ExitReason::Normal);
    assert_eq!(interpret_start_result(&vec![StartValue::Plain]), ExitReason::Normal);
    assert_eq!(interpret_start_result(&vec![StartValue::Good]), ExitReason::Normal);
    assert_eq!(
        interpret_start_result(&vec![StartValue::Bad("x".to_string())]),
        ExitReason::Exception("start failed: x".to_string())
    );
    assert_eq!(
        interpret_start_result(&vec![StartValue::BadSilent]),
        ExitReason::Exception("start failed (no error details)".to_string())
    );
    assert_eq!(trap_reason("oops"), ExitReason::Exception("start trap: oops".to_string()));
}

#[test]
fn spawns_are_answered_by_what_went_wrong() {
    let mut registry = make_registry();
    registry.register_component("echo", PolicySet::all());
    let request = |component: &str, name: Option<&str>| SpawnRequest {
        component: component.to_string(),
        name: name.map(|s| s.to_string()),
        init_args: String::new(),
    };
    assert_eq!(
        handle_spawn(&request("no-such-component", None), &mut registry),
        SpawnBegun::Refused(SpawnResponse { result: Err(SpawnFailureWire::ComponentNotFound) })
    );
    let SpawnBegun::Start(pid) = handle_spawn(&request("echo", Some("e")), &mut registry) else {
        panic!("the component is there");
    };
    assert!(pid.is_local_to(&registry.node()));
    assert!(registry.particle_exists(&pid));
    assert_eq!(
        handle_spawn(&request("echo", Some("e")), &mut registry),
        SpawnBegun::Refused(SpawnResponse { result: Err(SpawnFailureWire::ResourceLimit) })
    );
    assert_eq!(
        finish_spawn(request("echo", Some("e")), pid, true),
        SpawnResponse {
            result: Ok(SpawnResult {
                pid,
                component: "echo".to_string(),
                name: Some("e".to_string())
            })
        }
    );
    assert_eq!(
        finish_spawn(request("echo", None), pid, false),
        SpawnResponse { result: Err(SpawnFailureWire::InitFailed) }
    );

    assert_eq!(
        begin_local_spawn(&mut registry, "nope", None),
        Err(SpawnFailure::ComponentNotFound)
    );
    assert_eq!(
        begin_local_spawn(&mut registry, "echo", Some("e")),
        Err(SpawnFailure::ResourceLimit)
    );
    assert_eq!(
        begin_child_spawn(&mut registry, "nope", None),
        Err(SpawnFailure::ComponentNotFound)
    );
    assert_eq!(
        begin_child_spawn(&mut registry, "echo", Some("e")),
        Err(SpawnFailure::InitFailed)
    );
    let pid = begin_local_spawn(&mut registry, "echo", None).unwrap();
    assert_eq!(finish_local_spawn(pid, true), Ok(pid));
    assert_eq!(finish_local_spawn(pid, false), Err(SpawnFailure::InitFailed));
}

#[test]
fn a_linked_child_is_heard_of_however_soon_it_dies() {
    let mut registry = make_registry();
    registry.register_component("echo", PolicySet::all());
    let parent = registry.insert_test_particle();
    registry.set_trap_exit(&parent, true);
    let child = begin_linked_spawn(&mut registry, &parent, "echo", None).unwrap();
    registry.exit_particle(&child, ExitReason::Normal);
    assert_eq!(
        registry.recv(&parent),
        Received::Message(MailboxMessage::Exit { from: child, reason: ExitReason::Normal })
    );
    assert_eq!(
        begin_linked_spawn(&mut registry, &parent, "nope", None),
        Err(SpawnFailure::ComponentNotFound)
    );
    registry.register_name(&parent, "taken").unwrap();
    assert_eq!(
        begin_linked_spawn(&mut registry, &parent, "echo", Some("taken")),
        Err(SpawnFailure::InitFailed)
    );
}

#[test]
fn test_a_missing_component_is_reported_as_such() {
    assert_eq!(
        remote_spawn_outcome(Some(Err(SpawnFailureWire::ComponentNotFound))),
        Err(SpawnFailure::ComponentNotFound),
        "a reachable node refusing must not look like an unreachable one"
    );
    assert_eq!(remote_spawn_outcome(None), Err(SpawnFailure::NodeUnreachable));
    assert_eq!(
        remote_spawn_outcome(Some(Err(SpawnFailureWire::InitFailed))),
        Err(SpawnFailure::InitFailed)
    );
    assert_eq!(
        remote_spawn_outcome(Some(Err(SpawnFailureWire::ResourceLimit))),
        Err(SpawnFailure::ResourceLimit)
    );
}

#[test]
fn sends_are_answered() {
    let mut registry = make_registry();
    let pid = registry.insert_test_particle();
    registry.register_name(&pid, "svc").unwrap();
    let send = |target: Target| SendRequest { target, msg: vec![1] };
    assert_eq!(
        handle_send(send(Target::Name("svc".to_string())), &mut registry),
        SendResponse { result: Ok(()) }
    );
    assert_eq!(handle_send(send(Target::Pid(pid)), &mut registry), SendResponse { result: Ok(()) });
    assert_eq!(
        handle_send(send(Target::Name("no \"one\"".to_string())), &mut registry),
        SendResponse {
            result: Err("no particle found for target Name(\"no \\\"one\\\"\")".to_string())
        }
    );
    let nobody = registry.next_pid();
    assert_eq!(
        handle_send(send(Target::Pid(nobody)), &mut registry),
        SendResponse { result: Err("no particle".to_string()) }
    );
}

#[test]
fn a_client_asks_and_reads_the_answer() {
    assert_eq!(
        spawn_command("echo", Some("e"), "1"),
        Command::Spawn(SpawnRequest {
            component: "echo".to_string(),
            name: Some("e".to_string()),
            init_args: "1".to_string()
        })
    );
    assert_eq!(
        send_command("svc", vec![1]),
        Command::Send(SendRequest { target: Target::Name("svc".to_string()), msg: vec![1] })
    );
    let pid = Pid { node: a_node(), seq: 3 };
    let good = || SpawnResult { pid, component: "echo".to_string(), name: None };
    assert_eq!(
        spawn_outcome(CommandResponse::Spawn(SpawnResponse { result: Ok(good()) })),
        Ok(good())
    );
    assert_eq!(
        spawn_outcome(CommandResponse::Spawn(SpawnResponse {
            result: Err(SpawnFailureWire::InitFailed)
        })),
        Err(ClientError::SpawnFailed(SpawnFailureWire::InitFailed))
    );
    assert_eq!(
        spawn_outcome(CommandResponse::Send(SendResponse { result: Ok(()) })),
        Err(ClientError::UnexpectedResponse)
    );
    assert_eq!(
        send_outcome(CommandResponse::Send(SendResponse { result: Ok(()) })),
        Ok(())
    );
    assert_eq!(
        send_outcome(CommandResponse::Send(SendResponse { result: Err("x".to_string()) })),
        Err(ClientError::SendFailed("x".to_string()))
    );
    assert_eq!(
        send_outcome(CommandResponse::Spawn(SpawnResponse { result: Ok(good()) })),
        Err(ClientError::UnexpectedResponse)
    );
}

#[test]
fn an_actor_answers_in_text() {
    let words = vec!["a".to_string(), "b".to_string()];
    assert_eq!(actor_payload(&words), "a,b");
    assert_eq!(actor_payload(&vec![]), "");
    let r = actor_response(4, Ok(vec![b'h', 0xff]));
    assert_eq!(r.id, 4);
    assert_eq!(r.result, Ok(vec!["h\u{fffd}".to_string()]));
    assert_eq!(actor_response(5, Err("bad".to_string())).result, Err("bad".to_string()));
}

#[test]
fn test_management_requests_are_answered() {
    let mut d = Driver::new(SupFlags::default(), vec![]);
    let spec = ChildSpec::new("a", "worker");
    let start = SupervisorOp::StartChild(spec.clone());
    assert_eq!(
        d.manage(&start, Ok(Action::Start(spec.clone()))),
        SupervisorReply::Started("a".to_string())
    );
    assert_eq!(d.next_step(0), Step::Spawn(spec));
    assert_eq!(
        d.manage(&start, Err("taken".to_string())),
        SupervisorReply::Refused("taken".to_string())
    );
    assert_eq!(d.next_step(0), Step::Wait(None));
    d.child_spawned("a".to_string(), "p1".to_string());
    let stop = SupervisorOp::TerminateChild("a".to_string());
    let action = Action::Stop { id: "a".to_string(), shutdown: Shutdown::BrutalKill };
    assert_eq!(d.manage(&stop, Ok(action)), SupervisorReply::Terminated);
    assert_eq!(d.next_step(0), Step::Kill("p1".to_string()));
    assert_eq!(
        d.manage(&SupervisorOp::TerminateChild("b".to_string()), Err(String::new())),
        SupervisorReply::Refused("no child b".to_string())
    );
}
