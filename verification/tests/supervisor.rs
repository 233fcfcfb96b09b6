//! Restart decisions of a supervisor.

use plasmoid::supervisor::{
    Action, ChildSpec, ExitReason, Restart, Shutdown, Strategy, SupFlags, Supervisor,
};

fn spec(id: &str) -> ChildSpec {
    ChildSpec::new(id, "worker")
}

fn sup(strategy: Strategy, ids: &[&str]) -> Supervisor {
    let mut s = Supervisor::new(
        SupFlags {
            strategy,
            // Generous, so strategy tests are not derailed by the brake.
            intensity: 100,
            period_ms: 5_000,
        },
        ids.iter().map(|i| spec(i)).collect(),
    );
    s.init();
    s
}

fn started(actions: &[Action]) -> Vec<String> {
    actions
        .iter()
        .filter_map(|a| match a {
            Action::Start(c) => Some(c.id.clone()),
            _ => None,
        })
        .collect()
}

fn stopped(actions: &[Action]) -> Vec<String> {
    actions
        .iter()
        .filter_map(|a| match a {
            Action::Stop { id, .. } => Some(id.clone()),
            _ => None,
        })
        .collect()
}

#[test]
fn test_children_start_left_to_right() {
    let mut s = Supervisor::new(SupFlags::default(), vec![spec("a"), spec("b"), spec("c")]);
    assert_eq!(started(&s.init()), ["a", "b", "c"]);
}

#[test]
fn test_shutdown_is_reverse_start_order() {
    let mut s = sup(Strategy::OneForOne, &["a", "b", "c"]);
    assert_eq!(stopped(&s.shutdown()), ["c", "b", "a"]);
}

#[test]
fn test_one_for_one_touches_only_the_dead_child() {
    let mut s = sup(Strategy::OneForOne, &["a", "b", "c"]);
    let acts = s.on_child_exit("b", &ExitReason::Exception("boom".into()), 0);
    assert_eq!(started(&acts), ["b"]);
    assert!(stopped(&acts).is_empty(), "siblings are untouched");
}

#[test]
fn test_one_for_all_stops_in_reverse_and_starts_forwards() {
    let mut s = sup(Strategy::OneForAll, &["a", "b", "c"]);
    let acts = s.on_child_exit("b", &ExitReason::Exception("boom".into()), 0);
    assert_eq!(
        stopped(&acts),
        ["c", "a"],
        "survivors stop in reverse order; b is already gone"
    );
    assert_eq!(started(&acts), ["a", "b", "c"], "and all start forwards");
}

#[test]
fn test_rest_for_one_touches_only_those_after_it() {
    let mut s = sup(Strategy::RestForOne, &["a", "b", "c", "d"]);
    let acts = s.on_child_exit("b", &ExitReason::Exception("boom".into()), 0);
    assert_eq!(stopped(&acts), ["d", "c"], "only those after b, reversed");
    assert_eq!(started(&acts), ["b", "c", "d"], "b and the rest, forwards");
    assert!(s.is_running("a"), "a is before b and is untouched");
}

#[test]
fn test_permanent_restarts_even_on_a_normal_exit() {
    let mut s = sup(Strategy::OneForOne, &["a"]);
    let acts = s.on_child_exit("a", &ExitReason::Normal, 0);
    assert_eq!(started(&acts), ["a"]);
}

#[test]
fn test_temporary_is_never_restarted() {
    let mut s = Supervisor::new(
        SupFlags::default(),
        vec![spec("a").restart(Restart::Temporary)],
    );
    s.init();
    let acts = s.on_child_exit("a", &ExitReason::Exception("boom".into()), 0);
    assert!(acts.is_empty());
    assert!(!s.is_running("a"));
}

#[test]
fn test_a_temporary_sibling_is_stopped_but_not_restarted() {
    let mut s = Supervisor::new(
        SupFlags {
            strategy: Strategy::OneForAll,
            intensity: 100,
            period_ms: 5_000,
        },
        vec![spec("a"), spec("t").restart(Restart::Temporary)],
    );
    s.init();
    let acts = s.on_child_exit("a", &ExitReason::Exception("boom".into()), 0);

    assert_eq!(stopped(&acts), ["t"], "the temporary sibling is stopped");
    assert_eq!(started(&acts), ["a"], "but only a comes back");
    assert!(!s.is_running("t"));
}

#[test]
fn test_transient_restarts_on_abnormal_but_not_on_normal() {
    let mut s = Supervisor::new(
        SupFlags::default(),
        vec![spec("a").restart(Restart::Transient)],
    );
    s.init();
    assert!(
        s.on_child_exit("a", &ExitReason::Normal, 0).is_empty(),
        "a clean exit means the job is done"
    );

    s.init();
    let acts = s.on_child_exit("a", &ExitReason::Exception("boom".into()), 0);
    assert_eq!(started(&acts), ["a"]);
}

#[test]
fn test_transient_does_not_restart_after_shutdown() {
    let mut s = Supervisor::new(
        SupFlags::default(),
        vec![spec("a").restart(Restart::Transient)],
    );
    s.init();
    let acts = s.on_child_exit("a", &ExitReason::Shutdown("stopping".into()), 0);
    assert!(
        acts.is_empty(),
        "a child shut down on purpose must stay down"
    );
}

#[test]
fn test_transient_restarts_after_being_killed() {
    // `killed` is neither normal nor shutdown, so it is a failure.
    let mut s = Supervisor::new(
        SupFlags::default(),
        vec![spec("a").restart(Restart::Transient)],
    );
    s.init();
    assert_eq!(
        started(&s.on_child_exit("a", &ExitReason::Killed, 0)),
        ["a"]
    );
}

#[test]
fn test_intensity_is_exceeded_by_more_than_max_within_the_period() {
    let mut s = Supervisor::new(
        SupFlags {
            strategy: Strategy::OneForOne,
            intensity: 2,
            period_ms: 5_000,
        },
        vec![spec("a")],
    );
    s.init();

    for t in [0u64, 100] {
        let acts = s.on_child_exit("a", &ExitReason::Exception("boom".into()), t);
        assert!(!acts.contains(&Action::GiveUp), "2 restarts is not > 2");
    }
    let acts = s.on_child_exit("a", &ExitReason::Exception("boom".into()), 200);
    assert!(acts.contains(&Action::GiveUp), "the third exceeds it");
}

#[test]
fn test_restarts_outside_the_period_do_not_count() {
    let mut s = Supervisor::new(
        SupFlags {
            strategy: Strategy::OneForOne,
            intensity: 1,
            period_ms: 5_000,
        },
        vec![spec("a")],
    );
    s.init();

    s.on_child_exit("a", &ExitReason::Exception("boom".into()), 0);
    let acts = s.on_child_exit("a", &ExitReason::Exception("boom".into()), 10_000);
    assert!(
        !acts.contains(&Action::GiveUp),
        "the first restart aged out of the window"
    );
}

#[test]
fn test_intensity_counts_per_child_not_per_decision() {
    let mut s = Supervisor::new(
        SupFlags {
            strategy: Strategy::OneForAll,
            intensity: 2,
            period_ms: 5_000,
        },
        vec![spec("a"), spec("b"), spec("c")],
    );
    s.init();
    let acts = s.on_child_exit("a", &ExitReason::Exception("boom".into()), 0);
    assert!(
        acts.contains(&Action::GiveUp),
        "three restarts in one decision exceeds an intensity of two"
    );
}

#[test]
fn test_giving_up_stops_survivors_before_stopping_itself() {
    let mut s = Supervisor::new(
        SupFlags {
            strategy: Strategy::OneForOne,
            intensity: 0,
            period_ms: 5_000,
        },
        vec![spec("a"), spec("b")],
    );
    s.init();
    let acts = s.on_child_exit("a", &ExitReason::Exception("boom".into()), 0);

    let give_up_at = acts.iter().position(|a| *a == Action::GiveUp).unwrap();
    assert_eq!(
        give_up_at,
        acts.len() - 1,
        "GiveUp is last, so the caller tears down before exiting"
    );
    assert!(
        stopped(&acts).contains(&"b".to_string()),
        "the surviving child is stopped too"
    );
}

#[test]
fn test_an_unknown_child_is_ignored() {
    let mut s = sup(Strategy::OneForAll, &["a"]);
    assert!(
        s.on_child_exit("ghost", &ExitReason::Exception("boom".into()), 0)
            .is_empty(),
        "an exit we do not own must not disturb the tree"
    );
    assert!(s.is_running("a"));
}

#[test]
fn test_shutdown_skips_children_already_gone() {
    let mut s = Supervisor::new(
        SupFlags::default(),
        vec![spec("a"), spec("b").restart(Restart::Temporary)],
    );
    s.init();
    s.on_child_exit("b", &ExitReason::Normal, 0);
    assert_eq!(
        stopped(&s.shutdown()),
        ["a"],
        "b is already dead and must not be signalled"
    );
}

#[test]
fn defaults_are_one_for_one_with_five_seconds() {
    let flags = SupFlags::default();
    assert_eq!(flags.strategy, Strategy::OneForOne);
    assert_eq!(flags.intensity, 1);
    assert_eq!(flags.period_ms, 5_000);
    let child = ChildSpec::new("a", "worker");
    assert_eq!(child.restart, Restart::Permanent);
    assert_eq!(child.shutdown, Shutdown::Timeout(5_000));
    assert_eq!(child.start.component, "worker");
    assert_eq!(child.start.init_args, "");
}

#[test]
fn builders_change_one_thing_each() {
    let child = spec("a")
        .init_args("[1]")
        .restart(Restart::Transient)
        .shutdown(Shutdown::BrutalKill);
    assert_eq!(child.id, "a");
    assert_eq!(child.start.init_args, "[1]");
    assert_eq!(child.restart, Restart::Transient);
    assert_eq!(child.shutdown, Shutdown::BrutalKill);
    let s = Supervisor::new(SupFlags::default(), vec![child]);
    assert_eq!(s.children().len(), 1);
    assert_eq!(s.children()[0].id, "a");
}

#[test]
fn stops_carry_each_childs_own_shutdown() {
    let mut s = Supervisor::new(
        SupFlags::default(),
        vec![
            spec("a").shutdown(Shutdown::Infinity),
            spec("b").shutdown(Shutdown::BrutalKill),
        ],
    );
    s.init();
    assert_eq!(
        s.shutdown(),
        vec![
            Action::Stop { id: "b".to_string(), shutdown: Shutdown::BrutalKill },
            Action::Stop { id: "a".to_string(), shutdown: Shutdown::Infinity },
        ]
    );
}

#[test]
fn only_failures_warrant_a_restart() {
    assert!(!ExitReason::Normal.warrants_restart());
    assert!(!ExitReason::Shutdown("x".into()).warrants_restart());
    assert!(ExitReason::Kill.warrants_restart());
    assert!(ExitReason::Killed.warrants_restart());
    assert!(ExitReason::Exception("x".into()).warrants_restart());
    assert!(ExitReason::NoProc.warrants_restart());
    assert!(ExitReason::NoConnection.warrants_restart());
}

#[test]
fn giving_up_stops_a_temporary_sibling_and_not_the_dead_child() {
    let mut s = Supervisor::new(
        SupFlags { strategy: Strategy::OneForAll, intensity: 0, period_ms: 5_000 },
        vec![spec("a"), spec("t").restart(Restart::Temporary)],
    );
    s.init();
    let acts = s.on_child_exit("a", &ExitReason::Exception("boom".into()), 0);
    assert_eq!(
        acts,
        vec![
            Action::Stop { id: "t".to_string(), shutdown: Shutdown::Timeout(5_000) },
            Action::GiveUp,
        ]
    );
    assert!(!s.is_running("a") && !s.is_running("t"));
}

#[test]
fn giving_up_stops_every_survivor_once_and_last_first() {
    for strategy in [Strategy::OneForOne, Strategy::OneForAll, Strategy::RestForOne] {
        let mut s = Supervisor::new(
            SupFlags { strategy, intensity: 0, period_ms: 5_000 },
            vec![spec("a"), spec("b"), spec("c"), spec("d").restart(Restart::Temporary)],
        );
        s.init();
        let acts = s.on_child_exit("b", &ExitReason::Exception("boom".into()), 0);
        assert_eq!(stopped(&acts), ["d", "c", "a"]);
        assert!(started(&acts).is_empty());
        assert_eq!(acts.last(), Some(&Action::GiveUp));
    }
}

#[test]
fn giving_up_goes_by_the_starts_of_the_last_period() {
    let flags = SupFlags { strategy: Strategy::RestForOne, intensity: 4, period_ms: 100 };
    let mut s = Supervisor::new(flags, vec![spec("a"), spec("b"), spec("c")]);
    s.init();
    let mut starts: Vec<u64> = Vec::new();
    let mut gave_up = false;
    for (id, at) in [("b", 0), ("c", 50), ("c", 100), ("b", 101), ("c", 140), ("a", 150)] {
        let due = match id {
            "a" => 3,
            "b" => 2,
            _ => 1,
        };
        let recent = starts.iter().filter(|t| **t + 100 >= at).count();
        let actions = s.on_child_exit(id, &ExitReason::Killed, at);
        gave_up = actions.contains(&Action::GiveUp);
        assert_eq!(gave_up, recent + due > 4, "{id} at {at}");
        if gave_up {
            break;
        }
        for _ in started(&actions) {
            starts.push(at);
        }
    }
    assert!(gave_up);
}

#[test]
fn a_start_is_the_last_word_about_a_running_child() {
    let mut s = sup(Strategy::OneForAll, &["a", "b", "c"]);
    let mut words = s.init();
    for (id, at) in [("b", 0), ("a", 10), ("c", 20)] {
        words.extend(s.on_child_exit(id, &ExitReason::Killed, at));
    }
    for id in ["a", "b", "c"] {
        assert!(s.is_running(id));
        let last = words.iter().rev().find(|w| match w {
            Action::Start(c) => c.id == id,
            Action::Stop { id: of, .. } => of == id,
            Action::GiveUp => false,
        });
        assert!(matches!(last, Some(Action::Start(_))), "{id}");
    }
}
