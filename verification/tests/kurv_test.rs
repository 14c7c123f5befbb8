use kurv::clock::Moment;
use kurv::egg::{Egg, EggState, EggStatus};
use kurv::info::{Info, Paths};
use kurv::kurv::{must_end, observe_running, settle_stopped, Kurv, Reaped, SpawnOutcome};
use kurv::state::KurvState;
use kurv::workers::{ChildStatus, Workers};

fn info() -> Info {
    Info {
        name: "kurv".to_string(),
        version: "0.0.0".to_string(),
        api_host: "127.0.0.1".to_string(),
        api_port: 58787,
        version_name: None,
        description: "d".to_string(),
        pid: 1,
        paths: Paths {
            executable: "/opt/kurv/kurv".to_string(),
            working_dir: "/work".to_string(),
            kurv_home: "/opt/kurv".to_string(),
            kurv_file: "/opt/kurv/.kurv".to_string(),
            plugins_dir: "/opt/kurv/plugins".to_string(),
            logs_dir: "/opt/kurv/task_logs".to_string(),
        },
    }
}

fn egg(name: &str, command: &str) -> Egg {
    Egg::new(name.to_string(), command.to_string())
}

fn with_state(name: &str, status: EggStatus, pid: u32) -> Egg {
    let mut e = egg(name, "x");
    e.state = Some(EggState { status, start_time: None, try_count: 2, error: None, pid });
    e
}

fn supervisor(eggs: Vec<Egg>) -> Kurv {
    let mut state = KurvState::new();
    for e in eggs {
        state.collect(&e).unwrap();
    }
    Kurv::new(info(), state)
}

#[test]
fn observe_exit_records_the_code() {
    let mut e = egg("a", "x");
    e.set_as_running_at(10, Moment { secs: 0, nanos: 0 });
    let dirty = observe_running(&mut e, ChildStatus::Exited(Some(3)), Moment { secs: 1, nanos: 0 });
    assert!(dirty);
    let s = e.state.as_ref().unwrap();
    assert_eq!(s.status, EggStatus::Errored);
    assert_eq!(s.error, Some("Exited with code 3".to_string()));
    assert_eq!(s.pid, 0);
    assert_eq!(s.try_count, 1);
}

#[test]
fn observe_exit_with_negative_and_unknown_code() {
    let mut e = egg("a", "x");
    e.set_as_running_at(10, Moment { secs: 0, nanos: 0 });
    observe_running(&mut e, ChildStatus::Exited(Some(-2147483648)), Moment { secs: 1, nanos: 0 });
    assert_eq!(e.state.as_ref().unwrap().error, Some("Exited with code -2147483648".to_string()));

    let mut e = egg("a", "x");
    e.set_as_running_at(10, Moment { secs: 0, nanos: 0 });
    observe_running(&mut e, ChildStatus::Exited(None), Moment { secs: 1, nanos: 0 });
    assert_eq!(e.state.as_ref().unwrap().error, Some("Exited with unknown code".to_string()));
}

#[test]
fn observe_alive_clears_tries_after_five_seconds() {
    let mut e = egg("a", "x");
    e.set_as_errored("x".to_string());
    e.set_as_running_at(10, Moment { secs: 100, nanos: 0 });
    assert_eq!(e.state.as_ref().unwrap().try_count, 1);
    // too early
    assert!(!observe_running(&mut e, ChildStatus::Alive, Moment { secs: 104, nanos: 999_999_999 }));
    assert_eq!(e.state.as_ref().unwrap().try_count, 1);
    // five seconds
    assert!(observe_running(&mut e, ChildStatus::Alive, Moment { secs: 105, nanos: 0 }));
    assert_eq!(e.state.as_ref().unwrap().try_count, 0);
    assert!(e.is_running());
    // nothing new
    assert!(!observe_running(&mut e, ChildStatus::Alive, Moment { secs: 106, nanos: 0 }));
}

#[test]
fn observe_leaves_other_eggs_alone() {
    let mut e = with_state("a", EggStatus::Stopped, 0);
    assert!(!observe_running(&mut e, ChildStatus::Exited(Some(1)), Moment { secs: 1, nanos: 0 }));
    assert_eq!(e.state.as_ref().unwrap().status, EggStatus::Stopped);
    let mut e = egg("a", "x");
    e.set_as_running_at(10, Moment { secs: 0, nanos: 0 });
    assert!(!observe_running(&mut e, ChildStatus::Unknown, Moment { secs: 100, nanos: 0 }));
    assert!(e.is_running());
}

#[test]
fn settle_stopped_by_what_was_found() {
    let mut e = with_state("a", EggStatus::Stopped, 9);
    assert!(settle_stopped(&mut e, Reaped::Killed));
    assert_eq!(e.state.as_ref().unwrap().status, EggStatus::Stopped);
    assert_eq!(e.state.as_ref().unwrap().pid, 0);
    assert_eq!(e.state.as_ref().unwrap().try_count, 0);

    let mut e = with_state("a", EggStatus::PendingRemoval, 9);
    assert!(settle_stopped(&mut e, Reaped::NoChild));
    assert_eq!(e.state.as_ref().unwrap().status, EggStatus::PendingRemoval);
    assert_eq!(e.state.as_ref().unwrap().pid, 0);

    let mut e = with_state("a", EggStatus::Restarting, 9);
    assert!(settle_stopped(&mut e, Reaped::Killed));
    assert_eq!(e.state.as_ref().unwrap().status, EggStatus::Pending);
    assert_eq!(e.state.as_ref().unwrap().error, Some(String::new()));

    let mut e = with_state("a", EggStatus::Restarting, 9);
    assert!(settle_stopped(&mut e, Reaped::NoChild));
    assert_eq!(e.state.as_ref().unwrap().status, EggStatus::Pending);

    let mut e = with_state("a", EggStatus::Restarting, 9);
    assert!(settle_stopped(&mut e, Reaped::HadExited));
    assert_eq!(e.state.as_ref().unwrap().status, EggStatus::Stopped);

    let mut e = with_state("a", EggStatus::Stopped, 9);
    assert!(!settle_stopped(&mut e, Reaped::Unreadable));
    assert_eq!(e.state.as_ref().unwrap().pid, 9);

    let mut e = with_state("a", EggStatus::Running, 9);
    assert!(!settle_stopped(&mut e, Reaped::Killed));
    assert_eq!(e.state.as_ref().unwrap().status, EggStatus::Running);
}

#[test]
fn spawn_plans_are_made_for_eggs_to_be_started() {
    let mut with_all = egg("b", "/bin/sleep");
    with_all.args = Some(vec!["60".to_string()]);
    with_all.cwd = Some("/tmp".to_string());
    let mut env = kurv::strmap::StrMap::new();
    env.insert("X".to_string(), "1".to_string());
    with_all.env = Some(env);
    let kurv = supervisor(vec![
        egg("a", "/bin/true"),
        with_all,
        with_state("c", EggStatus::Stopped, 0),
        with_state("d", EggStatus::Errored, 0),
        with_state("e", EggStatus::Running, 5),
        with_state("f", EggStatus::Pending, 0),
    ]);
    let plans = kurv.spawn_plans();
    assert_eq!(plans.len(), 4);
    assert_eq!(plans[0].name, "a");
    assert_eq!(plans[0].id, 1);
    assert_eq!(plans[0].command, "/bin/true");
    assert!(plans[0].args.is_empty());
    assert_eq!(plans[0].cwd, "/work");
    assert!(plans[0].env.is_empty());
    assert_eq!(plans[0].stdout, "/opt/kurv/task_logs/a.stdout");
    assert_eq!(plans[0].stderr, "/opt/kurv/task_logs/a.stderr");
    assert_eq!(plans[1].name, "b");
    assert_eq!(plans[1].args, vec!["60".to_string()]);
    assert_eq!(plans[1].cwd, "/tmp");
    assert_eq!(plans[1].env.get("X"), Some(&"1".to_string()));
    assert_eq!(plans[2].name, "d");
    assert_eq!(plans[3].name, "f");
}

#[test]
fn failed_spawn_is_recorded_and_retried() {
    let mut kurv = supervisor(vec![egg("b", "/bin/nope")]);
    let at = Moment { secs: 5, nanos: 0 };
    for round in 1..=3u32 {
        let plans = kurv.spawn_plans();
        assert_eq!(plans.len(), 1);
        let dirty = kurv.settle_spawn(
            &plans[0],
            SpawnOutcome::Failed { error: "failed to spawn child b".to_string() },
            at,
        );
        assert!(dirty);
        let e = kurv.state.get_by_name("b").unwrap();
        let s = e.state.as_ref().unwrap();
        assert_eq!(s.status, EggStatus::Errored);
        assert_eq!(s.error, Some("failed to spawn child b".to_string()));
        assert_eq!(s.pid, 0);
        assert_eq!(s.try_count, round);
        assert!(s.start_time.is_none());
        assert_eq!(e.paths.as_ref().unwrap().stdout, "/opt/kurv/task_logs/b.stdout");
        assert_eq!(kurv.workers.len(), 0);
        kurv.reconcile();
    }
}

#[test]
fn a_plan_for_an_egg_that_is_gone_changes_nothing() {
    let mut kurv = supervisor(vec![egg("a", "x")]);
    let plans = kurv.spawn_plans();
    kurv.state.remove(1).unwrap();
    assert!(!kurv.settle_spawn(
        &plans[0],
        SpawnOutcome::Failed { error: "e".to_string() },
        Moment { secs: 0, nanos: 0 }
    ));
    assert!(kurv.state.is_empty());
}

#[test]
fn removal_and_sync_phases() {
    let mut unsynced = egg("u", "x");
    unsynced.synced = false;
    unsynced.set_status(EggStatus::Stopped);
    let mut kurv = supervisor(vec![
        with_state("gone", EggStatus::PendingRemoval, 0),
        with_state("kept", EggStatus::PendingRemoval, 12),
        unsynced,
    ]);
    assert!(kurv.check_removal_pending_eggs());
    assert_eq!(kurv.state.len(), 2);
    assert!(kurv.state.get_by_name("gone").is_none());
    assert!(kurv.state.get_by_name("kept").is_some());
    assert!(kurv.check_unsynced_eggs());
    assert!(kurv.state.get_by_name("u").unwrap().synced);
    assert!(!kurv.check_unsynced_eggs());
    // the egg that could not be removed is reaped and removed by the next round
    assert!(kurv.reconcile());
    assert!(kurv.state.get_by_name("kept").is_none());
    assert_eq!(kurv.state.len(), 1);
    // a stopped egg without a worker keeps the state dirty
    assert!(kurv.check_stopped_eggs());
    assert!(!kurv.check_removal_pending_eggs());
    assert!(!kurv.check_running_eggs());
}

#[test]
fn running_egg_without_worker_is_left_alone() {
    let mut kurv = supervisor(vec![with_state("r", EggStatus::Running, 7)]);
    assert!(!kurv.check_running_eggs());
    assert!(!kurv.wait_failed);
    assert!(kurv.state.get_by_name("r").unwrap().is_running());
}

#[test]
fn collect_at_start_up() {
    let mut running = with_state("w", EggStatus::Running, 44);
    running.id = Some(9);
    let mut old_plugin = egg("kurv-old", "x");
    old_plugin.plugin = Some(true);
    let mut described = egg("plug", "/plugins/kurv-plug");
    described.id = Some(77);
    described.state = Some(EggState {
        status: EggStatus::Running,
        start_time: None,
        try_count: 0,
        error: None,
        pid: 3,
    });
    let clash = egg("w", "other");
    let kurv = Kurv::collect(
        info(),
        vec![running, old_plugin],
        vec![
            ("/opt/kurv/plugins/kurv-plug".to_string(), described),
            ("/opt/kurv/plugins/kurv-w".to_string(), clash),
        ],
    );
    assert_eq!(kurv.state.len(), 2);
    assert_eq!(kurv.workers.len(), 0);
    let plug = kurv.state.get_by_name("plug").unwrap();
    assert_eq!(plug.id, Some(2));
    assert_eq!(plug.plugin, Some(true));
    assert_eq!(plug.plugin_path, Some("/opt/kurv/plugins/kurv-plug".to_string()));
    assert_eq!(plug.state.as_ref().unwrap().status, EggStatus::Pending);
    let env = plug.env.as_ref().unwrap();
    assert_eq!(env.get("KURV_API_HOST"), Some(&"127.0.0.1".to_string()));
    assert_eq!(env.get("KURV_API_PORT"), Some(&"58787".to_string()));
    assert_eq!(env.get("KURV_HOME"), Some(&"/opt/kurv".to_string()));
    assert_eq!(env.get("KURV_LOGS_DIR"), Some(&"/opt/kurv/task_logs".to_string()));
    let w = kurv.state.get_by_name("w").unwrap();
    assert_eq!(w.id, Some(1));
    assert_eq!(w.command, "x");
    assert_eq!(w.state.as_ref().unwrap().status, EggStatus::Pending);
}

#[test]
fn an_empty_registry_has_no_worker() {
    let mut workers = Workers::new();
    assert_eq!(workers.len(), 0);
    assert!(!workers.has_child(1));
    assert!(workers.name_of(1).is_none());
    assert!(workers.get_child_mut(1).is_none());
    workers.remove_child(None, "a".to_string());
    workers.remove_child(Some("default_kurv"), "a".to_string());
    assert_eq!(workers.len(), 0);
}

#[test]
fn stop_of_an_egg_without_worker() {
    let mut kurv = supervisor(vec![with_state("a", EggStatus::Stopped, 31), with_state("b", EggStatus::Restarting, 32)]);
    assert!(kurv.reconcile());
    assert!(!kurv.wait_failed);
    let a = kurv.state.get_by_name("a").unwrap().state.as_ref().unwrap().clone();
    assert_eq!(a.status, EggStatus::Stopped);
    assert_eq!(a.pid, 0);
    assert_eq!(a.try_count, 0);
    let b = kurv.state.get_by_name("b").unwrap().state.as_ref().unwrap().clone();
    assert_eq!(b.status, EggStatus::Pending);
    assert_eq!(b.pid, 0);
    assert_eq!(kurv.spawn_plans().len(), 1);
}

#[test]
fn crash_retries_count_up_until_the_egg_is_stopped() {
    let mut kurv = supervisor(vec![egg("b", "/bin/false")]);
    // started, then seen to have ended, round after round
    for round in 1..=2u32 {
        assert_eq!(kurv.spawn_plans().len(), 1);
        let e = kurv.state.get_mut(1).unwrap();
        e.set_as_running_at(100 + round, Moment { secs: 10, nanos: 0 });
        assert!(observe_running(e, ChildStatus::Exited(Some(1)), Moment { secs: 10, nanos: 5 }));
        let s = e.state.as_ref().unwrap();
        assert_eq!(s.status, EggStatus::Errored);
        assert_eq!(s.try_count, round);
        assert_eq!(s.error, Some("Exited with code 1".to_string()));
    }
    kurv.state.get_mut(1).unwrap().set_status(EggStatus::Stopped);
    assert!(kurv.reconcile());
    let s = kurv.state.get_by_name("b").unwrap().state.as_ref().unwrap().clone();
    assert_eq!(s.status, EggStatus::Stopped);
    assert_eq!(s.try_count, 0);
    assert!(kurv.spawn_plans().is_empty());
}

#[test]
fn after_a_round_stopped_eggs_have_no_process_and_no_worker() {
    let mut kurv = supervisor(vec![
        with_state("a", EggStatus::Stopped, 11),
        with_state("b", EggStatus::PendingRemoval, 0),
        with_state("c", EggStatus::Errored, 0),
        with_state("d", EggStatus::Restarting, 12),
        with_state("e", EggStatus::Pending, 0),
        egg("f", "x"),
    ]);
    assert!(kurv.reconcile());
    assert!(!kurv.wait_failed);
    assert!(kurv.is_wf());
    for i in 0..kurv.state.len() {
        let e = kurv.state.egg_at(i);
        let status = e.state.as_ref().map(|s| s.status);
        if status == Some(EggStatus::Running) {
            assert!(e.state.as_ref().unwrap().pid > 0);
            assert!(e.state.as_ref().unwrap().start_time.is_some());
            assert!(kurv.workers.has_child(e.id.unwrap()));
        }
        if matches!(
            status,
            Some(EggStatus::Stopped) | Some(EggStatus::Errored) | Some(EggStatus::PendingRemoval)
        ) {
            assert_eq!(e.state.as_ref().unwrap().pid, 0);
            assert!(!kurv.workers.has_child(e.id.unwrap()));
        }
    }
    // the egg that waited to be removed is gone, the others are there
    assert_eq!(kurv.state.len(), 5);
    assert!(kurv.state.get_by_name("b").is_none());
    assert_eq!(
        kurv.state.get_by_name("d").unwrap().state.as_ref().unwrap().status,
        EggStatus::Pending
    );
}

#[test]
fn a_change_of_the_environment_is_written_by_the_next_round() {
    let mut kurv = supervisor(vec![with_state("a", EggStatus::Errored, 0)]);
    kurv.state.get_mut(1).unwrap().set_as_running_at(1, Moment { secs: 0, nanos: 0 });
    let mut request = kurv::tcp::Request {
        method: "PUT".to_string(),
        path: "/eggs/a/env".to_string(),
        version: "HTTP/1.1".to_string(),
        headers: vec![],
        body: "{\"X\":\"1\",\"Y\":\"2\"}".to_string(),
        query_params: kurv::strmap::StrMap::new(),
        path_params: kurv::strmap::StrMap::new(),
    };
    assert_eq!((kurv::api::Router {}).resolve(&mut request), kurv::api::Route::ReplaceEnv);
    assert_eq!(kurv::api::replace(&request, &mut kurv.state).status, 200);
    assert!(!kurv.state.get(1).unwrap().synced);
    // nothing but the environment changed: the round is dirty for it alone
    assert!(kurv.reconcile());
    assert!(kurv.state.get(1).unwrap().synced);
    assert_eq!(kurv.state.get(1).unwrap().env.as_ref().unwrap().len(), 2);
    assert!(!kurv.reconcile());
}

#[test]
fn a_look_is_recorded_on_the_egg_at_its_place() {
    let mut kurv = supervisor(vec![egg("a", "x"), egg("b", "x")]);
    kurv.state.get_mut(2).unwrap().set_as_running_at(77, Moment { secs: 100, nanos: 0 });
    // the egg at the first place is not running: nothing is recorded
    assert!(!kurv.record_look(0, ChildStatus::Exited(Some(1)), Moment { secs: 101, nanos: 0 }));
    assert!(kurv.state.get(1).unwrap().state.is_none());
    assert!(!kurv.record_look(0, ChildStatus::Unknown, Moment { secs: 101, nanos: 0 }));
    assert!(!kurv.wait_failed);
    // a status that could not be read leaves the running egg alone
    assert!(!kurv.record_look(1, ChildStatus::Unknown, Moment { secs: 101, nanos: 0 }));
    assert!(kurv.wait_failed);
    assert!(kurv.state.get(2).unwrap().is_running());
    // an exit makes it errored
    assert!(kurv.record_look(1, ChildStatus::Exited(Some(2)), Moment { secs: 101, nanos: 0 }));
    let s = kurv.state.get(2).unwrap().state.as_ref().unwrap().clone();
    assert_eq!(s.status, EggStatus::Errored);
    assert_eq!(s.pid, 0);
    assert_eq!(s.try_count, 1);
    assert_eq!(s.error, Some("Exited with code 2".to_string()));
    assert_eq!(kurv.workers.len(), 0);
}

#[test]
fn what_was_found_is_recorded_on_the_egg_at_its_place() {
    let mut kurv = supervisor(vec![
        with_state("a", EggStatus::Restarting, 0),
        with_state("b", EggStatus::Stopped, 9),
        with_state("c", EggStatus::Running, 5),
        with_state("d", EggStatus::PendingRemoval, 4),
    ]);
    assert!(kurv.settle_stop(0, Reaped::NoChild));
    assert_eq!(kurv.state.egg_at(0).state.as_ref().unwrap().status, EggStatus::Pending);
    assert!(kurv.settle_stop(1, Reaped::Killed));
    let b = kurv.state.egg_at(1).state.as_ref().unwrap().clone();
    assert_eq!((b.status, b.pid, b.try_count), (EggStatus::Stopped, 0, 0));
    assert!(b.start_time.is_none());
    // an egg that is to keep its process is left alone
    assert!(!kurv.settle_stop(2, Reaped::Killed));
    assert!(!kurv.settle_stop(2, Reaped::Unreadable));
    assert!(!kurv.wait_failed);
    let c = kurv.state.egg_at(2).state.as_ref().unwrap().clone();
    assert_eq!((c.status, c.pid, c.try_count), (EggStatus::Running, 5, 2));
    // a status that could not be read leaves the egg as it was
    assert!(!kurv.settle_stop(3, Reaped::Unreadable));
    assert!(kurv.wait_failed);
    assert_eq!(kurv.state.egg_at(3).state.as_ref().unwrap().pid, 4);
    assert!(kurv.settle_stop(3, Reaped::HadExited));
    let d = kurv.state.egg_at(3).state.as_ref().unwrap().clone();
    assert_eq!((d.status, d.pid), (EggStatus::PendingRemoval, 0));
}

#[test]
fn a_restarting_egg_without_worker_waits_to_be_started() {
    let mut restarting = egg("a", "echo");
    restarting.state = Some(EggState {
        status: EggStatus::Restarting,
        start_time: None,
        try_count: 0,
        error: None,
        pid: 0,
    });
    let mut kurv = supervisor(vec![restarting]);
    assert!(kurv.check_stopped_eggs());
    assert!(!kurv.wait_failed);
    let s = kurv.state.get(1).unwrap().state.as_ref().unwrap().clone();
    assert_eq!(s.status, EggStatus::Pending);
    assert_eq!(s.pid, 0);
    assert!(s.start_time.is_none());
    assert_eq!(kurv.spawn_plans().len(), 1);
}

#[test]
fn a_stopped_egg_loses_start_time_and_tries() {
    let mut stopped = egg("a", "echo");
    stopped.set_as_errored("x".to_string());
    stopped.set_as_running_at(12, Moment { secs: 5, nanos: 0 });
    stopped.set_status(EggStatus::Stopped);
    let mut waiting = egg("b", "echo");
    waiting.set_as_errored("x".to_string());
    waiting.set_as_running_at(13, Moment { secs: 5, nanos: 0 });
    waiting.set_status(EggStatus::PendingRemoval);
    let mut kurv = supervisor(vec![stopped, waiting]);
    assert!(kurv.check_stopped_eggs());
    for (id, status) in [(1usize, EggStatus::Stopped), (2, EggStatus::PendingRemoval)] {
        let s = kurv.state.get(id).unwrap().state.as_ref().unwrap().clone();
        assert_eq!(s.status, status);
        assert_eq!(s.pid, 0);
        assert_eq!(s.try_count, 0);
        assert!(s.start_time.is_none());
        assert!(!kurv.workers.has_child(id));
    }
}

#[test]
fn only_a_process_that_is_alive_is_told_to_end() {
    assert!(must_end(ChildStatus::Alive));
    assert!(!must_end(ChildStatus::Exited(Some(0))));
    assert!(!must_end(ChildStatus::Exited(None)));
    assert!(!must_end(ChildStatus::Unknown));
}

#[test]
fn the_answer_of_a_process_is_recorded_on_its_egg() {
    let mut kurv = supervisor(vec![
        with_state("a", EggStatus::Restarting, 7),
        with_state("b", EggStatus::Stopped, 9),
        with_state("c", EggStatus::Running, 5),
        with_state("d", EggStatus::PendingRemoval, 4),
        with_state("e", EggStatus::Restarting, 3),
        with_state("f", EggStatus::Restarting, 2),
    ]);
    // a process that was alive was told to end: the egg is to be started again
    assert!(kurv.settle_polled(0, Some(ChildStatus::Alive)));
    let a = kurv.state.egg_at(0).state.as_ref().unwrap().clone();
    assert_eq!((a.status, a.pid, a.try_count), (EggStatus::Pending, 0, 0));
    // a process that had ended by itself: the egg is stopped, also where it was to be restarted
    assert!(kurv.settle_polled(4, Some(ChildStatus::Exited(Some(1)))));
    let e = kurv.state.egg_at(4).state.as_ref().unwrap().clone();
    assert_eq!((e.status, e.pid, e.try_count), (EggStatus::Stopped, 0, 0));
    assert!(kurv.settle_polled(1, Some(ChildStatus::Exited(None))));
    let b = kurv.state.egg_at(1).state.as_ref().unwrap().clone();
    assert_eq!((b.status, b.pid, b.try_count), (EggStatus::Stopped, 0, 0));
    // no process was asked
    assert!(kurv.settle_polled(5, None));
    assert_eq!(kurv.state.egg_at(5).state.as_ref().unwrap().status, EggStatus::Pending);
    // an egg that is to keep its process is left alone, whatever was answered
    assert!(!kurv.settle_polled(2, Some(ChildStatus::Alive)));
    assert!(!kurv.settle_polled(2, Some(ChildStatus::Unknown)));
    assert!(!kurv.settle_polled(2, None));
    let c = kurv.state.egg_at(2).state.as_ref().unwrap().clone();
    assert_eq!((c.status, c.pid, c.try_count), (EggStatus::Running, 5, 2));
    assert!(!kurv.wait_failed);
    // no answer: the egg stays as it was, and the failure is kept
    assert!(!kurv.settle_polled(3, Some(ChildStatus::Unknown)));
    let d = kurv.state.egg_at(3).state.as_ref().unwrap().clone();
    assert_eq!((d.status, d.pid, d.try_count), (EggStatus::PendingRemoval, 4, 2));
    assert!(kurv.wait_failed);
    // a later answer does not clear the failure
    assert!(kurv.settle_polled(3, Some(ChildStatus::Alive)));
    let d = kurv.state.egg_at(3).state.as_ref().unwrap().clone();
    assert_eq!((d.status, d.pid), (EggStatus::PendingRemoval, 0));
    assert!(kurv.wait_failed);
    assert!(kurv.is_wf());
}
