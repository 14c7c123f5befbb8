use kurv::api::{
    answer, captured_pairs, collect, get, merge, not_allowed, reads_egg, remove, replace, respond, restart, set_status, start,
    status, status_str, stop, summary, summary_at, update_env, Payload, Reply, Route, Router,
};
use kurv::clock::Moment;
use kurv::egg::{Egg, EggState, EggStatus};
use kurv::info::{Info, Paths};
use kurv::state::KurvState;
use kurv::strmap::StrMap;
use kurv::tcp::Request;

fn request(method: &str, path: &str, body: &str) -> Request {
    Request {
        method: method.to_string(),
        path: path.to_string(),
        version: "HTTP/1.1".to_string(),
        headers: vec![],
        body: body.to_string(),
        query_params: StrMap::new(),
        path_params: StrMap::new(),
    }
}

fn routed(method: &str, path: &str, body: &str) -> (Route, Request) {
    let mut r = request(method, path, body);
    let route = (Router {}).resolve(&mut r);
    (route, r)
}

fn info() -> Info {
    Info {
        name: "kurv".to_string(),
        version: "1".to_string(),
        api_host: "h".to_string(),
        api_port: 1,
        version_name: None,
        description: "d".to_string(),
        pid: 2,
        paths: Paths {
            executable: "e".to_string(),
            working_dir: "w".to_string(),
            kurv_home: "k".to_string(),
            kurv_file: "f".to_string(),
            plugins_dir: "p".to_string(),
            logs_dir: "l".to_string(),
        },
    }
}

fn egg(name: &str, command: &str) -> Egg {
    Egg::new(name.to_string(), command.to_string())
}

fn failure(reply: &Reply) -> (u16, String, String) {
    match &reply.payload {
        Payload::Failure(f) => {
            assert_eq!(f.code, reply.status);
            (f.code, f.status.clone(), f.message.clone())
        }
        _ => panic!("expected a failure"),
    }
}

fn replied_egg(reply: &Reply) -> &Egg {
    assert_eq!(reply.status, 200);
    match &reply.payload {
        Payload::Egg(e) => e,
        _ => panic!("expected an egg"),
    }
}

fn state_with_a() -> KurvState {
    let mut state = KurvState::new();
    let mut a = egg("a", "/bin/sleep");
    a.args = Some(vec!["60".to_string()]);
    let reply = collect(Ok(a), &mut state);
    assert_eq!(reply.status, 200);
    state
}

#[test]
fn routes_of_the_table() {
    let expected = [
        ("GET", "/", Route::Status),
        ("GET", "/status", Route::Status),
        ("GET", "/status/", Route::Status),
        ("GET", "/eggs", Route::Summary),
        ("GET", "/eggs/", Route::Summary),
        ("POST", "/eggs", Route::Collect),
        ("POST", "/eggs/a/stop", Route::Stop),
        ("POST", "/eggs/a/start", Route::Start),
        ("POST", "/eggs/a/restart", Route::Restart),
        ("POST", "/eggs/a/remove", Route::Remove),
        ("PATCH", "/eggs/a/env", Route::MergeEnv),
        ("PUT", "/eggs/a/env", Route::ReplaceEnv),
        ("GET", "/eggs/a", Route::Get),
        ("GET", "/eggs/a/env", Route::Get),
        ("DELETE", "/eggs/a", Route::NotAllowed),
        ("POST", "/eggs/a", Route::NotAllowed),
        ("GET", "/nope", Route::NotAllowed),
        ("get", "/eggs", Route::NotAllowed),
        ("POST", "/status", Route::NotAllowed),
    ];
    for (method, path, route) in expected {
        assert_eq!(routed(method, path, "").0, route, "{} {}", method, path);
    }
    assert_eq!((Router {}).routes().len(), 11);
    assert_eq!((Router {}).routes()[4].path, "/eggs/(?P<egg_id>.*)/stop");
}

#[test]
fn captures_become_path_parameters() {
    let (route, r) = routed("POST", "/eggs/my-egg/stop", "");
    assert_eq!(route, Route::Stop);
    assert_eq!(r.path_params.get("egg_id"), Some(&"my-egg".to_string()));
    assert_eq!(r.path_params.len(), 1);

    let (_, r) = routed("POST", "/eggs/a/b/stop/", "");
    assert_eq!(r.path_params.get("egg_id"), Some(&"a/b".to_string()));

    let (_, r) = routed("GET", "/eggs/7/", "");
    assert_eq!(r.path_params.get("egg_id"), Some(&"7/".to_string()));

    let (route, r) = routed("GET", "/eggs", "");
    assert_eq!(route, Route::Summary);
    assert!(r.path_params.is_empty());

    let mut r = request("GET", "/eggs/x", "");
    r.path_params.insert("egg_id".to_string(), "old".to_string());
    r.path_params.insert("other".to_string(), "kept".to_string());
    (Router {}).resolve(&mut r);
    assert_eq!(r.path_params.get("egg_id"), Some(&"x".to_string()));
    assert_eq!(r.path_params.get("other"), Some(&"kept".to_string()));
    assert_eq!(r.method, "GET");
    assert_eq!(r.path, "/eggs/x");
}

#[test]
fn collect_gives_the_first_id_and_lets_the_egg_wait() {
    let mut state = KurvState::new();
    let mut a = egg("a", "/bin/sleep");
    a.args = Some(vec!["60".to_string()]);
    let reply = collect(Ok(a), &mut state);
    let e = replied_egg(&reply);
    assert_eq!(e.id, Some(1));
    assert_eq!(e.name, "a");
    assert_eq!(e.state.as_ref().unwrap().status, EggStatus::Pending);
    assert_eq!(state.len(), 1);
    let stored = state.get_by_name("a").unwrap();
    assert_eq!(stored.id, Some(1));
    assert_eq!(stored.command, "/bin/sleep");
    assert_eq!(stored.args, Some(vec!["60".to_string()]));
    assert!(stored.should_spawn());
}

#[test]
fn collect_forces_the_status_and_keeps_the_rest_of_the_state() {
    let mut state = KurvState::new();
    let mut a = egg("a", "x");
    a.id = Some(50);
    a.state = Some(EggState {
        status: EggStatus::Running,
        start_time: None,
        try_count: 4,
        error: Some("e".to_string()),
        pid: 9,
    });
    let reply = collect(Ok(a), &mut state);
    let e = replied_egg(&reply);
    assert_eq!(e.id, Some(1));
    let s = e.state.as_ref().unwrap();
    assert_eq!(s.status, EggStatus::Pending);
    assert_eq!(s.try_count, 4);
    assert_eq!(s.pid, 9);
}

#[test]
fn collect_refuses_a_name_that_is_taken() {
    let mut state = state_with_a();
    let reply = collect(Ok(egg("a", "/bin/true")), &mut state);
    let (code, status, message) = failure(&reply);
    assert_eq!(code, 409);
    assert_eq!(status, "Conflict");
    assert!(message.contains("already exists"));
    assert_eq!(message, "An egg with name a already exists");
    assert_eq!(state.len(), 1);
    assert_eq!(state.get_by_name("a").unwrap().command, "/bin/sleep");
}

#[test]
fn collect_reports_a_body_that_is_no_egg() {
    let mut state = KurvState::new();
    let reply = collect(Err("missing field `name`".to_string()), &mut state);
    assert_eq!(
        failure(&reply),
        (400, "Bad Request".to_string(), "Invalid egg: missing field `name`".to_string())
    );
    assert!(state.is_empty());
}

#[test]
fn remove_of_a_plugin_is_forbidden() {
    let mut state = KurvState::new();
    let mut p = egg("p", "x");
    p.plugin = Some(true);
    state.collect(&p).unwrap();
    let (route, r) = routed("POST", "/eggs/p/remove", "");
    assert_eq!(route, Route::Remove);
    let reply = remove(&r, &mut state);
    assert_eq!(
        failure(&reply),
        (403, "Forbidden".to_string(), "plugins cannot be removed via API".to_string())
    );
    assert!(state.get_by_name("p").unwrap().state.is_none());
}

#[test]
fn remove_lets_an_egg_wait_for_removal() {
    let mut state = state_with_a();
    let (_, r) = routed("POST", "/eggs/a/remove", "");
    let reply = remove(&r, &mut state);
    assert_eq!(replied_egg(&reply).state.as_ref().unwrap().status, EggStatus::PendingRemoval);
    assert!(state.get_by_name("a").unwrap().is_pending_removal());
}

#[test]
fn env_is_replaced() {
    let mut state = state_with_a();
    let mut old = StrMap::new();
    old.insert("OLD".to_string(), "0".to_string());
    state.get_mut(1).unwrap().env = Some(old);
    let (route, r) = routed("PUT", "/eggs/a/env", "{\"X\":\"1\",\"Y\":\"2\"}");
    assert_eq!(route, Route::ReplaceEnv);
    let reply = replace(&r, &mut state);
    let e = replied_egg(&reply);
    assert!(!e.synced);
    let stored = state.get_by_name("a").unwrap();
    assert!(!stored.synced);
    assert!(stored.is_state_unsynced());
    let env = stored.env.as_ref().unwrap();
    assert_eq!(env.len(), 2);
    assert_eq!(env.get("X"), Some(&"1".to_string()));
    assert_eq!(env.get("Y"), Some(&"2".to_string()));
    assert_eq!(env.get("OLD"), None);
}

#[test]
fn env_is_merged_and_the_request_wins() {
    let mut state = state_with_a();
    let mut old = StrMap::new();
    old.insert("KEEP".to_string(), "k".to_string());
    old.insert("X".to_string(), "old".to_string());
    state.get_mut(1).unwrap().env = Some(old);
    let (route, r) = routed("PATCH", "/eggs/1/env", "{\"X\":\"new\",\"Z\":\"z\"}");
    assert_eq!(route, Route::MergeEnv);
    let reply = merge(&r, &mut state);
    assert_eq!(reply.status, 200);
    let stored = state.get_by_name("a").unwrap();
    let env = stored.env.as_ref().unwrap();
    assert_eq!(env.len(), 3);
    assert_eq!(env.get("KEEP"), Some(&"k".to_string()));
    assert_eq!(env.get("X"), Some(&"new".to_string()));
    assert_eq!(env.get("Z"), Some(&"z".to_string()));
    assert!(!stored.synced);
}

#[test]
fn env_of_an_egg_without_env_is_merged() {
    let mut state = state_with_a();
    let (_, r) = routed("PATCH", "/eggs/a/env", "{\"A\":\"1\"}");
    let reply = update_env(&r, &mut state, false);
    let env = replied_egg(&reply).env.as_ref().unwrap();
    assert_eq!(env.len(), 1);
    assert_eq!(env.get("A"), Some(&"1".to_string()));
}

#[test]
fn env_body_that_is_no_map_of_texts_is_a_bad_request() {
    let mut state = state_with_a();
    let mut old = StrMap::new();
    old.insert("K".to_string(), "v".to_string());
    state.get_mut(1).unwrap().env = Some(old);
    for (method, replace) in [("PUT", true), ("PATCH", false)] {
        let (_, r) = routed(method, "/eggs/a/env", "{\"X\":1}");
        let reply = update_env(&r, &mut state, replace);
        let (code, status, message) = failure(&reply);
        assert_eq!(code, 400);
        assert_eq!(status, "Bad Request");
        assert_eq!(
            message,
            "Invalid env: invalid type: integer `1`, expected a string at line 1 column 6"
        );
        let (_, r) = routed(method, "/eggs/a/env", "not json");
        let reply = update_env(&r, &mut state, replace);
        assert_eq!(reply.status, 400);
        assert!(failure(&reply).2.starts_with("Invalid env: "));
        // the egg is as it was
        let egg = state.get_by_name("a").unwrap();
        assert!(egg.synced);
        assert_eq!(egg.env.as_ref().unwrap().len(), 1);
        assert_eq!(egg.env.as_ref().unwrap().get("K"), Some(&"v".to_string()));
    }
}

#[test]
fn env_of_an_unknown_egg() {
    let mut state = state_with_a();
    let (_, r) = routed("PUT", "/eggs/zz/env", "{}");
    assert_eq!(
        failure(&update_env(&r, &mut state, true)),
        (404, "Not Found".to_string(), "egg not found: zz".to_string())
    );
    let r = request("PUT", "/eggs/a/env", "{}");
    assert_eq!(
        failure(&update_env(&r, &mut state, true)),
        (400, "Bad Request".to_string(), "missing or invalid egg id".to_string())
    );
}

#[test]
fn stop_is_always_allowed() {
    let mut state = state_with_a();
    let (_, r) = routed("POST", "/eggs/a/stop", "");
    for _ in 0..2 {
        let reply = stop(&r, &mut state);
        assert_eq!(replied_egg(&reply).state.as_ref().unwrap().status, EggStatus::Stopped);
    }
    assert!(state.get_by_name("a").unwrap().is_stopped());
}

#[test]
fn start_is_refused_unless_the_egg_is_stopped() {
    let mut state = state_with_a();
    let (_, r) = routed("POST", "/eggs/a/start", "");
    // pending
    assert_eq!(
        failure(&start(&r, &mut state)),
        (400, "Bad Request".to_string(), "egg a is already running".to_string())
    );
    for blocked in [
        EggStatus::Running,
        EggStatus::Errored,
        EggStatus::PendingRemoval,
        EggStatus::Restarting,
    ] {
        state.get_mut(1).unwrap().set_status(blocked);
        assert_eq!(start(&r, &mut state).status, 400);
        assert_eq!(state.get(1).unwrap().state.as_ref().unwrap().status, blocked);
    }
    state.get_mut(1).unwrap().set_status(EggStatus::Stopped);
    let reply = start(&r, &mut state);
    assert_eq!(replied_egg(&reply).state.as_ref().unwrap().status, EggStatus::Pending);
    // an egg without a state may be started
    state.get_mut(1).unwrap().state = None;
    assert_eq!(start(&r, &mut state).status, 200);
}

#[test]
fn restart_is_always_allowed() {
    let mut state = state_with_a();
    let (_, r) = routed("POST", "/eggs/1/restart", "");
    let reply = restart(&r, &mut state);
    assert_eq!(replied_egg(&reply).state.as_ref().unwrap().status, EggStatus::Restarting);
    assert!(state.get(1).unwrap().is_restarting());
}

#[test]
fn no_egg_is_set_to_running_or_errored() {
    let mut state = state_with_a();
    let (_, r) = routed("POST", "/eggs/a/stop", "");
    assert_eq!(
        failure(&set_status(&r, &mut state, EggStatus::Running)),
        (400, "Bad Request".to_string(), "can't change status to 'Running'".to_string())
    );
    assert_eq!(
        failure(&set_status(&r, &mut state, EggStatus::Errored)).2,
        "can't change status to 'Errored'"
    );
    assert_eq!(state.get(1).unwrap().state.as_ref().unwrap().status, EggStatus::Pending);
    assert_eq!(status_str(EggStatus::PendingRemoval), "PendingRemoval");
    assert_eq!(status_str(EggStatus::Pending), "Pending");
    assert_eq!(status_str(EggStatus::Stopped), "Stopped");
    assert_eq!(status_str(EggStatus::Restarting), "Restarting");
}

#[test]
fn status_of_an_unknown_egg_cannot_be_set() {
    let mut state = state_with_a();
    let (_, r) = routed("POST", "/eggs/b/stop", "");
    assert_eq!(
        failure(&stop(&r, &mut state)),
        (404, "Not Found".to_string(), "egg not found: b".to_string())
    );
    let r = request("POST", "/eggs/a/stop", "");
    assert_eq!(
        failure(&stop(&r, &mut state)),
        (400, "Bad Request".to_string(), "missing or invalid egg id".to_string())
    );
}

#[test]
fn get_finds_an_egg_by_id_pid_or_name() {
    let mut state = state_with_a();
    state.get_mut(1).unwrap().set_pid(4321);
    for token in ["1", "4321", "a"] {
        let (route, r) = routed("GET", &format!("/eggs/{}", token), "");
        assert_eq!(route, Route::Get);
        let reply = get(&r, &state);
        assert_eq!(replied_egg(&reply).name, "a");
        assert_eq!(replied_egg(&reply).id, Some(1));
    }
    let (_, r) = routed("GET", "/eggs/2", "");
    assert_eq!(
        failure(&get(&r, &state)),
        (404, "Not Found".to_string(), "egg not found: 2".to_string())
    );
    assert_eq!(failure(&get(&request("GET", "/eggs/a", ""), &state)).0, 400);
}

#[test]
fn summary_lists_eggs_or_plugins() {
    let mut state = KurvState::new();
    let mut p = egg("p", "x");
    p.plugin = Some(true);
    let mut up = egg("up", "x");
    up.set_as_errored("e".to_string());
    up.set_as_running_at(55, Moment { secs: 1000, nanos: 0 });
    state.collect(&p).unwrap();
    state.collect(&up).unwrap();
    state.collect(&egg("fresh", "x")).unwrap();
    state.get_mut(3).unwrap().state = None;
    state.get_mut(3).unwrap().id = Some(3);

    let at = Moment { secs: 1000 + 3 * 3600 + 5, nanos: 7 };
    let r = request("GET", "/eggs", "");
    let reply = summary_at(&r, &state, at);
    assert_eq!(reply.status, 200);
    let list = match &reply.payload {
        Payload::Summary(list) => &list.0,
        _ => panic!("expected a list"),
    };
    assert_eq!(list.len(), 2);
    assert_eq!(list[0].name, "fresh");
    assert_eq!(list[0].id, 3);
    assert_eq!(list[0].pid, 0);
    assert_eq!(list[0].status, EggStatus::Pending);
    assert_eq!(list[0].uptime, "-");
    assert_eq!(list[0].retry_count, 0);
    assert_eq!(list[1].name, "up");
    assert_eq!(list[1].id, 2);
    assert_eq!(list[1].pid, 55);
    assert_eq!(list[1].status, EggStatus::Running);
    assert_eq!(list[1].uptime, "3h");
    assert_eq!(list[1].retry_count, 1);

    let mut r = request("GET", "/eggs", "");
    r.query_params.insert("kind".to_string(), "plugins".to_string());
    let reply = summary(&r, &state);
    match &reply.payload {
        Payload::Summary(list) => {
            assert_eq!(list.0.len(), 1);
            assert_eq!(list.0[0].name, "p");
            assert_eq!(list.0[0].uptime, "-");
        }
        _ => panic!("expected a list"),
    }
    let mut r = request("GET", "/eggs", "");
    r.query_params.insert("kind".to_string(), "other".to_string());
    match &summary(&r, &state).payload {
        Payload::Summary(list) => assert_eq!(list.0.len(), 2),
        _ => panic!("expected a list"),
    }
    let mut r = request("GET", "/eggs", "");
    r.query_params.insert("kind".to_string(), "eggs".to_string());
    match &summary(&r, &state).payload {
        Payload::Summary(list) => assert_eq!(list.0.len(), 2),
        _ => panic!("expected a list"),
    }
}

#[test]
fn summary_says_the_uptime_as_of_now() {
    let mut state = KurvState::new();
    let mut up = egg("up", "x");
    up.set_as_running(5);
    state.collect(&up).unwrap();
    match &summary(&request("GET", "/eggs", ""), &state).payload {
        Payload::Summary(list) => assert_eq!(list.0[0].uptime, "< 1 second"),
        _ => panic!("expected a list"),
    }
}

#[test]
fn status_hands_the_info_back() {
    let info = Info {
        name: "kurv".to_string(),
        version: "1.2.3".to_string(),
        api_host: "h".to_string(),
        api_port: 1,
        version_name: Some("n".to_string()),
        description: "d".to_string(),
        pid: 2,
        paths: Paths {
            executable: "e".to_string(),
            working_dir: "w".to_string(),
            kurv_home: "k".to_string(),
            kurv_file: "f".to_string(),
            plugins_dir: "p".to_string(),
            logs_dir: "l".to_string(),
        },
    };
    let reply = status(&info);
    assert_eq!(reply.status, 200);
    match &reply.payload {
        Payload::Info(i) => {
            assert_eq!(i.version, "1.2.3");
            assert_eq!(i.version_name, Some("n".to_string()));
            assert_eq!(i.paths.logs_dir, "l");
        }
        _ => panic!("expected the info"),
    }
}

#[test]
fn a_route_miss_is_not_allowed() {
    let reply = not_allowed();
    assert_eq!(
        failure(&reply),
        (
            405,
            "Method Not Allowed".to_string(),
            "The method specified in the request is not allowed.".to_string()
        )
    );
    assert_eq!(Reply::failure(418, "x".to_string()).status, 418);
    assert_eq!(Reply::egg(egg("a", "b")).status, 200);
}

#[test]
fn every_route_is_answered_by_its_handler() {
    let info = Info {
        name: "kurv".to_string(),
        version: "1".to_string(),
        api_host: "h".to_string(),
        api_port: 1,
        version_name: None,
        description: "d".to_string(),
        pid: 2,
        paths: Paths {
            executable: "e".to_string(),
            working_dir: "w".to_string(),
            kurv_home: "k".to_string(),
            kurv_file: "f".to_string(),
            plugins_dir: "p".to_string(),
            logs_dir: "l".to_string(),
        },
    };
    let mut state = KurvState::new();
    let nothing = || Err(String::new());
    let run = |state: &mut KurvState, method: &str, path: &str, body: &str, posted| {
        let (route, r) = routed(method, path, body);
        assert_eq!(reads_egg(route), route == Route::Collect);
        respond(route, &r, state, &info, posted)
    };
    assert!(matches!(run(&mut state, "GET", "/", "", nothing()).payload, Payload::Info(_)));
    let reply = run(&mut state, "POST", "/eggs", "", Ok(egg("a", "/bin/true")));
    assert_eq!(replied_egg(&reply).id, Some(1));
    assert_eq!(run(&mut state, "POST", "/eggs", "", Ok(egg("a", "/bin/true"))).status, 409);
    assert_eq!(run(&mut state, "POST", "/eggs", "", Err("bad".to_string())).status, 400);
    assert!(matches!(run(&mut state, "GET", "/eggs", "", nothing()).payload, Payload::Summary(_)));
    assert_eq!(replied_egg(&run(&mut state, "GET", "/eggs/a", "", nothing())).name, "a");
    let status_after = |state: &mut KurvState, action: &str| {
        let reply = run(state, "POST", &format!("/eggs/a/{}", action), "", nothing());
        (reply.status, state.get(1).unwrap().state.as_ref().unwrap().status)
    };
    assert_eq!(status_after(&mut state, "start"), (400, EggStatus::Pending));
    assert_eq!(status_after(&mut state, "stop"), (200, EggStatus::Stopped));
    assert_eq!(status_after(&mut state, "start"), (200, EggStatus::Pending));
    assert_eq!(status_after(&mut state, "restart"), (200, EggStatus::Restarting));
    assert_eq!(status_after(&mut state, "remove"), (200, EggStatus::PendingRemoval));
    let reply = run(&mut state, "PUT", "/eggs/a/env", "{\"A\":\"1\"}", nothing());
    assert_eq!(replied_egg(&reply).env.as_ref().unwrap().len(), 1);
    let reply = run(&mut state, "PATCH", "/eggs/a/env", "{\"B\":\"2\"}", nothing());
    assert_eq!(replied_egg(&reply).env.as_ref().unwrap().len(), 2);
    assert_eq!(run(&mut state, "DELETE", "/eggs/a", "", nothing()).status, 405);
}

#[test]
fn a_group_that_took_no_part_gives_an_empty_parameter() {
    let found = vec![
        ("egg_id".to_string(), Some("a".to_string())),
        ("rest".to_string(), None),
        ("empty".to_string(), Some(String::new())),
    ];
    assert_eq!(
        captured_pairs(found),
        vec![
            ("egg_id".to_string(), "a".to_string()),
            ("rest".to_string(), String::new()),
            ("empty".to_string(), String::new()),
        ]
    );
    assert!(captured_pairs(vec![]).is_empty());
}

#[test]
fn a_request_is_answered_from_its_method_and_path() {
    let mut state = state_with_a();
    let mut old = StrMap::new();
    old.insert("OLD".to_string(), "0".to_string());
    state.get_mut(1).unwrap().env = Some(old);
    state.get_mut(1).unwrap().synced = true;

    // the environment is set to exactly what the body says
    let mut r = request("PUT", "/eggs/a/env", "{\"X\":\"1\",\"Y\":\"2\"}");
    let reply = answer(&Router {}, &mut r, &mut state, &info(), Err(String::new()));
    assert_eq!(r.path_params.get("egg_id"), Some(&"a".to_string()));
    assert_eq!(reply.status, 200);
    let stored = state.get_by_name("a").unwrap();
    assert!(!stored.synced);
    let env = stored.env.as_ref().unwrap();
    assert_eq!(env.len(), 2);
    assert_eq!(env.get("X"), Some(&"1".to_string()));
    assert_eq!(env.get("Y"), Some(&"2".to_string()));
    assert_eq!(env.get("OLD"), None);

    // with a slash at the end, and by id
    let mut r = request("PATCH", "/eggs/1/env/", "{\"Z\":\"3\"}");
    let reply = answer(&Router {}, &mut r, &mut state, &info(), Err(String::new()));
    assert_eq!(reply.status, 200);
    assert_eq!(state.get_by_name("a").unwrap().env.as_ref().unwrap().len(), 3);

    // an egg is collected from what the body gave
    let mut r = request("POST", "/eggs", "");
    let reply = answer(&Router {}, &mut r, &mut state, &info(), Ok(egg("b", "/bin/true")));
    assert_eq!(replied_egg(&reply).id, Some(2));
    assert!(state.get_by_name("b").is_some());

    // no route
    let mut r = request("DELETE", "/eggs/a", "");
    let reply = answer(&Router {}, &mut r, &mut state, &info(), Err(String::new()));
    assert_eq!(failure(&reply).0, 405);
    assert!(r.path_params.is_empty());
    assert_eq!(state.len(), 2);
}
