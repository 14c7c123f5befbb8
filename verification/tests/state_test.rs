use kurv::egg::{Egg, EggState, EggStatus};
use kurv::state::{KurvState, StoreError};

fn egg_named(name: &str, command: &str, id: Option<usize>) -> Egg {
    Egg {
        name: name.to_string(),
        command: command.to_string(),
        id,
        state: None,
        watch: None,
        args: None,
        cwd: None,
        env: None,
        paths: None,
        plugin: None,
        plugin_path: None,
        synced: true,
    }
}

#[test]
fn test_state_save_and_load() {
    // a state with an egg, as it is written and read again
    let egg = Egg {
        name: "test-egg".to_string(),
        command: "echo".to_string(),
        id: Some(1),
        state: Some(EggState {
            status: EggStatus::Running,
            start_time: None,
            try_count: 0,
            error: None,
            pid: 1234,
        }),
        watch: None,
        args: Some(vec!["hello".to_string()]),
        cwd: Some("/tmp".to_string()),
        env: None,
        paths: None,
        plugin: None,
        plugin_path: None,
        synced: true,
    };

    let state = KurvState::from_persisted(vec![egg]);
    let written = state.snapshot();
    assert_eq!(written.len(), 1);

    let loaded = KurvState::from_persisted(written);
    assert_eq!(loaded.len(), 1);
    assert!(loaded.contains_key("test-egg".to_string()));

    let loaded_egg = loaded.get_by_name("test-egg").unwrap();
    assert_eq!(loaded_egg.name, "test-egg");
    assert_eq!(loaded_egg.command, "echo");
    assert_eq!(loaded_egg.id, Some(1));
    assert_eq!(loaded_egg.state.as_ref().unwrap().pid, 1234);
}

#[test]
fn test_state_load_nonexistent() {
    // nothing on disk gives an empty state
    let state = KurvState::from_persisted(Vec::new());
    assert_eq!(state.len(), 0);
    assert!(state.is_empty());
    assert_eq!(KurvState::new().len(), 0);
}

#[test]
fn test_state_assigns_ids() {
    // eggs without ids
    let eggs = vec![egg_named("egg1", "echo", None), egg_named("egg2", "ls", None)];

    let loaded = KurvState::from_persisted(eggs);
    assert_eq!(loaded.len(), 2);

    for i in 0..loaded.len() {
        let egg = loaded.egg_at(i);
        assert!(egg.id.is_some());
        assert!(egg.id.unwrap() > 0);
    }
}

#[test]
fn test_state_multiple_eggs() {
    let mut eggs = Vec::new();
    for i in 1..=5 {
        eggs.push(egg_named(&format!("egg{}", i), "echo", Some(i)));
    }

    let state = KurvState::from_persisted(eggs);
    let loaded = KurvState::from_persisted(state.snapshot());
    assert_eq!(loaded.len(), 5);

    for i in 1..=5 {
        let key = format!("egg{}", i);
        assert!(loaded.contains_key(key.clone()));
        assert_eq!(loaded.get_by_name(&key).unwrap().id, Some(i));
    }
}

#[test]
fn round_trip_drops_plugins_renumbers_and_downgrades_running() {
    let mut state = KurvState::new();
    let mut plugin = egg_named("b-plugin", "p", None);
    plugin.plugin = Some(true);
    let mut running = egg_named("c", "run", None);
    running.state = Some(EggState {
        status: EggStatus::Running,
        start_time: None,
        try_count: 3,
        error: Some("e".to_string()),
        pid: 77,
    });
    let mut stopped = egg_named("a", "stop", None);
    stopped.set_status(EggStatus::Stopped);
    assert_eq!(state.collect(&running).unwrap(), 1);
    assert_eq!(state.collect(&plugin).unwrap(), 2);
    assert_eq!(state.collect(&stopped).unwrap(), 3);

    let loaded = KurvState::from_persisted(state.snapshot());
    assert_eq!(loaded.len(), 2);
    let a = loaded.egg_at(0);
    let c = loaded.egg_at(1);
    assert_eq!(a.name, "a");
    assert_eq!(a.id, Some(1));
    assert_eq!(a.state.as_ref().unwrap().status, EggStatus::Stopped);
    assert_eq!(c.name, "c");
    assert_eq!(c.id, Some(2));
    assert_eq!(c.command, "run");
    assert_eq!(c.state.as_ref().unwrap().status, EggStatus::Pending);
    assert_eq!(c.state.as_ref().unwrap().pid, 77);
    assert_eq!(c.state.as_ref().unwrap().try_count, 3);
    assert_eq!(c.state.as_ref().unwrap().error, Some("e".to_string()));
    assert!(!loaded.contains_key("b-plugin".to_string()));
}

#[test]
fn from_persisted_orders_by_name_and_keeps_the_later_of_two_with_one_name() {
    let eggs = vec![
        egg_named("zeta", "first", None),
        egg_named("alpha", "a", None),
        egg_named("zeta", "second", None),
        egg_named("Beta", "b", None),
    ];
    let state = KurvState::from_persisted(eggs);
    assert_eq!(state.len(), 3);
    assert_eq!(state.egg_at(0).name, "Beta");
    assert_eq!(state.egg_at(1).name, "alpha");
    assert_eq!(state.egg_at(2).name, "zeta");
    assert_eq!(state.egg_at(2).command, "second");
    assert_eq!(state.egg_at(0).id, Some(1));
    assert_eq!(state.egg_at(1).id, Some(2));
    assert_eq!(state.egg_at(2).id, Some(3));
}

#[test]
fn collect_gives_one_more_than_the_largest_id() {
    let mut state = KurvState::new();
    assert_eq!(state.collect(&egg_named("b", "x", None)).unwrap(), 1);
    assert_eq!(state.collect(&egg_named("a", "x", Some(40))).unwrap(), 2);
    assert_eq!(state.collect(&egg_named("c", "x", None)).unwrap(), 3);
    let _ = state.remove(2).unwrap();
    assert_eq!(state.collect(&egg_named("d", "x", None)).unwrap(), 4);
    let _ = state.remove(4).unwrap();
    assert_eq!(state.collect(&egg_named("e", "x", None)).unwrap(), 4);
    // iteration is by name
    assert_eq!(state.egg_at(0).name, "b");
    assert_eq!(state.egg_at(1).name, "c");
    assert_eq!(state.egg_at(2).name, "e");
}

#[test]
fn collect_twice_keeps_one_entry_and_the_first_id() {
    let mut state = KurvState::new();
    let first = state.collect(&egg_named("a", "first", None)).unwrap();
    let second = state.collect(&egg_named("a", "second", None));
    assert!(matches!(second, Err(StoreError::NameTaken { .. })));
    assert_eq!(second.unwrap_err().message(), "An egg with name a already exists");
    assert_eq!(state.len(), 1);
    let egg = state.get_by_name("a").unwrap();
    assert_eq!(egg.id, Some(first));
    assert_eq!(egg.command, "first");
}

#[test]
fn token_is_an_id_before_a_pid_before_a_name() {
    let mut state = KurvState::new();
    // ids: "2" -> 1, "7" -> 2, "x" -> 3
    let mut named_two = egg_named("2", "x", None);
    named_two.set_pid(7);
    let mut named_seven = egg_named("7", "x", None);
    named_seven.set_pid(3);
    let mut other = egg_named("x", "x", None);
    other.set_pid(99);
    assert_eq!(state.collect(&named_two).unwrap(), 1);
    assert_eq!(state.collect(&named_seven).unwrap(), 2);
    assert_eq!(state.collect(&other).unwrap(), 3);

    // the id wins over pid and name
    assert_eq!(state.get_id_by_token("2"), Some(2));
    assert_eq!(state.get_id_by_token("3"), Some(3));
    // no egg has the id 7: the pid wins over the name
    assert_eq!(state.get_id_by_token("7"), Some(1));
    assert_eq!(state.get_id_by_token("99"), Some(3));
    // no number at all: the name
    assert_eq!(state.get_id_by_token("x"), Some(3));
    assert_eq!(state.get_id_by_token("+1"), Some(1));
    assert_eq!(state.get_id_by_token("nope"), None);
    assert_eq!(state.get_id_by_token("100"), None);
    assert_eq!(state.get_id_by_token(""), None);
    assert_eq!(state.get_id_by_token("-1"), None);
    // the same token gives the same answer
    assert_eq!(state.get_id_by_token("7"), state.get_id_by_token("7"));
}

#[test]
fn token_zero_finds_the_first_egg_without_a_process() {
    let mut state = KurvState::new();
    let mut a = egg_named("a", "x", None);
    a.set_pid(5);
    let mut b = egg_named("b", "x", None);
    b.set_status(EggStatus::Stopped);
    state.collect(&a).unwrap();
    state.collect(&b).unwrap();
    assert_eq!(state.get_id_by_token("0"), Some(2));
}

#[test]
fn remove_refuses_an_egg_with_a_process() {
    let mut state = KurvState::new();
    let mut egg = egg_named("busy", "x", None);
    egg.set_pid(4242);
    let id = state.collect(&egg).unwrap();
    let refused = state.remove(id);
    match &refused {
        Err(StoreError::StillRunning { name, pid }) => {
            assert_eq!(name, "busy");
            assert_eq!(*pid, 4242);
        }
        _ => panic!("expected the egg to be kept"),
    }
    assert_eq!(
        refused.unwrap_err().message(),
        "Egg 'busy' is still running with pid 4242, please stop it first"
    );
    assert_eq!(state.len(), 1);
}

#[test]
fn remove_takes_an_egg_without_a_process() {
    let mut state = KurvState::new();
    let id = state.collect(&egg_named("idle", "x", None)).unwrap();
    let other = state.collect(&egg_named("other", "x", None)).unwrap();
    let removed = state.remove(id).unwrap();
    assert_eq!(removed.name, "idle");
    assert_eq!(state.len(), 1);
    assert!(state.get(id).is_none());
    assert!(state.get(other).is_some());
}

#[test]
fn remove_of_an_unknown_id_is_an_error() {
    let mut state = KurvState::new();
    state.collect(&egg_named("a", "x", None)).unwrap();
    let missing = state.remove(17);
    assert!(matches!(missing, Err(StoreError::NotFound { id: 17 })));
    assert_eq!(missing.unwrap_err().message(), "Egg with id '17' not found");
    assert_eq!(StoreError::IdsExhausted.message(), "no id is left for a new egg");
}

#[test]
fn lookups_by_id_pid_and_name() {
    let mut state = KurvState::new();
    let mut a = egg_named("a", "x", None);
    a.set_pid(10);
    let id = state.collect(&a).unwrap();
    assert_eq!(state.get(id).unwrap().name, "a");
    assert_eq!(state.get_by_pid(10).unwrap().name, "a");
    assert!(state.get_by_pid(11).is_none());
    assert_eq!(state.get_by_name("a").unwrap().id, Some(id));
    assert!(state.get_by_name("b").is_none());
    assert!(state.contains_key("a".to_string()));
    assert!(!state.contains_key("A".to_string()));
    assert_eq!(state.position_by_name("a"), Some(0));
    assert_eq!(state.position_by_id(id), Some(0));
    state.get_mut(id).unwrap().set_status(EggStatus::Stopped);
    assert!(state.get(id).unwrap().is_stopped());
    state.egg_at_mut(0).set_status(EggStatus::Restarting);
    assert!(state.get(id).unwrap().is_restarting());
    assert!(state.get_mut(id + 1).is_none());
}

#[test]
fn eggs_and_plugins_are_listed_apart() {
    let mut state = KurvState::new();
    let mut p = egg_named("p", "x", None);
    p.plugin = Some(true);
    let mut q = egg_named("q", "x", None);
    q.plugin = Some(false);
    state.collect(&egg_named("z", "x", None)).unwrap();
    state.collect(&p).unwrap();
    state.collect(&q).unwrap();
    let plugins = state.get_plugins();
    let eggs = state.get_eggs();
    assert_eq!(plugins.len(), 1);
    assert_eq!(plugins[0].name, "p");
    assert_eq!(eggs.len(), 2);
    assert_eq!(eggs[0].name, "q");
    assert_eq!(eggs[1].name, "z");
    assert_eq!(state.eggs_of_kind(true).len(), 1);
}

#[test]
fn downgrade_running_lets_running_eggs_wait() {
    let mut state = KurvState::new();
    let mut a = egg_named("a", "x", None);
    a.set_status(EggStatus::Running);
    a.set_pid(5);
    let mut b = egg_named("b", "x", None);
    b.set_status(EggStatus::Errored);
    state.collect(&a).unwrap();
    state.collect(&b).unwrap();
    state.downgrade_running();
    assert_eq!(state.egg_at(0).state.as_ref().unwrap().status, EggStatus::Pending);
    assert_eq!(state.egg_at(0).state.as_ref().unwrap().pid, 5);
    assert_eq!(state.egg_at(1).state.as_ref().unwrap().status, EggStatus::Errored);
}
