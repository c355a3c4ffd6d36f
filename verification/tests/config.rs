use std::sync::Arc;

use sulaco::action::{Group, Launch};
use sulaco::duration::Duration;
use sulaco::names::NameMap;
use sulaco::spec::defaults;
use sulaco::spec::{InitSpec, OnExit, ServiceSpec};
use sulaco::unix::Signal;

fn name(text: &str) -> Arc<String> {
    Arc::new(text.to_string())
}

#[test]
fn default_stop_timeout_is_ten_seconds() {
    assert_eq!(defaults::stop_timeout(), Duration::from_secs(10));
    assert_eq!(defaults::stop_timeout().as_secs(), 10);
    assert_eq!(defaults::stop_timeout().subsec_nanos(), 0);
}

#[test]
fn default_stop_signal_is_sigint() {
    assert_eq!(defaults::stop_signal(), Signal::Sigint);
}

#[test]
fn default_on_exit_is_an_immediate_restart() {
    assert_eq!(defaults::restart_delay(), 0);
    assert_eq!(defaults::on_exit(), OnExit::Restart { restart_delay: 0 });
}

#[test]
fn durations_keep_their_parts() {
    let d = Duration::from_parts(3, 250_000_000);
    assert_eq!(d.as_secs(), 3);
    assert_eq!(d.subsec_nanos(), 250_000_000);
    assert_eq!(Duration::from_parts(3, 0), Duration::from_secs(3));
    assert_ne!(d, Duration::from_secs(3));
}

#[test]
fn names_keep_the_order_of_their_first_insertion() {
    let mut map: NameMap<u32> = NameMap::new();
    assert!(map.is_empty());
    map.insert(name("b"), 1);
    map.insert(name("a"), 2);
    map.insert(name("b"), 3);
    assert!(!map.is_empty());
    assert_eq!(map.len(), 2);
    assert_eq!(map.entry(0).0.as_str(), "b");
    assert_eq!(*map.entry(0).1, 3);
    assert_eq!(map.entry(1).0.as_str(), "a");
    assert_eq!(*map.entry(1).1, 2);
}

#[test]
fn the_last_value_of_a_name_counts() {
    let mut map: NameMap<u32> = NameMap::new();
    map.insert(name("a"), 1);
    map.insert(name("b"), 2);
    map.insert(name("a"), 3);
    assert_eq!(map.get(&"a".to_string()), Some(&3));
    assert_eq!(map.get(&"b".to_string()), Some(&2));
    assert_eq!(map.get(&"c".to_string()), None);
    assert!(map.contains_key(&"a".to_string()));
    assert!(!map.contains_key(&"c".to_string()));
}

#[test]
fn init_processes_are_launched_by_their_command() {
    let spec = InitSpec {
        cmd: "/bin/migrate".to_string(),
        args: vec!["--all".to_string(), "db".to_string()],
        stop_timeout: defaults::stop_timeout(),
        stop_signal: Signal::Sigterm,
    };
    assert_eq!(
        spec.launch(&name("migrate")),
        Launch {
            group: Group::Init,
            name: name("migrate"),
            cmd: "/bin/migrate".to_string(),
            args: vec!["--all".to_string(), "db".to_string()],
            env: vec![],
            workdir: None,
        }
    );
}

#[test]
fn services_are_launched_with_their_environment_and_directory() {
    let mut env: NameMap<String> = NameMap::new();
    env.insert(name("PORT"), "80".to_string());
    env.insert(name("MODE"), "fast".to_string());
    let spec = ServiceSpec {
        cmd: "web".to_string(),
        args: vec![],
        env,
        workdir: Some("/srv".to_string()),
        stop_timeout: defaults::stop_timeout(),
        stop_signal: defaults::stop_signal(),
        on_exit: defaults::on_exit(),
    };
    let launch = spec.launch(&name("web"));
    assert_eq!(launch.group, Group::Service);
    assert_eq!(launch.name, name("web"));
    assert_eq!(launch.cmd, "web");
    assert!(launch.args.is_empty());
    assert_eq!(
        launch.env,
        vec![(name("PORT"), "80".to_string()), (name("MODE"), "fast".to_string())]
    );
    assert_eq!(launch.workdir, Some("/srv".to_string()));
}

#[test]
fn launches_share_the_name() {
    let shared = name("web");
    let spec = InitSpec {
        cmd: "web".to_string(),
        args: vec![],
        stop_timeout: defaults::stop_timeout(),
        stop_signal: defaults::stop_signal(),
    };
    assert!(Arc::ptr_eq(&spec.launch(&shared).name, &shared));
}
