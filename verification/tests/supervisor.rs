use std::sync::Arc;

use sulaco::action::{Action, Group, Launch};
use sulaco::duration::Duration;
use sulaco::event::Event;
use sulaco::names::NameMap;
use sulaco::process::InstanceIds;
use sulaco::spec::{ConfigFile, InitSpec, OnExit, ServiceSpec};
use sulaco::state::{AppState, BaseState};
use sulaco::unix::{Signal, Termination};

fn name(text: &str) -> Arc<String> {
    Arc::new(text.to_string())
}

fn init(cmd: &str) -> InitSpec {
    InitSpec {
        cmd: cmd.to_string(),
        args: vec!["-x".to_string()],
        stop_timeout: Duration::from_secs(2),
        stop_signal: Signal::Sigterm,
    }
}

fn service(cmd: &str, on_exit: OnExit) -> ServiceSpec {
    ServiceSpec {
        cmd: cmd.to_string(),
        args: vec!["-y".to_string()],
        env: NameMap::new(),
        workdir: None,
        stop_timeout: Duration::from_secs(7),
        stop_signal: Signal::Sigint,
        on_exit,
    }
}

fn init_launch(text: &str) -> Action {
    Action::Spawn(Launch {
        group: Group::Init,
        name: name(text),
        cmd: format!("/bin/{}", text),
        args: vec!["-x".to_string()],
        env: vec![],
        workdir: None,
    })
}

fn service_launch(text: &str) -> Action {
    Action::Spawn(Launch {
        group: Group::Service,
        name: name(text),
        cmd: format!("/bin/{}", text),
        args: vec!["-y".to_string()],
        env: vec![],
        workdir: None,
    })
}

/// The init processes "one" and "two" where there are any, and the services "web",
/// which restarts after four seconds, and "core", which shuts everything down.
fn config(with_inits: bool) -> Arc<ConfigFile> {
    let mut conf = ConfigFile { init: NameMap::new(), services: NameMap::new() };
    if with_inits {
        conf.init.insert(name("one"), init("/bin/one"));
        conf.init.insert(name("two"), init("/bin/two"));
    }
    conf.services.insert(name("web"), service("/bin/web", OnExit::Restart { restart_delay: 4 }));
    conf.services.insert(name("core"), service("/bin/core", OnExit::Shutdown));
    Arc::new(conf)
}

fn ended(pid: u32) -> Event {
    Event::ProcessTerminated(Termination::Exited { pid, code: 0 })
}

fn stop(text: &str, pid: u32, instance_id: u64, secs: u64, signal: Signal) -> Vec<Action> {
    vec![
        Action::Kill { name: name(text), pid, signal },
        Action::Schedule {
            delay: Duration::from_secs(secs),
            event: Event::ForceShutdown { pid, instance_id },
        },
    ]
}

#[test]
fn a_new_supervisor_runs_nothing() {
    let app = AppState::new(&config(true));
    assert!(app.should_exit());
    assert!(!app.shutdown);
    assert!(!app.inits.all_done());
    assert!(AppState::new(&config(false)).inits.all_done());
    assert!(!BaseState::new(&config(true)).owns_pid(1));
}

#[test]
fn without_init_processes_the_services_come_first() {
    let app = AppState::new(&config(false));
    assert_eq!(app.boot(), vec![service_launch("web"), service_launch("core")]);
}

#[test]
fn with_init_processes_they_come_first() {
    let app = AppState::new(&config(true));
    assert_eq!(app.boot(), vec![init_launch("one"), init_launch("two")]);
    assert_eq!(app.boot(), app.inits.start_all());
}

#[test]
fn names_are_known_by_group() {
    let app = AppState::new(&config(true));
    assert!(app.knows(Group::Init, &name("one")));
    assert!(!app.knows(Group::Service, &name("one")));
    assert!(app.knows(Group::Service, &name("web")));
    assert!(!app.knows(Group::Init, &name("web")));
}

#[test]
fn services_start_when_the_last_init_process_has_ended() {
    let mut ids = InstanceIds::new();
    let mut app = AppState::new(&config(true));
    app.spawned(Group::Init, &name("one"), Some(11), &mut ids);
    app.spawned(Group::Init, &name("two"), Some(12), &mut ids);
    assert!(app.inits.owns_pid(11));
    assert!(!app.services.owns_pid(11));
    assert_eq!(app.handle(ended(12)), vec![]);
    assert!(!app.inits.owns_pid(12));
    assert!(!app.inits.all_done());
    assert_eq!(app.handle(ended(11)), vec![service_launch("web"), service_launch("core")]);
    assert!(app.inits.all_done());
    assert!(app.should_exit());
    // A second report of the same end changes nothing and starts nothing.
    assert_eq!(app.handle(ended(11)), vec![]);
}

#[test]
fn an_init_process_that_cannot_be_spawned_is_never_done() {
    let mut ids = InstanceIds::new();
    let mut app = AppState::new(&config(true));
    app.spawned(Group::Init, &name("one"), Some(11), &mut ids);
    app.spawned(Group::Init, &name("two"), None, &mut ids);
    assert_eq!(ids.next, 1);
    assert_eq!(app.handle(ended(11)), vec![]);
    assert!(!app.inits.all_done());
    assert!(app.should_exit());
}

#[test]
fn services_do_not_start_during_a_shutdown() {
    let mut ids = InstanceIds::new();
    let mut app = AppState::new(&config(true));
    app.spawned(Group::Init, &name("one"), Some(11), &mut ids);
    app.spawned(Group::Init, &name("two"), Some(12), &mut ids);
    app.handle(ended(11));
    app.handle(Event::TermSignal);
    assert_eq!(app.handle(ended(12)), vec![]);
    assert!(app.inits.all_done());
    assert!(app.should_exit());
}

#[test]
fn services_restart_after_their_delay() {
    let mut ids = InstanceIds::new();
    let mut app = AppState::new(&config(false));
    app.spawned(Group::Service, &name("web"), Some(20), &mut ids);
    assert!(app.services.owns_pid(20));
    assert_eq!(
        app.handle(ended(20)),
        vec![Action::Schedule {
            delay: Duration::from_secs(4),
            event: Event::ServiceRestart { name: name("web") },
        }]
    );
    assert!(!app.services.owns_pid(20));
    assert_eq!(
        app.handle(Event::ServiceRestart { name: name("web") }),
        vec![service_launch("web")]
    );
    assert_eq!(app.services.start(&name("web")), service_launch("web"));
}

#[test]
fn services_killed_by_a_signal_restart_too() {
    let mut ids = InstanceIds::new();
    let mut app = AppState::new(&config(false));
    app.spawned(Group::Service, &name("web"), Some(20), &mut ids);
    let killed = Event::ProcessTerminated(Termination::Signaled { pid: 20, signal: 9 });
    assert_eq!(app.handle(killed).len(), 1);
}

#[test]
fn a_service_can_shut_everything_down_by_exiting() {
    let mut ids = InstanceIds::new();
    let mut app = AppState::new(&config(false));
    app.spawned(Group::Service, &name("web"), Some(20), &mut ids);
    app.spawned(Group::Service, &name("core"), Some(21), &mut ids);
    assert_eq!(app.handle(ended(21)), vec![Action::Send { event: Event::Shutdown }]);
    assert!(!app.shutdown);
    assert_eq!(app.handle(Event::Shutdown), stop("web", 20, 0, 7, Signal::Sigint));
    assert!(app.shutdown);
}

#[test]
fn nothing_restarts_during_a_shutdown() {
    let mut ids = InstanceIds::new();
    let mut app = AppState::new(&config(false));
    app.spawned(Group::Service, &name("web"), Some(20), &mut ids);
    app.spawned(Group::Service, &name("core"), Some(21), &mut ids);
    app.handle(Event::Shutdown);
    assert_eq!(app.handle(ended(20)), vec![]);
    assert!(!app.should_exit());
    assert_eq!(app.handle(ended(21)), vec![]);
    assert!(app.should_exit());
}

#[test]
fn a_restart_that_is_already_due_still_happens() {
    let mut app = AppState::new(&config(false));
    app.handle(Event::TermSignal);
    assert_eq!(
        app.handle(Event::ServiceRestart { name: name("web") }),
        vec![service_launch("web")]
    );
}

#[test]
fn zombies_are_ignored() {
    let mut ids = InstanceIds::new();
    let mut app = AppState::new(&config(true));
    app.spawned(Group::Init, &name("one"), Some(11), &mut ids);
    app.spawned(Group::Service, &name("web"), Some(20), &mut ids);
    assert_eq!(app.handle(ended(99)), vec![]);
    assert!(app.inits.owns_pid(11));
    assert!(app.services.owns_pid(20));
}

#[test]
fn shutdown_stops_everything_by_ascending_pid() {
    let mut ids = InstanceIds::new();
    let mut app = AppState::new(&config(true));
    app.spawned(Group::Init, &name("two"), Some(40), &mut ids);
    app.spawned(Group::Init, &name("one"), Some(30), &mut ids);
    app.spawned(Group::Service, &name("core"), Some(25), &mut ids);
    app.spawned(Group::Service, &name("web"), Some(20), &mut ids);
    let mut expected = stop("one", 30, 1, 2, Signal::Sigterm);
    expected.extend(stop("two", 40, 0, 2, Signal::Sigterm));
    assert_eq!(app.inits.shutdown(), expected);
    expected.extend(stop("web", 20, 3, 7, Signal::Sigint));
    expected.extend(stop("core", 25, 2, 7, Signal::Sigint));
    assert_eq!(app.handle(Event::TermSignal), expected);
    assert!(app.shutdown);
    // Told again, it signals again.
    assert_eq!(app.shutdown(), expected);
}

#[test]
fn both_ways_to_shut_down_agree() {
    let mut ids = InstanceIds::new();
    let mut told = AppState::new(&config(false));
    let mut asked = AppState::new(&config(false));
    told.spawned(Group::Service, &name("web"), Some(20), &mut ids);
    asked.spawned(Group::Service, &name("web"), Some(20), &mut ids);
    assert_eq!(told.handle(Event::TermSignal), stop("web", 20, 0, 7, Signal::Sigint));
    assert_eq!(asked.handle(Event::Shutdown), stop("web", 20, 1, 7, Signal::Sigint));
    assert!(told.shutdown);
    assert_eq!(told.shutdown, asked.shutdown);
}

#[test]
fn services_can_be_shut_down_alone() {
    let mut ids = InstanceIds::new();
    let mut app = AppState::new(&config(false));
    app.spawned(Group::Service, &name("web"), Some(20), &mut ids);
    assert_eq!(app.services.shutdown(), stop("web", 20, 0, 7, Signal::Sigint));
    let term = Termination::Exited { pid: 20, code: 0 };
    assert_eq!(app.services.terminated(term), vec![]);
}

#[test]
fn what_outlives_its_timeout_is_killed() {
    let mut ids = InstanceIds::new();
    let mut app = AppState::new(&config(true));
    app.spawned(Group::Init, &name("one"), Some(11), &mut ids);
    app.spawned(Group::Service, &name("web"), Some(20), &mut ids);
    app.handle(Event::TermSignal);
    assert_eq!(
        app.handle(Event::ForceShutdown { pid: 11, instance_id: 0 }),
        vec![Action::Kill { name: name("one"), pid: 11, signal: Signal::Sigkill }]
    );
    assert_eq!(
        app.services.force_terminate(20, 1),
        vec![Action::Kill { name: name("web"), pid: 20, signal: Signal::Sigkill }]
    );
    assert_eq!(app.inits.force_terminate(20, 1), vec![]);
}

#[test]
fn late_timers_kill_nobody() {
    let mut ids = InstanceIds::new();
    let mut app = AppState::new(&config(false));
    app.spawned(Group::Service, &name("web"), Some(20), &mut ids);
    app.handle(ended(20));
    assert_eq!(app.handle(Event::ForceShutdown { pid: 20, instance_id: 0 }), vec![]);
    // The same pid again, for another instance.
    app.spawned(Group::Service, &name("core"), Some(20), &mut ids);
    assert_eq!(app.handle(Event::ForceShutdown { pid: 20, instance_id: 0 }), vec![]);
    assert_eq!(app.handle(Event::ForceShutdown { pid: 20, instance_id: 1 }).len(), 1);
}

#[test]
fn failed_spawns_change_nothing() {
    let mut ids = InstanceIds::new();
    let mut app = AppState::new(&config(false));
    app.spawned(Group::Service, &name("web"), None, &mut ids);
    assert!(app.should_exit());
    assert_eq!(ids.next, 0);
}

#[test]
fn the_end_of_a_process_undoes_its_spawn() {
    let mut ids = InstanceIds::new();
    let mut app = AppState::new(&config(false));
    app.spawned(Group::Service, &name("core"), Some(21), &mut ids);
    app.spawned(Group::Service, &name("web"), Some(20), &mut ids);
    app.handle(ended(20));
    assert!(!app.services.owns_pid(20));
    assert!(app.services.owns_pid(21));
    assert!(!app.should_exit());
}

#[test]
fn a_pid_that_comes_again_names_the_later_process() {
    let mut ids = InstanceIds::new();
    let mut app = AppState::new(&config(false));
    app.spawned(Group::Service, &name("web"), Some(20), &mut ids);
    app.spawned(Group::Service, &name("core"), Some(20), &mut ids);
    assert_eq!(app.shutdown(), stop("core", 20, 1, 7, Signal::Sigint));
}

#[test]
fn init_processes_are_asked_before_services() {
    let mut ids = InstanceIds::new();
    let mut app = AppState::new(&config(true));
    app.spawned(Group::Service, &name("web"), Some(11), &mut ids);
    app.spawned(Group::Init, &name("one"), Some(11), &mut ids);
    assert_eq!(app.handle(ended(11)), vec![]);
    assert!(!app.inits.owns_pid(11));
    assert!(app.services.owns_pid(11));
}

#[test]
fn a_second_supervisor_goes_on_counting() {
    let mut ids = InstanceIds::new();
    let mut first = AppState::new(&config(false));
    first.spawned(Group::Service, &name("web"), Some(20), &mut ids);
    let mut second = AppState::new(&config(false));
    second.spawned(Group::Service, &name("web"), Some(21), &mut ids);
    assert_eq!(second.shutdown(), stop("web", 21, 1, 7, Signal::Sigint));
    assert_eq!(ids.next, 2);
}

#[test]
fn a_timer_spares_the_newcomer_at_every_later_point() {
    let mut ids = InstanceIds::new();
    let mut app = AppState::new(&config(false));
    app.spawned(Group::Service, &name("web"), Some(20), &mut ids);
    app.handle(Event::TermSignal);
    app.handle(ended(20));
    app.spawned(Group::Service, &name("core"), Some(20), &mut ids);
    app.spawned(Group::Service, &name("web"), Some(21), &mut ids);
    app.handle(ended(21));
    app.handle(Event::Shutdown);
    assert_eq!(app.handle(Event::ForceShutdown { pid: 20, instance_id: 0 }), vec![]);
    assert!(app.services.owns_pid(20));
}
