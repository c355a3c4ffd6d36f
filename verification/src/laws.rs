//! What holds of the supervisor across its operations.

use vstd::prelude::*;

use crate::action::{ActionView, Group};
use crate::duration::Duration;
use crate::event::EventView;
use crate::model::{ascending, for_each, lemma_ascending_below, AppView, BaseView, InitsView};
use crate::names::NameMapView;
use crate::process::ProcessView;
use crate::spec::{ConfigView, OnExit, StopSpec};
use crate::unix::{Signal, Termination};

verus! {

/// A supervisor that was just set up is sound, runs nothing and so may exit at once,
/// and is not being shut down.
pub proof fn law_new_runs_nothing(conf: ConfigView)
    requires
        conf.wf(),
    ensures
        AppView::new(conf).wf(),
        AppView::new(conf).should_exit(),
        !AppView::new(conf).shutdown,
        AppView::new(conf).conf() == conf,
{
}

/// No event breaks the soundness of the state, changes the configuration, takes back a
/// shutdown, or parts the two marks of a shutdown.
pub proof fn law_events_keep_the_state_sound(app: AppView, event: EventView)
    requires
        app.wf(),
    ensures
        app.after(event).wf(),
        app.after(event).conf() == app.conf(),
        app.shutdown ==> app.after(event).shutdown,
        app.services.shutdown ==> app.after(event).services.shutdown,
        app.shutdown == app.services.shutdown ==> app.after(event).shutdown == app.after(
            event,
        ).services.shutdown,
{
    if let EventView::ProcessTerminated(term) = event {
        app.inits.base.lemma_removed_follows(app.inits.specs(), term.of_pid());
        app.services.base.lemma_removed_follows(app.services.specs(), term.of_pid());
    }
}

/// No spawn of a configured process breaks the soundness of the state, changes the
/// configuration, or begins or takes back a shutdown.
pub proof fn law_spawns_keep_the_state_sound(
    app: AppView,
    group: Group,
    name: Seq<char>,
    child: Option<u32>,
    number: u64,
)
    requires
        app.wf(),
        app.knows(group, name),
    ensures
        app.spawned(group, name, child, number).wf(),
        app.spawned(group, name, child, number).conf() == app.conf(),
        app.spawned(group, name, child, number).shutdown == app.shutdown,
        app.spawned(group, name, child, number).services.shutdown == app.services.shutdown,
{
    if let Some(pid) = child {
        let process = ProcessView { name, pid, instance_id: number };
        match group {
            Group::Init => app.inits.base.lemma_spawned_follows(app.inits.specs(), process),
            Group::Service => app.services.base.lemma_spawned_follows(
                app.services.specs(),
                process,
            ),
        }
    }
}

/// A process of one of the two groups runs under `pid`.
pub open spec fn supervised(app: AppView, pid: u32) -> bool {
    app.inits.base.owns_pid(pid) || app.services.base.owns_pid(pid)
}

/// The end of a process that nobody supervises is ignored.
pub proof fn law_zombies_are_ignored(app: AppView, term: Termination)
    requires
        !supervised(app, term.of_pid()),
    ensures
        app.after(EventView::ProcessTerminated(term)) == app,
        app.reaction(EventView::ProcessTerminated(term)) == Seq::<ActionView>::empty(),
{
    assert(app.services.base.table.remove(term.of_pid()) =~= app.services.base.table);
}

/// How many processes run.
pub open spec fn running(app: AppView) -> nat {
    app.inits.base.table.len() + app.services.base.table.len()
}

/// There is nothing left to supervise exactly when no process runs, and the end of a
/// supervised process leaves one less.
pub proof fn law_every_end_counts(app: AppView, term: Termination)
    requires
        app.wf(),
    ensures
        app.should_exit() <==> running(app) == 0,
        supervised(app, term.of_pid()) ==> running(
            app.after(EventView::ProcessTerminated(term)),
        ) + 1 == running(app),
{
    let inits = app.inits.base.table.dom();
    let services = app.services.base.table.dom();
    lemma_empty_len(inits);
    lemma_empty_len(services);
    assert(app.inits.base.table.is_empty() <==> inits =~= Set::<u32>::empty());
    assert(app.services.base.table.is_empty() <==> services =~= Set::<u32>::empty());
    let after = app.after(EventView::ProcessTerminated(term));
    if app.inits.base.owns_pid(term.of_pid()) {
        assert(after.inits.base.table.dom() =~= inits.remove(term.of_pid()));
    } else {
        assert(after.services.base.table.dom() =~= services.remove(term.of_pid()));
    }
}

proof fn lemma_empty_len(pids: Set<u32>)
    requires
        pids.finite(),
    ensures
        pids.len() == 0 <==> pids =~= Set::<u32>::empty(),
{
    if pids.len() == 0 {
        if exists|pid: u32| pids.contains(pid) {
            let pid = choose|pid: u32| pids.contains(pid);
            assert(pids.remove(pid).len() + 1 == pids.len());
        }
    }
}

/// A child that was spawned is supervised from then on, under its name and with the
/// instance number that was due, and nothing else changes in the tables; one that could not be
/// spawned changes nothing.
pub proof fn law_spawned_is_supervised(
    app: AppView,
    group: Group,
    name: Seq<char>,
    pid: u32,
    number: u64,
    other: u32,
)
    requires
        other != pid,
    ensures
        app.spawned(group, name, None, number) == app,
        ({
            let after = app.spawned(group, name, Some(pid), number);
            let process = ProcessView { name, pid, instance_id: number };
            &&& !after.should_exit()
            &&& supervised(after, pid)
            &&& match group {
                Group::Init => {
                    &&& after.inits.base.table[pid] == process
                    &&& after.inits.done == app.inits.done
                    &&& after.inits.base.owns_pid(other) == app.inits.base.owns_pid(other)
                    &&& after.inits.base.table[other] == app.inits.base.table[other]
                    &&& after.services == app.services
                },
                Group::Service => {
                    &&& after.services.base.table[pid] == process
                    &&& after.services.base.owns_pid(other) == app.services.base.owns_pid(other)
                    &&& after.services.base.table[other] == app.services.base.table[other]
                    &&& after.inits == app.inits
                },
            }
        }),
{
    let after = app.spawned(group, name, Some(pid), number);
    match group {
        Group::Init => assert(after.inits.base.table.dom().contains(pid)),
        Group::Service => assert(after.services.base.table.dom().contains(pid)),
    }
}

/// The end of a process undoes its spawn: the tables are what they were before. Of an
/// init process, that it is done is all that is left; of a service, nothing.
pub proof fn law_end_undoes_spawn(
    app: AppView,
    group: Group,
    name: Seq<char>,
    number: u64,
    term: Termination,
)
    requires
        !supervised(app, term.of_pid()),
    ensures
        ({
            let spawned = app.spawned(group, name, Some(term.of_pid()), number);
            let ended = spawned.after(EventView::ProcessTerminated(term));
            match group {
                Group::Init => ended == AppView {
                    inits: InitsView { done: app.inits.done.insert(name), ..app.inits },
                    ..app
                },
                Group::Service => ended == app,
            }
        }),
{
    let pid = term.of_pid();
    let process = ProcessView { name, pid, instance_id: number };
    match group {
        Group::Init => {
            assert(app.inits.base.table.insert(pid, process).remove(pid)
                =~= app.inits.base.table);
        },
        Group::Service => {
            assert(app.services.base.table.insert(pid, process).remove(pid)
                =~= app.services.base.table);
        },
    }
}

/// The supervisor begins with exactly the init processes of the configuration, each
/// once; only where there are none does it begin with the services, each once.
pub proof fn law_boot(conf: ConfigView)
    requires
        conf.wf(),
    ensures
        ({
            let app = AppView::new(conf);
            if conf.init.names.len() > 0 {
                &&& app.boot() == app.inits.start_all()
                &&& starts_each_once(app.boot(), Group::Init, conf.init.names)
            } else {
                &&& app.boot() == app.services.start_all()
                &&& starts_each_once(app.boot(), Group::Service, conf.services.names)
            }
        }),
{
}

/// The actions are the spawnings of the named members of a group, one for each name
/// and in the order of the names.
pub open spec fn starts_each_once(
    actions: Seq<ActionView>,
    group: Group,
    names: Seq<Seq<char>>,
) -> bool {
    &&& names.no_duplicates()
    &&& actions.len() == names.len()
    &&& forall|i: int| 0 <= i < actions.len() ==> starts(#[trigger] actions[i], group, names[i])
}

/// The action is the spawning of that member of a group.
pub open spec fn starts(action: ActionView, group: Group, name: Seq<char>) -> bool {
    action matches ActionView::Spawn(launch) && launch.group == group && launch.name == name
}

/// When the last init process ends and nothing is being shut down, all services are
/// started, each once; as long as an init process is not done, none is.
pub proof fn law_last_init_starts_the_services(app: AppView, term: Termination)
    requires
        app.wf(),
        app.has_inits(),
        app.inits.base.owns_pid(term.of_pid()),
    ensures
        ({
            let event = EventView::ProcessTerminated(term);
            if app.after(event).inits.all_done() && !app.shutdown {
                starts_each_once(app.reaction(event), Group::Service, app.conf().services.names)
            } else {
                app.reaction(event) == Seq::<ActionView>::empty()
            }
        }),
{
}

/// A service that exits is started again by the very command of its spec, after the
/// delay of its spec, unless everything is being shut down.
pub proof fn law_restart(app: AppView, term: Termination, delay: u64)
    requires
        app.wf(),
        !app.inits.base.owns_pid(term.of_pid()),
        app.services.base.owns_pid(term.of_pid()),
        !app.services.shutdown,
        app.services.specs().values[app.services.base.table[term.of_pid()].name].on_exit == (
        OnExit::Restart { restart_delay: delay }),
    ensures
        ({
            let name = app.services.base.table[term.of_pid()].name;
            let ended = EventView::ProcessTerminated(term);
            let restart = EventView::ServiceRestart { name };
            let spec = app.services.specs().values[name];
            &&& app.reaction(ended) == seq![
                ActionView::Schedule { delay: Duration::of_secs(delay), event: restart },
            ]
            &&& !app.after(ended).services.base.owns_pid(term.of_pid())
            &&& app.after(ended).accepts(restart)
            &&& app.after(ended).reaction(restart) == seq![
                ActionView::Spawn(spec.launch_of(name)),
            ]
        }),
{
}

/// A service that is configured to shut everything down does so by exiting: the event
/// that it brings about stops every process that runs.
pub proof fn law_exit_shuts_down(app: AppView, term: Termination)
    requires
        app.wf(),
        !app.inits.base.owns_pid(term.of_pid()),
        app.services.base.owns_pid(term.of_pid()),
        !app.services.shutdown,
        app.services.specs().values[app.services.base.table[term.of_pid()].name].on_exit
            is Shutdown,
    ensures
        ({
            let ended = app.after(EventView::ProcessTerminated(term));
            &&& app.reaction(EventView::ProcessTerminated(term)) == seq![
                ActionView::Send { event: EventView::Shutdown },
            ]
            &&& ended.reaction(EventView::Shutdown) == ended.stop_all()
            &&& ended.after(EventView::Shutdown).shutdown
        }),
{
}

/// Once everything is being shut down, the end of a process has no consequence: no
/// service is restarted, and the services are not started after the init processes.
pub proof fn law_shutdown_restarts_nothing(app: AppView, term: Termination)
    requires
        app.shutdown,
        app.services.shutdown,
    ensures
        app.reaction(EventView::ProcessTerminated(term)) == Seq::<ActionView>::empty(),
{
}

/// A signal to stop and a service that asks for the shutdown have the same effect.
pub proof fn law_both_ways_to_shut_down_agree(app: AppView)
    ensures
        app.after(EventView::TermSignal) == app.after(EventView::Shutdown),
        app.reaction(EventView::TermSignal) == app.reaction(EventView::Shutdown),
        app.after(EventView::Shutdown).shutdown,
        app.after(EventView::Shutdown).services.shutdown,
{
}

/// The actions stop that process: they hold its stop signal, directly followed by the
/// timer for its SIGKILL.
pub open spec fn stops(
    actions: Seq<ActionView>,
    process: ProcessView,
    timeout: Duration,
    signal: Signal,
) -> bool {
    exists|k: int|
        0 <= k < actions.len() - 1 && #[trigger] actions.subrange(k, k + 2) == process.stop(
            timeout,
            signal,
        )
}

proof fn lemma_for_each_len(pids: Seq<u32>, todo: spec_fn(u32) -> Seq<ActionView>)
    requires
        forall|i: int| 0 <= i < pids.len() ==> todo(#[trigger] pids[i]).len() == 2,
    ensures
        for_each(pids, todo).len() == 2 * pids.len(),
    decreases pids.len(),
{
    if pids.len() > 0 {
        assert forall|i: int| 0 <= i < pids.drop_last().len() implies todo(
            #[trigger] pids.drop_last()[i],
        ).len() == 2 by {
            assert(pids.drop_last()[i] == pids[i]);
        }
        lemma_for_each_len(pids.drop_last(), todo);
        assert(pids.last() == pids[pids.len() - 1]);
    }
}

proof fn lemma_for_each_at(pids: Seq<u32>, todo: spec_fn(u32) -> Seq<ActionView>, n: int)
    requires
        forall|i: int| 0 <= i < pids.len() ==> todo(#[trigger] pids[i]).len() == 2,
        0 <= n < pids.len(),
    ensures
        for_each(pids, todo).len() == 2 * pids.len(),
        for_each(pids, todo).subrange(2 * n, 2 * n + 2) == todo(pids[n]),
    decreases pids.len(),
{
    lemma_for_each_len(pids, todo);
    let front = pids.drop_last();
    assert forall|i: int| 0 <= i < front.len() implies todo(#[trigger] front[i]).len() == 2 by {
        assert(front[i] == pids[i]);
    }
    lemma_for_each_len(front, todo);
    assert(pids.last() == pids[pids.len() - 1]);
    if n == pids.len() - 1 {
        assert(for_each(pids, todo).subrange(2 * n, 2 * n + 2) =~= todo(pids[n]));
    } else {
        lemma_for_each_at(front, todo, n);
        assert(for_each(pids, todo).subrange(2 * n, 2 * n + 2) =~= for_each(front, todo).subrange(
            2 * n,
            2 * n + 2,
        ));
    }
}

/// The ascending order of a set of pids holds each of them once.
pub proof fn lemma_ascending_len(pids: Set<u32>)
    requires
        pids.finite(),
    ensures
        ascending(pids).len() == pids.len(),
        forall|pid: u32| #[trigger] ascending(pids).contains(pid) <==> pids.contains(pid),
{
    let order = ascending(pids);
    lemma_ascending_below(pids, 0x1_0000_0000);
    assert(order.no_duplicates());
    order.unique_seq_to_set();
    assert(order.to_set() =~= pids);
}

/// The stopping of a group takes two actions for each of its processes, by ascending pid.
pub proof fn lemma_group_stopped<S: StopSpec>(base: BaseView, specs: NameMapView<S>)
    requires
        base.wf(),
    ensures
        base.stop_all(specs).len() == 2 * base.table.len(),
        forall|n: int|
            0 <= n < ascending(base.table.dom()).len() ==> base.stop_all(specs).subrange(
                2 * n,
                2 * n + 2,
            ) == base.stop(specs, #[trigger] ascending(base.table.dom())[n]),
{
    let pids = ascending(base.table.dom());
    let todo = |pid: u32| base.stop(specs, pid);
    lemma_ascending_len(base.table.dom());
    lemma_for_each_len(pids, todo);
    assert forall|n: int| 0 <= n < pids.len() implies base.stop_all(specs).subrange(
        2 * n,
        2 * n + 2,
    ) == base.stop(specs, #[trigger] pids[n]) by {
        lemma_for_each_at(pids, todo, n);
    }
}

/// The action belongs to the stopping of a process that runs: its stop signal, or the
/// timer for its SIGKILL.
pub open spec fn stops_one_that_runs(action: ActionView, app: AppView) -> bool {
    ||| exists|pid: u32| #[trigger]
        app.inits.base.owns_pid(pid) && app.inits.stop(pid).contains(action)
    ||| exists|pid: u32| #[trigger]
        app.services.base.owns_pid(pid) && app.services.stop(pid).contains(action)
}

/// A shutdown reaches every process that runs, of both groups: each gets the stop
/// signal of its spec, and SIGKILL is due when the timeout of its spec is over. There
/// are no other actions: two for each process.
pub proof fn law_shutdown_stops_everything(app: AppView)
    requires
        app.wf(),
    ensures
        ({
            let actions = app.reaction(EventView::Shutdown);
            &&& actions.len() == 2 * running(app)
            &&& forall|pid: u32| #[trigger]
                app.inits.base.owns_pid(pid) ==> {
                    let process = app.inits.base.table[pid];
                    let spec = app.conf().init.values[process.name];
                    stops(actions, process, spec.stop_timeout, spec.stop_signal)
                }
            &&& forall|pid: u32| #[trigger]
                app.services.base.owns_pid(pid) ==> {
                    let process = app.services.base.table[pid];
                    let spec = app.conf().services.values[process.name];
                    stops(actions, process, spec.stop_timeout, spec.stop_signal)
                }
            &&& forall|i: int|
                0 <= i < actions.len() ==> stops_one_that_runs(#[trigger] actions[i], app)
        }),
{
    let actions = app.reaction(EventView::Shutdown);
    let first = app.inits.shutdown();
    let second = app.services.stop_all();
    let init_pids = ascending(app.inits.base.table.dom());
    let service_pids = ascending(app.services.base.table.dom());
    lemma_group_stopped(app.inits.base, app.inits.specs());
    lemma_group_stopped(app.services.base, app.services.specs());
    lemma_ascending_len(app.inits.base.table.dom());
    lemma_ascending_len(app.services.base.table.dom());
    assert forall|pid: u32| #[trigger] app.inits.base.owns_pid(pid) implies {
        let process = app.inits.base.table[pid];
        let spec = app.conf().init.values[process.name];
        stops(actions, process, spec.stop_timeout, spec.stop_signal)
    } by {
        assert(init_pids.contains(pid));
        let n = init_pids.index_of(pid);
        assert(init_pids[n] == pid);
        assert(actions.subrange(2 * n, 2 * n + 2) =~= first.subrange(2 * n, 2 * n + 2));
    }
    assert forall|pid: u32| #[trigger] app.services.base.owns_pid(pid) implies {
        let process = app.services.base.table[pid];
        let spec = app.conf().services.values[process.name];
        stops(actions, process, spec.stop_timeout, spec.stop_signal)
    } by {
        assert(service_pids.contains(pid));
        let n = service_pids.index_of(pid);
        assert(service_pids[n] == pid);
        let k = first.len() + 2 * n;
        assert(actions.subrange(k, k + 2) =~= second.subrange(2 * n, 2 * n + 2));
    }
    assert forall|i: int| 0 <= i < actions.len() implies stops_one_that_runs(
        #[trigger] actions[i],
        app,
    ) by {
        if i < first.len() {
            let n = i / 2;
            let pid = init_pids[n];
            assert(init_pids.contains(pid));
            let part = first.subrange(2 * n, 2 * n + 2);
            assert(part == app.inits.stop(pid));
            assert(part[i - 2 * n] == actions[i]);
            assert(app.inits.base.owns_pid(pid));
            assert(app.inits.stop(pid).contains(actions[i]));
        } else {
            let j = i - first.len();
            let n = j / 2;
            let pid = service_pids[n];
            assert(service_pids.contains(pid));
            let part = second.subrange(2 * n, 2 * n + 2);
            assert(part == app.services.stop(pid));
            assert(part[j - 2 * n] == actions[i]);
            assert(app.services.base.owns_pid(pid));
            assert(app.services.stop(pid).contains(actions[i]));
        }
    }
}

/// The actions hold the stop signal of that process, directly followed by the timer that
/// runs out when the timeout is over.
pub open spec fn signals_and_times(
    actions: Seq<ActionView>,
    process: ProcessView,
    timeout: Duration,
    signal: Signal,
) -> bool {
    exists|k: int|
        {
            &&& 0 <= k < actions.len() - 1
            &&& #[trigger] actions[k] == ActionView::Kill {
                name: process.name,
                pid: process.pid,
                signal,
            }
            &&& actions[k + 1] == ActionView::Schedule {
                delay: timeout,
                event: EventView::ForceShutdown {
                    pid: process.pid,
                    instance_id: process.instance_id,
                },
            }
        }
}

/// On a shutdown each process that runs gets the stop signal of its spec, whichever that
/// is, and exactly the time of its spec, however long, for this very instance.
pub proof fn law_shutdown_gives_each_its_time(app: AppView, pid: u32)
    requires
        app.wf(),
    ensures
        ({
            let actions = app.reaction(EventView::Shutdown);
            let inits = app.inits.base;
            let services = app.services.base;
            &&& inits.table.contains_key(pid) ==> {
                let spec = inits.conf.init.values[inits.table[pid].name];
                signals_and_times(actions, inits.table[pid], spec.stop_timeout, spec.stop_signal)
            }
            &&& services.table.contains_key(pid) ==> {
                let spec = services.conf.services.values[services.table[pid].name];
                signals_and_times(actions, services.table[pid], spec.stop_timeout, spec.stop_signal)
            }
        }),
{
    law_shutdown_stops_everything(app);
    let actions = app.reaction(EventView::Shutdown);
    let inits = app.inits.base;
    let services = app.services.base;
    if inits.owns_pid(pid) {
        let spec = inits.conf.init.values[inits.table[pid].name];
        lemma_stops_written_out(actions, inits.table[pid], spec.stop_timeout, spec.stop_signal);
    }
    if services.owns_pid(pid) {
        let spec = services.conf.services.values[services.table[pid].name];
        lemma_stops_written_out(actions, services.table[pid], spec.stop_timeout, spec.stop_signal);
    }
}

proof fn lemma_stops_written_out(
    actions: Seq<ActionView>,
    process: ProcessView,
    timeout: Duration,
    signal: Signal,
)
    requires
        stops(actions, process, timeout, signal),
    ensures
        signals_and_times(actions, process, timeout, signal),
{
    let k = choose|k: int|
        0 <= k < actions.len() - 1 && #[trigger] actions.subrange(k, k + 2) == process.stop(
            timeout,
            signal,
        );
    let part = actions.subrange(k, k + 2);
    assert(actions[k] == part[0]);
    assert(actions[k + 1] == part[1]);
}

/// When its time is over, a process that was told to stop and still runs gets SIGKILL.
pub proof fn law_force_shutdown_kills_what_still_runs(app: AppView, pid: u32, instance_id: u64)
    ensures
        ({
            let actions = app.reaction(EventView::ForceShutdown { pid, instance_id });
            &&& app.inits.base.runs(pid, instance_id) ==> actions.contains(
                ActionView::Kill {
                    name: app.inits.base.table[pid].name,
                    pid: app.inits.base.table[pid].pid,
                    signal: Signal::Sigkill,
                },
            )
            &&& app.services.base.runs(pid, instance_id) ==> actions.contains(
                ActionView::Kill {
                    name: app.services.base.table[pid].name,
                    pid: app.services.base.table[pid].pid,
                    signal: Signal::Sigkill,
                },
            )
        }),
{
    let actions = app.reaction(EventView::ForceShutdown { pid, instance_id });
    if app.inits.base.runs(pid, instance_id) {
        assert(actions[0] == app.inits.base.table[pid].force_stop());
    }
    if app.services.base.runs(pid, instance_id) {
        let k = app.inits.base.force_terminate(pid, instance_id).len();
        assert(actions[k as int] == app.services.base.table[pid].force_stop());
    }
}

/// A timer for SIGKILL harms nobody but the instance that it was set for: where that
/// instance does not run, nothing is killed, whatever runs under its pid.
pub proof fn law_force_shutdown_spares_everyone_else(app: AppView, pid: u32, instance_id: u64)
    requires
        !app.inits.base.runs(pid, instance_id),
        !app.services.base.runs(pid, instance_id),
    ensures
        app.reaction(EventView::ForceShutdown { pid, instance_id }) == Seq::<ActionView>::empty(),
        app.after(EventView::ForceShutdown { pid, instance_id }) == app,
{
    assert(app.reaction(EventView::ForceShutdown { pid, instance_id }) =~= Seq::<
        ActionView,
    >::empty());
}

/// A process that runs when everything is shut down and outlives its timeout gets
/// SIGKILL: the timer that the shutdown set for it still finds that very instance.
pub proof fn law_outliving_the_timeout_is_fatal(app: AppView, pid: u32)
    requires
        app.wf(),
    ensures
        ({
            let inits = app.inits.base.table;
            let services = app.services.base.table;
            let told = app.after(EventView::Shutdown);
            &&& inits.contains_key(pid) ==> told.reaction(
                EventView::ForceShutdown { pid, instance_id: inits[pid].instance_id },
            ).contains(
                ActionView::Kill { name: inits[pid].name, pid, signal: Signal::Sigkill },
            )
            &&& services.contains_key(pid) ==> told.reaction(
                EventView::ForceShutdown { pid, instance_id: services[pid].instance_id },
            ).contains(
                ActionView::Kill { name: services[pid].name, pid, signal: Signal::Sigkill },
            )
        }),
{
    let told = app.after(EventView::Shutdown);
    if app.inits.base.owns_pid(pid) {
        law_force_shutdown_kills_what_still_runs(
            told,
            pid,
            app.inits.base.table[pid].instance_id,
        );
    }
    if app.services.base.owns_pid(pid) {
        law_force_shutdown_kills_what_still_runs(
            told,
            pid,
            app.services.base.table[pid].instance_id,
        );
    }
}

} // verus!
