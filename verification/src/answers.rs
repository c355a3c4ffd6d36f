//! What the supervisor answers, field by field. Each law takes the arguments of a call
//! and whatever it answered, and says what the answer and the state that it leaves have
//! to look like, in terms of the configuration, the tables of running processes and the
//! names of the init processes that have ended.

use std::sync::Arc;

use vstd::prelude::*;

use crate::action::{views, Action, ActionView, Group};
use crate::calls::{
    ended, launches_init, launches_service, lemma_init_launch, lemma_service_launch, sends,
    times_out,
};
use crate::duration::Duration;
use crate::event::Event;
use crate::laws::{lemma_ascending_len, lemma_group_stopped};
use crate::model::{
    ascending, lemma_ascending_below, AppView, BaseView, InitsView, ServicesView,
};
use crate::names::NameMapView;
use crate::process::{InstanceIds, ProcessView};
use crate::spec::{ConfigFile, InitSpec, OnExit, ServiceSpec};
use crate::state::{AppState, BaseState, InitsState, ServicesState};
use crate::unix::{Signal, Termination};

verus! {

/// The action spawns the init process of that name as its spec says.
pub open spec fn spawns_init(action: Action, name: Seq<char>, spec: InitSpec) -> bool {
    action matches Action::Spawn(launch) && launches_init(launch, name, spec)
}

/// The action spawns the service of that name as its spec says.
pub open spec fn spawns_service(action: Action, name: Seq<char>, spec: ServiceSpec) -> bool {
    action matches Action::Spawn(launch) && launches_service(launch, name, spec)
}

/// The actions spawn every init process of the configuration, once and in order, and
/// nothing else.
pub open spec fn spawns_inits(actions: Seq<Action>, init: NameMapView<InitSpec>) -> bool {
    &&& actions.len() == init.names.len()
    &&& forall|i: int|
        0 <= i < actions.len() ==> spawns_init(
            #[trigger] actions[i],
            init.names[i],
            init.values[init.names[i]],
        )
}

/// The actions spawn every service of the configuration, once and in order, and nothing
/// else.
pub open spec fn spawns_services(
    actions: Seq<Action>,
    services: NameMapView<ServiceSpec>,
) -> bool {
    &&& actions.len() == services.names.len()
    &&& forall|i: int|
        0 <= i < actions.len() ==> spawns_service(
            #[trigger] actions[i],
            services.names[i],
            services.values[services.names[i]],
        )
}

/// Every init process of the configuration is among those that have ended.
pub open spec fn have_ended(init: NameMapView<InitSpec>, done: Set<Seq<char>>) -> bool {
    forall|i: int| 0 <= i < init.names.len() ==> done.contains(#[trigger] init.names[i])
}

/// The pids of a table, each once and in ascending order.
pub open spec fn in_order(pids: Seq<u32>, table: Map<u32, ProcessView>) -> bool {
    &&& forall|i: int, j: int| 0 <= i < j < pids.len() ==> pids[i] < pids[j]
    &&& forall|pid: u32| #[trigger] pids.contains(pid) <==> table.contains_key(pid)
}

/// From that place on, the actions are the stop signal of a process and the timer that
/// runs out when its timeout is over.
pub open spec fn told_to_stop(
    actions: Seq<Action>,
    at: int,
    process: ProcessView,
    timeout: Duration,
    signal: Signal,
) -> bool {
    &&& 0 <= at < actions.len() - 1
    &&& sends(actions[at], process.name, process.pid, signal)
    &&& times_out(actions[at + 1], timeout, process.pid, process.instance_id)
}

/// From that place on, the actions stop these init processes, each by the signal of its
/// spec and with the timeout of its spec.
pub open spec fn stops_inits(
    actions: Seq<Action>,
    at: int,
    inits: BaseView,
    pids: Seq<u32>,
) -> bool {
    forall|i: int|
        0 <= i < pids.len() ==> {
            let process = inits.table[#[trigger] pids[i]];
            let spec = inits.conf.init.values[process.name];
            told_to_stop(actions, at + 2 * i, process, spec.stop_timeout, spec.stop_signal)
        }
}

/// From that place on, the actions stop these services, each by the signal of its spec
/// and with the timeout of its spec.
pub open spec fn stops_services(
    actions: Seq<Action>,
    at: int,
    services: BaseView,
    pids: Seq<u32>,
) -> bool {
    forall|i: int|
        0 <= i < pids.len() ==> {
            let process = services.table[#[trigger] pids[i]];
            let spec = services.conf.services.values[process.name];
            told_to_stop(actions, at + 2 * i, process, spec.stop_timeout, spec.stop_signal)
        }
}

/// The actions stop every process that runs, the init processes before the services and
/// each group by ascending pid, and do nothing else.
pub open spec fn stops_everything(actions: Seq<Action>, app: AppView) -> bool {
    exists|first: Seq<u32>, second: Seq<u32>|
        {
            &&& #[trigger] in_order(first, app.inits.base.table)
            &&& #[trigger] in_order(second, app.services.base.table)
            &&& actions.len() == 2 * (first.len() + second.len())
            &&& stops_inits(actions, 0, app.inits.base, first)
            &&& stops_services(actions, 2 * first.len() as int, app.services.base, second)
        }
}

/// The instance gets SIGKILL if it runs, and nothing happens if it does not.
pub open spec fn kills_the_instance(
    actions: Seq<Action>,
    table: Map<u32, ProcessView>,
    pid: u32,
    instance_id: u64,
) -> bool {
    if table.contains_key(pid) && table[pid].instance_id == instance_id {
        actions.len() == 1 && sends(actions[0], table[pid].name, table[pid].pid, Signal::Sigkill)
    } else {
        actions.len() == 0
    }
}

proof fn lemma_spawns_inits(actions: Seq<Action>, init: NameMapView<InitSpec>)
    requires
        views(actions).len() == init.names.len(),
        forall|i: int|
            0 <= i < init.names.len() ==> (#[trigger] views(actions)[i]
                == ActionView::Spawn(
                init.values[init.names[i]].launch_of(init.names[i]),
            )),
    ensures
        spawns_inits(actions, init),
{
    assert forall|i: int| 0 <= i < actions.len() implies spawns_init(
        #[trigger] actions[i],
        init.names[i],
        init.values[init.names[i]],
    ) by {
        assert(views(actions)[i] == actions[i]@);
        lemma_init_launch(actions[i]->Spawn_0, init.names[i], init.values[init.names[i]]);
    }
}

proof fn lemma_spawns_services(actions: Seq<Action>, services: NameMapView<ServiceSpec>)
    requires
        views(actions).len() == services.names.len(),
        forall|i: int|
            0 <= i < services.names.len() ==> (#[trigger] views(actions)[i]
                == ActionView::Spawn(
                services.values[services.names[i]].launch_of(services.names[i]),
            )),
    ensures
        spawns_services(actions, services),
{
    assert forall|i: int| 0 <= i < actions.len() implies spawns_service(
        #[trigger] actions[i],
        services.names[i],
        services.values[services.names[i]],
    ) by {
        assert(views(actions)[i] == actions[i]@);
        lemma_service_launch(
            actions[i]->Spawn_0,
            services.names[i],
            services.values[services.names[i]],
        );
    }
}

proof fn lemma_in_order(table: Map<u32, ProcessView>)
    ensures
        in_order(ascending(table.dom()), table),
{
    lemma_ascending_below(table.dom(), 0x1_0000_0000);
}

proof fn lemma_told_to_stop(
    actions: Seq<Action>,
    at: int,
    process: ProcessView,
    timeout: Duration,
    signal: Signal,
)
    requires
        0 <= at < actions.len() - 1,
        views(actions).subrange(at, at + 2) == process.stop(timeout, signal),
    ensures
        told_to_stop(actions, at, process, timeout, signal),
{
    let part = views(actions).subrange(at, at + 2);
    assert(part[0] == actions[at]@);
    assert(part[1] == actions[at + 1]@);
}

/// A part of the actions that is the stopping of the init processes stops them.
proof fn lemma_stops_inits(actions: Seq<Action>, at: int, inits: BaseView)
    requires
        inits.wf(),
        0 <= at,
        at + inits.stop_all(inits.conf.init).len() <= actions.len(),
        views(actions).subrange(at, at + inits.stop_all(inits.conf.init).len())
            == inits.stop_all(inits.conf.init),
    ensures
        inits.stop_all(inits.conf.init).len() == 2 * ascending(inits.table.dom()).len(),
        stops_inits(actions, at, inits, ascending(inits.table.dom())),
{
    let all = inits.stop_all(inits.conf.init);
    let pids = ascending(inits.table.dom());
    lemma_group_stopped(inits, inits.conf.init);
    lemma_ascending_len(inits.table.dom());
    assert forall|i: int| 0 <= i < pids.len() implies {
        let process = inits.table[#[trigger] pids[i]];
        let spec = inits.conf.init.values[process.name];
        told_to_stop(actions, at + 2 * i, process, spec.stop_timeout, spec.stop_signal)
    } by {
        let process = inits.table[pids[i]];
        let spec = inits.conf.init.values[process.name];
        assert(all.subrange(2 * i, 2 * i + 2) == inits.stop(inits.conf.init, pids[i]));
        assert(views(actions).subrange(at + 2 * i, at + 2 * i + 2) =~= all.subrange(
            2 * i,
            2 * i + 2,
        ));
        lemma_told_to_stop(actions, at + 2 * i, process, spec.stop_timeout, spec.stop_signal);
    }
}

/// A part of the actions that is the stopping of the services stops them.
proof fn lemma_stops_services(actions: Seq<Action>, at: int, services: BaseView)
    requires
        services.wf(),
        0 <= at,
        at + services.stop_all(services.conf.services).len() <= actions.len(),
        views(actions).subrange(at, at + services.stop_all(services.conf.services).len())
            == services.stop_all(services.conf.services),
    ensures
        services.stop_all(services.conf.services).len() == 2 * ascending(
            services.table.dom(),
        ).len(),
        stops_services(actions, at, services, ascending(services.table.dom())),
{
    let all = services.stop_all(services.conf.services);
    let pids = ascending(services.table.dom());
    lemma_group_stopped(services, services.conf.services);
    lemma_ascending_len(services.table.dom());
    assert forall|i: int| 0 <= i < pids.len() implies {
        let process = services.table[#[trigger] pids[i]];
        let spec = services.conf.services.values[process.name];
        told_to_stop(actions, at + 2 * i, process, spec.stop_timeout, spec.stop_signal)
    } by {
        let process = services.table[pids[i]];
        let spec = services.conf.services.values[process.name];
        assert(all.subrange(2 * i, 2 * i + 2) == services.stop(services.conf.services, pids[i]));
        assert(views(actions).subrange(at + 2 * i, at + 2 * i + 2) =~= all.subrange(
            2 * i,
            2 * i + 2,
        ));
        lemma_told_to_stop(actions, at + 2 * i, process, spec.stop_timeout, spec.stop_signal);
    }
}

proof fn lemma_stops_everything(actions: Seq<Action>, app: AppView)
    requires
        app.wf(),
        views(actions) == app.stop_all(),
    ensures
        stops_everything(actions, app),
{
    let inits = app.inits.base;
    let services = app.services.base;
    let first = inits.stop_all(inits.conf.init);
    let second = services.stop_all(services.conf.services);
    assert(views(actions).len() == actions.len());
    assert(views(actions).subrange(0, first.len() as int) =~= first);
    assert(views(actions).subrange(
        first.len() as int,
        (first.len() + second.len()) as int,
    ) =~= second);
    lemma_stops_inits(actions, 0, inits);
    lemma_stops_services(actions, first.len() as int, services);
    lemma_in_order(inits.table);
    lemma_in_order(services.table);
}

/// A state is sound exactly where no name of the configuration stands twice in its
/// order, just those names have a spec, both groups follow the same configuration, each
/// process stands in its table under its own pid and has a spec, and what has ended was
/// an init process. There are no other limits on what is supervised.
pub proof fn law_sound_states(app: AppView)
    ensures
        app.wf() <==> {
            let conf = app.inits.base.conf;
            let inits = app.inits.base.table;
            let services = app.services.base.table;
            &&& app.services.base.conf == conf
            &&& conf.init.names.no_duplicates()
            &&& forall|name: Seq<char>| #[trigger]
                conf.init.values.contains_key(name) <==> conf.init.names.contains(name)
            &&& conf.services.names.no_duplicates()
            &&& forall|name: Seq<char>| #[trigger]
                conf.services.values.contains_key(name) <==> conf.services.names.contains(name)
            &&& inits.dom().finite()
            &&& services.dom().finite()
            &&& forall|pid: u32| #[trigger]
                inits.contains_key(pid) ==> inits[pid].pid == pid
                    && conf.init.values.contains_key(inits[pid].name)
            &&& forall|pid: u32| #[trigger]
                services.contains_key(pid) ==> services[pid].pid == pid
                    && conf.services.values.contains_key(services[pid].name)
            &&& forall|name: Seq<char>| #[trigger]
                app.inits.done.contains(name) ==> conf.init.values.contains_key(name)
        },
{
    let conf = app.inits.base.conf;
    assert forall|name: Seq<char>| #[trigger] conf.init.contains(name) <==> conf.init.values.contains_key(
        name,
    ) by {}
    assert forall|name: Seq<char>| #[trigger]
        conf.services.contains(name) <==> conf.services.values.contains_key(name) by {}
}

/// A new supervisor follows the configuration that it was given, runs nothing, has seen
/// nothing end and is not being shut down.
pub proof fn law_new(conf: &Arc<ConfigFile>, app: AppState)
    requires
        call_ensures(AppState::new, (conf,), app),
    ensures
        call_requires(AppState::new, (conf,)),
        app@.wf(),
        app@.inits.base.conf.init == conf.init@,
        app@.inits.base.conf.services == conf.services@,
        app@.services.base.conf == app@.inits.base.conf,
        forall|pid: u32| !#[trigger] app@.inits.base.table.contains_key(pid),
        forall|pid: u32| !#[trigger] app@.services.base.table.contains_key(pid),
        forall|name: Seq<char>| !#[trigger] app@.inits.done.contains(name),
        !app.shutdown,
        !app@.services.shutdown,
{
}

/// The state is that of its parts, and the mark of a shutdown is the one that is shown.
pub proof fn law_state_of_its_parts(app: &AppState)
    ensures
        app@.inits == app.inits@,
        app@.services == app.services@,
        app@.shutdown == app.shutdown,
{
}

/// A new group follows the configuration that it was given and runs nothing.
pub proof fn law_new_base(conf: &Arc<ConfigFile>, base: BaseState)
    requires
        call_ensures(BaseState::new, (conf,), base),
    ensures
        call_requires(BaseState::new, (conf,)),
        base@.wf(),
        base@.conf.init == conf.init@,
        base@.conf.services == conf.services@,
        forall|pid: u32| !#[trigger] base@.table.contains_key(pid),
{
}

/// The supervisor begins with every init process of the configuration; where it has none
/// it begins with every service.
pub proof fn law_boot_spawns(app: &AppState, actions: Vec<Action>)
    requires
        call_ensures(AppState::boot, (app,), actions),
    ensures
        call_requires(AppState::boot, (app,)),
        app@.inits.base.conf.init.names.len() > 0 ==> spawns_inits(
            actions@,
            app@.inits.base.conf.init,
        ),
        app@.inits.base.conf.init.names.len() == 0 ==> spawns_services(
            actions@,
            app@.services.base.conf.services,
        ),
{
    if app@.inits.base.conf.init.names.len() > 0 {
        lemma_spawns_inits(actions@, app@.inits.base.conf.init);
    } else {
        lemma_spawns_services(actions@, app@.services.base.conf.services);
    }
}

/// Every init process is started by the command of its spec, with all of its arguments.
pub proof fn law_inits_start_all(inits: &InitsState, actions: Vec<Action>)
    requires
        call_ensures(InitsState::start_all, (inits,), actions),
    ensures
        call_requires(InitsState::start_all, (inits,)),
        spawns_inits(actions@, inits@.base.conf.init),
{
    lemma_spawns_inits(actions@, inits@.base.conf.init);
}

/// Every service is started by the command of its spec, with all of its arguments.
pub proof fn law_services_start_all(services: &ServicesState, actions: Vec<Action>)
    requires
        call_ensures(ServicesState::start_all, (services,), actions),
    ensures
        call_requires(ServicesState::start_all, (services,)),
        spawns_services(actions@, services@.base.conf.services),
{
    lemma_spawns_services(actions@, services@.base.conf.services);
}

/// A service is started by the command of its spec, with all of its arguments.
pub proof fn law_services_start(services: &ServicesState, name: &Arc<String>, action: Action)
    requires
        call_ensures(ServicesState::start, (services, name), action),
    ensures
        services@.base.conf.services.values.contains_key(name@) ==> call_requires(
            ServicesState::start,
            (services, name),
        ),
        spawns_service(action, name@, services@.base.conf.services.values[name@]),
{
    lemma_service_launch(
        action->Spawn_0,
        name@,
        services@.base.conf.services.values[name@],
    );
}

/// The init processes are done exactly when each name of the configuration is among
/// those that have ended, however many there are.
pub proof fn law_all_done(inits: &InitsState, all: bool)
    requires
        call_ensures(InitsState::all_done, (inits,), all),
    ensures
        call_requires(InitsState::all_done, (inits,)),
        all == have_ended(inits@.base.conf.init, inits@.done),
{
}

/// What the model takes for the end of all init processes is that each name of the
/// configuration is among those that have ended.
pub proof fn law_model_all_done(inits: InitsView)
    requires
        inits.wf(),
    ensures
        inits.all_done() == have_ended(inits.base.conf.init, inits.done),
{
    let init = inits.base.conf.init;
    if have_ended(init, inits.done) {
        assert forall|name: Seq<char>| #[trigger] inits.specs().contains(name) implies inits.done.contains(
            name,
        ) by {
            assert(init.names.contains(name));
            let i = init.names.index_of(name);
            assert(init.names[i] == name);
        }
    }
    if inits.all_done() {
        assert forall|i: int| 0 <= i < init.names.len() implies inits.done.contains(
            #[trigger] init.names[i],
        ) by {
            assert(init.names.contains(init.names[i]));
            assert(inits.specs().contains(init.names[i]));
        }
    }
}

/// A group owns the pids of its table and no others.
pub proof fn law_owns_pid(
    base: &BaseState,
    inits: &InitsState,
    services: &ServicesState,
    pid: u32,
    owned: bool,
    init: bool,
    service: bool,
)
    requires
        call_ensures(BaseState::owns_pid, (base, pid), owned),
        call_ensures(InitsState::owns_pid, (inits, pid), init),
        call_ensures(ServicesState::owns_pid, (services, pid), service),
    ensures
        owned == base@.table.contains_key(pid),
        init == inits@.base.table.contains_key(pid),
        service == services@.base.table.contains_key(pid),
{
}

/// In each group, that very instance gets SIGKILL if it runs, whatever its pid and its
/// name; nobody else does.
pub proof fn law_groups_force_terminate(
    base: &BaseState,
    inits: &InitsState,
    services: &ServicesState,
    pid: u32,
    instance_id: u64,
    from_base: Vec<Action>,
    from_inits: Vec<Action>,
    from_services: Vec<Action>,
)
    requires
        call_ensures(BaseState::force_terminate, (base, pid, instance_id), from_base),
        call_ensures(InitsState::force_terminate, (inits, pid, instance_id), from_inits),
        call_ensures(ServicesState::force_terminate, (services, pid, instance_id), from_services),
    ensures
        kills_the_instance(from_base@, base@.table, pid, instance_id),
        kills_the_instance(from_inits@, inits@.base.table, pid, instance_id),
        kills_the_instance(from_services@, services@.base.table, pid, instance_id),
{
    lemma_kills_the_instance(from_base@, base@, pid, instance_id);
    lemma_kills_the_instance(from_inits@, inits@.base, pid, instance_id);
    lemma_kills_the_instance(from_services@, services@.base, pid, instance_id);
}

proof fn lemma_kills_the_instance(
    actions: Seq<Action>,
    base: BaseView,
    pid: u32,
    instance_id: u64,
)
    requires
        views(actions) == base.force_terminate(pid, instance_id),
    ensures
        kills_the_instance(actions, base.table, pid, instance_id),
{
    assert(views(actions).len() == actions.len());
    if actions.len() > 0 {
        assert(views(actions)[0] == actions[0]@);
    }
}

/// The init processes that run are stopped, each once, by ascending pid.
pub proof fn law_inits_shutdown(inits: &InitsState, actions: Vec<Action>)
    requires
        inits@.wf(),
        call_ensures(InitsState::shutdown, (inits,), actions),
    ensures
        call_requires(InitsState::shutdown, (inits,)),
        exists|pids: Seq<u32>|
            {
                &&& #[trigger] in_order(pids, inits@.base.table)
                &&& actions@.len() == 2 * pids.len()
                &&& stops_inits(actions@, 0, inits@.base, pids)
            },
{
    assert(views(actions@).len() == actions@.len());
    assert(views(actions@).subrange(0, actions@.len() as int) =~= views(actions@));
    lemma_stops_inits(actions@, 0, inits@.base);
    lemma_in_order(inits@.base.table);
}

/// The services that run are stopped, each once, by ascending pid; from then on they are
/// being shut down, and nothing else has changed.
pub proof fn law_services_shutdown(services: &mut ServicesState, actions: Vec<Action>)
    requires
        old(services)@.wf(),
        call_ensures(ServicesState::shutdown, (services,), actions),
    ensures
        call_requires(ServicesState::shutdown, (services,)),
        final(services)@.shutdown,
        final(services)@.base == old(services)@.base,
        exists|pids: Seq<u32>|
            {
                &&& #[trigger] in_order(pids, old(services)@.base.table)
                &&& actions@.len() == 2 * pids.len()
                &&& stops_services(actions@, 0, old(services)@.base, pids)
            },
{
    assert(views(actions@).len() == actions@.len());
    assert(views(actions@).subrange(0, actions@.len() as int) =~= views(actions@));
    lemma_stops_services(actions@, 0, old(services)@.base);
    lemma_in_order(old(services)@.base.table);
}

/// Of an init process that ends, its name is noted and its pid is free; the end of any
/// other process changes nothing here.
pub proof fn law_inits_terminated(inits: &mut InitsState, term: Termination, pid: u32)
    requires
        ended(term, pid),
        call_ensures(InitsState::terminated, (inits, term), ()),
    ensures
        call_requires(InitsState::terminated, (inits, term)),
        final(inits)@.base.conf == old(inits)@.base.conf,
        final(inits)@.base.table == old(inits)@.base.table.remove(pid),
        forall|name: Seq<char>| #[trigger]
            final(inits)@.done.contains(name) <==> {
                ||| old(inits)@.done.contains(name)
                ||| old(inits)@.base.table.contains_key(pid) && name
                    == old(inits)@.base.table[pid].name
            },
{
    assert(final(inits)@.base.table =~= old(inits)@.base.table.remove(pid));
}

/// What the end of a service leads to: its restart after the delay of its spec, however
/// long, or a shutdown, as its spec says.
pub open spec fn follows_the_exit(actions: Seq<Action>, name: Seq<char>, spec: ServiceSpec) -> bool {
    &&& actions.len() == 1
    &&& match spec.on_exit {
        OnExit::Restart { restart_delay } => {
            &&& actions[0] matches Action::Schedule { delay, event }
            &&& delay.secs() == restart_delay
            &&& delay.nanos() == 0
            &&& event matches Event::ServiceRestart { name: n }
            &&& n@ == name
        },
        OnExit::Shutdown => actions[0] matches Action::Send { event } && event is Shutdown,
    }
}

/// The end of a process, for the services: its pid is free, and unless the services are
/// being shut down its spec says what follows. The end of any other process changes
/// nothing and has no consequence.
pub open spec fn ends_service(
    before: ServicesView,
    after: ServicesView,
    pid: u32,
    actions: Seq<Action>,
) -> bool {
    &&& after.base.conf == before.base.conf
    &&& after.base.table == before.base.table.remove(pid)
    &&& after.shutdown == before.shutdown
    &&& if before.base.table.contains_key(pid) && !before.shutdown {
        let name = before.base.table[pid].name;
        follows_the_exit(actions, name, before.base.conf.services.values[name])
    } else {
        actions.len() == 0
    }
}

proof fn lemma_ends_service(before: ServicesView, pid: u32, actions: Seq<Action>)
    requires
        views(actions) == before.on_terminated(pid),
    ensures
        ends_service(before, before.terminated(pid), pid, actions),
{
    broadcast use Duration::law_parts;

    assert(views(actions).len() == actions.len());
    if actions.len() > 0 {
        assert(views(actions)[0] == actions[0]@);
        if actions[0] is Schedule {
            assert(actions[0]->delay.nanos() == 0);
        }
    }
}

/// A service that ends leaves the table, and its spec says what follows.
pub proof fn law_services_terminated(
    services: &mut ServicesState,
    term: Termination,
    pid: u32,
    actions: Vec<Action>,
)
    requires
        ended(term, pid),
        call_ensures(ServicesState::terminated, (services, term), actions),
    ensures
        old(services)@.wf() ==> call_requires(ServicesState::terminated, (services, term)),
        ends_service(old(services)@, final(services)@, pid, actions@),
{
    lemma_ends_service(old(services)@, pid, actions@);
}

/// The supervisor knows the names of the configuration, each in its own group.
pub proof fn law_knows(app: &AppState, group: Group, name: &Arc<String>, known: bool)
    requires
        call_ensures(AppState::knows, (app, group, name), known),
    ensures
        call_requires(AppState::knows, (app, group, name)),
        group is Init ==> known == app@.inits.base.conf.init.values.contains_key(name@),
        group is Service ==> known == app@.services.base.conf.services.values.contains_key(name@),
{
}

/// There is nothing left to supervise exactly when no process of either group runs.
pub proof fn law_should_exit(app: &AppState, exit: bool)
    requires
        call_ensures(AppState::should_exit, (app,), exit),
    ensures
        call_requires(AppState::should_exit, (app,)),
        exit == (forall|pid: u32|
            !#[trigger] app@.inits.base.table.contains_key(pid)
                && !app@.services.base.table.contains_key(pid)),
{
    let inits = app@.inits.base.table;
    let services = app@.services.base.table;
    if forall|pid: u32| !#[trigger] inits.contains_key(pid) && !services.contains_key(pid) {
        assert(inits.dom() =~= Set::<u32>::empty());
        assert forall|pid: u32| !services.dom().contains(pid) by {
            assert(!inits.contains_key(pid) && !services.contains_key(pid));
        }
        assert(services.dom() =~= Set::<u32>::empty());
    }
}

/// A child that runs is supervised from then on: in its group and there only, under its
/// pid, with its name and the number that was due. One that could not be spawned changes
/// nothing.
pub proof fn law_spawned(
    app: &mut AppState,
    group: Group,
    name: &Arc<String>,
    child: Option<u32>,
    ids: &mut InstanceIds,
)
    requires
        call_ensures(AppState::spawned, (app, group, name, child, ids), ()),
    ensures
        call_requires(AppState::spawned, (app, group, name, child, ids)),
        final(app)@.inits.base.conf == old(app)@.inits.base.conf,
        final(app)@.inits.done == old(app)@.inits.done,
        final(app)@.services.base.conf == old(app)@.services.base.conf,
        final(app)@.services.shutdown == old(app)@.services.shutdown,
        final(app)@.shutdown == old(app)@.shutdown,
        match child {
            Some(pid) => {
                let process = ProcessView { name: name@, pid, instance_id: old(ids).next };
                let inits = old(app)@.inits.base.table;
                let services = old(app)@.services.base.table;
                &&& final(ids).next == (old(ids).next + 1) % 0x1_0000_0000_0000_0000
                &&& group is Init ==> {
                    &&& final(app)@.inits.base.table == inits.insert(pid, process)
                    &&& final(app)@.services.base.table == services
                }
                &&& group is Service ==> {
                    &&& final(app)@.inits.base.table == inits
                    &&& final(app)@.services.base.table == services.insert(pid, process)
                }
            },
            None => {
                &&& final(ids).next == old(ids).next
                &&& final(app)@.inits.base.table == old(app)@.inits.base.table
                &&& final(app)@.services.base.table == old(app)@.services.base.table
            },
        },
{
}

/// Every event of a sound state can be handled, but for the restart of a service that
/// the configuration does not have.
pub proof fn law_handles(app: &mut AppState, event: Event)
    requires
        old(app)@.wf(),
        event matches Event::ServiceRestart { name }
            ==> old(app)@.services.base.conf.services.values.contains_key(name@),
    ensures
        call_requires(AppState::handle, (app, event)),
        call_requires(AppState::shutdown, (app,)),
{
}

/// The end of an init process: its pid is free and its name is noted. If that leaves no
/// init process of the configuration that has not ended, however many there are, and
/// nothing is being shut down, every service is spawned; otherwise nothing is.
pub proof fn law_handle_end_of_init(
    app: &mut AppState,
    term: Termination,
    pid: u32,
    actions: Vec<Action>,
)
    requires
        old(app)@.wf(),
        ended(term, pid),
        old(app)@.inits.base.table.contains_key(pid),
        call_ensures(AppState::handle, (app, Event::ProcessTerminated(term)), actions),
    ensures
        final(app)@.wf(),
        final(app)@.inits.base.conf == old(app)@.inits.base.conf,
        final(app)@.inits.base.table == old(app)@.inits.base.table.remove(pid),
        final(app)@.inits.done == old(app)@.inits.done.insert(
            old(app)@.inits.base.table[pid].name,
        ),
        final(app)@.services == old(app)@.services,
        final(app)@.shutdown == old(app)@.shutdown,
        ({
            let conf = old(app)@.inits.base.conf;
            if have_ended(conf.init, final(app)@.inits.done) && !old(app)@.shutdown {
                spawns_services(actions@, conf.services)
            } else {
                actions@.len() == 0
            }
        }),
{
    let before = old(app)@;
    let conf = before.inits.base.conf;
    let name = before.inits.base.table[pid].name;
    assert(conf.init.values.contains_key(name) <==> conf.init.names.contains(name));
    assert(before.inits.specs().contains(name));
    assert(conf.init.names.len() > 0);
    law_model_all_done(final(app)@.inits);
    assert(views(actions@).len() == actions@.len());
    if have_ended(conf.init, final(app)@.inits.done) && !before.shutdown {
        lemma_spawns_services(actions@, conf.services);
    }
}

/// The end of a process that is no init process: as the services say, and nothing at all
/// where it is no service either.
pub proof fn law_handle_end_of_service(
    app: &mut AppState,
    term: Termination,
    pid: u32,
    actions: Vec<Action>,
)
    requires
        ended(term, pid),
        !old(app)@.inits.base.table.contains_key(pid),
        call_ensures(AppState::handle, (app, Event::ProcessTerminated(term)), actions),
    ensures
        final(app)@.inits == old(app)@.inits,
        final(app)@.shutdown == old(app)@.shutdown,
        ends_service(old(app)@.services, final(app)@.services, pid, actions@),
        !old(app)@.services.base.table.contains_key(pid) ==> final(app)@ == old(app)@,
{
    lemma_ends_service(old(app)@.services, pid, actions@);
    if !old(app)@.services.base.table.contains_key(pid) {
        assert(old(app)@.services.base.table.remove(pid) =~= old(app)@.services.base.table);
    }
}

/// The time of an instance is over: if it still runs, in whichever group, it gets
/// SIGKILL, whatever its pid and its name. Nobody else gets anything, and the state
/// stays what it was.
pub proof fn law_handle_force_shutdown(
    app: &mut AppState,
    pid: u32,
    instance_id: u64,
    actions: Vec<Action>,
)
    requires
        call_ensures(AppState::handle, (app, Event::ForceShutdown { pid, instance_id }), actions),
    ensures
        final(app)@ == old(app)@,
        exists|k: int|
            {
                &&& 0 <= k <= actions@.len()
                &&& kills_the_instance(
                    #[trigger] actions@.take(k),
                    old(app)@.inits.base.table,
                    pid,
                    instance_id,
                )
                &&& kills_the_instance(
                    actions@.skip(k),
                    old(app)@.services.base.table,
                    pid,
                    instance_id,
                )
            },
{
    let first = old(app)@.inits.base.force_terminate(pid, instance_id);
    let second = old(app)@.services.base.force_terminate(pid, instance_id);
    let k = first.len() as int;
    assert(views(actions@).len() == actions@.len());
    assert(views(actions@) == first + second);
    assert forall|i: int| 0 <= i < actions@.len() implies #[trigger] actions@[i]@ == (first
        + second)[i] by {
        assert(views(actions@)[i] == actions@[i]@);
    }
    assert(views(actions@.take(k)) =~= first);
    assert(views(actions@.skip(k)) =~= second);
    lemma_kills_the_instance(actions@.take(k), old(app)@.inits.base, pid, instance_id);
    lemma_kills_the_instance(actions@.skip(k), old(app)@.services.base, pid, instance_id);
}

/// The delay before a restart is over: the service is spawned by the command of its
/// spec, and the state stays what it was until the outcome is known.
pub proof fn law_handle_restart(app: &mut AppState, name: Arc<String>, actions: Vec<Action>)
    requires
        call_ensures(AppState::handle, (app, Event::ServiceRestart { name }), actions),
    ensures
        final(app)@ == old(app)@,
        actions@.len() == 1,
        spawns_service(
            actions@[0],
            name@,
            old(app)@.services.base.conf.services.values[name@],
        ),
{
    assert(views(actions@).len() == 1);
    assert(views(actions@)[0] == actions@[0]@);
    lemma_service_launch(
        actions@[0]->Spawn_0,
        name@,
        old(app)@.services.base.conf.services.values[name@],
    );
}

/// Everything is being shut down from then on, and nothing else has changed.
pub open spec fn shuts_down(before: AppView, after: AppView) -> bool {
    &&& after.inits == before.inits
    &&& after.services.base == before.services.base
    &&& after.services.shutdown
    &&& after.shutdown
}

/// A request to stop, from outside or from a service, stops every process that runs:
/// each gets the signal of its spec, and the time of its spec.
pub proof fn law_handle_shutdown(app: &mut AppState, event: Event, actions: Vec<Action>)
    requires
        old(app)@.wf(),
        event is Shutdown || event is TermSignal,
        call_ensures(AppState::handle, (app, event), actions),
    ensures
        final(app).shutdown,
        shuts_down(old(app)@, final(app)@),
        stops_everything(actions@, old(app)@),
{
    lemma_stops_everything(actions@, old(app)@);
}

/// Told directly, the supervisor stops every process that runs in the same way.
pub proof fn law_shutdown(app: &mut AppState, actions: Vec<Action>)
    requires
        old(app)@.wf(),
        call_ensures(AppState::shutdown, (app,), actions),
    ensures
        final(app).shutdown,
        shuts_down(old(app)@, final(app)@),
        stops_everything(actions@, old(app)@),
{
    lemma_stops_everything(actions@, old(app)@);
}

/// Whatever is handled, and whatever comes of a spawn of a name of the configuration, the
/// state stays sound.
pub proof fn law_calls_keep_the_state_sound(
    app: &mut AppState,
    event: Event,
    group: Group,
    name: &Arc<String>,
    child: Option<u32>,
    ids: &mut InstanceIds,
    actions: Vec<Action>,
)
    ensures
        call_ensures(AppState::handle, (app, event), actions) ==> final(app)@.wf(),
        call_ensures(AppState::shutdown, (app,), actions) ==> final(app)@.wf(),
        ({
            let conf = old(app)@.inits.base.conf;
            &&& old(app)@.wf()
            &&& group is Init ==> conf.init.values.contains_key(name@)
            &&& group is Service ==> conf.services.values.contains_key(name@)
            &&& call_ensures(AppState::spawned, (app, group, name, child, ids), ())
        }) ==> final(app)@.wf(),
{
}

} // verus!
