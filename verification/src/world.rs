//! The supervisor together with what it has asked for and what has not happened yet.
//! Whatever the order in which spawns are reported, timers run out, processes end and
//! signals come in, these laws hold of every run.

use vstd::multiset::Multiset;
use vstd::prelude::*;

use crate::action::{ActionView, Group, LaunchView};
use crate::event::EventView;
use crate::laws::{
    law_events_keep_the_state_sound, law_every_end_counts, law_shutdown_stops_everything,
    law_spawns_keep_the_state_sound, law_zombies_are_ignored, running, stops_one_that_runs,
    supervised,
};
use crate::model::AppView;
use crate::process::{id_after_many, id_after_spawn, law_numbers_differ, law_numbers_follow};
use crate::spec::ConfigView;
use crate::unix::{Signal, Termination};

verus! {

/// The state of the supervisor, the instance number that is due next, and the actions
/// that are still outstanding: commands whose outcome was not reported, signals that
/// were not sent, events that were not delivered.
pub struct World {
    pub app: AppView,
    pub next_id: u64,
    pub todo: Multiset<ActionView>,
}

/// One thing that happens.
pub enum Step {
    /// The outcome of an outstanding spawn is reported.
    Spawned { launch: LaunchView, child: Option<u32> },
    /// An outstanding signal is sent.
    Signalled { name: Seq<char>, pid: u32, signal: Signal },
    /// An outstanding event is delivered, by the action that holds it.
    Delivered { action: ActionView, event: EventView },
    /// Some process, supervised or not, has ended.
    Ended { term: Termination },
    /// The supervisor is told to stop.
    Told,
}

/// The action is to deliver that event.
pub open spec fn holds(action: ActionView, event: EventView) -> bool {
    match action {
        ActionView::Schedule { event: e, .. } => e == event,
        ActionView::Send { event: e } => e == event,
        _ => false,
    }
}

impl World {
    /// The world when the program begins.
    pub open spec fn start(conf: ConfigView) -> World {
        World {
            app: AppView::new(conf),
            next_id: 0,
            todo: AppView::new(conf).boot().to_multiset(),
        }
    }

    /// The supervisor reacts to an event.
    pub open spec fn react(self, event: EventView) -> World {
        World {
            app: self.app.after(event),
            todo: self.todo.add(self.app.reaction(event).to_multiset()),
            ..self
        }
    }

    pub open spec fn without(self, action: ActionView) -> World {
        World { todo: self.todo.remove(action), ..self }
    }

    /// Whether the step can happen: only what is outstanding is reported, sent or
    /// delivered; processes end and signals come in at any time.
    pub open spec fn allows(self, step: Step) -> bool {
        match step {
            Step::Spawned { launch, .. } => self.todo.contains(ActionView::Spawn(launch)),
            Step::Signalled { name, pid, signal } => self.todo.contains(
                ActionView::Kill { name, pid, signal },
            ),
            Step::Delivered { action, event } => self.todo.contains(action) && holds(action, event),
            Step::Ended { .. } => true,
            Step::Told => true,
        }
    }

    pub open spec fn next(self, step: Step) -> World {
        match step {
            Step::Spawned { launch, child } => World {
                app: self.app.spawned(launch.group, launch.name, child, self.next_id),
                next_id: id_after_spawn(self.next_id, child),
                todo: self.todo.remove(ActionView::Spawn(launch)),
            },
            Step::Signalled { name, pid, signal } => self.without(
                ActionView::Kill { name, pid, signal },
            ),
            Step::Delivered { action, event } => self.without(action).react(event),
            Step::Ended { term } => self.react(EventView::ProcessTerminated(term)),
            Step::Told => self.react(EventView::TermSignal),
        }
    }
}

/// The world after some steps.
pub open spec fn world_after(conf: ConfigView, steps: Seq<Step>) -> World
    decreases steps.len(),
{
    if steps.len() == 0 {
        World::start(conf)
    } else {
        world_after(conf, steps.drop_last()).next(steps.last())
    }
}

/// Whether each of the steps can happen after those before it.
pub open spec fn is_run(conf: ConfigView, steps: Seq<Step>) -> bool
    decreases steps.len(),
{
    steps.len() > 0 ==> {
        &&& is_run(conf, steps.drop_last())
        &&& world_after(conf, steps.drop_last()).allows(steps.last())
    }
}

/// The command is the one that the configuration has for its name.
pub open spec fn configured(conf: ConfigView, launch: LaunchView) -> bool {
    let name = launch.name;
    match launch.group {
        Group::Init => conf.init.contains(name) && launch == conf.init.values[name].launch_of(name),
        Group::Service => conf.services.contains(name)
            && launch == conf.services.values[name].launch_of(name),
    }
}

/// An action that fits the configuration: it spawns the command of a configured name,
/// and it delivers only what the supervisor accepts.
pub open spec fn proper(conf: ConfigView, action: ActionView) -> bool {
    match action {
        ActionView::Spawn(launch) => configured(conf, launch),
        ActionView::Kill { .. } => true,
        ActionView::Schedule { event, .. } => event matches EventView::ServiceRestart { name }
            ==> conf.services.contains(name),
        ActionView::Send { event } => event matches EventView::ServiceRestart { name }
            ==> conf.services.contains(name),
    }
}

/// The state is sound, its two marks of a shutdown agree, and everything outstanding
/// fits the configuration.
pub open spec fn sound(world: World) -> bool {
    &&& world.app.wf()
    &&& world.app.shutdown == world.app.services.shutdown
    &&& forall|action: ActionView| #[trigger]
        world.todo.contains(action) ==> proper(world.app.conf(), action)
}

/// Every action of a reaction fits the configuration, and none spawns an init process.
proof fn lemma_reaction_proper(app: AppView, event: EventView)
    requires
        app.wf(),
        app.accepts(event),
    ensures
        forall|action: ActionView| #[trigger]
            app.reaction(event).contains(action) ==> {
                &&& proper(app.conf(), action)
                &&& action matches ActionView::Spawn(launch) ==> launch.group == Group::Service
            },
{
    law_shutdown_stops_everything(app);
    assert forall|action: ActionView| #[trigger] app.reaction(event).contains(action) implies {
        &&& proper(app.conf(), action)
        &&& action matches ActionView::Spawn(launch) ==> launch.group == Group::Service
    } by {
        let k = app.reaction(event).index_of(action);
        assert(app.reaction(event)[k] == action);
        let names = app.conf().services.names;
        match event {
            EventView::ProcessTerminated(term) => {
                if app.inits.base.owns_pid(term.of_pid()) {
                    assert(names.contains(names[k]));
                } else {
                    assert(app.services.base.owns_pid(term.of_pid()));
                }
            },
            _ => {},
        }
    }
}

proof fn lemma_start_sound(conf: ConfigView)
    requires
        conf.wf(),
    ensures
        sound(World::start(conf)),
{
    broadcast use vstd::seq_lib::group_to_multiset_ensures;

    let app = AppView::new(conf);
    assert forall|action: ActionView| #[trigger]
        World::start(conf).todo.contains(action) implies proper(conf, action) by {
        assert(app.boot().contains(action));
        let k = app.boot().index_of(action);
        assert(app.boot()[k] == action);
        if app.has_inits() {
            assert(conf.init.names.contains(conf.init.names[k]));
        } else {
            assert(conf.services.names.contains(conf.services.names[k]));
        }
    }
}

proof fn lemma_react_sound(world: World, event: EventView)
    requires
        sound(world),
        world.app.accepts(event),
    ensures
        sound(world.react(event)),
        world.react(event).app.conf() == world.app.conf(),
{
    broadcast use vstd::seq_lib::group_to_multiset_ensures;

    lemma_reaction_proper(world.app, event);
    law_events_keep_the_state_sound(world.app, event);
    assert forall|action: ActionView| #[trigger]
        world.react(event).todo.contains(action) implies proper(world.app.conf(), action) by {
        assert(world.todo.contains(action) || world.app.reaction(event).contains(action));
    }
}

proof fn lemma_next_sound(world: World, step: Step)
    requires
        sound(world),
        world.allows(step),
    ensures
        sound(world.next(step)),
        world.next(step).app.conf() == world.app.conf(),
{
    match step {
        Step::Spawned { launch, child } => {
            let action = ActionView::Spawn(launch);
            assert(proper(world.app.conf(), action));
            law_spawns_keep_the_state_sound(
                world.app,
                launch.group,
                launch.name,
                child,
                world.next_id,
            );
            assert forall|a: ActionView| #[trigger]
                world.next(step).todo.contains(a) implies proper(world.app.conf(), a) by {
                assert(world.todo.contains(a));
            }
        },
        Step::Signalled { name, pid, signal } => {
            assert forall|a: ActionView| #[trigger]
                world.next(step).todo.contains(a) implies proper(world.app.conf(), a) by {
                assert(world.todo.contains(a));
            }
        },
        Step::Delivered { action, event } => {
            assert(proper(world.app.conf(), action));
            assert forall|a: ActionView| #[trigger]
                world.without(action).todo.contains(a) implies proper(world.app.conf(), a) by {
                assert(world.todo.contains(a));
            }
            lemma_react_sound(world.without(action), event);
        },
        Step::Ended { term } => lemma_react_sound(world, EventView::ProcessTerminated(term)),
        Step::Told => lemma_react_sound(world, EventView::TermSignal),
    }
}

/// Every run stays sound. So what an event or the outcome of a spawn has to meet to be
/// handled is met by whatever the supervisor itself has asked for, the configuration
/// never changes, and the supervisor and its services agree on whether they are being
/// shut down.
pub proof fn law_every_run_is_sound(conf: ConfigView, steps: Seq<Step>)
    requires
        conf.wf(),
        is_run(conf, steps),
    ensures
        sound(world_after(conf, steps)),
        world_after(conf, steps).app.conf() == conf,
    decreases steps.len(),
{
    if steps.len() == 0 {
        lemma_start_sound(conf);
    } else {
        law_every_run_is_sound(conf, steps.drop_last());
        lemma_next_sound(world_after(conf, steps.drop_last()), steps.last());
    }
}

/// In every run, an outstanding event can be handled when it is delivered, and the
/// outcome of an outstanding spawn can be taken note of when it is reported.
pub proof fn law_what_was_asked_for_can_be_handled(conf: ConfigView, steps: Seq<Step>, step: Step)
    requires
        conf.wf(),
        is_run(conf, steps),
        world_after(conf, steps).allows(step),
    ensures
        ({
            let app = world_after(conf, steps).app;
            match step {
                Step::Spawned { launch, .. } => app.wf() && app.knows(launch.group, launch.name),
                Step::Delivered { event, .. } => app.wf() && app.accepts(event),
                _ => true,
            }
        }),
{
    law_every_run_is_sound(conf, steps);
    let world = world_after(conf, steps);
    match step {
        Step::Spawned { launch, .. } => {
            assert(proper(conf, ActionView::Spawn(launch)));
        },
        Step::Delivered { action, event } => {
            assert(proper(conf, action));
        },
        _ => {},
    }
}

/// The action starts a service, now or when its event is delivered.
pub open spec fn leads_to_service(action: ActionView) -> bool {
    ||| action matches ActionView::Spawn(launch) && launch.group == Group::Service
    ||| exists|name: Seq<char>| holds(action, #[trigger] restart_of(name))
}

pub open spec fn restart_of(name: Seq<char>) -> EventView {
    EventView::ServiceRestart { name }
}

/// No service runs, and none is about to.
pub open spec fn no_service(world: World) -> bool {
    &&& world.app.services.base.table.is_empty()
    &&& forall|action: ActionView| #[trigger]
        world.todo.contains(action) ==> !leads_to_service(action)
}

/// As long as an init process is not done, there is no service.
pub open spec fn services_wait(world: World) -> bool {
    world.app.has_inits() && !world.app.inits.all_done() ==> no_service(world)
}

/// Once done, an init process stays done.
proof fn lemma_all_done_stays(world: World, step: Step)
    requires
        sound(world),
        world.allows(step),
    ensures
        world.app.inits.all_done() ==> world.next(step).app.inits.all_done(),
        world.app.inits.done.subset_of(world.next(step).app.inits.done),
{
    lemma_next_sound(world, step);
    assert(world.next(step).app.inits.specs() == world.app.inits.specs());
}

proof fn lemma_react_waits(world: World, event: EventView)
    requires
        sound(world),
        world.app.accepts(event),
        services_wait(world),
        world.app.has_inits() && !world.app.inits.all_done() ==> !(event is ServiceRestart),
    ensures
        services_wait(world.react(event)),
{
    broadcast use vstd::seq_lib::group_to_multiset_ensures;

    let app = world.app;
    let after = world.react(event);
    law_events_keep_the_state_sound(app, event);
    law_shutdown_stops_everything(app);
    if after.app.has_inits() && !after.app.inits.all_done() {
        assert(app.inits.specs() == after.app.inits.specs());
        assert(!app.inits.all_done()) by {
            if app.inits.all_done() {
                assert forall|name: Seq<char>| #[trigger]
                    after.app.inits.specs().contains(name) implies after.app.inits.done.contains(
                    name,
                ) by {
                    assert(app.inits.specs().contains(name));
                }
            }
        }
        assert(app.services.base.table.dom() =~= Set::<u32>::empty());
        assert(after.app.services.base.table.dom() =~= Set::<u32>::empty());
        assert forall|action: ActionView| #[trigger]
            after.todo.contains(action) implies !leads_to_service(action) by {
            if !world.todo.contains(action) {
                assert(app.reaction(event).contains(action));
                let k = app.reaction(event).index_of(action);
                assert(app.reaction(event)[k] == action);
            }
        }
    }
}

proof fn lemma_next_waits(world: World, step: Step)
    requires
        sound(world),
        world.allows(step),
        services_wait(world),
    ensures
        services_wait(world.next(step)),
{
    let after = world.next(step);
    lemma_next_sound(world, step);
    lemma_all_done_stays(world, step);
    match step {
        Step::Spawned { launch, child } => {
            let action = ActionView::Spawn(launch);
            if after.app.has_inits() && !after.app.inits.all_done() {
                assert(!leads_to_service(action));
                assert forall|a: ActionView| #[trigger]
                    after.todo.contains(a) implies !leads_to_service(a) by {
                    assert(world.todo.contains(a));
                }
            }
        },
        Step::Signalled { name, pid, signal } => {
            assert forall|a: ActionView| #[trigger]
                after.todo.contains(a) implies world.todo.contains(a) by {}
        },
        Step::Delivered { action, event } => {
            let rest = world.without(action);
            assert forall|a: ActionView| #[trigger]
                rest.todo.contains(a) implies world.todo.contains(a) by {}
            assert(proper(world.app.conf(), action));
            if event is ServiceRestart {
                assert(holds(action, restart_of(event->ServiceRestart_name)));
                assert(leads_to_service(action));
            }
            lemma_react_waits(rest, event);
        },
        Step::Ended { term } => lemma_react_waits(world, EventView::ProcessTerminated(term)),
        Step::Told => lemma_react_waits(world, EventView::TermSignal),
    }
}

/// The init processes come before the services: in every run of a configuration with
/// init processes, as long as one of them is not done, no service runs, none is being
/// spawned, and none is about to be restarted.
pub proof fn law_services_wait_for_inits(conf: ConfigView, steps: Seq<Step>)
    requires
        conf.wf(),
        is_run(conf, steps),
    ensures
        services_wait(world_after(conf, steps)),
    decreases steps.len(),
{
    law_every_run_is_sound(conf, steps);
    if steps.len() == 0 {
        broadcast use vstd::seq_lib::group_to_multiset_ensures;

        let world = World::start(conf);
        let app = world.app;
        if app.has_inits() {
            assert forall|action: ActionView| #[trigger]
                world.todo.contains(action) implies !leads_to_service(action) by {
                assert(app.boot().contains(action));
                let k = app.boot().index_of(action);
                assert(app.boot()[k] == action);
            }
        }
    } else {
        law_every_run_is_sound(conf, steps.drop_last());
        law_services_wait_for_inits(conf, steps.drop_last());
        lemma_next_waits(world_after(conf, steps.drop_last()), steps.last());
    }
}

/// The spawning of the init process of that name is outstanding.
pub open spec fn init_waits(world: World, name: Seq<char>) -> nat {
    world.todo.count(world.app.inits.start(name))
}

/// An init process of that name runs.
pub open spec fn init_runs(world: World, name: Seq<char>) -> bool {
    exists|pid: u32| #[trigger]
        world.app.inits.base.owns_pid(pid) && world.app.inits.base.table[pid].name == name
}

/// An init process is about to be spawned, runs or is done, but never two of these,
/// and it never runs twice.
pub open spec fn inits_run_once(world: World) -> bool {
    &&& forall|name: Seq<char>| #[trigger]
        world.app.inits.specs().contains(name) ==> {
            &&& init_waits(world, name) <= 1
            &&& init_waits(world, name) == 1 ==> !init_runs(world, name)
                && !world.app.inits.done.contains(name)
            &&& init_runs(world, name) ==> !world.app.inits.done.contains(name)
        }
    &&& forall|p: u32, q: u32|
        p != q && #[trigger] world.app.inits.base.owns_pid(p) && #[trigger]
            world.app.inits.base.owns_pid(q) ==> world.app.inits.base.table[p].name
            != world.app.inits.base.table[q].name
}

proof fn lemma_start_once(conf: ConfigView)
    requires
        conf.wf(),
    ensures
        inits_run_once(World::start(conf)),
{
    broadcast use vstd::seq_lib::group_to_multiset_ensures;

    let app = AppView::new(conf);
    let boot = app.boot();
    assert(boot.no_duplicates()) by {
        if app.has_inits() {
            assert forall|i: int, j: int| 0 <= i < j < boot.len() implies boot[i] != boot[j] by {
                assert(boot[i]->Spawn_0.name == conf.init.names[i]);
                assert(boot[j]->Spawn_0.name == conf.init.names[j]);
            }
        } else {
            assert forall|i: int, j: int| 0 <= i < j < boot.len() implies boot[i] != boot[j] by {
                assert(boot[i]->Spawn_0.name == conf.services.names[i]);
                assert(boot[j]->Spawn_0.name == conf.services.names[j]);
            }
        }
    }
    boot.lemma_multiset_has_no_duplicates();
    assert forall|name: Seq<char>| #[trigger]
        app.inits.specs().contains(name) implies init_waits(World::start(conf), name) <= 1 by {
        if boot.to_multiset().contains(app.inits.start(name)) {
            assert(boot.to_multiset().count(app.inits.start(name)) == 1);
        }
    }
}

proof fn lemma_react_once(world: World, event: EventView)
    requires
        sound(world),
        world.app.accepts(event),
        inits_run_once(world),
    ensures
        inits_run_once(world.react(event)),
{
    broadcast use vstd::seq_lib::group_to_multiset_ensures;

    let app = world.app;
    let after = world.react(event);
    law_events_keep_the_state_sound(app, event);
    lemma_reaction_proper(app, event);
    assert forall|name: Seq<char>| #[trigger] after.app.inits.specs().contains(name) implies {
        &&& init_waits(after, name) <= 1
        &&& init_waits(after, name) == 1 ==> !init_runs(after, name)
            && !after.app.inits.done.contains(name)
        &&& init_runs(after, name) ==> !after.app.inits.done.contains(name)
    } by {
        assert(app.inits.specs().contains(name));
        let start = app.inits.start(name);
        assert(after.app.inits.start(name) == start);
        assert(!app.reaction(event).contains(start));
        assert(init_waits(after, name) == init_waits(world, name));
        if init_runs(after, name) {
            let pid = choose|pid: u32| #[trigger]
                after.app.inits.base.owns_pid(pid) && after.app.inits.base.table[pid].name == name;
            assert(app.inits.base.owns_pid(pid));
            assert(init_runs(world, name));
            if after.app.inits.done.contains(name) {
                let term = event->ProcessTerminated_0;
                assert(app.inits.base.owns_pid(term.of_pid()));
                assert(app.inits.base.table[term.of_pid()].name == name);
            }
        }
        if after.app.inits.done.contains(name) && !app.inits.done.contains(name) {
            let term = event->ProcessTerminated_0;
            assert(app.inits.base.owns_pid(term.of_pid()));
            assert(init_runs(world, name));
        }
    }
    assert forall|p: u32, q: u32|
        p != q && #[trigger] after.app.inits.base.owns_pid(p) && #[trigger]
            after.app.inits.base.owns_pid(q) implies after.app.inits.base.table[p].name
        != after.app.inits.base.table[q].name by {
        assert(app.inits.base.owns_pid(p) && app.inits.base.owns_pid(q));
    }
}

proof fn lemma_without_once(world: World, action: ActionView)
    requires
        inits_run_once(world),
    ensures
        inits_run_once(world.without(action)),
{
    let after = world.without(action);
    assert forall|name: Seq<char>| #[trigger] after.app.inits.specs().contains(name) implies {
        &&& init_waits(after, name) <= 1
        &&& init_waits(after, name) == 1 ==> !init_runs(after, name)
            && !after.app.inits.done.contains(name)
        &&& init_runs(after, name) ==> !after.app.inits.done.contains(name)
    } by {
        assert(world.app.inits.specs().contains(name));
        assert(init_waits(after, name) <= init_waits(world, name));
        assert(init_runs(after, name) == init_runs(world, name));
    }
}

proof fn lemma_next_once(world: World, step: Step)
    requires
        sound(world),
        world.allows(step),
        inits_run_once(world),
    ensures
        inits_run_once(world.next(step)),
{
    match step {
        Step::Spawned { launch, child } => {
            let action = ActionView::Spawn(launch);
            let after = world.next(step);
            assert(proper(world.app.conf(), action));
            lemma_without_once(world, action);
            if launch.group == Group::Init && child is Some {
                let pid = child->0;
                let name = launch.name;
                assert(action == world.app.inits.start(name));
                assert(world.app.inits.specs().contains(name));
                assert(init_waits(world, name) == 1);
                assert(init_waits(after, name) == 0);
                assert forall|n: Seq<char>| #[trigger] after.app.inits.specs().contains(n) implies {
                    &&& init_waits(after, n) <= 1
                    &&& init_waits(after, n) == 1 ==> !init_runs(after, n)
                        && !after.app.inits.done.contains(n)
                    &&& init_runs(after, n) ==> !after.app.inits.done.contains(n)
                } by {
                    assert(world.app.inits.specs().contains(n));
                    assert(after.app.inits.start(n) == world.app.inits.start(n));
                    assert(init_waits(after, n) <= init_waits(world, n));
                    if n != name && init_runs(after, n) {
                        let p = choose|p: u32| #[trigger]
                            after.app.inits.base.owns_pid(p)
                                && after.app.inits.base.table[p].name == n;
                        assert(p != pid);
                        assert(world.app.inits.base.owns_pid(p));
                        assert(init_runs(world, n));
                    }
                }
                assert forall|p: u32, q: u32|
                    p != q && #[trigger] after.app.inits.base.owns_pid(p) && #[trigger]
                        after.app.inits.base.owns_pid(q) implies after.app.inits.base.table[p].name
                    != after.app.inits.base.table[q].name by {
                    if p != pid {
                        assert(world.app.inits.base.owns_pid(p));
                        if world.app.inits.base.table[p].name == name {
                            assert(init_runs(world, name));
                        }
                    }
                    if q != pid {
                        assert(world.app.inits.base.owns_pid(q));
                        if world.app.inits.base.table[q].name == name {
                            assert(init_runs(world, name));
                        }
                    }
                }
            } else {
                assert(after.app.inits == world.without(action).app.inits);
                lemma_same_inits_once(world.without(action), after);
            }
        },
        Step::Signalled { name, pid, signal } => {
            lemma_without_once(world, ActionView::Kill { name, pid, signal });
        },
        Step::Delivered { action, event } => {
            let rest = world.without(action);
            lemma_without_once(world, action);
            lemma_without_sound(world, action);
            assert(proper(world.app.conf(), action));
            lemma_react_once(rest, event);
        },
        Step::Ended { term } => lemma_react_once(world, EventView::ProcessTerminated(term)),
        Step::Told => lemma_react_once(world, EventView::TermSignal),
    }
}

proof fn lemma_same_inits_once(a: World, b: World)
    requires
        inits_run_once(a),
        a.app.inits == b.app.inits,
        a.todo == b.todo,
    ensures
        inits_run_once(b),
{
    assert forall|name: Seq<char>| #[trigger] b.app.inits.specs().contains(name) implies {
        &&& init_waits(b, name) <= 1
        &&& init_waits(b, name) == 1 ==> !init_runs(b, name) && !b.app.inits.done.contains(name)
        &&& init_runs(b, name) ==> !b.app.inits.done.contains(name)
    } by {
        assert(a.app.inits.specs().contains(name));
        assert(init_runs(a, name) == init_runs(b, name));
    }
}

proof fn lemma_without_sound(world: World, action: ActionView)
    requires
        sound(world),
    ensures
        sound(world.without(action)),
{
    assert forall|a: ActionView| #[trigger]
        world.without(action).todo.contains(a) implies proper(world.app.conf(), a) by {
        assert(world.todo.contains(a));
    }
}

/// In every run, each init process is spawned at most once: it is about to be spawned,
/// runs or is done, and never two of these.
pub proof fn law_inits_run_once(conf: ConfigView, steps: Seq<Step>)
    requires
        conf.wf(),
        is_run(conf, steps),
    ensures
        inits_run_once(world_after(conf, steps)),
    decreases steps.len(),
{
    if steps.len() == 0 {
        lemma_start_once(conf);
    } else {
        law_every_run_is_sound(conf, steps.drop_last());
        law_inits_run_once(conf, steps.drop_last());
        lemma_next_once(world_after(conf, steps.drop_last()), steps.last());
    }
}

/// What has happened up to some point of a run is a run.
proof fn lemma_take_run(conf: ConfigView, steps: Seq<Step>, n: int)
    requires
        is_run(conf, steps),
        0 <= n <= steps.len(),
    ensures
        is_run(conf, steps.take(n)),
        n < steps.len() ==> {
            &&& world_after(conf, steps.take(n)).allows(steps[n])
            &&& world_after(conf, steps.take(n + 1)) == world_after(conf, steps.take(n)).next(
                steps[n],
            )
        },
    decreases steps.len(),
{
    if n == steps.len() {
        assert(steps.take(n) =~= steps);
    } else {
        let front = steps.drop_last();
        assert(steps.take(n + 1).drop_last() =~= steps.take(n));
        assert(steps.take(n + 1).last() == steps[n]);
        if n == steps.len() - 1 {
            assert(steps.take(n) =~= front);
        } else {
            lemma_take_run(conf, front, n);
            assert(front.take(n) =~= steps.take(n));
            assert(front[n] == steps[n]);
        }
    }
}

/// Once all init processes are done, they are done for the rest of the run.
proof fn lemma_all_done_for_good(conf: ConfigView, steps: Seq<Step>, i: int, j: int)
    requires
        conf.wf(),
        is_run(conf, steps),
        0 <= i <= j <= steps.len(),
        world_after(conf, steps.take(i)).app.inits.all_done(),
    ensures
        world_after(conf, steps.take(j)).app.inits.all_done(),
    decreases j,
{
    if i < j {
        lemma_all_done_for_good(conf, steps, i, j - 1);
        lemma_take_run(conf, steps, j - 1);
        law_every_run_is_sound(conf, steps.take(j - 1));
        lemma_all_done_stays(world_after(conf, steps.take(j - 1)), steps[j - 1]);
    }
}

/// In every run, when all init processes are done, none of them runs any more and none
/// will be spawned.
pub proof fn law_done_inits_are_gone(conf: ConfigView, steps: Seq<Step>)
    requires
        conf.wf(),
        is_run(conf, steps),
        world_after(conf, steps).app.inits.all_done(),
    ensures
        world_after(conf, steps).app.inits.base.table.is_empty(),
        forall|launch: LaunchView|
            launch.group == Group::Init ==> !(#[trigger] world_after(conf, steps).todo.contains(
                ActionView::Spawn(launch),
            )),
{
    let world = world_after(conf, steps);
    law_every_run_is_sound(conf, steps);
    law_inits_run_once(conf, steps);
    assert forall|pid: u32| !(#[trigger] world.app.inits.base.table.contains_key(pid)) by {
        if world.app.inits.base.table.contains_key(pid) {
            let name = world.app.inits.base.table[pid].name;
            assert(world.app.inits.base.owns_pid(pid));
            assert(world.app.inits.specs().contains(name));
            assert(init_runs(world, name));
        }
    }
    assert(world.app.inits.base.table.dom() =~= Set::<u32>::empty());
    assert forall|launch: LaunchView| launch.group == Group::Init implies !(
    #[trigger] world.todo.contains(ActionView::Spawn(launch))) by {
        let action = ActionView::Spawn(launch);
        if world.todo.contains(action) {
            assert(proper(conf, action));
            assert(world.app.inits.specs().contains(launch.name));
            assert(action == world.app.inits.start(launch.name));
            assert(init_waits(world, launch.name) == 1);
        }
    }
}

/// The step is the end of the last init process, on which the services are started.
pub open spec fn opens_the_services(world: World, step: Step) -> bool {
    &&& step matches Step::Ended { term }
    &&& world.app.inits.base.owns_pid(term.of_pid())
    &&& world.app.has_inits()
    &&& world.next(step).app.inits.all_done()
    &&& !world.app.shutdown
}

/// In every run, the end of the init processes starts the services at most once.
pub proof fn law_services_are_opened_once(conf: ConfigView, steps: Seq<Step>, i: int, j: int)
    requires
        conf.wf(),
        is_run(conf, steps),
        0 <= i < j < steps.len(),
        opens_the_services(world_after(conf, steps.take(i)), steps[i]),
    ensures
        !opens_the_services(world_after(conf, steps.take(j)), steps[j]),
{
    lemma_take_run(conf, steps, i);
    lemma_take_run(conf, steps, j);
    lemma_all_done_for_good(conf, steps, i + 1, j);
    law_done_inits_are_gone(conf, steps.take(j));
}

/// No two processes share an instance number, and no number in use, whether by a
/// process or by a timer for SIGKILL, will be given out again before the count starts
/// over.
pub open spec fn ids_are_fresh(world: World) -> bool {
    let inits = world.app.inits.base;
    let services = world.app.services.base;
    &&& forall|p: u32| #[trigger]
        inits.owns_pid(p) ==> inits.table[p].instance_id < world.next_id
    &&& forall|p: u32| #[trigger]
        services.owns_pid(p) ==> services.table[p].instance_id < world.next_id
    &&& forall|p: u32, q: u32|
        p != q && #[trigger] inits.owns_pid(p) && #[trigger] inits.owns_pid(q)
            ==> inits.table[p].instance_id != inits.table[q].instance_id
    &&& forall|p: u32, q: u32|
        p != q && #[trigger] services.owns_pid(p) && #[trigger] services.owns_pid(q)
            ==> services.table[p].instance_id != services.table[q].instance_id
    &&& forall|p: u32, q: u32| #[trigger]
        inits.owns_pid(p) && #[trigger] services.owns_pid(q) ==> inits.table[p].instance_id
            != services.table[q].instance_id
    &&& forall|action: ActionView, pid: u32, instance_id: u64| #[trigger]
        world.todo.contains(action) && holds(action, #[trigger] timeout_of(pid, instance_id))
            ==> instance_id < world.next_id
}

pub open spec fn timeout_of(pid: u32, instance_id: u64) -> EventView {
    EventView::ForceShutdown { pid, instance_id }
}

proof fn lemma_react_fresh(world: World, event: EventView)
    requires
        sound(world),
        ids_are_fresh(world),
    ensures
        ids_are_fresh(world.react(event)),
        world.react(event).next_id == world.next_id,
{
    broadcast use vstd::seq_lib::group_to_multiset_ensures;

    let app = world.app;
    let after = world.react(event);
    assert forall|p: u32| #[trigger] after.app.inits.base.owns_pid(p) implies app.inits.base.owns_pid(
        p,
    ) && after.app.inits.base.table[p] == app.inits.base.table[p] by {}
    assert forall|p: u32| #[trigger]
        after.app.services.base.owns_pid(p) implies app.services.base.owns_pid(p)
        && after.app.services.base.table[p] == app.services.base.table[p] by {}
    assert forall|action: ActionView, pid: u32, instance_id: u64| #[trigger]
        after.todo.contains(action) && holds(
            action,
            #[trigger] timeout_of(pid, instance_id),
        ) implies instance_id < after.next_id by {
        if !world.todo.contains(action) {
            assert(app.reaction(event).contains(action));
            lemma_new_timer(app, event, action, pid, instance_id);
            if app.inits.base.runs(pid, instance_id) {
                assert(app.inits.base.owns_pid(pid));
            } else {
                assert(app.services.base.owns_pid(pid));
            }
        }
    }
}

proof fn lemma_without_fresh(world: World, action: ActionView)
    requires
        ids_are_fresh(world),
    ensures
        ids_are_fresh(world.without(action)),
{
    assert forall|a: ActionView| #[trigger] world.without(action).todo.contains(a) implies
        world.todo.contains(a) by {}
}

proof fn lemma_next_fresh(world: World, step: Step)
    requires
        sound(world),
        world.allows(step),
        ids_are_fresh(world),
        succeeds(step) ==> world.next_id < u64::MAX,
    ensures
        ids_are_fresh(world.next(step)),
{
    match step {
        Step::Spawned { launch, child } => {
            lemma_without_fresh(world, ActionView::Spawn(launch));
            let after = world.next(step);
            assert forall|p: u32| #[trigger] after.app.inits.base.owns_pid(p) implies {
                ||| after.app.inits.base.table[p].instance_id == world.next_id && launch.group
                    == Group::Init && Some(p) == child
                ||| world.app.inits.base.owns_pid(p) && after.app.inits.base.table[p]
                    == world.app.inits.base.table[p]
            } by {}
            assert forall|p: u32| #[trigger] after.app.services.base.owns_pid(p) implies {
                ||| after.app.services.base.table[p].instance_id == world.next_id
                    && launch.group == Group::Service && Some(p) == child
                ||| world.app.services.base.owns_pid(p) && after.app.services.base.table[p]
                    == world.app.services.base.table[p]
            } by {}
            assert forall|a: ActionView| #[trigger] after.todo.contains(a) implies
                world.todo.contains(a) by {}
        },
        Step::Signalled { name, pid, signal } => {
            lemma_without_fresh(world, ActionView::Kill { name, pid, signal });
        },
        Step::Delivered { action, event } => {
            lemma_without_fresh(world, action);
            lemma_without_sound(world, action);
            lemma_react_fresh(world.without(action), event);
        },
        Step::Ended { term } => lemma_react_fresh(world, EventView::ProcessTerminated(term)),
        Step::Told => lemma_react_fresh(world, EventView::TermSignal),
    }
}

/// In every run with fewer successful spawns than there are instance numbers, no two
/// processes share a number, and a process that is spawned gets one that no process and
/// no outstanding timer has.
pub proof fn law_instances_are_told_apart(conf: ConfigView, steps: Seq<Step>)
    requires
        conf.wf(),
        is_run(conf, steps),
        successes(steps) <= u64::MAX,
    ensures
        ids_are_fresh(world_after(conf, steps)),
        world_after(conf, steps).next_id == successes(steps),
    decreases steps.len(),
{
    law_numbers_count_the_spawns(conf, steps);
    if steps.len() == 0 {
        broadcast use vstd::seq_lib::group_to_multiset_ensures;

        let world = World::start(conf);
        let boot = world.app.boot();
        assert forall|action: ActionView, pid: u32, instance_id: u64| #[trigger]
            world.todo.contains(action) && holds(
                action,
                #[trigger] timeout_of(pid, instance_id),
            ) implies instance_id < world.next_id by {
            assert(boot.contains(action));
            let k = boot.index_of(action);
            assert(boot[k] == action);
        }
    } else {
        law_every_run_is_sound(conf, steps.drop_last());
        law_instances_are_told_apart(conf, steps.drop_last());
        law_numbers_count_the_spawns(conf, steps.drop_last());
        lemma_next_fresh(world_after(conf, steps.drop_last()), steps.last());
    }
}

/// In such a run, a timer for SIGKILL kills at most one process.
pub proof fn law_timers_kill_at_most_one(
    conf: ConfigView,
    steps: Seq<Step>,
    pid: u32,
    instance_id: u64,
)
    requires
        conf.wf(),
        is_run(conf, steps),
        successes(steps) <= u64::MAX,
    ensures
        world_after(conf, steps).app.reaction(timeout_of(pid, instance_id)).len() <= 1,
{
    let app = world_after(conf, steps).app;
    law_instances_are_told_apart(conf, steps);
    if app.inits.base.runs(pid, instance_id) {
        assert(app.inits.base.owns_pid(pid));
        assert(app.services.base.owns_pid(pid) ==> !app.services.base.runs(pid, instance_id));
    }
}

/// In such a run, the timer of a process that has ended in the meantime does nothing.
pub proof fn law_timers_spare_the_ended(
    conf: ConfigView,
    steps: Seq<Step>,
    instance_id: u64,
    term: Termination,
)
    requires
        conf.wf(),
        is_run(conf, steps),
        successes(steps) <= u64::MAX,
        ({
            let app = world_after(conf, steps).app;
            if app.inits.base.owns_pid(term.of_pid()) {
                app.inits.base.runs(term.of_pid(), instance_id)
            } else {
                app.services.base.runs(term.of_pid(), instance_id)
            }
        }),
    ensures
        world_after(conf, steps).app.after(EventView::ProcessTerminated(term)).reaction(
            timeout_of(term.of_pid(), instance_id),
        ) == Seq::<ActionView>::empty(),
{
    let app = world_after(conf, steps).app;
    let pid = term.of_pid();
    let ended = app.after(EventView::ProcessTerminated(term));
    law_instances_are_told_apart(conf, steps);
    if app.inits.base.owns_pid(pid) {
        assert(app.services.base.owns_pid(pid) ==> !app.services.base.runs(pid, instance_id));
    }
    assert(!ended.inits.base.runs(pid, instance_id));
    assert(!ended.services.base.runs(pid, instance_id));
    assert(ended.reaction(timeout_of(pid, instance_id)) =~= Seq::<ActionView>::empty());
}

/// In such a run, an outstanding timer spares every process that is spawned from then
/// on, though it gets the pid that the timer was set for.
pub proof fn law_timers_spare_the_newcomers(
    conf: ConfigView,
    steps: Seq<Step>,
    timer: ActionView,
    pid: u32,
    instance_id: u64,
    group: Group,
    name: Seq<char>,
)
    requires
        conf.wf(),
        is_run(conf, steps),
        successes(steps) <= u64::MAX,
        world_after(conf, steps).todo.contains(timer),
        holds(timer, timeout_of(pid, instance_id)),
    ensures
        ({
            let world = world_after(conf, steps);
            let app = world.app.spawned(group, name, Some(pid), world.next_id);
            match group {
                Group::Init => {
                    &&& app.inits.base.owns_pid(pid)
                    &&& app.inits.base.table[pid].name == name
                    &&& !app.inits.base.runs(pid, instance_id)
                },
                Group::Service => {
                    &&& app.services.base.owns_pid(pid)
                    &&& app.services.base.table[pid].name == name
                    &&& !app.services.base.runs(pid, instance_id)
                },
            }
        }),
{
    law_instances_are_told_apart(conf, steps);
}

/// How many of the steps report a child that runs.
pub open spec fn successes(steps: Seq<Step>) -> nat
    decreases steps.len(),
{
    if steps.len() == 0 {
        0
    } else {
        successes(steps.drop_last()) + (if succeeds(steps.last()) {
            1nat
        } else {
            0nat
        })
    }
}

/// The step reports a child that runs.
pub open spec fn succeeds(step: Step) -> bool {
    step matches Step::Spawned { child, .. } && child is Some
}

/// In every run, the number that is due is the one that follows on as many others as
/// there were successful spawns: where they are fewer than the numbers there are, it is
/// just their count.
pub proof fn law_numbers_count_the_spawns(conf: ConfigView, steps: Seq<Step>)
    ensures
        world_after(conf, steps).next_id == id_after_many(0, successes(steps)),
        successes(steps) <= u64::MAX ==> world_after(conf, steps).next_id == successes(steps),
    decreases steps.len(),
{
    law_numbers_follow(0, successes(steps));
    if steps.len() > 0 {
        law_numbers_count_the_spawns(conf, steps.drop_last());
    }
}

/// More steps report no fewer children.
proof fn lemma_successes_grow(steps: Seq<Step>, i: int, j: int)
    requires
        0 <= i <= j <= steps.len(),
    ensures
        successes(steps.take(i)) <= successes(steps.take(j)),
        i < j && succeeds(steps[i]) ==> successes(steps.take(i)) < successes(steps.take(j)),
    decreases j,
{
    if i < j {
        lemma_successes_grow(steps, i, j - 1);
        assert(steps.take(j).drop_last() =~= steps.take(j - 1));
        assert(steps.take(j).last() == steps[j - 1]);
    }
}

/// Two successful spawns give their processes the same number exactly where a multiple of
/// the count of numbers lies between them: in particular never where fewer do.
pub proof fn law_no_number_is_given_twice(conf: ConfigView, steps: Seq<Step>, i: int, j: int)
    requires
        0 <= i < j < steps.len(),
        succeeds(steps[i]),
        succeeds(steps[j]),
    ensures
        ({
            let between = successes(steps.take(j)) - successes(steps.take(i));
            &&& between > 0
            &&& world_after(conf, steps.take(i)).next_id == world_after(
                conf,
                steps.take(j),
            ).next_id <==> between % 0x1_0000_0000_0000_0000 == 0
            &&& between <= u64::MAX ==> world_after(conf, steps.take(i)).next_id != world_after(
                conf,
                steps.take(j),
            ).next_id
        }),
{
    lemma_successes_grow(steps, i, j);
    law_numbers_count_the_spawns(conf, steps.take(i));
    law_numbers_count_the_spawns(conf, steps.take(j));
    law_numbers_differ(0, successes(steps.take(i)), successes(steps.take(j)));
}

/// The step at `h` reported that child and gave it that number.
pub open spec fn born_at(
    conf: ConfigView,
    steps: Seq<Step>,
    h: int,
    pid: u32,
    instance_id: u64,
) -> bool {
    &&& 0 <= h < steps.len()
    &&& steps[h] matches Step::Spawned { child, .. } && child == Some(pid)
    &&& world_after(conf, steps.take(h)).next_id == instance_id
}

/// Some step reported that child and gave it that number.
pub open spec fn was_born(conf: ConfigView, steps: Seq<Step>, pid: u32, instance_id: u64) -> bool {
    exists|h: int| #[trigger] born_at(conf, steps, h, pid, instance_id)
}

/// Every process that runs and every outstanding timer goes back to a spawn.
pub open spec fn all_were_born(conf: ConfigView, steps: Seq<Step>) -> bool {
    let world = world_after(conf, steps);
    let inits = world.app.inits.base;
    let services = world.app.services.base;
    &&& forall|p: u32| #[trigger]
        inits.owns_pid(p) ==> was_born(conf, steps, p, inits.table[p].instance_id)
    &&& forall|p: u32| #[trigger]
        services.owns_pid(p) ==> was_born(conf, steps, p, services.table[p].instance_id)
    &&& forall|action: ActionView, pid: u32, instance_id: u64| #[trigger]
        world.todo.contains(action) && holds(action, #[trigger] timeout_of(pid, instance_id))
            ==> was_born(conf, steps, pid, instance_id)
}

/// What was born in the steps before the last was born in all of them.
proof fn lemma_born_stays(conf: ConfigView, steps: Seq<Step>, pid: u32, instance_id: u64)
    requires
        steps.len() > 0,
        was_born(conf, steps.drop_last(), pid, instance_id),
    ensures
        was_born(conf, steps, pid, instance_id),
{
    let front = steps.drop_last();
    let h = choose|h: int| #[trigger] born_at(conf, front, h, pid, instance_id);
    assert(front.take(h) =~= steps.take(h));
    assert(born_at(conf, steps, h, pid, instance_id));
}

/// A timer that a reaction sets is for a process that runs.
proof fn lemma_new_timer(app: AppView, event: EventView, action: ActionView, pid: u32, id: u64)
    requires
        app.wf(),
        app.reaction(event).contains(action),
        holds(action, timeout_of(pid, id)),
    ensures
        app.inits.base.runs(pid, id) || app.services.base.runs(pid, id),
{
    let actions = app.reaction(event);
    let k = actions.index_of(action);
    assert(actions[k] == action);
    law_shutdown_stops_everything(app);
    if event is Shutdown || event is TermSignal {
        assert(stops_one_that_runs(app.reaction(EventView::Shutdown)[k], app));
        if exists|p: u32| #[trigger]
            app.inits.base.owns_pid(p) && app.inits.stop(p).contains(action) {
            let p = choose|p: u32| #[trigger]
                app.inits.base.owns_pid(p) && app.inits.stop(p).contains(action);
            let n = app.inits.stop(p).index_of(action);
            assert(app.inits.stop(p)[n] == action);
            assert(n == 0 || n == 1);
            assert(app.inits.base.table.contains_key(p));
        } else {
            let p = choose|p: u32| #[trigger]
                app.services.base.owns_pid(p) && app.services.stop(p).contains(action);
            let n = app.services.stop(p).index_of(action);
            assert(app.services.stop(p)[n] == action);
            assert(n == 0 || n == 1);
            assert(app.services.base.table.contains_key(p));
        }
    }
}

/// In every run, however long, every process that runs and every outstanding timer has
/// the pid and the number of a child that was spawned.
pub proof fn law_everything_goes_back_to_a_spawn(conf: ConfigView, steps: Seq<Step>)
    requires
        conf.wf(),
        is_run(conf, steps),
    ensures
        all_were_born(conf, steps),
    decreases steps.len(),
{
    broadcast use vstd::seq_lib::group_to_multiset_ensures;

    let after = world_after(conf, steps);
    if steps.len() == 0 {
        let boot = after.app.boot();
        assert forall|action: ActionView, pid: u32, instance_id: u64| #[trigger]
            after.todo.contains(action) && holds(
                action,
                #[trigger] timeout_of(pid, instance_id),
            ) implies was_born(conf, steps, pid, instance_id) by {
            assert(boot.contains(action));
            let k = boot.index_of(action);
            assert(boot[k] == action);
        }
    } else {
        let front = steps.drop_last();
        let step = steps.last();
        let world = world_after(conf, front);
        law_every_run_is_sound(conf, front);
        law_everything_goes_back_to_a_spawn(conf, front);
        assert(steps.take(steps.len() - 1) =~= front);
        assert forall|p: u32| #[trigger] after.app.inits.base.owns_pid(p) implies was_born(
            conf,
            steps,
            p,
            after.app.inits.base.table[p].instance_id,
        ) by {
            let id = after.app.inits.base.table[p].instance_id;
            if world.app.inits.base.owns_pid(p) && world.app.inits.base.table[p].instance_id == id {
                lemma_born_stays(conf, steps, p, id);
            } else {
                assert(born_at(conf, steps, steps.len() - 1, p, id));
            }
        }
        assert forall|p: u32| #[trigger] after.app.services.base.owns_pid(p) implies was_born(
            conf,
            steps,
            p,
            after.app.services.base.table[p].instance_id,
        ) by {
            let id = after.app.services.base.table[p].instance_id;
            if world.app.services.base.owns_pid(p) && world.app.services.base.table[p].instance_id
                == id {
                lemma_born_stays(conf, steps, p, id);
            } else {
                assert(born_at(conf, steps, steps.len() - 1, p, id));
            }
        }
        assert forall|action: ActionView, pid: u32, instance_id: u64| #[trigger]
            after.todo.contains(action) && holds(
                action,
                #[trigger] timeout_of(pid, instance_id),
            ) implies was_born(conf, steps, pid, instance_id) by {
            if !world.todo.contains(action) {
                let event = match step {
                    Step::Delivered { event, .. } => event,
                    Step::Ended { term } => EventView::ProcessTerminated(term),
                    _ => EventView::TermSignal,
                };
                assert(world.app.reaction(event).contains(action));
                lemma_new_timer(world.app, event, action, pid, instance_id);
                if world.app.inits.base.runs(pid, instance_id) {
                    assert(world.app.inits.base.owns_pid(pid));
                } else {
                    assert(world.app.services.base.owns_pid(pid));
                }
            }
            lemma_born_stays(conf, steps, pid, instance_id);
        }
    }
}

/// In every run, however long, an outstanding timer was set for a child that some earlier
/// step spawned, and a process that is spawned from then on gets the timer's number
/// exactly where a multiple of the count of numbers lies between the two spawns. The
/// timer spares every other newcomer.
pub proof fn law_timers_spare_other_spawns(
    conf: ConfigView,
    steps: Seq<Step>,
    i: int,
    j: int,
    timer: ActionView,
    pid: u32,
    instance_id: u64,
)
    requires
        conf.wf(),
        is_run(conf, steps),
        0 <= i <= j < steps.len(),
        succeeds(steps[j]),
        world_after(conf, steps.take(i)).todo.contains(timer),
        holds(timer, timeout_of(pid, instance_id)),
    ensures
        exists|h: int|
            {
                let between = successes(steps.take(j)) - successes(steps.take(h));
                &&& h < i
                &&& #[trigger] born_at(conf, steps, h, pid, instance_id)
                &&& world_after(conf, steps.take(j)).next_id == instance_id <==> between
                    % 0x1_0000_0000_0000_0000 == 0
            },
{
    let front = steps.take(i);
    lemma_take_run(conf, steps, i);
    law_everything_goes_back_to_a_spawn(conf, front);
    assert(was_born(conf, front, pid, instance_id));
    let h = choose|h: int| #[trigger] born_at(conf, front, h, pid, instance_id);
    assert(front.take(h) =~= steps.take(h));
    assert(born_at(conf, steps, h, pid, instance_id));
    law_no_number_is_given_twice(conf, steps, h, j);
}

/// Every process of the later world with a number below `bound` was there in the earlier
/// world, in the same group and under the same pid.
pub open spec fn no_newcomer_below(earlier: AppView, later: AppView, bound: u64) -> bool {
    &&& forall|p: u32| #[trigger]
        later.inits.base.owns_pid(p) && later.inits.base.table[p].instance_id < bound ==> {
            &&& earlier.inits.base.owns_pid(p)
            &&& earlier.inits.base.table[p] == later.inits.base.table[p]
        }
    &&& forall|p: u32| #[trigger]
        later.services.base.owns_pid(p) && later.services.base.table[p].instance_id < bound ==> {
            &&& earlier.services.base.owns_pid(p)
            &&& earlier.services.base.table[p] == later.services.base.table[p]
        }
}

proof fn lemma_next_no_newcomer(world: World, step: Step)
    requires
        succeeds(step) ==> world.next_id < u64::MAX,
    ensures
        no_newcomer_below(world.app, world.next(step).app, world.next_id),
        world.next_id <= world.next(step).next_id,
{
}

/// The processes that are spawned from some point of a run on have numbers that were
/// not given out before it.
proof fn lemma_no_newcomer(conf: ConfigView, steps: Seq<Step>, i: int, j: int)
    requires
        conf.wf(),
        is_run(conf, steps),
        successes(steps) <= u64::MAX,
        0 <= i <= j <= steps.len(),
    ensures
        no_newcomer_below(
            world_after(conf, steps.take(i)).app,
            world_after(conf, steps.take(j)).app,
            world_after(conf, steps.take(i)).next_id,
        ),
        world_after(conf, steps.take(i)).next_id <= world_after(conf, steps.take(j)).next_id,
    decreases j,
{
    if i < j {
        lemma_no_newcomer(conf, steps, i, j - 1);
        lemma_take_run(conf, steps, j - 1);
        lemma_successes_grow(steps, j - 1, steps.len() as int);
        assert(steps.take(steps.len() as int) =~= steps);
        law_numbers_count_the_spawns(conf, steps.take(j - 1));
        let earlier = world_after(conf, steps.take(i));
        let before = world_after(conf, steps.take(j - 1));
        let later = world_after(conf, steps.take(j));
        lemma_next_no_newcomer(before, steps[j - 1]);
        assert forall|p: u32| #[trigger]
            later.app.inits.base.owns_pid(p) && later.app.inits.base.table[p].instance_id
                < earlier.next_id implies {
            &&& earlier.app.inits.base.owns_pid(p)
            &&& earlier.app.inits.base.table[p] == later.app.inits.base.table[p]
        } by {
            assert(before.app.inits.base.owns_pid(p));
        }
        assert forall|p: u32| #[trigger]
            later.app.services.base.owns_pid(p) && later.app.services.base.table[p].instance_id
                < earlier.next_id implies {
            &&& earlier.app.services.base.owns_pid(p)
            &&& earlier.app.services.base.table[p] == later.app.services.base.table[p]
        } by {
            assert(before.app.services.base.owns_pid(p));
        }
    }
}

/// A process that is spawned in such a run while a timer is outstanding never has that
/// timer's number. The number that it gets is another. And at every later point, a
/// process with the timer's number is one that ran already when the timer was
/// outstanding: so the timer, whenever it runs out, kills nobody that was spawned since.
pub proof fn law_newcomers_stay_spared(
    conf: ConfigView,
    steps: Seq<Step>,
    i: int,
    j: int,
    timer: ActionView,
    pid: u32,
    instance_id: u64,
)
    requires
        conf.wf(),
        is_run(conf, steps),
        successes(steps) <= u64::MAX,
        0 <= i <= j <= steps.len(),
        world_after(conf, steps.take(i)).todo.contains(timer),
        holds(timer, timeout_of(pid, instance_id)),
    ensures
        ({
            let earlier = world_after(conf, steps.take(i));
            let later = world_after(conf, steps.take(j));
            &&& later.next_id != instance_id
            &&& forall|p: u32| #[trigger]
                later.app.inits.base.runs(p, instance_id) ==> {
                    &&& earlier.app.inits.base.owns_pid(p)
                    &&& earlier.app.inits.base.table[p] == later.app.inits.base.table[p]
                }
            &&& forall|p: u32| #[trigger]
                later.app.services.base.runs(p, instance_id) ==> {
                    &&& earlier.app.services.base.owns_pid(p)
                    &&& earlier.app.services.base.table[p] == later.app.services.base.table[p]
                }
            &&& later.app.reaction(timeout_of(pid, instance_id)).len() > 0 ==> {
                ||| earlier.app.inits.base.runs(pid, instance_id)
                ||| earlier.app.services.base.runs(pid, instance_id)
            }
        }),
{
    let earlier = world_after(conf, steps.take(i));
    let later = world_after(conf, steps.take(j));
    lemma_take_run(conf, steps, i);
    lemma_successes_grow(steps, i, steps.len() as int);
    assert(steps.take(steps.len() as int) =~= steps);
    law_instances_are_told_apart(conf, steps.take(i));
    assert(instance_id < earlier.next_id);
    lemma_no_newcomer(conf, steps, i, j);
    assert forall|p: u32| #[trigger] later.app.inits.base.runs(p, instance_id) implies {
        &&& earlier.app.inits.base.owns_pid(p)
        &&& earlier.app.inits.base.table[p] == later.app.inits.base.table[p]
    } by {
        assert(later.app.inits.base.owns_pid(p));
    }
    assert forall|p: u32| #[trigger] later.app.services.base.runs(p, instance_id) implies {
        &&& earlier.app.services.base.owns_pid(p)
        &&& earlier.app.services.base.table[p] == later.app.services.base.table[p]
    } by {
        assert(later.app.services.base.owns_pid(p));
    }
    if !later.app.inits.base.runs(pid, instance_id) && !later.app.services.base.runs(
        pid,
        instance_id,
    ) {
        assert(later.app.reaction(timeout_of(pid, instance_id)).len() == 0);
    }
}

/// The action starts a process, now or when its event is delivered.
pub open spec fn leads_to_process(action: ActionView) -> bool {
    match action {
        ActionView::Spawn(_) => true,
        ActionView::Kill { .. } => false,
        ActionView::Schedule { event, .. } => event is ServiceRestart,
        ActionView::Send { event } => event is ServiceRestart,
    }
}

/// The processes that run and those that are still to be started.
pub open spec fn remaining(world: World) -> nat {
    running(world.app) + world.todo.filter(|action: ActionView| leads_to_process(action)).len()
}

/// The starts among some actions.
spec fn starts_in(todo: Multiset<ActionView>) -> Multiset<ActionView> {
    todo.filter(|action: ActionView| leads_to_process(action))
}

proof fn lemma_starts_removed(todo: Multiset<ActionView>, action: ActionView)
    requires
        todo.contains(action),
    ensures
        starts_in(todo.remove(action)).len() == starts_in(todo).len() - (if leads_to_process(
            action,
        ) {
            1int
        } else {
            0int
        }),
{
    if leads_to_process(action) {
        assert(starts_in(todo.remove(action)) =~= starts_in(todo).remove(action));
        assert(starts_in(todo).contains(action));
        assert(Multiset::singleton(action).subset_of(starts_in(todo)));
    } else {
        assert(starts_in(todo.remove(action)) =~= starts_in(todo));
    }
}

proof fn lemma_starts_added(todo: Multiset<ActionView>, more: Multiset<ActionView>)
    ensures
        starts_in(todo.add(more)).len() == starts_in(todo).len() + starts_in(more).len(),
{
    assert(starts_in(todo.add(more)) =~= starts_in(todo).add(starts_in(more)));
}

/// While everything is being shut down, only the restart of a service starts anything.
proof fn lemma_reaction_starts(app: AppView, event: EventView)
    requires
        app.wf(),
        app.shutdown,
        app.services.shutdown,
    ensures
        starts_in(app.reaction(event).to_multiset()).len() == (if event is ServiceRestart {
            1nat
        } else {
            0nat
        }),
{
    broadcast use vstd::seq_lib::group_to_multiset_ensures;

    let actions = app.reaction(event);
    law_shutdown_stops_everything(app);
    if event is ServiceRestart {
        assert(starts_in(actions.to_multiset()) =~= actions.to_multiset()) by {
            assert forall|a: ActionView| #[trigger] actions.to_multiset().count(a) > 0 implies
                leads_to_process(a) by {
                assert(actions.contains(a));
            }
        }
        assert(actions.len() == 1);
    } else {
        assert(starts_in(actions.to_multiset()) =~= Multiset::<ActionView>::empty()) by {
            assert forall|a: ActionView| #[trigger] actions.to_multiset().count(a) > 0 implies
                !leads_to_process(a) by {
                assert(actions.contains(a));
                let k = actions.index_of(a);
                assert(actions[k] == a);
            }
        }
    }
}

proof fn lemma_react_winds_down(world: World, event: EventView)
    requires
        sound(world),
        world.app.shutdown,
    ensures
        remaining(world.react(event)) <= remaining(world) + (if event is ServiceRestart {
            1nat
        } else {
            0nat
        }),
        event matches EventView::ProcessTerminated(term) ==> (supervised(world.app, term.of_pid())
            ==> remaining(world.react(event)) + 1 == remaining(world)),
{
    let app = world.app;
    lemma_reaction_starts(app, event);
    lemma_starts_added(world.todo, app.reaction(event).to_multiset());
    if let EventView::ProcessTerminated(term) = event {
        law_every_end_counts(app, term);
        if !supervised(app, term.of_pid()) {
            law_zombies_are_ignored(app, term);
        }
    }
}

/// In every run, once everything is being shut down, it winds down: the processes that
/// run together with those that are still to be started never become more, and each
/// end of a supervised process makes them one less. When there are none left, there is
/// nothing left to supervise.
pub proof fn law_shutdown_winds_down(conf: ConfigView, steps: Seq<Step>, step: Step)
    requires
        conf.wf(),
        is_run(conf, steps),
        world_after(conf, steps).allows(step),
        world_after(conf, steps).app.shutdown,
    ensures
        ({
            let world = world_after(conf, steps);
            &&& world.next(step).app.shutdown
            &&& remaining(world.next(step)) <= remaining(world)
            &&& step matches Step::Ended { term } ==> (supervised(world.app, term.of_pid())
                ==> remaining(world.next(step)) + 1 == remaining(world))
            &&& remaining(world) == 0 ==> world.app.should_exit()
        }),
{
    let world = world_after(conf, steps);
    law_every_run_is_sound(conf, steps);
    law_every_end_counts(world.app, Termination::Exited { pid: 0, code: 0 });
    match step {
        Step::Spawned { launch, child } => {
            lemma_starts_removed(world.todo, ActionView::Spawn(launch));
            if let Some(pid) = child {
                let after = world.next(step).app;
                match launch.group {
                    Group::Init => {
                        assert(after.inits.base.table.dom()
                            =~= world.app.inits.base.table.dom().insert(pid));
                    },
                    Group::Service => {
                        assert(after.services.base.table.dom()
                            =~= world.app.services.base.table.dom().insert(pid));
                    },
                }
            }
        },
        Step::Signalled { name, pid, signal } => {
            lemma_starts_removed(world.todo, ActionView::Kill { name, pid, signal });
        },
        Step::Delivered { action, event } => {
            lemma_starts_removed(world.todo, action);
            lemma_without_sound(world, action);
            lemma_react_winds_down(world.without(action), event);
        },
        Step::Ended { term } => lemma_react_winds_down(world, EventView::ProcessTerminated(term)),
        Step::Told => lemma_react_winds_down(world, EventView::TermSignal),
    }
}

} // verus!
