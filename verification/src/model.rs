//! What the state of the supervisor is and what each operation does to it, as
//! mathematical functions. The contracts of the executable operations speak of
//! these, and so do the laws.

use vstd::prelude::*;

use crate::action::{ActionView, Group};
use crate::duration::Duration;
use crate::event::EventView;
use crate::names::NameMapView;
use crate::process::ProcessView;
use crate::spec::{ConfigView, InitSpec, OnExit, ServiceSpec, StopSpec};

verus! {

/// The members of a set of pids below a bound, in ascending order.
pub open spec fn ascending_below(pids: Set<u32>, bound: nat) -> Seq<u32>
    decreases bound,
{
    if bound == 0 {
        Seq::empty()
    } else {
        let pid = (bound - 1) as u32;
        let below = ascending_below(pids, (bound - 1) as nat);
        if pids.contains(pid) {
            below.push(pid)
        } else {
            below
        }
    }
}

/// The members of a set of pids in ascending order.
pub open spec fn ascending(pids: Set<u32>) -> Seq<u32> {
    ascending_below(pids, 0x1_0000_0000)
}

/// What is to be done for each of some pids, one after the other.
pub open spec fn for_each(pids: Seq<u32>, todo: spec_fn(u32) -> Seq<ActionView>) -> Seq<ActionView>
    decreases pids.len(),
{
    if pids.len() == 0 {
        Seq::empty()
    } else {
        for_each(pids.drop_last(), todo) + todo(pids.last())
    }
}

/// The configuration and the table of running processes that each group has.
pub struct BaseView {
    pub conf: ConfigView,
    pub table: Map<u32, ProcessView>,
}

impl BaseView {
    pub open spec fn new(conf: ConfigView) -> BaseView {
        BaseView { conf, table: Map::empty() }
    }

    pub open spec fn owns_pid(self, pid: u32) -> bool {
        self.table.contains_key(pid)
    }

    /// Each process stands in the table under its own pid.
    pub open spec fn wf(self) -> bool {
        &&& self.conf.wf()
        &&& self.table.dom().finite()
        &&& forall|pid: u32| #[trigger] self.table.contains_key(pid) ==> self.table[pid].pid == pid
    }

    /// Whether the process that runs under `pid` is that very instance.
    pub open spec fn runs(self, pid: u32, instance_id: u64) -> bool {
        self.table.contains_key(pid) && self.table[pid].instance_id == instance_id
    }

    /// SIGKILL for an instance that still runs, nothing for any other.
    pub open spec fn force_terminate(self, pid: u32, instance_id: u64) -> Seq<ActionView> {
        if self.runs(pid, instance_id) {
            seq![self.table[pid].force_stop()]
        } else {
            Seq::empty()
        }
    }

    /// A process that was spawned is entered under its pid, in place of what the
    /// table had there.
    pub open spec fn spawned(self, process: ProcessView) -> BaseView {
        BaseView { table: self.table.insert(process.pid, process), ..self }
    }

    pub open spec fn removed(self, pid: u32) -> BaseView {
        BaseView { table: self.table.remove(pid), ..self }
    }

    /// The table is sound, and each of its processes has one of these specs.
    pub open spec fn follows<S>(self, specs: NameMapView<S>) -> bool {
        &&& self.wf()
        &&& forall|pid: u32| #[trigger]
            self.table.contains_key(pid) ==> specs.contains(self.table[pid].name)
    }

    pub proof fn lemma_spawned_follows<S>(self, specs: NameMapView<S>, process: ProcessView)
        requires
            self.follows(specs),
            specs.contains(process.name),
        ensures
            self.spawned(process).follows(specs),
    {
        let after = self.spawned(process);
        assert forall|pid: u32| #[trigger] after.table.contains_key(pid) implies {
            &&& after.table[pid].pid == pid
            &&& specs.contains(after.table[pid].name)
        } by {
            assert(pid == process.pid || self.table.contains_key(pid));
        }
    }

    pub proof fn lemma_removed_follows<S>(self, specs: NameMapView<S>, pid: u32)
        requires
            self.follows(specs),
        ensures
            self.removed(pid).follows(specs),
    {
        let after = self.removed(pid);
        assert forall|p: u32| #[trigger] after.table.contains_key(p) implies {
            &&& after.table[p].pid == p
            &&& specs.contains(after.table[p].name)
        } by {
            assert(self.table.contains_key(p));
        }
    }

    /// The stopping of the process that runs under `pid`, as its spec says.
    pub open spec fn stop<S: StopSpec>(self, specs: NameMapView<S>, pid: u32) -> Seq<ActionView> {
        let process = self.table[pid];
        let spec = specs.values[process.name];
        process.stop(spec.timeout(), spec.signal())
    }

    /// The stopping of all running processes, by ascending pid.
    pub open spec fn stop_all<S: StopSpec>(self, specs: NameMapView<S>) -> Seq<ActionView> {
        for_each(ascending(self.table.dom()), |pid: u32| self.stop(specs, pid))
    }
}

/// The init processes.
pub struct InitsView {
    pub base: BaseView,
    /// The names of the init processes that have ended.
    pub done: Set<Seq<char>>,
}

impl InitsView {
    pub open spec fn specs(self) -> NameMapView<InitSpec> {
        self.base.conf.init
    }

    /// Each running process and each ended one is an init process of the configuration.
    pub open spec fn wf(self) -> bool {
        &&& self.base.follows(self.specs())
        &&& forall|name: Seq<char>| #[trigger] self.done.contains(name) ==> self.specs().contains(name)
    }

    /// The spawning of one init process.
    pub open spec fn start(self, name: Seq<char>) -> ActionView {
        ActionView::Spawn(self.specs().values[name].launch_of(name))
    }

    /// The spawning of all of them, in their order.
    pub open spec fn start_all(self) -> Seq<ActionView> {
        self.specs().names.map_values(|name: Seq<char>| self.start(name))
    }

    pub open spec fn spawned(self, process: ProcessView) -> InitsView {
        InitsView { base: self.base.spawned(process), ..self }
    }

    /// A process of the table leaves it and is done; any other pid means nothing here.
    pub open spec fn terminated(self, pid: u32) -> InitsView {
        if self.base.owns_pid(pid) {
            InitsView {
                base: self.base.removed(pid),
                done: self.done.insert(self.base.table[pid].name),
            }
        } else {
            self
        }
    }

    pub open spec fn all_done(self) -> bool {
        forall|name: Seq<char>| #[trigger] self.specs().contains(name) ==> self.done.contains(name)
    }

    /// The stopping of the process that runs under `pid`, as its spec says.
    pub open spec fn stop(self, pid: u32) -> Seq<ActionView> {
        self.base.stop(self.specs(), pid)
    }

    /// The stopping of all running processes, by ascending pid.
    pub open spec fn shutdown(self) -> Seq<ActionView> {
        self.base.stop_all(self.specs())
    }
}

/// The services.
pub struct ServicesView {
    pub base: BaseView,
    /// Whether they are being shut down.
    pub shutdown: bool,
}

impl ServicesView {
    pub open spec fn specs(self) -> NameMapView<ServiceSpec> {
        self.base.conf.services
    }

    /// Each running process is a service of the configuration.
    pub open spec fn wf(self) -> bool {
        self.base.follows(self.specs())
    }

    /// The spawning of one service.
    pub open spec fn start(self, name: Seq<char>) -> ActionView {
        ActionView::Spawn(self.specs().values[name].launch_of(name))
    }

    /// The spawning of all of them, in their order.
    pub open spec fn start_all(self) -> Seq<ActionView> {
        self.specs().names.map_values(|name: Seq<char>| self.start(name))
    }

    pub open spec fn spawned(self, process: ProcessView) -> ServicesView {
        ServicesView { base: self.base.spawned(process), ..self }
    }

    /// A process of the table leaves it; any other pid means nothing here.
    pub open spec fn terminated(self, pid: u32) -> ServicesView {
        ServicesView { base: self.base.removed(pid), ..self }
    }

    /// What follows on the end of a process of the table, unless the services are
    /// being shut down: the restart of the service after its delay, or the request
    /// to shut everything down.
    pub open spec fn on_terminated(self, pid: u32) -> Seq<ActionView> {
        if self.base.owns_pid(pid) && !self.shutdown {
            let name = self.base.table[pid].name;
            match self.specs().values[name].on_exit {
                OnExit::Restart { restart_delay } => seq![
                    ActionView::Schedule {
                        delay: Duration::of_secs(restart_delay),
                        event: EventView::ServiceRestart { name },
                    },
                ],
                OnExit::Shutdown => seq![ActionView::Send { event: EventView::Shutdown }],
            }
        } else {
            Seq::empty()
        }
    }

    /// The stopping of the process that runs under `pid`, as its spec says.
    pub open spec fn stop(self, pid: u32) -> Seq<ActionView> {
        self.base.stop(self.specs(), pid)
    }

    /// The stopping of all running processes, by ascending pid.
    pub open spec fn stop_all(self) -> Seq<ActionView> {
        self.base.stop_all(self.specs())
    }

    pub open spec fn shutting_down(self) -> ServicesView {
        ServicesView { shutdown: true, ..self }
    }
}

/// The whole supervisor.
pub struct AppView {
    pub inits: InitsView,
    pub services: ServicesView,
    /// Whether everything is being shut down.
    pub shutdown: bool,
}

impl AppView {
    pub open spec fn new(conf: ConfigView) -> AppView {
        AppView {
            inits: InitsView { base: BaseView::new(conf), done: Set::empty() },
            services: ServicesView { base: BaseView::new(conf), shutdown: false },
            shutdown: false,
        }
    }

    pub open spec fn conf(self) -> ConfigView {
        self.inits.base.conf
    }

    /// Both groups are sound and follow the same configuration.
    pub open spec fn wf(self) -> bool {
        &&& self.inits.wf()
        &&& self.services.wf()
        &&& self.services.base.conf == self.inits.base.conf
    }

    /// Whether the configuration has init processes.
    pub open spec fn has_inits(self) -> bool {
        self.conf().init.names.len() > 0
    }

    /// How the supervisor begins: with the init processes if there are any, else with
    /// the services.
    pub open spec fn boot(self) -> Seq<ActionView> {
        if self.has_inits() {
            self.inits.start_all()
        } else {
            self.services.start_all()
        }
    }

    /// Whether `name` stands in the configuration for that group.
    pub open spec fn knows(self, group: Group, name: Seq<char>) -> bool {
        match group {
            Group::Init => self.inits.specs().contains(name),
            Group::Service => self.services.specs().contains(name),
        }
    }

    /// A child that runs is entered into the table of its group with the instance number
    /// that is due; one that could not be spawned changes nothing.
    pub open spec fn spawned(
        self,
        group: Group,
        name: Seq<char>,
        child: Option<u32>,
        number: u64,
    ) -> AppView {
        match child {
            Some(pid) => {
                let process = ProcessView { name, pid, instance_id: number };
                match group {
                    Group::Init => AppView { inits: self.inits.spawned(process), ..self },
                    Group::Service => AppView { services: self.services.spawned(process), ..self },
                }
            },
            None => self,
        }
    }

    /// There is nothing left to supervise.
    pub open spec fn should_exit(self) -> bool {
        self.inits.base.table.is_empty() && self.services.base.table.is_empty()
    }

    pub open spec fn shutting_down(self) -> AppView {
        AppView { services: self.services.shutting_down(), shutdown: true, ..self }
    }

    /// The stopping of every running process, the init processes first.
    pub open spec fn stop_all(self) -> Seq<ActionView> {
        self.inits.shutdown() + self.services.stop_all()
    }

    /// Whether the event can be handled: only services of the configuration restart.
    pub open spec fn accepts(self, event: EventView) -> bool {
        event matches EventView::ServiceRestart { name } ==> self.knows(Group::Service, name)
    }

    /// The state after an event.
    pub open spec fn after(self, event: EventView) -> AppView {
        match event {
            EventView::ProcessTerminated(term) => if self.inits.base.owns_pid(term.of_pid()) {
                AppView { inits: self.inits.terminated(term.of_pid()), ..self }
            } else {
                AppView { services: self.services.terminated(term.of_pid()), ..self }
            },
            EventView::ForceShutdown { .. } => self,
            EventView::ServiceRestart { .. } => self,
            EventView::Shutdown => self.shutting_down(),
            EventView::TermSignal => self.shutting_down(),
        }
    }

    /// What is to be done about an event. The end of the last init process lets the
    /// services start, unless everything is being shut down.
    pub open spec fn reaction(self, event: EventView) -> Seq<ActionView> {
        match event {
            EventView::ProcessTerminated(term) => if self.inits.base.owns_pid(term.of_pid()) {
                if self.has_inits() && self.after(event).inits.all_done() && !self.shutdown {
                    self.services.start_all()
                } else {
                    Seq::empty()
                }
            } else {
                self.services.on_terminated(term.of_pid())
            },
            EventView::ForceShutdown { pid, instance_id } => self.inits.base.force_terminate(
                pid,
                instance_id,
            ) + self.services.base.force_terminate(pid, instance_id),
            EventView::ServiceRestart { name } => seq![self.services.start(name)],
            EventView::Shutdown => self.stop_all(),
            EventView::TermSignal => self.stop_all(),
        }
    }
}

/// The members of `ascending_below` are those of the set below the bound, each once
/// and in ascending order.
pub proof fn lemma_ascending_below(pids: Set<u32>, bound: nat)
    requires
        bound <= 0x1_0000_0000,
    ensures
        forall|pid: u32| #[trigger]
            ascending_below(pids, bound).contains(pid) <==> pids.contains(pid) && pid < bound,
        forall|i: int, j: int|
            0 <= i < j < ascending_below(pids, bound).len() ==> ascending_below(pids, bound)[i]
                < ascending_below(pids, bound)[j],
    decreases bound,
{
    if bound > 0 {
        let top = (bound - 1) as u32;
        let below = ascending_below(pids, (bound - 1) as nat);
        let all = ascending_below(pids, bound);
        lemma_ascending_below(pids, (bound - 1) as nat);
        assert forall|pid: u32| #[trigger] all.contains(pid) <==> pids.contains(pid) && pid
            < bound by {
            if pids.contains(top) {
                assert(all[below.len() as int] == top);
                if below.contains(pid) {
                    let i = below.index_of(pid);
                    assert(all[i] == pid);
                }
                if all.contains(pid) && pid != top {
                    let i = all.index_of(pid);
                    assert(below[i] == pid);
                }
            }
        }
        assert forall|i: int, j: int| 0 <= i < j < all.len() implies all[i] < all[j] by {
            assert(below.contains(below[i]));
        }
    }
}

/// Ascending sequences with the same members are the same.
pub proof fn lemma_ascending_unique(a: Seq<u32>, b: Seq<u32>)
    requires
        forall|i: int, j: int| 0 <= i < j < a.len() ==> a[i] < a[j],
        forall|i: int, j: int| 0 <= i < j < b.len() ==> b[i] < b[j],
        forall|pid: u32| #[trigger] a.contains(pid) <==> b.contains(pid),
    ensures
        a == b,
    decreases a.len(),
{
    if a.len() == 0 {
        if b.len() > 0 {
            assert(b.contains(b[0]));
            assert(a.contains(b[0]));
        }
        assert(a =~= b);
    } else {
        assert(a.contains(a.last()));
        assert(b.contains(a.last()));
        assert(b.contains(b.last()));
        assert(a.contains(b.last()));
        assert(a.last() == b.last());
        let a1 = a.drop_last();
        let b1 = b.drop_last();
        assert forall|pid: u32| #[trigger] a1.contains(pid) <==> b1.contains(pid) by {
            if a1.contains(pid) {
                let i = a1.index_of(pid);
                assert(a[i] == pid);
                assert(a.contains(pid));
                let j = b.index_of(pid);
                assert(b1[j] == pid);
            }
            if b1.contains(pid) {
                let i = b1.index_of(pid);
                assert(b[i] == pid);
                assert(b.contains(pid));
                assert(a.contains(pid));
                assert(b[i] < b.last());
                let j = a.index_of(pid);
                assert(a1[j] == pid);
            }
        }
        lemma_ascending_unique(a1, b1);
        assert(a =~= a1.push(a.last()));
        assert(b =~= b1.push(b.last()));
    }
}

} // verus!
