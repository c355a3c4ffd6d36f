use std::collections::BTreeMap;
use std::sync::Arc;

use vstd::prelude::*;
use vstd::std_specs::btree::increasing_seq;
use vstd::std_specs::cmp::OrdSpec;
use vstd::std_specs::iter::IteratorSpec;

use crate::action::{views, Action, ActionView, Group};
use crate::duration::Duration;
use crate::event::Event;
use crate::laws::law_spawns_keep_the_state_sound;
use crate::model::{
    ascending, for_each, lemma_ascending_below, lemma_ascending_unique, AppView, BaseView,
    InitsView, ServicesView,
};
use crate::names::{share, NameMap};
use crate::process::{id_after_spawn, InstanceIds, ProcessView, RunningProcess};
use crate::spec::{ConfigFile, OnExit, StopSpec};
use crate::unix::Termination;

verus! {

/// The running processes by pid.
pub open spec fn table_view(ptable: Map<u32, RunningProcess>) -> Map<u32, ProcessView> {
    ptable.map_values(|p: RunningProcess| p@)
}

/// What the two groups of processes have in common.
#[derive(Debug)]
pub struct BaseState {
    conf: Arc<ConfigFile>,
    ptable: BTreeMap<u32, RunningProcess>,
}

impl View for BaseState {
    type V = BaseView;

    closed spec fn view(&self) -> BaseView {
        BaseView { conf: self.conf@, table: table_view(self.ptable@) }
    }
}

impl BaseState {
    /// Nothing runs.
    pub fn new(conf: &Arc<ConfigFile>) -> (base: BaseState)
        ensures
            base@ == BaseView::new(conf@),
            base@.wf(),
    {
        let base = BaseState { conf: share(conf), ptable: BTreeMap::new() };
        proof {
            use_type_invariant(&conf.init);
            use_type_invariant(&conf.services);
            assert(base@.table =~= Map::<u32, ProcessView>::empty());
        }
        base
    }

    /// Whether a process of the table runs under `pid`.
    pub fn owns_pid(&self, pid: u32) -> (owns: bool)
        ensures
            owns == self@.owns_pid(pid),
    {
        self.ptable.contains_key(&pid)
    }

    /// Kills the instance if it still runs.
    pub fn force_terminate(&self, pid: u32, instance_id: u64) -> (actions: Vec<Action>)
        ensures
            views(actions@) == self@.force_terminate(pid, instance_id),
    {
        let mut actions: Vec<Action> = Vec::new();
        if let Some(process) = self.ptable.get(&pid) {
            if process.instance_id == instance_id {
                actions.push(process.force_terminate());
            }
        }
        proof {
            assert(views(actions@) =~= self@.force_terminate(pid, instance_id));
        }
        actions
    }

    /// Enters a spawned process under its pid.
    fn insert(&mut self, process: RunningProcess)
        ensures
            final(self)@ == old(self)@.spawned(process@),
    {
        let ghost before = self.ptable@;
        self.ptable.insert(process.pid, process);
        proof {
            assert(table_view(self.ptable@) =~= table_view(before).insert(process.pid, process@));
        }
    }

    /// Takes out the process that runs under `pid`.
    fn remove(&mut self, pid: u32) -> (removed: Option<RunningProcess>)
        ensures
            final(self)@ == old(self)@.removed(pid),
            match removed {
                Some(process) => old(self)@.owns_pid(pid) && process@ == old(self)@.table[pid],
                None => !old(self)@.owns_pid(pid),
            },
    {
        let ghost before = self.ptable@;
        let removed = self.ptable.remove(&pid);
        proof {
            assert(table_view(self.ptable@) =~= table_view(before).remove(pid));
        }
        removed
    }

    /// Stops all processes of the table, each as its spec says.
    fn stop_all<S: StopSpec>(&self, specs: &NameMap<S>) -> (actions: Vec<Action>)
        requires
            self@.follows(specs@),
        ensures
            views(actions@) == self@.stop_all(specs@),
    {
        let mut actions: Vec<Action> = Vec::new();
        let ghost pids = ascending(self@.table.dom());
        let ghost stop = |pid: u32| self@.stop(specs@, pid);
        let processes = self.ptable.values();
        proof {
            lemma_values_ascend(self.ptable@, processes.remaining());
        }
        for process in it: processes
            invariant
                self@.follows(specs@),
                stop == (|pid: u32| self@.stop(specs@, pid)),
                it.seq().len() == pids.len(),
                forall|i: int| 0 <= i < pids.len() ==> {
                    &&& self.ptable@.contains_key(#[trigger] pids[i])
                    &&& *it.seq()[i] == self.ptable@[pids[i]]
                },
                views(actions@) == for_each(pids.take(it.index() as int), stop),
        {
            let ghost n = it.index();
            let ghost pid = pids[n];
            let ghost before = actions@;
            assert(self@.table.contains_key(pid));
            let spec = specs.get(&process.name).unwrap();
            let mut stopping = process.terminate(spec.stop_timeout(), spec.stop_signal());
            proof {
                assert(process@ == self@.table[pid]);
                assert(views(stopping@) == stop(pid));
            }
            actions.append(&mut stopping);
            proof {
                assert(views(actions@) =~= views(before) + stop(pid));
                assert(pids.take(n + 1).drop_last() =~= pids.take(n));
            }
        }
        proof {
            assert(pids.take(pids.len() as int) =~= pids);
        }
        actions
    }
}

/// A walk over the values of a process table visits the processes by ascending pid.
proof fn lemma_values_ascend(ptable: Map<u32, RunningProcess>, values: Seq<&RunningProcess>)
    requires
        exists|keys: Seq<u32>|
            {
                &&& #[trigger] increasing_seq(keys)
                &&& keys.to_set() == ptable.dom()
                &&& values == keys.map(|i: int, k: u32| &ptable[k])
            },
    ensures
        values.len() == ascending(table_view(ptable).dom()).len(),
        forall|i: int| 0 <= i < values.len() ==> {
            let pid = #[trigger] ascending(table_view(ptable).dom())[i];
            ptable.contains_key(pid) && *values[i] == ptable[pid]
        },
{
    let keys = choose|keys: Seq<u32>|
        {
            &&& #[trigger] increasing_seq(keys)
            &&& keys.to_set() == ptable.dom()
            &&& values == keys.map(|i: int, k: u32| &ptable[k])
        };
    let dom = table_view(ptable).dom();
    assert(dom =~= ptable.dom());
    lemma_ascending_below(dom, 0x1_0000_0000);
    assert forall|pid: u32| #[trigger] keys.contains(pid) <==> ascending(dom).contains(pid) by {
        assert(keys.to_set().contains(pid) <==> keys.contains(pid));
    }
    assert forall|i: int, j: int| 0 <= i < j < keys.len() implies keys[i] < keys[j] by {
        assert(keys[i].cmp_spec(&keys[j]) is Less);
    }
    lemma_ascending_unique(keys, ascending(dom));
    assert forall|i: int| #![trigger values[i]] 0 <= i < values.len() implies ptable.contains_key(
        keys[i],
    ) && *values[i] == ptable[keys[i]] by {
        assert(keys.to_set().contains(keys[i]));
    }
}

/// The init processes: those that run, and the names of those that have ended.
#[derive(Debug)]
pub struct InitsState {
    base: BaseState,
    done: NameMap<()>,
}

impl View for InitsState {
    type V = InitsView;

    closed spec fn view(&self) -> InitsView {
        InitsView { base: self.base@, done: self.done@.values.dom() }
    }
}

impl InitsState {
    /// No init process runs and none has ended.
    fn new(conf: &Arc<ConfigFile>) -> (inits: InitsState)
        ensures
            inits@ == (InitsView { base: BaseView::new(conf@), done: Set::empty() }),
            inits@.wf(),
    {
        let inits = InitsState { base: BaseState::new(conf), done: NameMap::new() };
        proof {
            assert(inits@.done =~= Set::<Seq<char>>::empty());
        }
        inits
    }

    /// Spawns all init processes.
    pub fn start_all(&self) -> (actions: Vec<Action>)
        ensures
            views(actions@) == self@.start_all(),
    {
        let mut actions: Vec<Action> = Vec::new();
        let mut i: usize = 0;
        while i < self.base.conf.init.len()
            invariant
                i <= self@.specs().names.len(),
                views(actions@) =~= self@.start_all().take(i as int),
            decreases self@.specs().names.len() - i,
        {
            let (name, spec) = self.base.conf.init.entry(i);
            let ghost before = actions@;
            actions.push(Action::Spawn(spec.launch(name)));
            proof {
                assert(views(actions@) =~= views(before).push(actions@.last()@));
                assert(self@.start_all()[i as int] == self@.start(name@));
            }
            i = i + 1;
        }
        actions
    }

    /// Takes note of the outcome of spawning the init process `name`.
    fn spawned(&mut self, name: &Arc<String>, child: Option<u32>, ids: &mut InstanceIds)
        ensures
            match child {
                Some(pid) => final(self)@ == old(self)@.spawned(
                    ProcessView { name: name@, pid, instance_id: old(ids).next },
                ),
                None => final(self)@ == old(self)@,
            },
            final(ids).next == id_after_spawn(old(ids).next, child),
    {
        if let Some(process) = RunningProcess::spawn(name, child, ids) {
            self.base.insert(process);
        }
    }

    /// Takes note of the end of a process.
    pub fn terminated(&mut self, term: Termination)
        ensures
            final(self)@ == old(self)@.terminated(term.of_pid()),
            old(self)@.wf() ==> final(self)@.wf(),
    {
        if let Some(process) = self.base.remove(term.pid()) {
            self.done.insert(process.name, ());
            proof {
                assert(self@.done =~= old(self)@.done.insert(process.name@));
            }
        } else {
            proof {
                assert(self@.base.table =~= old(self)@.base.table);
            }
        }
        proof {
            if old(self)@.wf() {
                old(self)@.base.lemma_removed_follows(old(self)@.specs(), term.of_pid());
            }
        }
    }

    /// Whether every init process of the configuration has ended.
    pub fn all_done(&self) -> (all: bool)
        ensures
            all == (forall|j: int|
                0 <= j < self@.specs().names.len() ==> self@.done.contains(
                    #[trigger] self@.specs().names[j],
                )),
            all == self@.all_done(),
    {
        let mut i: usize = 0;
        while i < self.base.conf.init.len()
            invariant
                i <= self@.specs().names.len(),
                forall|j: int|
                    0 <= j < i ==> self@.done.contains(#[trigger] self@.specs().names[j]),
            decreases self@.specs().names.len() - i,
        {
            let (name, _) = self.base.conf.init.entry(i);
            if !self.done.contains_key(name) {
                return false;
            }
            i = i + 1;
        }
        proof {
            use_type_invariant(&self.base.conf.init);
            assert forall|name: Seq<char>| #[trigger]
                self@.specs().contains(name) implies self@.done.contains(name) by {
                let j = self@.specs().names.index_of(name);
                assert(self@.specs().names[j] == name);
            }
        }
        true
    }

    /// Whether a process of the table runs under `pid`.
    pub fn owns_pid(&self, pid: u32) -> (owns: bool)
        ensures
            owns == self@.base.owns_pid(pid),
    {
        self.base.owns_pid(pid)
    }

    /// Kills the instance if it still runs.
    pub fn force_terminate(&self, pid: u32, instance_id: u64) -> (actions: Vec<Action>)
        ensures
            views(actions@) == self@.base.force_terminate(pid, instance_id),
    {
        self.base.force_terminate(pid, instance_id)
    }

    /// Stops all init processes that run.
    pub fn shutdown(&self) -> (actions: Vec<Action>)
        requires
            self@.wf(),
        ensures
            views(actions@) == self@.shutdown(),
    {
        self.base.stop_all(&self.base.conf.init)
    }
}

/// The services: those that run, and whether they are being shut down.
#[derive(Debug)]
pub struct ServicesState {
    base: BaseState,
    shutdown: bool,
}

impl View for ServicesState {
    type V = ServicesView;

    closed spec fn view(&self) -> ServicesView {
        ServicesView { base: self.base@, shutdown: self.shutdown }
    }
}

impl ServicesState {
    /// No service runs.
    fn new(conf: &Arc<ConfigFile>) -> (services: ServicesState)
        ensures
            services@ == (ServicesView { base: BaseView::new(conf@), shutdown: false }),
            services@.wf(),
    {
        ServicesState { base: BaseState::new(conf), shutdown: false }
    }

    /// Spawns all services.
    pub fn start_all(&self) -> (actions: Vec<Action>)
        ensures
            views(actions@) == self@.start_all(),
    {
        let mut actions: Vec<Action> = Vec::new();
        let mut i: usize = 0;
        while i < self.base.conf.services.len()
            invariant
                i <= self@.specs().names.len(),
                views(actions@) =~= self@.start_all().take(i as int),
            decreases self@.specs().names.len() - i,
        {
            let (name, _) = self.base.conf.services.entry(i);
            let ghost before = actions@;
            actions.push(self.start(name));
            proof {
                assert(views(actions@) =~= views(before).push(actions@.last()@));
                assert(self@.start_all()[i as int] == self@.start(name@));
            }
            i = i + 1;
        }
        actions
    }

    /// Spawns the service `name`.
    pub fn start(&self, name: &Arc<String>) -> (action: Action)
        requires
            self@.specs().contains(name@),
        ensures
            action@ == self@.start(name@),
    {
        let spec = self.base.conf.services.get(name).unwrap();
        Action::Spawn(spec.launch(name))
    }

    /// Takes note of the outcome of spawning the service `name`.
    fn spawned(&mut self, name: &Arc<String>, child: Option<u32>, ids: &mut InstanceIds)
        ensures
            match child {
                Some(pid) => final(self)@ == old(self)@.spawned(
                    ProcessView { name: name@, pid, instance_id: old(ids).next },
                ),
                None => final(self)@ == old(self)@,
            },
            final(ids).next == id_after_spawn(old(ids).next, child),
    {
        if let Some(process) = RunningProcess::spawn(name, child, ids) {
            self.base.insert(process);
        }
    }

    /// Takes note of the end of a process: its service is restarted, or everything is
    /// shut down, as its spec says, unless the services are being shut down already.
    pub fn terminated(&mut self, term: Termination) -> (actions: Vec<Action>)
        requires
            old(self)@.wf(),
        ensures
            final(self)@ == old(self)@.terminated(term.of_pid()),
            views(actions@) == old(self)@.on_terminated(term.of_pid()),
            final(self)@.wf(),
    {
        let mut actions: Vec<Action> = Vec::new();
        if let Some(process) = self.base.remove(term.pid()) {
            let spec = self.base.conf.services.get(&process.name).unwrap();
            if !self.shutdown {
                match spec.on_exit {
                    OnExit::Restart { restart_delay } => {
                        actions.push(
                            Action::Schedule {
                                delay: Duration::from_secs(restart_delay),
                                event: Event::ServiceRestart { name: process.name },
                            },
                        );
                    },
                    OnExit::Shutdown => {
                        actions.push(Action::Send { event: Event::Shutdown });
                    },
                }
            }
        }
        proof {
            old(self)@.base.lemma_removed_follows(old(self)@.specs(), term.of_pid());
            assert(views(actions@) =~= old(self)@.on_terminated(term.of_pid()));
        }
        actions
    }

    /// Whether a process of the table runs under `pid`.
    pub fn owns_pid(&self, pid: u32) -> (owns: bool)
        ensures
            owns == self@.base.owns_pid(pid),
    {
        self.base.owns_pid(pid)
    }

    /// Kills the instance if it still runs.
    pub fn force_terminate(&self, pid: u32, instance_id: u64) -> (actions: Vec<Action>)
        ensures
            views(actions@) == self@.base.force_terminate(pid, instance_id),
    {
        self.base.force_terminate(pid, instance_id)
    }

    /// Stops all services that run, and restarts none from now on when it exits.
    pub fn shutdown(&mut self) -> (actions: Vec<Action>)
        requires
            old(self)@.wf(),
        ensures
            final(self)@ == old(self)@.shutting_down(),
            views(actions@) == old(self)@.stop_all(),
            final(self)@.wf(),
    {
        self.shutdown = true;
        self.base.stop_all(&self.base.conf.services)
    }
}

/// The whole supervisor.
#[derive(Debug)]
pub struct AppState {
    pub inits: InitsState,
    pub services: ServicesState,
    pub shutdown: bool,
}

impl View for AppState {
    type V = AppView;

    open spec fn view(&self) -> AppView {
        AppView {
            inits: self.inits@,
            services: self.services@,
            shutdown: self.shutdown,
        }
    }
}

impl AppState {
    /// A supervisor that has not started anything yet.
    pub fn new(conf: &Arc<ConfigFile>) -> (app: AppState)
        ensures
            app@ == AppView::new(conf@),
            app@.wf(),
    {
        AppState {
            inits: InitsState::new(conf),
            services: ServicesState::new(conf),
            shutdown: false,
        }
    }

    /// Begins with the init processes if the configuration has any, else with the
    /// services.
    pub fn boot(&self) -> (actions: Vec<Action>)
        ensures
            views(actions@) == self@.boot(),
    {
        if self.inits.base.conf.init.is_empty() {
            self.services.start_all()
        } else {
            self.inits.start_all()
        }
    }

    /// Whether the configuration has that name for that group.
    pub fn knows(&self, group: Group, name: &Arc<String>) -> (known: bool)
        ensures
            known == self@.knows(group, name@),
    {
        match group {
            Group::Init => self.inits.base.conf.init.contains_key(name),
            Group::Service => self.services.base.conf.services.contains_key(name),
        }
    }

    /// Takes note of the outcome of a spawn: the pid of the child, or `None` where it
    /// could not be spawned. A child that runs gets the next instance number.
    pub fn spawned(
        &mut self,
        group: Group,
        name: &Arc<String>,
        child: Option<u32>,
        ids: &mut InstanceIds,
    )
        ensures
            final(self)@ == old(self)@.spawned(group, name@, child, old(ids).next),
            old(self)@.wf() && old(self)@.knows(group, name@) ==> final(self)@.wf(),
            final(ids).next == id_after_spawn(old(ids).next, child),
    {
        match group {
            Group::Init => self.inits.spawned(name, child, ids),
            Group::Service => self.services.spawned(name, child, ids),
        }
        proof {
            if old(self)@.wf() && old(self)@.knows(group, name@) {
                law_spawns_keep_the_state_sound(old(self)@, group, name@, child, old(ids).next);
            }
        }
    }

    /// Reacts to an event: the state moves on, and the actions are to be performed in
    /// order.
    pub fn handle(&mut self, event: Event) -> (actions: Vec<Action>)
        requires
            old(self)@.wf(),
            old(self)@.accepts(event@),
        ensures
            final(self)@ == old(self)@.after(event@),
            views(actions@) == old(self)@.reaction(event@),
            final(self)@.wf(),
    {
        match event {
            Event::ProcessTerminated(term) => {
                if self.inits.owns_pid(term.pid()) {
                    self.inits.terminated(term);
                    if !self.inits.base.conf.init.is_empty() && self.inits.all_done()
                        && !self.shutdown {
                        self.services.start_all()
                    } else {
                        no_actions()
                    }
                } else {
                    self.services.terminated(term)
                }
            },
            Event::ForceShutdown { pid, instance_id } => {
                let mut actions = self.inits.force_terminate(pid, instance_id);
                let mut more = self.services.force_terminate(pid, instance_id);
                proof {
                    assert(views(actions@ + more@) =~= views(actions@) + views(more@));
                }
                actions.append(&mut more);
                actions
            },
            Event::ServiceRestart { name } => {
                let mut actions: Vec<Action> = Vec::new();
                actions.push(self.services.start(&name));
                proof {
                    assert(views(actions@) =~= old(self)@.reaction(event@));
                }
                actions
            },
            Event::Shutdown => self.shutdown(),
            Event::TermSignal => self.shutdown(),
        }
    }

    /// Stops everything that runs.
    pub fn shutdown(&mut self) -> (actions: Vec<Action>)
        requires
            old(self)@.wf(),
        ensures
            final(self)@ == old(self)@.shutting_down(),
            views(actions@) == old(self)@.stop_all(),
            final(self)@.wf(),
    {
        self.shutdown = true;
        let mut actions = self.inits.shutdown();
        let mut more = self.services.shutdown();
        proof {
            assert(views(actions@ + more@) =~= views(actions@) + views(more@));
        }
        actions.append(&mut more);
        actions
    }

    /// Whether there is nothing left to supervise.
    pub fn should_exit(&self) -> (exit: bool)
        ensures
            exit == self@.should_exit(),
    {
        self.inits.base.ptable.is_empty() && self.services.base.ptable.is_empty()
    }
}

fn no_actions() -> (actions: Vec<Action>)
    ensures
        views(actions@) == Seq::<ActionView>::empty(),
{
    let actions: Vec<Action> = Vec::new();
    proof {
        assert(views(actions@) =~= Seq::<ActionView>::empty());
    }
    actions
}

} // verus!
