use std::sync::Arc;

use vstd::prelude::*;

use crate::duration::Duration;
use crate::event::{Event, EventView};
use crate::names::{share, NameMap, NameMapView};
use crate::spec::{InitSpec, ServiceSpec};
use crate::unix::Signal;

verus! {

/// The two kinds of supervised processes.
#[derive(Clone, Copy, Debug, PartialEq, Eq, Structural)]
pub enum Group {
    Init,
    Service,
}

/// A command to spawn, and the process that it becomes. The child is the leader of
/// a process group of its own, and its output is relayed line by line.
#[derive(Debug, PartialEq, Eq)]
pub struct Launch {
    pub group: Group,
    pub name: Arc<String>,
    /// Path to the binary.
    pub cmd: String,
    pub args: Vec<String>,
    /// Variables added to the environment that the child inherits.
    pub env: Vec<(Arc<String>, String)>,
    /// Where the child runs, if not where the supervisor does.
    pub workdir: Option<String>,
}

/// What the program around the supervisor has to do.
#[derive(Debug, PartialEq, Eq)]
pub enum Action {
    /// Spawn a command and report how that went.
    Spawn(Launch),
    /// Send a signal to the process of that name.
    Kill { name: Arc<String>, pid: u32, signal: Signal },
    /// Deliver the event when the delay is over.
    Schedule { delay: Duration, event: Event },
    /// Deliver the event now.
    Send { event: Event },
}

pub struct LaunchView {
    pub group: Group,
    pub name: Seq<char>,
    pub cmd: Seq<char>,
    pub args: Seq<Seq<char>>,
    pub env: Seq<(Seq<char>, Seq<char>)>,
    pub workdir: Option<Seq<char>>,
}

/// An action with everything that it holds as text.
pub enum ActionView {
    Spawn(LaunchView),
    Kill { name: Seq<char>, pid: u32, signal: Signal },
    Schedule { delay: Duration, event: EventView },
    Send { event: EventView },
}

/// The texts of some strings.
pub open spec fn texts(strings: Seq<String>) -> Seq<Seq<char>> {
    strings.map_values(|s: String| s@)
}

/// The texts of some variables.
pub open spec fn variables(env: Seq<(Arc<String>, String)>) -> Seq<(Seq<char>, Seq<char>)> {
    env.map_values(|e: (Arc<String>, String)| (e.0@, e.1@))
}

pub open spec fn opt_text(s: Option<String>) -> Option<Seq<char>> {
    match s {
        Some(s) => Some(s@),
        None => None,
    }
}

impl View for Launch {
    type V = LaunchView;

    open spec fn view(&self) -> LaunchView {
        LaunchView {
            group: self.group,
            name: self.name@,
            cmd: self.cmd@,
            args: texts(self.args@),
            env: variables(self.env@),
            workdir: opt_text(self.workdir),
        }
    }
}

impl View for Action {
    type V = ActionView;

    open spec fn view(&self) -> ActionView {
        match *self {
            Action::Spawn(launch) => ActionView::Spawn(launch@),
            Action::Kill { name, pid, signal } => ActionView::Kill { name: name@, pid, signal },
            Action::Schedule { delay, event } => ActionView::Schedule { delay, event: event@ },
            Action::Send { event } => ActionView::Send { event: event@ },
        }
    }
}

/// Some actions, in order.
pub open spec fn views(actions: Seq<Action>) -> Seq<ActionView> {
    actions.map_values(|a: Action| a@)
}

/// The variables of an environment, in its order.
pub open spec fn environment(env: NameMapView<String>) -> Seq<(Seq<char>, Seq<char>)> {
    env.names.map_values(|name: Seq<char>| (name, env.values[name]@))
}

impl InitSpec {
    /// The command of an init process: its binary and arguments, in the environment
    /// and the directory of the supervisor.
    pub open spec fn launch_of(self, name: Seq<char>) -> LaunchView {
        LaunchView {
            group: Group::Init,
            name,
            cmd: self.cmd@,
            args: texts(self.args@),
            env: Seq::empty(),
            workdir: None,
        }
    }

    pub fn launch(&self, name: &Arc<String>) -> (launch: Launch)
        ensures
            launch@ == self.launch_of(name@),
    {
        let env: Vec<(Arc<String>, String)> = Vec::new();
        proof {
            assert(variables(env@) =~= Seq::<(Seq<char>, Seq<char>)>::empty());
        }
        Launch {
            group: Group::Init,
            name: share(name),
            cmd: self.cmd.clone(),
            args: copy_strings(&self.args),
            env,
            workdir: None,
        }
    }
}

impl ServiceSpec {
    /// The command of a service: its binary and arguments, with its variables added
    /// to the environment, in its working directory.
    pub open spec fn launch_of(self, name: Seq<char>) -> LaunchView {
        LaunchView {
            group: Group::Service,
            name,
            cmd: self.cmd@,
            args: texts(self.args@),
            env: environment(self.env@),
            workdir: opt_text(self.workdir),
        }
    }

    pub fn launch(&self, name: &Arc<String>) -> (launch: Launch)
        ensures
            launch@ == self.launch_of(name@),
    {
        Launch {
            group: Group::Service,
            name: share(name),
            cmd: self.cmd.clone(),
            args: copy_strings(&self.args),
            env: copy_environment(&self.env),
            workdir: match &self.workdir {
                Some(dir) => Some(dir.clone()),
                None => None,
            },
        }
    }
}

fn copy_strings(strings: &Vec<String>) -> (copy: Vec<String>)
    ensures
        texts(copy@) == texts(strings@),
{
    let mut copy: Vec<String> = Vec::new();
    let mut i: usize = 0;
    while i < strings.len()
        invariant
            i <= strings.len(),
            copy@ =~= strings@.take(i as int),
        decreases strings.len() - i,
    {
        copy.push(strings[i].clone());
        i = i + 1;
    }
    copy
}

fn copy_environment(env: &NameMap<String>) -> (copy: Vec<(Arc<String>, String)>)
    ensures
        variables(copy@) == environment(env@),
{
    let mut copy: Vec<(Arc<String>, String)> = Vec::new();
    let mut i: usize = 0;
    while i < env.len()
        invariant
            i <= env@.names.len(),
            variables(copy@) =~= environment(env@).take(i as int),
        decreases env@.names.len() - i,
    {
        let (name, value) = env.entry(i);
        let ghost before = copy@;
        copy.push((share(name), value.clone()));
        proof {
            assert(variables(copy@) =~= variables(before).push((name@, value@)));
            assert(environment(env@)[i as int] == (name@, value@));
        }
        i = i + 1;
    }
    copy
}

} // verus!
