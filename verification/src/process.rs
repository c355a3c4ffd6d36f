use std::sync::Arc;

use vstd::prelude::*;

use crate::action::{views, Action, ActionView};
use crate::duration::Duration;
use crate::event::{Event, EventView};
use crate::names::share;
use crate::unix::Signal;

verus! {

/// The two output streams of a process.
#[derive(Clone, Copy, Debug, PartialEq, Eq, Structural)]
pub enum StdStream {
    Stdout,
    Stderr,
}

/// A line to write to an output stream of the supervisor.
#[derive(Debug, PartialEq, Eq)]
pub struct StdLine {
    pub stream: StdStream,
    pub text: String,
}

/// The source of the numbers that tell one process from a later one with the same
/// pid. A program has one, which numbers the processes of everything that it
/// supervises.
#[derive(Debug, PartialEq, Eq, Structural)]
pub struct InstanceIds {
    /// The number that the next process gets.
    pub next: u64,
}

impl InstanceIds {
    /// No number was given out yet.
    pub fn new() -> (ids: InstanceIds)
        ensures
            ids.next == 0,
    {
        InstanceIds { next: 0 }
    }
}

/// The number after `id`; the count starts over at the end of the range.
pub open spec fn id_after(id: u64) -> u64 {
    if id == u64::MAX {
        0
    } else {
        (id + 1) as u64
    }
}

/// Where the count stands after the outcome of a spawn: only a child that runs uses a
/// number.
pub open spec fn id_after_spawn(id: u64, child: Option<u32>) -> u64 {
    match child {
        Some(_) => id_after(id),
        None => id,
    }
}

/// Where a count that stands at `first` stands after `count` numbers were given out.
pub open spec fn id_after_many(first: u64, count: nat) -> u64
    decreases count,
{
    if count == 0 {
        first
    } else {
        id_after(id_after_many(first, (count - 1) as nat))
    }
}

/// The numbers follow one another: after `count` of them the next is `count` further
/// on, where the range does not end before that, and in general so modulo the size of
/// the range. From a fresh count, the number given out after `count` others is `count`.
pub proof fn law_numbers_follow(first: u64, count: nat)
    ensures
        id_after_many(first, count) == (first + count) % 0x1_0000_0000_0000_0000,
        first + count <= u64::MAX ==> id_after_many(first, count) == first + count,
        count <= u64::MAX ==> id_after_many(0, count) == count,
    decreases count,
{
    if count > 0 {
        law_numbers_follow(first, (count - 1) as nat);
    }
}

/// The numbers after `i` and after `j` others are the same exactly where a multiple of
/// the size of the range lies between them. So no number is given out twice before all
/// of them were given out once.
pub proof fn law_numbers_differ(first: u64, i: nat, j: nat)
    requires
        i < j,
    ensures
        id_after_many(first, i) == id_after_many(first, j) <==> (j - i)
            % 0x1_0000_0000_0000_0000 == 0,
        j - i <= u64::MAX ==> id_after_many(first, i) != id_after_many(first, j),
{
    law_numbers_follow(first, i);
    law_numbers_follow(first, j);
}

/// A process that was spawned and of whose end nothing is known yet.
#[derive(Debug, PartialEq, Eq)]
pub struct RunningProcess {
    pub name: Arc<String>,
    pub pid: u32,
    pub instance_id: u64,
}

pub struct ProcessView {
    pub name: Seq<char>,
    pub pid: u32,
    pub instance_id: u64,
}

impl View for RunningProcess {
    type V = ProcessView;

    open spec fn view(&self) -> ProcessView {
        ProcessView { name: self.name@, pid: self.pid, instance_id: self.instance_id }
    }
}

impl ProcessView {
    /// The stop signal now, and the end of the patience when `timeout` is over.
    pub open spec fn stop(self, timeout: Duration, signal: Signal) -> Seq<ActionView> {
        seq![
            ActionView::Kill { name: self.name, pid: self.pid, signal },
            ActionView::Schedule {
                delay: timeout,
                event: EventView::ForceShutdown { pid: self.pid, instance_id: self.instance_id },
            },
        ]
    }

    /// The signal that no process survives.
    pub open spec fn force_stop(self) -> ActionView {
        ActionView::Kill { name: self.name, pid: self.pid, signal: Signal::Sigkill }
    }
}

impl RunningProcess {
    /// Records the outcome of spawning a child for `name`: its pid, or `None` where
    /// it could not be spawned. Only a child that runs gets an instance number.
    pub fn spawn(name: &Arc<String>, child: Option<u32>, ids: &mut InstanceIds) -> (process: Option<
        RunningProcess,
    >)
        ensures
            match child {
                Some(pid) => {
                    &&& process is Some
                    &&& process->0@ == (ProcessView {
                        name: name@,
                        pid,
                        instance_id: old(ids).next,
                    })
                },
                None => process is None,
            },
            final(ids).next == id_after_spawn(old(ids).next, child),
    {
        match child {
            Some(pid) => Some(
                RunningProcess {
                    name: share(name),
                    pid,
                    instance_id: Self::next_instance_id(ids),
                },
            ),
            None => None,
        }
    }

    /// Gives out the next number.
    pub fn next_instance_id(ids: &mut InstanceIds) -> (id: u64)
        ensures
            id == old(ids).next,
            final(ids).next == id_after(old(ids).next),
    {
        let id: u64 = ids.next;
        ids.next = id.wrapping_add(1);
        id
    }

    /// Relays what a read from an output stream of the process `tag` gave: a line,
    /// `Ok(None)` at the end of the stream, or an error. The answer is the line to
    /// write, or `None` where there is nothing more to relay.
    pub fn stream_stdio(
        tag: &Arc<String>,
        read: Result<Option<String>, i32>,
        stream: StdStream,
    ) -> (relayed: Option<StdLine>)
        ensures
            match read {
                Ok(Some(line)) => {
                    &&& relayed is Some
                    &&& relayed->0.stream == stream
                    &&& relayed->0.text@ == "["@ + tag@ + "] "@ + line@
                },
                _ => relayed is None,
            },
    {
        match read {
            Ok(Some(line)) => {
                let mut text: String = "[".to_owned();
                text.append(tag.as_str());
                text.append("] ");
                text.append(line.as_str());
                Some(StdLine { stream, text })
            },
            _ => None,
        }
    }

    /// Asks the process to stop, and sees to it that it does not get more than
    /// `timeout` for it.
    pub fn terminate(&self, timeout: Duration, stop_signal: Signal) -> (actions: Vec<Action>)
        ensures
            views(actions@) == self@.stop(timeout, stop_signal),
    {
        let mut actions: Vec<Action> = Vec::new();
        actions.push(Action::Kill { name: share(&self.name), pid: self.pid, signal: stop_signal });
        actions.push(
            Action::Schedule {
                delay: timeout,
                event: Event::ForceShutdown { pid: self.pid, instance_id: self.instance_id },
            },
        );
        proof {
            assert(views(actions@) =~= self@.stop(timeout, stop_signal));
        }
        actions
    }

    pub fn force_terminate(&self) -> (action: Action)
        ensures
            action@ == self@.force_stop(),
    {
        Action::Kill { name: share(&self.name), pid: self.pid, signal: Signal::Sigkill }
    }
}

} // verus!
