use std::sync::Arc;

use vstd::prelude::*;

use crate::unix::Termination;

verus! {

/// What the supervisor reacts to.
#[derive(Debug, PartialEq, Eq)]
pub enum Event {
    /// The time that a process was given to stop is over.
    ForceShutdown { pid: u32, instance_id: u64 },
    /// A child process has ended, supervised or not.
    ProcessTerminated(Termination),
    /// The delay before the restart of a service is over.
    ServiceRestart { name: Arc<String> },
    /// A service asked for the end of everything by exiting.
    Shutdown,
    /// The supervisor itself was told to stop.
    TermSignal,
}

/// An event with the name that it holds as text.
pub enum EventView {
    ForceShutdown { pid: u32, instance_id: u64 },
    ProcessTerminated(Termination),
    ServiceRestart { name: Seq<char> },
    Shutdown,
    TermSignal,
}

impl View for Event {
    type V = EventView;

    open spec fn view(&self) -> EventView {
        match *self {
            Event::ForceShutdown { pid, instance_id } => EventView::ForceShutdown { pid, instance_id },
            Event::ProcessTerminated(term) => EventView::ProcessTerminated(term),
            Event::ServiceRestart { name } => EventView::ServiceRestart { name: name@ },
            Event::Shutdown => EventView::Shutdown,
            Event::TermSignal => EventView::TermSignal,
        }
    }
}

} // verus!
