//! What the two tasks do that wait for signals of the operating system. Each is a
//! loop of waiting, asking and sending; the functions here say what comes next.

use vstd::prelude::*;

use crate::event::{Event, EventView};
use crate::unix::{wait_meaning, wait_termination, Termination, WaitStatus, WaitTermination};

verus! {

/// What the task that waits for ended children has just seen.
#[derive(Debug)]
pub enum ChildHeard {
    /// A signal came in, or with `false`: no signal will come any more.
    Signal(bool),
    /// A non-blocking `waitpid` call for any child returned.
    Waited(Result<WaitStatus, i32>),
    /// An event was handed over, or with `false`: nobody takes events any more.
    Sent(bool),
}

/// What the task that waits for requests to stop has just seen.
#[derive(Debug)]
pub enum TermHeard {
    /// A signal came in, or with `false`: no signal will come any more.
    Signal(bool),
    /// An event was handed over, or with `false`: nobody takes events any more.
    Sent(bool),
}

/// What the task that waits for ended children does next.
#[derive(Debug, PartialEq, Eq)]
pub enum ChildNext {
    /// Wait for the next signal.
    Await,
    /// Call `waitpid` for any child, without blocking.
    Wait,
    /// Hand over an event.
    Send(Event),
    /// Leave.
    Return,
}

/// What the task that waits for requests to stop does next.
#[derive(Debug, PartialEq, Eq)]
pub enum TermNext {
    /// Wait for the next signal.
    Await,
    /// Hand over an event.
    Send(Event),
    /// Leave.
    Return,
}

pub enum ChildNextView {
    Await,
    Wait,
    Send(EventView),
    Return,
}

pub enum TermNextView {
    Await,
    Send(EventView),
    Return,
}

impl View for ChildNext {
    type V = ChildNextView;

    open spec fn view(&self) -> ChildNextView {
        match *self {
            ChildNext::Await => ChildNextView::Await,
            ChildNext::Wait => ChildNextView::Wait,
            ChildNext::Send(event) => ChildNextView::Send(event@),
            ChildNext::Return => ChildNextView::Return,
        }
    }
}

impl View for TermNext {
    type V = TermNextView;

    open spec fn view(&self) -> TermNextView {
        match *self {
            TermNext::Await => TermNextView::Await,
            TermNext::Send(event) => TermNextView::Send(event@),
            TermNext::Return => TermNextView::Return,
        }
    }
}

/// The task that collects ended children. A single signal may stand for several of
/// them, so it asks until there is nothing left to collect.
pub open spec fn after_sigchld(heard: ChildHeard) -> ChildNextView {
    match heard {
        ChildHeard::Signal(more) => if more {
            ChildNextView::Wait
        } else {
            ChildNextView::Return
        },
        ChildHeard::Waited(outcome) => match wait_meaning(outcome) {
            WaitTermination::Termination(term) => ChildNextView::Send(
                EventView::ProcessTerminated(term),
            ),
            WaitTermination::Retry => ChildNextView::Wait,
            WaitTermination::Stop => ChildNextView::Await,
        },
        ChildHeard::Sent(taken) => if taken {
            ChildNextView::Wait
        } else {
            ChildNextView::Return
        },
    }
}

pub fn listen_sigchld(heard: ChildHeard) -> (next: ChildNext)
    ensures
        next@ == after_sigchld(heard),
{
    match heard {
        ChildHeard::Signal(more) => if more {
            ChildNext::Wait
        } else {
            ChildNext::Return
        },
        ChildHeard::Waited(outcome) => match wait_termination(outcome) {
            WaitTermination::Termination(term) => ChildNext::Send(Event::ProcessTerminated(term)),
            WaitTermination::Retry => ChildNext::Wait,
            WaitTermination::Stop => ChildNext::Await,
        },
        ChildHeard::Sent(taken) => if taken {
            ChildNext::Wait
        } else {
            ChildNext::Return
        },
    }
}

/// The task that passes on the requests to stop: one event for each signal.
pub open spec fn after_term_signal(heard: TermHeard) -> TermNextView {
    match heard {
        TermHeard::Signal(more) => if more {
            TermNextView::Send(EventView::TermSignal)
        } else {
            TermNextView::Return
        },
        TermHeard::Sent(taken) => if taken {
            TermNextView::Await
        } else {
            TermNextView::Return
        },
    }
}

pub fn handle_signal(heard: TermHeard) -> (next: TermNext)
    ensures
        next@ == after_term_signal(heard),
{
    match heard {
        TermHeard::Signal(more) => if more {
            TermNext::Send(Event::TermSignal)
        } else {
            TermNext::Return
        },
        TermHeard::Sent(taken) => if taken {
            TermNext::Await
        } else {
            TermNext::Return
        },
    }
}

/// The ends of processes among the outcomes of successive `waitpid` calls, up to the
/// first outcome that ends the collection.
pub open spec fn reported(outcomes: Seq<Result<WaitStatus, i32>>) -> Seq<Termination>
    decreases outcomes.len(),
{
    if outcomes.len() == 0 {
        Seq::empty()
    } else {
        match wait_meaning(outcomes[0]) {
            WaitTermination::Termination(term) => seq![term] + reported(outcomes.skip(1)),
            WaitTermination::Retry => reported(outcomes.skip(1)),
            WaitTermination::Stop => Seq::empty(),
        }
    }
}

/// The events that the collecting task hands over after one signal, as long as they
/// are taken, where the `waitpid` calls return these outcomes; `doing` is what the
/// task is about to do.
pub open spec fn handed_over(
    doing: ChildNextView,
    outcomes: Seq<Result<WaitStatus, i32>>,
) -> Seq<EventView>
    decreases outcomes.len(), (if doing is Send { 1nat } else { 0nat }),
{
    match doing {
        ChildNextView::Wait => if outcomes.len() == 0 {
            Seq::empty()
        } else {
            handed_over(after_sigchld(ChildHeard::Waited(outcomes[0])), outcomes.skip(1))
        },
        ChildNextView::Send(event) => seq![event] + (if after_sigchld(ChildHeard::Sent(true)) is Wait {
            handed_over(ChildNextView::Wait, outcomes)
        } else {
            Seq::empty()
        }),
        _ => Seq::empty(),
    }
}

/// After a signal, every end of a process that `waitpid` reports before it has nothing
/// left is handed over, once and in order, and nothing else is.
pub proof fn law_every_end_is_handed_over(outcomes: Seq<Result<WaitStatus, i32>>)
    ensures
        handed_over(after_sigchld(ChildHeard::Signal(true)), outcomes) == reported(outcomes).map_values(
            |term: Termination| EventView::ProcessTerminated(term),
        ),
    decreases outcomes.len(),
{
    let event = |term: Termination| EventView::ProcessTerminated(term);
    reveal_with_fuel(handed_over, 3);
    if outcomes.len() > 0 {
        law_every_end_is_handed_over(outcomes.skip(1));
        match wait_meaning(outcomes[0]) {
            WaitTermination::Termination(term) => {
                assert(reported(outcomes).map_values(event) =~= seq![event(term)] + reported(
                    outcomes.skip(1),
                ).map_values(event));
            },
            WaitTermination::Retry => {},
            WaitTermination::Stop => {
                assert(reported(outcomes).map_values(event) =~= Seq::<EventView>::empty());
            },
        }
    } else {
        assert(reported(outcomes).map_values(event) =~= Seq::<EventView>::empty());
    }
}

/// The outcome tells of an end: by itself or by a signal, whichever code or signal.
pub open spec fn is_end(outcome: Result<WaitStatus, i32>) -> bool {
    ||| outcome matches Ok(WaitStatus::Exited { .. })
    ||| outcome matches Ok(WaitStatus::Signaled { .. })
}

/// The outcome says that nothing is left, or that the call failed.
pub open spec fn is_last(outcome: Result<WaitStatus, i32>) -> bool {
    outcome is Err || outcome matches Ok(WaitStatus::StillAlive)
}

/// How many of the outcomes tell of an end.
pub open spec fn ends_among(outcomes: Seq<Result<WaitStatus, i32>>) -> nat
    decreases outcomes.len(),
{
    if outcomes.len() == 0 {
        0
    } else {
        ends_among(outcomes.skip(1)) + (if is_end(outcomes[0]) {
            1nat
        } else {
            0nat
        })
    }
}

/// After a signal, there is an event for every end that comes before the first outcome
/// with nothing left, by whatever code or signal it came: the event at the place that
/// the ends before it leave for it, with its process and its code or signal.
pub proof fn law_each_end_has_its_event(outcomes: Seq<Result<WaitStatus, i32>>, i: int)
    requires
        0 <= i < outcomes.len(),
        is_end(outcomes[i]),
        forall|j: int| 0 <= j < i ==> !is_last(#[trigger] outcomes[j]),
    ensures
        ({
            let events = handed_over(after_sigchld(ChildHeard::Signal(true)), outcomes);
            let k = ends_among(outcomes.take(i)) as int;
            &&& k < events.len()
            &&& events[k] matches EventView::ProcessTerminated(term)
            &&& match outcomes[i] {
                Ok(WaitStatus::Exited { pid: raw, code: c }) => {
                    &&& term matches Termination::Exited { pid, code }
                    &&& (pid - raw) % 0x1_0000_0000 == 0
                    &&& code == c
                },
                Ok(WaitStatus::Signaled { pid: raw, signal: s, .. }) => {
                    &&& term matches Termination::Signaled { pid, signal }
                    &&& (pid - raw) % 0x1_0000_0000 == 0
                    &&& signal == s
                },
                _ => false,
            }
        }),
    decreases outcomes.len(),
{
    reveal_with_fuel(handed_over, 3);
    let rest = outcomes.skip(1);
    if i > 0 {
        assert forall|j: int| 0 <= j < i - 1 implies !is_last(#[trigger] rest[j]) by {
            assert(rest[j] == outcomes[j + 1]);
        }
        law_each_end_has_its_event(rest, i - 1);
        assert(outcomes.take(i).skip(1) =~= rest.take(i - 1));
        assert(!is_last(outcomes[0]));
    } else {
        assert(outcomes.take(0).len() == 0);
    }
}

/// After a signal, there are as many events as ends before the first outcome with
/// nothing left, and each of them is an end of a process.
pub proof fn law_only_ends_have_events(outcomes: Seq<Result<WaitStatus, i32>>, n: int)
    requires
        0 <= n <= outcomes.len(),
        forall|j: int| 0 <= j < n ==> !is_last(#[trigger] outcomes[j]),
        n < outcomes.len() ==> is_last(outcomes[n]),
    ensures
        ({
            let events = handed_over(after_sigchld(ChildHeard::Signal(true)), outcomes);
            &&& events.len() == ends_among(outcomes.take(n))
            &&& forall|k: int| 0 <= k < events.len() ==> #[trigger] events[k] is ProcessTerminated
        }),
    decreases outcomes.len(),
{
    reveal_with_fuel(handed_over, 3);
    let rest = outcomes.skip(1);
    if n > 0 {
        assert forall|j: int| 0 <= j < n - 1 implies !is_last(#[trigger] rest[j]) by {
            assert(rest[j] == outcomes[j + 1]);
        }
        law_only_ends_have_events(rest, n - 1);
        assert(outcomes.take(n).skip(1) =~= rest.take(n - 1));
        assert(!is_last(outcomes[0]));
    } else {
        assert(outcomes.take(0).len() == 0);
    }
}

} // verus!
