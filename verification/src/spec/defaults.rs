//! The values that a service gets where its configuration leaves them out.

use vstd::prelude::*;

use crate::duration::Duration;
use crate::spec::OnExit;
use crate::unix::Signal;

verus! {

/// Ten seconds between the stop signal and SIGKILL.
pub fn stop_timeout() -> (timeout: Duration)
    ensures
        timeout == Duration::of_secs(10),
        timeout.secs() == 10,
        timeout.nanos() == 0,
{
    Duration::from_secs(10)
}

pub fn stop_signal() -> (signal: Signal)
    ensures
        signal == Signal::Sigint,
{
    Signal::Sigint
}

/// A service that exits is started again at once.
pub fn on_exit() -> (on_exit: OnExit)
    ensures
        on_exit == (OnExit::Restart { restart_delay: 0 }),
{
    OnExit::Restart { restart_delay: restart_delay() }
}

/// The delay before a restart, in seconds.
pub fn restart_delay() -> (delay: u64)
    ensures
        delay == 0,
{
    0
}

} // verus!
