//! What the configuration says about the processes to run.

use vstd::prelude::*;

use crate::duration::Duration;
use crate::names::{NameMap, NameMapView};
use crate::unix::Signal;

pub mod defaults;

verus! {

/// What to do when a service exits.
#[derive(Clone, Copy, Debug, PartialEq, Eq, Structural)]
pub enum OnExit {
    /// Start it again after a delay in seconds.
    Restart { restart_delay: u64 },
    /// Shut everything down.
    Shutdown,
}

/// The init processes, which have to end before the services are started, and the
/// services, each under its name.
#[derive(Debug)]
pub struct ConfigFile {
    /// Map of init process name to init process spec.
    pub init: NameMap<InitSpec>,
    /// Map of service name to service spec.
    pub services: NameMap<ServiceSpec>,
}

pub struct ConfigView {
    pub init: NameMapView<InitSpec>,
    pub services: NameMapView<ServiceSpec>,
}

impl ConfigView {
    pub open spec fn wf(self) -> bool {
        &&& self.init.wf()
        &&& self.services.wf()
    }
}

impl View for ConfigFile {
    type V = ConfigView;

    open spec fn view(&self) -> ConfigView {
        ConfigView { init: self.init@, services: self.services@ }
    }
}

#[derive(Debug)]
pub struct InitSpec {
    /// Path to the binary of the init process.
    pub cmd: String,
    /// Arguments.
    pub args: Vec<String>,
    /// Timeout before sending SIGKILL.
    pub stop_timeout: Duration,
    /// Signal to send to terminate the init process.
    pub stop_signal: Signal,
}

#[derive(Debug)]
pub struct ServiceSpec {
    /// Path to service binary.
    pub cmd: String,
    /// Arguments.
    pub args: Vec<String>,
    /// Additional environment variables for this service.
    pub env: NameMap<String>,
    /// Working directory of service.
    pub workdir: Option<String>,
    /// Timeout before sending SIGKILL.
    pub stop_timeout: Duration,
    /// Signal to send to terminate service.
    pub stop_signal: Signal,
    /// What to do when the service exits.
    pub on_exit: OnExit,
}

/// What the two kinds of specs say alike: how their processes are stopped.
pub trait StopSpec {
    spec fn timeout(&self) -> Duration;

    spec fn signal(&self) -> Signal;

    /// Timeout before sending SIGKILL.
    fn stop_timeout(&self) -> (timeout: Duration)
        ensures
            timeout == self.timeout(),
    ;

    /// Signal to send to terminate the process.
    fn stop_signal(&self) -> (signal: Signal)
        ensures
            signal == self.signal(),
    ;
}

impl StopSpec for InitSpec {
    open spec fn timeout(&self) -> Duration {
        self.stop_timeout
    }

    open spec fn signal(&self) -> Signal {
        self.stop_signal
    }

    fn stop_timeout(&self) -> Duration {
        self.stop_timeout
    }

    fn stop_signal(&self) -> Signal {
        self.stop_signal
    }
}

impl StopSpec for ServiceSpec {
    open spec fn timeout(&self) -> Duration {
        self.stop_timeout
    }

    open spec fn signal(&self) -> Signal {
        self.stop_signal
    }

    fn stop_timeout(&self) -> Duration {
        self.stop_timeout
    }

    fn stop_signal(&self) -> Signal {
        self.stop_signal
    }
}

} // verus!
