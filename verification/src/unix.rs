use vstd::prelude::*;

verus! {

/// The signals that the supervisor sends.
#[derive(Clone, Copy, Debug, PartialEq, Eq, Structural)]
pub enum Signal {
    Sigint,
    Sigterm,
    Sigkill,
}

/// Reads the number of `nix::sys::signal::SIGINT`, the interrupt signal.
/// Trusted: the number is 2, as on every Unix.
#[verifier::external_body]
fn nix_sigint() -> (number: i32)
    ensures
        number == 2,
{
    nix::sys::signal::SIGINT as i32
}

/// Reads the number of `nix::sys::signal::SIGTERM`, the termination signal.
/// Trusted: the number is 15, as on every Unix.
#[verifier::external_body]
fn nix_sigterm() -> (number: i32)
    ensures
        number == 15,
{
    nix::sys::signal::SIGTERM as i32
}

/// Reads the number of `nix::sys::signal::SIGKILL`, the signal that cannot be
/// caught. Trusted: the number is 9, as on every Unix.
#[verifier::external_body]
fn nix_sigkill() -> (number: i32)
    ensures
        number == 9,
{
    nix::sys::signal::SIGKILL as i32
}

impl Signal {
    /// The number by which the operating system knows the signal.
    pub open spec fn number(self) -> i32 {
        match self {
            Signal::Sigint => 2,
            Signal::Sigterm => 15,
            Signal::Sigkill => 9,
        }
    }

    /// The name of the signal as messages show it.
    pub open spec fn name(self) -> Seq<char> {
        match self {
            Signal::Sigint => "SIGINT"@,
            Signal::Sigterm => "SIGTERM"@,
            Signal::Sigkill => "SIGKILL"@,
        }
    }

    /// The number of the signal that `nix` calls by the same name.
    pub fn to_nix(&self) -> (number: i32)
        ensures
            number == self.number(),
    {
        match self {
            Signal::Sigint => nix_sigint(),
            Signal::Sigterm => nix_sigterm(),
            Signal::Sigkill => nix_sigkill(),
        }
    }

    pub fn to_string(&self) -> (text: String)
        ensures
            text@ == self.name(),
    {
        match self {
            Signal::Sigint => "SIGINT".to_owned(),
            Signal::Sigterm => "SIGTERM".to_owned(),
            Signal::Sigkill => "SIGKILL".to_owned(),
        }
    }
}

/// The process number that the operating system is handed for a supervised pid.
/// It is signed there: the upper half of the unsigned range stands for the
/// negative numbers.
pub open spec fn raw_pid(pid: u32) -> i32 {
    if pid <= i32::MAX {
        pid as i32
    } else {
        (pid - 0x1_0000_0000) as i32
    }
}

/// The pid under which a process number of the operating system is supervised.
pub open spec fn pid_of_raw(raw: i32) -> u32 {
    if raw >= 0 {
        raw as u32
    } else {
        (raw + 0x1_0000_0000) as u32
    }
}

/// The two numbers of a `kill` call.
#[derive(Clone, Copy, Debug, PartialEq, Eq, Structural)]
pub struct KillRequest {
    pub pid: i32,
    pub signal: i32,
}

/// What to hand to the operating system so that `signal` reaches `pid`.
pub fn kill(pid: u32, signal: Signal) -> (request: KillRequest)
    ensures
        request.pid == raw_pid(pid),
        request.signal == signal.number(),
{
    let raw: i32 = #[verifier::truncate] (pid as i32);
    assert(pid <= 0x7fff_ffff ==> raw == pid) by (bit_vector)
        requires
            raw == pid as i32,
    ;
    assert(pid > 0x7fff_ffff ==> raw == pid - 0x1_0000_0000) by (bit_vector)
        requires
            raw == pid as i32,
    ;
    KillRequest { pid: raw, signal: signal.to_nix() }
}

/// How a process came to its end.
#[derive(Clone, Copy, Debug, PartialEq, Eq, Structural)]
pub enum Termination {
    Exited { pid: u32, code: i32 },
    Signaled { pid: u32, signal: i32 },
}

impl Termination {
    /// The process that ended.
    pub open spec fn of_pid(self) -> u32 {
        match self {
            Termination::Exited { pid, .. } => pid,
            Termination::Signaled { pid, .. } => pid,
        }
    }

    pub fn pid(&self) -> (pid: u32)
        ensures
            pid == self.of_pid(),
    {
        match *self {
            Termination::Exited { pid, .. } => pid,
            Termination::Signaled { pid, .. } => pid,
        }
    }
}

/// A change of state of a child process, as one `waitpid` call reports it.
#[derive(Clone, Copy, Debug, PartialEq, Eq, Structural)]
pub enum WaitStatus {
    /// Ended by itself with an exit code.
    Exited { pid: i32, code: i32 },
    /// Ended by a signal.
    Signaled { pid: i32, signal: i32, core_dumped: bool },
    /// Stopped by a signal, still alive.
    Stopped { pid: i32, signal: i32 },
    /// Stopped for a tracer by an event.
    PtraceEvent { pid: i32, signal: i32, event: i32 },
    /// Stopped for a tracer by a system call.
    PtraceSyscall { pid: i32 },
    /// Resumed after a stop.
    Continued { pid: i32 },
    /// Nothing to report.
    StillAlive,
}

/// What a `waitpid` call means for the one who collects ended children.
#[derive(Clone, Copy, Debug, PartialEq, Eq, Structural)]
pub enum WaitTermination {
    /// A process has ended.
    Termination(Termination),
    /// Something else happened to a child: ask again.
    Retry,
    /// There is nothing left to collect.
    Stop,
}

/// The meaning of the outcome of a `waitpid` call: the end of a process where it
/// reports one, another try where it reports anything else of a child, and the end
/// of the collection where there is nothing to report or the call failed.
pub open spec fn wait_meaning(outcome: Result<WaitStatus, i32>) -> WaitTermination {
    match outcome {
        Ok(WaitStatus::Exited { pid, code }) => WaitTermination::Termination(
            Termination::Exited { pid: pid_of_raw(pid), code },
        ),
        Ok(WaitStatus::Signaled { pid, signal, .. }) => WaitTermination::Termination(
            Termination::Signaled { pid: pid_of_raw(pid), signal },
        ),
        Ok(WaitStatus::Stopped { .. }) => WaitTermination::Retry,
        Ok(WaitStatus::PtraceEvent { .. }) => WaitTermination::Retry,
        Ok(WaitStatus::PtraceSyscall { .. }) => WaitTermination::Retry,
        Ok(WaitStatus::Continued { .. }) => WaitTermination::Retry,
        Ok(WaitStatus::StillAlive) => WaitTermination::Stop,
        Err(_) => WaitTermination::Stop,
    }
}

/// Reads the outcome of one non-blocking `waitpid` call for any child; `Err` holds
/// the error number of a call that failed.
pub fn wait_termination(outcome: Result<WaitStatus, i32>) -> (wait: WaitTermination)
    ensures
        wait == wait_meaning(outcome),
{
    match outcome {
        Ok(WaitStatus::StillAlive) => WaitTermination::Stop,
        Err(_) => WaitTermination::Stop,
        Ok(status) => {
            let term: Option<Termination> = match status {
                WaitStatus::Exited { pid, code } => Some(
                    Termination::Exited { pid: supervised_pid(pid), code },
                ),
                WaitStatus::Signaled { pid, signal, .. } => Some(
                    Termination::Signaled { pid: supervised_pid(pid), signal },
                ),
                _ => None,
            };
            match term {
                Some(term) => WaitTermination::Termination(term),
                None => WaitTermination::Retry,
            }
        },
    }
}

fn supervised_pid(raw: i32) -> (pid: u32)
    ensures
        pid == pid_of_raw(raw),
{
    let pid: u32 = #[verifier::truncate] (raw as u32);
    assert(raw >= 0 ==> pid == raw) by (bit_vector)
        requires
            pid == raw as u32,
    ;
    assert(raw < 0 ==> pid == raw + 0x1_0000_0000) by (bit_vector)
        requires
            pid == raw as u32,
    ;
    pid
}

/// A process is signalled under the number by which the operating system reported
/// it: neither form of the number loses anything.
pub proof fn law_pid_round_trip(raw: i32, pid: u32)
    ensures
        raw_pid(pid_of_raw(raw)) == raw,
        pid_of_raw(raw_pid(pid)) == pid,
{
}

} // verus!
