use sulaco::unix::{
    kill, wait_termination, KillRequest, Signal, Termination, WaitStatus, WaitTermination,
};

#[test]
fn signals_have_the_numbers_of_nix() {
    assert_eq!(Signal::Sigint.to_nix(), nix::sys::signal::SIGINT as i32);
    assert_eq!(Signal::Sigterm.to_nix(), nix::sys::signal::SIGTERM as i32);
    assert_eq!(Signal::Sigkill.to_nix(), nix::sys::signal::SIGKILL as i32);
    assert_eq!(Signal::Sigint.to_nix(), 2);
    assert_eq!(Signal::Sigterm.to_nix(), 15);
    assert_eq!(Signal::Sigkill.to_nix(), 9);
}

#[test]
fn signals_show_their_names() {
    assert_eq!(Signal::Sigint.to_string(), "SIGINT");
    assert_eq!(Signal::Sigterm.to_string(), "SIGTERM");
    assert_eq!(Signal::Sigkill.to_string(), "SIGKILL");
}

#[test]
fn kill_names_process_and_signal() {
    assert_eq!(kill(1234, Signal::Sigterm), KillRequest { pid: 1234, signal: 15 });
    assert_eq!(kill(0, Signal::Sigint), KillRequest { pid: 0, signal: 2 });
}

#[test]
fn large_pids_become_negative() {
    assert_eq!(kill(0x7fff_ffff, Signal::Sigkill).pid, i32::MAX);
    assert_eq!(kill(0x8000_0000, Signal::Sigkill).pid, i32::MIN);
    assert_eq!(kill(0xffff_ffff, Signal::Sigkill).pid, -1);
}

#[test]
fn reported_processes_are_signalled_under_their_number() {
    for raw in [0, 1, 4711, i32::MAX, -1, i32::MIN] {
        match wait_termination(Ok(WaitStatus::Exited { pid: raw, code: 0 })) {
            WaitTermination::Termination(term) => {
                assert_eq!(kill(term.pid(), Signal::Sigint).pid, raw);
            }
            other => panic!("unexpected {:?}", other),
        }
    }
}

#[test]
fn exits_and_deadly_signals_are_terminations() {
    assert_eq!(
        wait_termination(Ok(WaitStatus::Exited { pid: 17, code: 3 })),
        WaitTermination::Termination(Termination::Exited { pid: 17, code: 3 })
    );
    assert_eq!(
        wait_termination(Ok(WaitStatus::Signaled { pid: 18, signal: 9, core_dumped: true })),
        WaitTermination::Termination(Termination::Signaled { pid: 18, signal: 9 })
    );
}

#[test]
fn other_changes_of_state_are_retried() {
    for status in [
        WaitStatus::Stopped { pid: 1, signal: 19 },
        WaitStatus::PtraceEvent { pid: 1, signal: 5, event: 3 },
        WaitStatus::PtraceSyscall { pid: 1 },
        WaitStatus::Continued { pid: 1 },
    ] {
        assert_eq!(wait_termination(Ok(status)), WaitTermination::Retry);
    }
}

#[test]
fn nothing_to_report_and_errors_stop() {
    assert_eq!(wait_termination(Ok(WaitStatus::StillAlive)), WaitTermination::Stop);
    assert_eq!(wait_termination(Err(10)), WaitTermination::Stop);
}

#[test]
fn terminations_tell_their_pid() {
    assert_eq!(Termination::Exited { pid: 5, code: 1 }.pid(), 5);
    assert_eq!(Termination::Signaled { pid: 6, signal: 15 }.pid(), 6);
}
