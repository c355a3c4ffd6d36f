use sulaco::event::Event;
use sulaco::listen::{handle_signal, listen_sigchld, ChildHeard, ChildNext, TermHeard, TermNext};
use sulaco::unix::{Termination, WaitStatus};

#[test]
fn a_signal_makes_the_collector_ask() {
    assert_eq!(listen_sigchld(ChildHeard::Signal(true)), ChildNext::Wait);
    assert_eq!(listen_sigchld(ChildHeard::Signal(false)), ChildNext::Return);
}

#[test]
fn the_collector_asks_again_after_handing_over() {
    assert_eq!(listen_sigchld(ChildHeard::Sent(true)), ChildNext::Wait);
    assert_eq!(listen_sigchld(ChildHeard::Sent(false)), ChildNext::Return);
}

#[test]
fn the_collector_skips_what_is_no_end() {
    assert_eq!(
        listen_sigchld(ChildHeard::Waited(Ok(WaitStatus::Continued { pid: 3 }))),
        ChildNext::Wait
    );
    assert_eq!(
        listen_sigchld(ChildHeard::Waited(Ok(WaitStatus::StillAlive))),
        ChildNext::Await
    );
    assert_eq!(listen_sigchld(ChildHeard::Waited(Err(10))), ChildNext::Await);
}

#[test]
fn all_ended_children_are_handed_over_after_one_signal() {
    let mut outcomes = vec![
        Ok(WaitStatus::Exited { pid: 3, code: 0 }),
        Ok(WaitStatus::Stopped { pid: 8, signal: 19 }),
        Ok(WaitStatus::Signaled { pid: 4, signal: 15, core_dumped: false }),
        Ok(WaitStatus::StillAlive),
        Ok(WaitStatus::Exited { pid: 5, code: 0 }),
    ]
    .into_iter();
    let mut events = vec![];
    let mut next = listen_sigchld(ChildHeard::Signal(true));
    loop {
        next = match next {
            ChildNext::Wait => listen_sigchld(ChildHeard::Waited(outcomes.next().unwrap())),
            ChildNext::Send(event) => {
                events.push(event);
                listen_sigchld(ChildHeard::Sent(true))
            }
            ChildNext::Await => break,
            ChildNext::Return => panic!("left too early"),
        };
    }
    assert_eq!(
        events,
        vec![
            Event::ProcessTerminated(Termination::Exited { pid: 3, code: 0 }),
            Event::ProcessTerminated(Termination::Signaled { pid: 4, signal: 15 }),
        ]
    );
    assert_eq!(outcomes.len(), 1);
}

#[test]
fn every_request_to_stop_is_passed_on() {
    assert_eq!(handle_signal(TermHeard::Signal(true)), TermNext::Send(Event::TermSignal));
    assert_eq!(handle_signal(TermHeard::Sent(true)), TermNext::Await);
    assert_eq!(handle_signal(TermHeard::Sent(false)), TermNext::Return);
    assert_eq!(handle_signal(TermHeard::Signal(false)), TermNext::Return);
}
