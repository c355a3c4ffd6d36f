use std::sync::Arc;

use sulaco::action::Action;
use sulaco::duration::Duration;
use sulaco::event::Event;
use sulaco::process::{InstanceIds, RunningProcess, StdLine, StdStream};
use sulaco::unix::Signal;

fn name(text: &str) -> Arc<String> {
    Arc::new(text.to_string())
}

#[test]
fn instances_are_numbered_from_zero() {
    let mut ids = InstanceIds::new();
    let a = RunningProcess::spawn(&name("a"), Some(10), &mut ids);
    let b = RunningProcess::spawn(&name("b"), Some(10), &mut ids);
    assert_eq!(a, Some(RunningProcess { name: name("a"), pid: 10, instance_id: 0 }));
    assert_eq!(b, Some(RunningProcess { name: name("b"), pid: 10, instance_id: 1 }));
    assert_eq!(ids.next, 2);
}

#[test]
fn the_number_after_some_others_is_their_count() {
    let mut ids = InstanceIds::new();
    for count in 0..100 {
        let process = RunningProcess::spawn(&name("a"), Some(10), &mut ids);
        assert_eq!(process.map(|p| p.instance_id), Some(count));
        RunningProcess::spawn(&name("b"), None, &mut ids);
    }
    assert_eq!(ids.next, 100);
}

#[test]
fn numbers_are_given_out_one_after_the_other() {
    let mut ids = InstanceIds::new();
    assert_eq!(RunningProcess::next_instance_id(&mut ids), 0);
    assert_eq!(RunningProcess::next_instance_id(&mut ids), 1);
    assert_eq!(RunningProcess::next_instance_id(&mut ids), 2);
}

#[test]
fn failed_spawns_use_no_number() {
    let mut ids = InstanceIds::new();
    assert_eq!(RunningProcess::spawn(&name("a"), None, &mut ids), None);
    assert_eq!(ids.next, 0);
}

#[test]
fn the_count_of_instances_starts_over() {
    let mut ids = InstanceIds { next: u64::MAX };
    let a = RunningProcess::spawn(&name("a"), Some(10), &mut ids);
    assert_eq!(a.map(|p| p.instance_id), Some(u64::MAX));
    assert_eq!(ids.next, 0);
}

#[test]
fn lines_are_relayed_with_the_name_in_front() {
    assert_eq!(
        RunningProcess::stream_stdio(
            &name("web"),
            Ok(Some("listening on 80".to_string())),
            StdStream::Stdout
        ),
        Some(StdLine { stream: StdStream::Stdout, text: "[web] listening on 80".to_string() })
    );
    assert_eq!(
        RunningProcess::stream_stdio(&name("web"), Ok(Some(String::new())), StdStream::Stderr),
        Some(StdLine { stream: StdStream::Stderr, text: "[web] ".to_string() })
    );
}

#[test]
fn relaying_stops_at_the_end_and_at_errors() {
    assert_eq!(RunningProcess::stream_stdio(&name("web"), Ok(None), StdStream::Stdout), None);
    assert_eq!(RunningProcess::stream_stdio(&name("web"), Err(5), StdStream::Stdout), None);
}

#[test]
fn termination_is_a_signal_and_a_timer() {
    let process = RunningProcess { name: name("web"), pid: 77, instance_id: 4 };
    assert_eq!(
        process.terminate(Duration::from_secs(3), Signal::Sigterm),
        vec![
            Action::Kill { name: name("web"), pid: 77, signal: Signal::Sigterm },
            Action::Schedule {
                delay: Duration::from_secs(3),
                event: Event::ForceShutdown { pid: 77, instance_id: 4 },
            },
        ]
    );
}

#[test]
fn forced_termination_is_sigkill() {
    let process = RunningProcess { name: name("web"), pid: 77, instance_id: 4 };
    assert_eq!(
        process.force_terminate(),
        Action::Kill { name: name("web"), pid: 77, signal: Signal::Sigkill }
    );
}
