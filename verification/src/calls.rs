//! What a caller gets from the operations, field by field. Each law takes the arguments
//! of a call and whatever it answered, and says what the answer has to look like.

use std::sync::Arc;

use vstd::prelude::*;

use crate::action::{texts, variables, views, Action, Launch};
use crate::duration::{Duration, NANOS_PER_SEC};
use crate::event::Event;
use crate::listen::{handle_signal, listen_sigchld, ChildHeard, ChildNext, TermHeard, TermNext};
use crate::names::{law_insert, NameMap};
use crate::process::{InstanceIds, RunningProcess, StdLine, StdStream};
use crate::spec::{defaults, InitSpec, OnExit, ServiceSpec};
use crate::unix::{
    kill, wait_termination, KillRequest, Signal, Termination, WaitStatus, WaitTermination,
};

verus! {

/// The number that the operating system has for a signal.
pub open spec fn numbered(signal: Signal, number: i32) -> bool {
    &&& signal is Sigint ==> number == 2
    &&& signal is Sigterm ==> number == 15
    &&& signal is Sigkill ==> number == 9
}

/// A signal is handed on under its number.
pub proof fn law_to_nix(signal: &Signal, number: i32)
    requires
        call_ensures(Signal::to_nix, (signal,), number),
    ensures
        numbered(*signal, number),
{
}

/// A signal is shown by its name.
pub proof fn law_to_string(signal: &Signal, text: String)
    requires
        call_ensures(Signal::to_string, (signal,), text),
    ensures
        *signal is Sigint ==> text@ == "SIGINT"@,
        *signal is Sigterm ==> text@ == "SIGTERM"@,
        *signal is Sigkill ==> text@ == "SIGKILL"@,
{
}

/// The signed and the unsigned form of a process number: they are the same but for a
/// multiple of the size of the range, and so the same where both can hold the number.
pub open spec fn same_process(raw: i32, pid: u32) -> bool {
    (pid - raw) % 0x1_0000_0000 == 0
}

/// A signal goes to the process that was named, under its own number.
pub proof fn law_kill(pid: u32, signal: Signal, request: KillRequest)
    requires
        call_ensures(kill, (pid, signal), request),
    ensures
        same_process(request.pid, pid),
        pid <= i32::MAX ==> request.pid == pid,
        numbered(signal, request.signal),
{
}

/// The process of that number came to its end.
pub open spec fn ended(term: Termination, number: u32) -> bool {
    ||| term matches Termination::Exited { pid, .. } && pid == number
    ||| term matches Termination::Signaled { pid, .. } && pid == number
}

/// An end tells whose it is.
pub proof fn law_termination_pid(term: &Termination, pid: u32)
    requires
        call_ensures(Termination::pid, (term,), pid),
    ensures
        ended(*term, pid),
{
}

/// The status tells of that end: by itself with that code, or by that signal.
pub open spec fn tells_of(status: WaitStatus, term: Termination) -> bool {
    match status {
        WaitStatus::Exited { pid: raw, code: c } => term matches Termination::Exited { pid, code }
            && same_process(raw, pid) && code == c,
        WaitStatus::Signaled { pid: raw, signal: s, .. } => term matches Termination::Signaled {
            pid,
            signal,
        } && same_process(raw, pid) && signal == s,
        _ => false,
    }
}

/// Every end is told, by whatever code or signal it came and whether or not it left a
/// core dump; every other change of a child is passed over; where there is nothing to
/// report, or the call failed, the collection is over.
pub proof fn law_wait_termination(outcome: Result<WaitStatus, i32>, wait: WaitTermination)
    requires
        call_ensures(wait_termination, (outcome,), wait),
    ensures
        match outcome {
            Ok(status) => {
                &&& status is Exited || status is Signaled ==> {
                    wait matches WaitTermination::Termination(term) && tells_of(status, term)
                }
                &&& status is StillAlive <==> wait is Stop
                &&& wait is Retry <==> !(status is Exited) && !(status is Signaled) && !(
                status is StillAlive)
            },
            Err(_) => wait is Stop,
        },
{
}

/// The task that collects ended children asks when a signal came in and after every
/// event that was taken, hands over every end, asks again after every other change of a
/// child, waits for the next signal when nothing is left, and leaves only when no signal
/// will come or nobody takes its events.
pub proof fn law_listen_sigchld(heard: ChildHeard, next: ChildNext)
    requires
        call_ensures(listen_sigchld, (heard,), next),
    ensures
        match heard {
            ChildHeard::Signal(more) => if more {
                next is Wait
            } else {
                next is Return
            },
            ChildHeard::Sent(taken) => if taken {
                next is Wait
            } else {
                next is Return
            },
            ChildHeard::Waited(Ok(status)) => {
                &&& status is Exited || status is Signaled ==> {
                    &&& next matches ChildNext::Send(event)
                    &&& event matches Event::ProcessTerminated(term)
                    &&& tells_of(status, term)
                }
                &&& status is StillAlive <==> next is Await
                &&& next is Wait <==> !(status is Exited) && !(status is Signaled) && !(
                status is StillAlive)
            },
            ChildHeard::Waited(Err(_)) => next is Await,
        },
{
}

/// The task that waits for requests to stop passes each of them on, and leaves only
/// when none will come or nobody takes its events.
pub proof fn law_handle_signal(heard: TermHeard, next: TermNext)
    requires
        call_ensures(handle_signal, (heard,), next),
    ensures
        match heard {
            TermHeard::Signal(more) => if more {
                next matches TermNext::Send(event) && event is TermSignal
            } else {
                next is Return
            },
            TermHeard::Sent(taken) => if taken {
                next is Await
            } else {
                next is Return
            },
        },
{
}

/// The action is to send that signal to that process.
pub open spec fn sends(action: Action, to: Seq<char>, number: u32, what: Signal) -> bool {
    &&& action matches Action::Kill { name, pid, signal }
    &&& name@ == to
    &&& pid == number
    &&& signal == what
}

/// The action is to tell, when that time is over, that the patience with an instance is.
pub open spec fn times_out(action: Action, time: Duration, number: u32, instance: u64) -> bool {
    &&& action matches Action::Schedule { delay, event }
    &&& delay == time
    &&& event matches Event::ForceShutdown { pid, instance_id }
    &&& pid == number
    &&& instance_id == instance
}

/// A process that is asked to stop gets its stop signal at once, whichever it is, and
/// exactly the time that it was given, however long.
pub proof fn law_terminate(
    process: &RunningProcess,
    timeout: Duration,
    stop_signal: Signal,
    actions: Vec<Action>,
)
    requires
        call_ensures(RunningProcess::terminate, (process, timeout, stop_signal), actions),
    ensures
        actions@.len() == 2,
        sends(actions@[0], process.name@, process.pid, stop_signal),
        times_out(actions@[1], timeout, process.pid, process.instance_id),
{
    assert(views(actions@).len() == 2);
    assert(views(actions@)[0] == actions@[0]@);
    assert(views(actions@)[1] == actions@[1]@);
}

/// A process whose time is over gets SIGKILL, whichever it is.
pub proof fn law_force_terminate(process: &RunningProcess, action: Action)
    requires
        call_ensures(RunningProcess::force_terminate, (process,), action),
    ensures
        sends(action, process.name@, process.pid, Signal::Sigkill),
{
}

/// A line is relayed whole, behind the name of its process, to the stream that it came
/// from; at the end of the stream and at an error there is nothing to relay.
pub proof fn law_stream_stdio(
    tag: &Arc<String>,
    read: Result<Option<String>, i32>,
    stream: StdStream,
    relayed: Option<StdLine>,
)
    requires
        call_ensures(RunningProcess::stream_stdio, (tag, read, stream), relayed),
    ensures
        match read {
            Ok(Some(line)) => {
                &&& relayed matches Some(out)
                &&& out.stream == stream
                &&& out.text@.len() == tag@.len() + line@.len() + 3
                &&& out.text@[0] == '['
                &&& forall|i: int| 0 <= i < tag@.len() ==> #[trigger] out.text@[1 + i] == tag@[i]
                &&& out.text@[1int + tag@.len()] == ']'
                &&& out.text@[2int + tag@.len()] == ' '
                &&& forall|i: int|
                    0 <= i < line@.len() ==> #[trigger] out.text@[3 + tag@.len() + i] == line@[i]
            },
            _ => relayed is None,
        },
{
    reveal_strlit("[");
    reveal_strlit("] ");
}

/// A child that runs gets the number that is due, and the next child another: the count
/// goes on by one, and starts over behind the end of the range. A child that could not
/// be spawned uses no number.
pub proof fn law_spawn(
    name: &Arc<String>,
    child: Option<u32>,
    ids: &mut InstanceIds,
    process: Option<RunningProcess>,
)
    requires
        call_ensures(RunningProcess::spawn, (name, child, ids), process),
    ensures
        match child {
            Some(pid) => {
                &&& process matches Some(p)
                &&& p.name@ == name@
                &&& p.pid == pid
                &&& p.instance_id == old(ids).next
                &&& final(ids).next == (old(ids).next + 1) % 0x1_0000_0000_0000_0000
            },
            None => process is None && final(ids).next == old(ids).next,
        },
{
}

/// The first number is zero.
pub proof fn law_first_number(ids: InstanceIds)
    requires
        call_ensures(InstanceIds::new, (), ids),
    ensures
        ids.next == 0,
{
}

/// Each call gives out the number that is due, and the count goes on by one.
pub proof fn law_next_instance_id(ids: &mut InstanceIds, id: u64)
    requires
        call_ensures(RunningProcess::next_instance_id, (ids,), id),
    ensures
        id == old(ids).next,
        final(ids).next == (old(ids).next + 1) % 0x1_0000_0000_0000_0000,
{
}

/// The launch has these arguments: as many, each the same and in the same place.
pub open spec fn has_args(launch: Launch, args: Seq<String>) -> bool {
    &&& launch.args@.len() == args.len()
    &&& forall|i: int| 0 <= i < args.len() ==> (#[trigger] launch.args@[i])@ == args[i]@
}

/// The launch is that of an init process with this spec: its command and all of its
/// arguments, no variables, no directory of its own.
pub open spec fn launches_init(launch: Launch, name: Seq<char>, spec: InitSpec) -> bool {
    &&& launch.group is Init
    &&& launch.name@ == name
    &&& launch.cmd@ == spec.cmd@
    &&& has_args(launch, spec.args@)
    &&& launch.env@.len() == 0
    &&& launch.workdir is None
}

/// The launch is that of a service with this spec: its command, all of its arguments
/// and variables, and its directory.
pub open spec fn launches_service(launch: Launch, name: Seq<char>, spec: ServiceSpec) -> bool {
    &&& launch.group is Service
    &&& launch.name@ == name
    &&& launch.cmd@ == spec.cmd@
    &&& has_args(launch, spec.args@)
    &&& launch.env@.len() == spec.env@.names.len()
    &&& forall|i: int|
        0 <= i < launch.env@.len() ==> {
            &&& (#[trigger] launch.env@[i]).0@ == spec.env@.names[i]
            &&& launch.env@[i].1@ == spec.env@.values[spec.env@.names[i]]@
        }
    &&& match spec.workdir {
        Some(dir) => launch.workdir matches Some(d) && d@ == dir@,
        None => launch.workdir is None,
    }
}

pub proof fn lemma_init_launch(launch: Launch, name: Seq<char>, spec: InitSpec)
    requires
        launch@ == spec.launch_of(name),
    ensures
        launches_init(launch, name, spec),
{
    assert(variables(launch.env@).len() == 0);
    assert(texts(launch.args@).len() == texts(spec.args@).len());
    assert forall|i: int| 0 <= i < spec.args@.len() implies (#[trigger] launch.args@[i])@
        == spec.args@[i]@ by {
        assert(texts(launch.args@)[i] == texts(spec.args@)[i]);
    }
}

pub proof fn lemma_service_launch(launch: Launch, name: Seq<char>, spec: ServiceSpec)
    requires
        launch@ == spec.launch_of(name),
    ensures
        launches_service(launch, name, spec),
{
    assert(texts(launch.args@).len() == texts(spec.args@).len());
    assert forall|i: int| 0 <= i < spec.args@.len() implies (#[trigger] launch.args@[i])@
        == spec.args@[i]@ by {
        assert(texts(launch.args@)[i] == texts(spec.args@)[i]);
    }
    assert(variables(launch.env@).len() == spec.env@.names.len());
    assert forall|i: int| 0 <= i < launch.env@.len() implies {
        &&& (#[trigger] launch.env@[i]).0@ == spec.env@.names[i]
        &&& launch.env@[i].1@ == spec.env@.values[spec.env@.names[i]]@
    } by {
        assert(variables(launch.env@)[i] == (launch.env@[i].0@, launch.env@[i].1@));
    }
}

/// An init process is launched by its command, with all of its arguments.
pub proof fn law_init_launch(spec: &InitSpec, name: &Arc<String>, launch: Launch)
    requires
        call_ensures(InitSpec::launch, (spec, name), launch),
    ensures
        launches_init(launch, name@, *spec),
{
    lemma_init_launch(launch, name@, *spec);
}

/// A service is launched by its command, with all of its arguments and variables, where
/// its spec says.
pub proof fn law_service_launch(spec: &ServiceSpec, name: &Arc<String>, launch: Launch)
    requires
        call_ensures(ServiceSpec::launch, (spec, name), launch),
    ensures
        launches_service(launch, name@, *spec),
{
    lemma_service_launch(launch, name@, *spec);
}

/// A span has the parts that it was made of, and tells them.
pub proof fn law_durations(
    secs: u64,
    nanos: u32,
    whole: Duration,
    parts: Duration,
    told_secs: u64,
    told_nanos: u32,
)
    requires
        call_ensures(Duration::from_secs, (secs,), whole),
        call_ensures(Duration::from_parts, (secs, nanos), parts),
        call_ensures(Duration::as_secs, (&parts,), told_secs),
        call_ensures(Duration::subsec_nanos, (&parts,), told_nanos),
    ensures
        told_secs == secs,
        told_nanos == nanos,
        nanos == 0 ==> parts == whole,
        nanos < NANOS_PER_SEC ==> call_requires(Duration::from_parts, (secs, nanos)),
{
    broadcast use Duration::law_parts;

}

/// What a service gets where its configuration says nothing: ten seconds after SIGINT,
/// and a restart at once.
pub proof fn law_defaults(timeout: Duration, signal: Signal, exit: OnExit, delay: u64)
    requires
        call_ensures(defaults::stop_timeout, (), timeout),
        call_ensures(defaults::stop_signal, (), signal),
        call_ensures(defaults::on_exit, (), exit),
        call_ensures(defaults::restart_delay, (), delay),
    ensures
        timeout.secs() == 10,
        timeout.nanos() == 0,
        signal is Sigint,
        exit matches OnExit::Restart { restart_delay } && restart_delay == delay,
        delay == 0,
{
}

/// A name that stands in the order is found, with the value at its place; a name that
/// does not is not found.
pub proof fn law_lookup<V>(
    map: &NameMap<V>,
    name: &String,
    len: usize,
    empty: bool,
    found: bool,
    value: Option<&V>,
)
    requires
        map.inv(),
        call_ensures(NameMap::<V>::len, (map,), len),
        call_ensures(NameMap::<V>::is_empty, (map,), empty),
        call_ensures(NameMap::<V>::contains_key, (map, name), found),
        call_ensures(NameMap::<V>::get, (map, name), value),
    ensures
        len == map@.names.len(),
        empty == (len == 0),
        found == (exists|i: int| 0 <= i < len && #[trigger] map@.names[i] == name@),
        found == value is Some,
        found ==> *value->0 == map@.values[name@],
{
    if found {
        let i = map@.names.index_of(name@);
        assert(map@.names[i] == name@);
    }
}

/// The entry at a place of the order is the name at that place, and the value that the
/// name is found with.
pub proof fn law_entry<V>(
    map: &NameMap<V>,
    i: usize,
    entry: (&Arc<String>, &V),
    name: &String,
    value: Option<&V>,
)
    requires
        map.inv(),
        i < map@.names.len(),
        call_ensures(NameMap::<V>::entry, (map, i), entry),
        call_ensures(NameMap::<V>::get, (map, name), value),
        name@ == entry.0@,
    ensures
        call_requires(NameMap::<V>::entry, (map, i)),
        name@ == map@.names[i as int],
        value matches Some(v) && *v == *entry.1,
{
}

/// A new map holds nothing.
pub proof fn law_new_map<V>(map: NameMap<V>, name: Seq<char>)
    requires
        call_ensures(NameMap::<V>::new, (), map),
    ensures
        map@.names.len() == 0,
        !map@.values.contains_key(name),
{
}

/// After an insertion the name has the value; every other name has the one that it had,
/// or none as before. The names that were there keep their places, and a new one comes
/// after them.
pub proof fn law_inserted<V>(map: &mut NameMap<V>, name: Arc<String>, value: V, other: Seq<char>)
    requires
        old(map).inv(),
        call_ensures(NameMap::<V>::insert, (map, name, value), ()),
    ensures
        call_requires(NameMap::<V>::insert, (map, name, value)),
        final(map).inv(),
        final(map)@.values.contains_key(name@),
        final(map)@.values[name@] == value,
        other != name@ ==> final(map)@.values.contains_key(other)
            == old(map)@.values.contains_key(other),
        other != name@ && old(map)@.values.contains_key(other) ==> final(map)@.values[other]
            == old(map)@.values[other],
        old(map)@.names.contains(name@) ==> final(map)@.names == old(map)@.names,
        !old(map)@.names.contains(name@) ==> {
            &&& final(map)@.names.len() == old(map)@.names.len() + 1
            &&& final(map)@.names.last() == name@
            &&& final(map)@.names.drop_last() == old(map)@.names
        },
{
    law_insert(old(map)@, name@, value, other);
    assert(old(map)@.values.contains_key(name@) <==> old(map)@.names.contains(name@));
    if !old(map)@.names.contains(name@) {
        assert(final(map)@.names.drop_last() =~= old(map)@.names);
    }
}

/// A map is sound exactly where every name stands in its order once and just those names
/// have a value: there are no other limits on what it may hold.
pub proof fn law_sound_maps<V>(map: &NameMap<V>)
    ensures
        map.inv() <==> {
            &&& forall|i: int, j: int|
                0 <= i < j < map@.names.len() ==> #[trigger] map@.names[i]
                    != #[trigger] map@.names[j]
            &&& forall|name: Seq<char>| #[trigger]
                map@.values.contains_key(name) <==> map@.names.contains(name)
        },
{
}

} // verus!
