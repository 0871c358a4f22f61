//! The order in which things are done while the reactor runs.
//!
//! A running reactor does one task after the other. Which one comes next is decided by the
//! task that was just finished and by what came of it. The time is looked at before the service
//! is initialized and after each wait; everything up to the next wait is done at that time.
use vstd::prelude::*;

use crate::addr::SocketAddr;
use crate::io::{Accepted, ErrorKind, Ready, Woken};
use crate::reactor::{timer_expired, wake_up};
use crate::time::LocalTime;

verus! {

/// Something to do.
#[derive(Clone, Copy, Debug, PartialEq, Eq, Structural)]
pub enum Task {
    /// Listen for connections.
    Listen,
    /// Let the service get ready.
    Initialize,
    /// Go through what is waiting to be written.
    Drain,
    /// Ask the service what it wants done next.
    Ask,
    /// Do what the service wants done.
    Handle,
    /// Wait for i/o, but not longer than until the next timer.
    Wait,
    /// Tell the service what time it is, having woken up like this.
    Tick(Woken),
    /// Take the next of the events that the wait has brought.
    TakeEvent,
    /// Write to the socket of a peer; afterwards it may be there to be read.
    Write { addr: SocketAddr, read: bool },
    /// Read from the socket of a peer.
    Read(SocketAddr),
    /// Accept a connection.
    Accept,
    /// Look for a shutdown.
    LookForShutdown,
    /// Hand commands to the service.
    TakeCommands,
    /// Look for timers that have expired.
    Expire,
    /// Tell the service that a timer has expired.
    Notify,
    /// Stop running.
    Stop,
    /// Stop running with the error that has come up.
    Fail,
}

/// A task that was done, and what came of it.
#[derive(Clone, Copy, Debug)]
pub enum Finished {
    /// There is a socket on which peers connect, and it is this time now.
    Listening { at: LocalTime },
    /// There is none, though there should be.
    CannotListen,
    Initialized,
    Drained,
    /// The service was asked, and there is something that it wants done or not.
    Asked { output: bool },
    Handled,
    /// The wait has ended like this, and it is this time now.
    Waited { result: Result<usize, ErrorKind>, at: LocalTime },
    Ticked(Woken),
    /// There was an event, with this to do for it, or there was none left.
    TookEvent(Option<Ready>),
    Written { addr: SocketAddr, read: bool },
    /// The peer is connected now, but the address of its socket cannot be told.
    CannotWrite { addr: SocketAddr, read: bool },
    HasRead(SocketAddr),
    Accepted(Accepted),
    /// There is a connection, but it cannot be used.
    CannotAccept,
    LookedForShutdown { shutdown: bool },
    TookCommands,
    /// This many timers have expired.
    Expired(usize),
    Notified,
}

/// The task that was done.
pub open spec fn task_of(finished: Finished) -> Task {
    match finished {
        Finished::Listening { .. } | Finished::CannotListen => Task::Listen,
        Finished::Initialized => Task::Initialize,
        Finished::Drained => Task::Drain,
        Finished::Asked { .. } => Task::Ask,
        Finished::Handled => Task::Handle,
        Finished::Waited { .. } => Task::Wait,
        Finished::Ticked(woken) => Task::Tick(woken),
        Finished::TookEvent(_) => Task::TakeEvent,
        Finished::Written { addr, read } | Finished::CannotWrite { addr, read } => Task::Write {
            addr,
            read,
        },
        Finished::HasRead(addr) => Task::Read(addr),
        Finished::Accepted(_) | Finished::CannotAccept => Task::Accept,
        Finished::LookedForShutdown { .. } => Task::LookForShutdown,
        Finished::TookCommands => Task::TakeCommands,
        Finished::Expired(_) => Task::Expire,
        Finished::Notified => Task::Notify,
    }
}

/// How the reactor woke up, given how waiting for i/o ended.
pub open spec fn woken_by(waited: Result<usize, ErrorKind>) -> Woken {
    match waited {
        Ok(_) => Woken::Events,
        Err(ErrorKind::TimedOut) => Woken::TimedOut,
        Err(_) => Woken::Failed,
    }
}

/// The first task for an event. A peer is written to before it is read from.
pub open spec fn task_for(ready: Ready) -> Task {
    match ready {
        Ready::Gone => Task::TakeEvent,
        Ready::Peer { addr, write, read } => if write {
            Task::Write { addr, read }
        } else if read {
            Task::Read(addr)
        } else {
            Task::TakeEvent
        },
        Ready::Accept => Task::Accept,
        Ready::Wake => Task::LookForShutdown,
    }
}

/// The task that comes next.
pub open spec fn next_of(finished: Finished) -> Task {
    match finished {
        Finished::Listening { .. } => Task::Initialize,
        Finished::Initialized => Task::Drain,
        Finished::Drained => Task::Ask,
        Finished::Asked { output } => if output {
            Task::Handle
        } else {
            Task::Wait
        },
        Finished::Handled => Task::Ask,
        Finished::Waited { result, .. } => Task::Tick(woken_by(result)),
        Finished::Ticked(Woken::Events) => Task::TakeEvent,
        Finished::Ticked(Woken::TimedOut) => Task::Expire,
        Finished::Ticked(Woken::Failed) => Task::Fail,
        Finished::TookEvent(Some(ready)) => task_for(ready),
        Finished::TookEvent(None) => Task::Drain,
        Finished::Written { addr, read } => if read {
            Task::Read(addr)
        } else {
            Task::TakeEvent
        },
        Finished::HasRead(_) => Task::TakeEvent,
        Finished::Accepted(Accepted::Connected(_)) => Task::Accept,
        Finished::Accepted(_) => Task::TakeEvent,
        Finished::LookedForShutdown { shutdown } => if shutdown {
            Task::Stop
        } else {
            Task::TakeCommands
        },
        Finished::TookCommands => Task::TakeEvent,
        Finished::Expired(count) => if count > 0 {
            Task::Notify
        } else {
            Task::Drain
        },
        Finished::Notified => Task::Drain,
        Finished::CannotListen | Finished::CannotWrite { .. } | Finished::CannotAccept => Task::Fail,
    }
}

/// The task that comes next.
pub fn next_task(finished: Finished) -> (task: Task)
    ensures
        task == next_of(finished),
{
    match finished {
        Finished::Listening { .. } => Task::Initialize,
        Finished::Initialized => Task::Drain,
        Finished::Drained | Finished::Handled => Task::Ask,
        Finished::Asked { output } => {
            if output {
                Task::Handle
            } else {
                Task::Wait
            }
        },
        Finished::Waited { result, .. } => Task::Tick(wake_up(result)),
        Finished::Ticked(woken) => match woken {
            Woken::Events => Task::TakeEvent,
            Woken::TimedOut => Task::Expire,
            Woken::Failed => Task::Fail,
        },
        Finished::TookEvent(None) => Task::Drain,
        Finished::TookEvent(Some(ready)) => match ready {
            Ready::Gone => Task::TakeEvent,
            Ready::Peer { addr, write, read } => {
                if write {
                    Task::Write { addr, read }
                } else if read {
                    Task::Read(addr)
                } else {
                    Task::TakeEvent
                }
            },
            Ready::Accept => Task::Accept,
            Ready::Wake => Task::LookForShutdown,
        },
        Finished::Written { addr, read } => {
            if read {
                Task::Read(addr)
            } else {
                Task::TakeEvent
            }
        },
        Finished::HasRead(_) => Task::TakeEvent,
        Finished::Accepted(accepted) => match accepted {
            Accepted::Connected(_) => Task::Accept,
            Accepted::Done | Accepted::Failed => Task::TakeEvent,
        },
        Finished::LookedForShutdown { shutdown } => woken(shutdown),
        Finished::TookCommands => Task::TakeEvent,
        Finished::Expired(count) => {
            if timer_expired(count) {
                Task::Notify
            } else {
                Task::Drain
            }
        },
        Finished::Notified => Task::Drain,
        Finished::CannotListen | Finished::CannotWrite { .. } | Finished::CannotAccept => Task::Fail,
    }
}

/// The task for a reactor that was woken up from outside. A shutdown ends the run; otherwise
/// there are commands.
pub fn woken(shutdown: bool) -> (task: Task)
    ensures
        task == (if shutdown {
            Task::Stop
        } else {
            Task::TakeCommands
        }),
{
    if shutdown {
        Task::Stop
    } else {
        Task::TakeCommands
    }
}

/// A task, and the time at which it is done.
#[derive(Clone, Copy, Debug, PartialEq, Eq, Structural)]
pub struct Job {
    pub task: Task,
    pub now: LocalTime,
}

/// The first task. There is nothing to listen on if there are no addresses for it.
pub open spec fn first_of(listens: bool) -> Task {
    if listens {
        Task::Listen
    } else {
        Task::Initialize
    }
}

/// The time at which the next task is done, after one that was done at `now`.
pub open spec fn time_after(now: LocalTime, finished: Finished) -> LocalTime {
    match finished {
        Finished::Listening { at } => at,
        Finished::Waited { at, .. } => at,
        _ => now,
    }
}

/// What a run starts with.
pub fn first_job(listens: bool, now: LocalTime) -> (job: Job)
    ensures
        job == (Job { task: first_of(listens), now }),
{
    if listens {
        Job { task: Task::Listen, now }
    } else {
        Job { task: Task::Initialize, now }
    }
}

/// What comes next, after a task that was done at `now`.
pub fn next_job(now: LocalTime, finished: Finished) -> (job: Job)
    ensures
        job == (Job { task: next_of(finished), now: time_after(now, finished) }),
{
    let now = match finished {
        Finished::Listening { at } => at,
        Finished::Waited { at, .. } => at,
        _ => now,
    };
    Job { task: next_task(finished), now }
}

/// A task that was done, what came of it, and the time at which it was done.
pub struct Done {
    pub finished: Finished,
    pub now: LocalTime,
}

/// What was done at a place of a run is what comes next after what was done before it.
pub open spec fn follows(run: Seq<Done>, i: int) -> bool {
    &&& task_of(run[i].finished) == next_of(run[i - 1].finished)
    &&& run[i].now == time_after(run[i - 1].now, run[i - 1].finished)
}

/// What a run of the reactor has done, from its start.
pub open spec fn is_run(run: Seq<Done>, listens: bool) -> bool {
    &&& run.len() > 0 ==> task_of(run[0].finished) == first_of(listens)
    &&& forall|i: int| 0 < i < run.len() ==> #[trigger] follows(run, i)
}

/// There is no wait from one place of a run up to another.
pub open spec fn without_wait(run: Seq<Done>, from: int, to: int) -> bool {
    forall|i: int| from <= i < to ==> !((#[trigger] run[i]).finished is Waited)
}

/// A run initializes the service once, and nothing but listening comes before that.
pub proof fn law_the_service_is_initialized_once(run: Seq<Done>, listens: bool, i: int)
    requires
        is_run(run, listens),
        0 <= i < run.len(),
    ensures
        task_of(run[i].finished) == Task::Initialize <==> i == (if listens {
            1int
        } else {
            0int
        }),
        task_of(run[i].finished) == Task::Listen <==> listens && i == 0,
    decreases i,
{
    if i > 0 {
        law_the_service_is_initialized_once(run, listens, i - 1);
        assert(follows(run, i));
        if task_of(run[i].finished) == Task::Initialize {
            assert(run[i - 1].finished is Listening);
        }
    }
}

proof fn lemma_time_stays(run: Seq<Done>, listens: bool, from: int, to: int)
    requires
        is_run(run, listens),
        0 <= from <= to < run.len(),
        !(task_of(run[from].finished) is Listen),
        without_wait(run, from, to),
    ensures
        run[to].now == run[from].now,
    decreases to - from,
{
    if from < to {
        lemma_time_stays(run, listens, from, to - 1);
        law_the_service_is_initialized_once(run, listens, from);
        law_the_service_is_initialized_once(run, listens, to - 1);
        assert(!(run[to - 1].finished is Waited));
        assert(follows(run, to));
    }
}

/// Everything that is done before the first wait is done at the time at which the service was
/// initialized: `start` is where that was.
pub proof fn law_initialization_has_one_time(run: Seq<Done>, listens: bool, i: int) -> (start: int)
    requires
        is_run(run, listens),
        0 <= i < run.len(),
        without_wait(run, 0, i),
        task_of(run[i].finished) != Task::Listen,
    ensures
        0 <= start <= i,
        task_of(run[start].finished) == Task::Initialize,
        run[i].now == run[start].now,
{
    let start: int = if listens {
        1
    } else {
        0
    };
    law_the_service_is_initialized_once(run, listens, i);
    law_the_service_is_initialized_once(run, listens, start);
    lemma_time_stays(run, listens, start, i);
    start
}

/// Whatever the service wants done is done before it is asked again, and it is asked again
/// until it wants nothing done. Only then is there a wait.
pub proof fn law_every_output_is_handled(run: Seq<Done>, listens: bool, i: int)
    requires
        is_run(run, listens),
        0 <= i < run.len(),
    ensures
        i + 1 < run.len() ==> (run[i].finished == (Finished::Asked { output: true }) ==> task_of(
            run[i + 1].finished,
        ) == Task::Handle),
        i + 1 < run.len() ==> (run[i].finished == Finished::Handled ==> task_of(
            run[i + 1].finished,
        ) == Task::Ask),
        task_of(run[i].finished) == Task::Handle ==> i > 0 && run[i - 1].finished == (
        Finished::Asked { output: true }),
        task_of(run[i].finished) == Task::Wait ==> i > 0 && run[i - 1].finished == (
        Finished::Asked { output: false }),
{
    if i > 0 {
        assert(follows(run, i));
    }
    if i + 1 < run.len() {
        assert(follows(run, i + 1));
    }
}

/// Whenever the service is asked, or what it wants is done, the queue was gone through before,
/// at the same time, and nothing else was done since then but what the service wanted.
pub proof fn law_the_queue_goes_first(run: Seq<Done>, listens: bool, i: int) -> (drained: int)
    requires
        is_run(run, listens),
        0 <= i < run.len(),
        task_of(run[i].finished) == Task::Ask || task_of(run[i].finished) == Task::Handle,
    ensures
        0 <= drained < i,
        run[drained].finished == Finished::Drained,
        run[drained].now == run[i].now,
        forall|j: int|
            drained < j < i ==> (task_of((#[trigger] run[j]).finished) == Task::Ask || task_of(
                run[j].finished,
            ) == Task::Handle),
    decreases i,
{
    assert(i > 0);
    assert(follows(run, i));
    if run[i - 1].finished == Finished::Drained {
        i - 1
    } else {
        law_the_queue_goes_first(run, listens, i - 1)
    }
}

/// From where the queue was gone through at `drained` up to the wait at `wait`, the service is
/// asked and what it wants is done in turn, until it wants nothing: what it wants is done
/// exactly once each time.
pub proof fn law_asking_and_handling_alternate(
    run: Seq<Done>,
    listens: bool,
    drained: int,
    wait: int,
    i: int,
)
    requires
        is_run(run, listens),
        0 <= drained < i < wait < run.len(),
        run[drained].finished == Finished::Drained,
        run[wait].finished is Waited,
        without_wait(run, drained, wait),
    ensures
        (i - drained) % 2 == 0 ==> run[i].finished == Finished::Handled,
        (i - drained) % 2 == 1 ==> run[i].finished == (Finished::Asked { output: i < wait - 1 }),
    decreases i,
{
    assert(follows(run, i));
    if i > drained + 1 {
        law_asking_and_handling_alternate(run, listens, drained, wait, i - 1);
    }
    assert(follows(run, i + 1));
    if i + 1 < wait {
        assert(!(run[i + 1].finished is Waited));
    }
}

/// The service is told the time right after every wait, before anything that the wait has
/// brought is looked at.
pub proof fn law_every_wait_ends_with_a_tick(run: Seq<Done>, listens: bool, i: int)
    requires
        is_run(run, listens),
        0 < i < run.len(),
    ensures
        run[i - 1].finished is Waited ==> task_of(run[i].finished) is Tick,
        task_of(run[i].finished) is Tick ==> run[i - 1].finished is Waited,
{
    assert(follows(run, i));
}

proof fn lemma_only_asking_after_draining(run: Seq<Done>, listens: bool, drained: int, i: int)
    requires
        is_run(run, listens),
        0 <= drained < i < run.len(),
        run[drained].finished == Finished::Drained,
        without_wait(run, drained, i),
    ensures
        task_of(run[i].finished) == Task::Ask || task_of(run[i].finished) == Task::Handle
            || task_of(run[i].finished) == Task::Wait,
    decreases i,
{
    assert(follows(run, i));
    if i > drained + 1 {
        lemma_only_asking_after_draining(run, listens, drained, i - 1);
        assert(!(run[i - 1].finished is Waited));
    }
}

/// A round is what is done from one wait, which ends at some time, to the next. At its start
/// the service is told that time, once. At its end the queue is gone through, once, and the
/// service is asked until it wants nothing; it is not asked before. All of it is done at that
/// same time. The result is where the queue is gone through.
pub proof fn law_each_round_is_one(run: Seq<Done>, listens: bool, first: int, second: int) -> (
    drained: int)
    requires
        is_run(run, listens),
        0 <= first < second < run.len(),
        run[first].finished is Waited,
        run[second].finished is Waited,
        without_wait(run, first + 1, second),
    ensures
        first + 1 < drained < second,
        run[first + 1].finished is Ticked,
        run[drained].finished == Finished::Drained,
        forall|i: int|
            first + 1 < i < second ==> !(task_of((#[trigger] run[i]).finished) is Tick),
        forall|i: int|
            first < i < second && i != drained ==> (#[trigger] run[i]).finished
                != Finished::Drained,
        forall|i: int|
            first < i < drained ==> task_of((#[trigger] run[i]).finished) != Task::Ask && task_of(
                run[i].finished,
            ) != Task::Handle,
        forall|i: int|
            drained < i < second ==> (task_of((#[trigger] run[i]).finished) == Task::Ask || task_of(
                run[i].finished,
            ) == Task::Handle),
        forall|i: int|
            first < i <= second ==> (#[trigger] run[i]).now == time_after(
                run[first].now,
                run[first].finished,
            ),
{
    assert(follows(run, first + 1));
    assert(follows(run, second));
    let drained = law_the_queue_goes_first(run, listens, second - 1);
    if drained <= first + 1 {
        if drained < first {
            assert(task_of(run[first].finished) == Task::Ask || task_of(run[first].finished)
                == Task::Handle);
        }
    }
    assert forall|i: int| first + 1 < i < second implies !(task_of(
        (#[trigger] run[i]).finished,
    ) is Tick) by {
        law_every_wait_ends_with_a_tick(run, listens, i);
        assert(!(run[i - 1].finished is Waited));
    }
    assert forall|i: int| first < i < second && i != drained implies (#[trigger] run[i]).finished
        != Finished::Drained by {
        if i < drained && run[i].finished == Finished::Drained {
            lemma_only_asking_after_draining(run, listens, i, drained);
        }
    }
    assert forall|i: int| first < i < drained implies task_of((#[trigger] run[i]).finished)
        != Task::Ask && task_of(run[i].finished) != Task::Handle by {
        if task_of(run[i].finished) == Task::Ask || task_of(run[i].finished) == Task::Handle {
            let earlier = law_the_queue_goes_first(run, listens, i);
            if earlier < first {
                assert(task_of(run[first].finished) == Task::Ask || task_of(run[first].finished)
                    == Task::Handle);
            } else {
                lemma_only_asking_after_draining(run, listens, earlier, drained);
            }
        }
    }
    assert forall|i: int| first < i <= second implies (#[trigger] run[i]).now == time_after(
        run[first].now,
        run[first].finished,
    ) by {
        law_the_service_is_initialized_once(run, listens, first + 1);
        lemma_time_stays(run, listens, first + 1, i);
        assert(follows(run, first + 1));
    }
    drained
}

/// A run stops when a shutdown was found, and only then. It fails in four ways, and no other:
/// there is nothing to listen on; a wait has failed otherwise than by running out of time; a
/// connection that was accepted cannot be used; or the socket of a peer that is connected now
/// has no address. After anything else it goes on.
pub proof fn law_runs_end(run: Seq<Done>, listens: bool, i: int)
    requires
        is_run(run, listens),
        0 <= i < run.len(),
    ensures
        next_of(run[i].finished) == Task::Stop <==> run[i].finished == (
        Finished::LookedForShutdown { shutdown: true }),
        next_of(run[i].finished) == Task::Fail <==> {
            ||| run[i].finished is CannotListen
            ||| run[i].finished is CannotAccept
            ||| run[i].finished is CannotWrite
            ||| run[i].finished is Ticked && i > 0 && (run[i - 1].finished matches Finished::Waited {
                result: Err(kind),
                ..
            } && kind != ErrorKind::TimedOut)
        },
{
    if run[i].finished is Ticked {
        assert(i > 0);
        assert(follows(run, i));
    }
}

/// A run is over once it stops or fails: nothing is done after that.
pub proof fn law_nothing_is_done_after_the_end(run: Seq<Done>, listens: bool, i: int)
    requires
        is_run(run, listens),
        0 <= i < run.len(),
        next_of(run[i].finished) == Task::Stop || next_of(run[i].finished) == Task::Fail,
    ensures
        i == run.len() - 1,
{
    if i + 1 < run.len() {
        assert(follows(run, i + 1));
    }
}

/// The service is told of timers whenever any has expired, be it one or many, and only then.
/// Timers are looked at whenever a wait has run out of time, and only then.
pub proof fn law_timers_wake_the_service(run: Seq<Done>, listens: bool, i: int)
    requires
        is_run(run, listens),
        0 <= i < run.len() - 1,
    ensures
        task_of(run[i + 1].finished) == Task::Notify <==> (
        run[i].finished matches Finished::Expired(count) && count > 0),
        run[i].finished == Finished::Expired(0) ==> task_of(run[i + 1].finished) == Task::Drain,
        task_of(run[i + 1].finished) == Task::Expire <==> run[i].finished == Finished::Ticked(
            Woken::TimedOut,
        ),
        task_of(run[i + 1].finished) == Task::Tick(Woken::TimedOut) <==> (
        run[i].finished matches Finished::Waited { result: Err(kind), .. } && kind
            == ErrorKind::TimedOut),
{
    assert(follows(run, i + 1));
}

/// A peer is written to whenever there is room to write, and only then. It is read from whenever
/// there is something to read, after it was written to, and only then.
pub proof fn law_peers_are_served(run: Seq<Done>, listens: bool, i: int, addr: SocketAddr, read: bool)
    requires
        is_run(run, listens),
        0 <= i < run.len() - 1,
    ensures
        task_of(run[i + 1].finished) == (Task::Write { addr, read }) <==> run[i].finished
            == Finished::TookEvent(Some(Ready::Peer { addr, write: true, read })),
        task_of(run[i + 1].finished) == Task::Read(addr) <==> {
            ||| run[i].finished == Finished::TookEvent(
                Some(Ready::Peer { addr, write: false, read: true }),
            )
            ||| run[i].finished == (Finished::Written { addr, read: true })
        },
{
    assert(follows(run, i + 1));
}

/// Connections are accepted when the listener has an event, and for as long as there are any. A
/// shutdown is looked for when the waker has an event, and commands are taken if there was none.
pub proof fn law_listener_and_waker_are_served(run: Seq<Done>, listens: bool, i: int)
    requires
        is_run(run, listens),
        0 <= i < run.len() - 1,
    ensures
        task_of(run[i + 1].finished) == Task::Accept <==> {
            ||| run[i].finished == Finished::TookEvent(Some(Ready::Accept))
            ||| run[i].finished matches Finished::Accepted(Accepted::Connected(_))
        },
        task_of(run[i + 1].finished) == Task::LookForShutdown <==> run[i].finished
            == Finished::TookEvent(Some(Ready::Wake)),
        task_of(run[i + 1].finished) == Task::TakeCommands <==> run[i].finished == (
        Finished::LookedForShutdown { shutdown: false }),
{
    assert(follows(run, i + 1));
}

/// After a wait that has brought events, one after the other is taken, each of them served in full,
/// until none is left. Then, and after timers, the queue is gone through.
pub proof fn law_all_events_are_taken(run: Seq<Done>, listens: bool, i: int)
    requires
        is_run(run, listens),
        0 <= i < run.len() - 1,
    ensures
        task_of(run[i + 1].finished) == Task::TakeEvent <==> {
            ||| run[i].finished == Finished::Ticked(Woken::Events)
            ||| run[i].finished == Finished::TookEvent(Some(Ready::Gone))
            ||| (run[i].finished matches Finished::TookEvent(
                Some(Ready::Peer { write, read, .. }),
            ) && !write && !read)
            ||| (run[i].finished matches Finished::Written { read, .. } && !read)
            ||| run[i].finished is HasRead
            ||| run[i].finished == Finished::Accepted(Accepted::Done)
            ||| run[i].finished == Finished::Accepted(Accepted::Failed)
            ||| run[i].finished == Finished::TookCommands
        },
        task_of(run[i + 1].finished) == Task::Drain <==> {
            ||| run[i].finished == Finished::Initialized
            ||| run[i].finished == Finished::TookEvent(None)
            ||| run[i].finished == Finished::Expired(0)
            ||| run[i].finished == Finished::Notified
        },
        task_of(run[i + 1].finished) == Task::Ask <==> {
            ||| run[i].finished == Finished::Drained
            ||| run[i].finished == Finished::Handled
        },
        task_of(run[i + 1].finished) == Task::Tick(Woken::Events) <==> (
        run[i].finished matches Finished::Waited { result, .. } && result is Ok),
{
    assert(follows(run, i + 1));
}

/// The time changes only when the reactor starts to listen and when a wait ends: it is then the
/// time at which that happened.
pub proof fn law_time_is_looked_at(run: Seq<Done>, listens: bool, i: int)
    requires
        is_run(run, listens),
        0 <= i < run.len() - 1,
    ensures
        run[i].finished matches Finished::Listening { at } ==> run[i + 1].now == at,
        run[i].finished matches Finished::Waited { at, .. } ==> run[i + 1].now == at,
        !(run[i].finished is Listening) && !(run[i].finished is Waited) ==> run[i + 1].now
            == run[i].now,
{
    assert(follows(run, i + 1));
}

/// What is done one after the other makes a run: it starts with the first job, and goes on with the
/// next job each time.
pub proof fn law_jobs_make_runs(
    run: Seq<Done>,
    listens: bool,
    start: LocalTime,
    first: Job,
    next: Job,
    finished: Finished,
)
    requires
        call_ensures(first_job, (listens, start), first),
        run.len() > 0 ==> call_ensures(
            next_job,
            (run.last().now, run.last().finished),
            next,
        ),
        is_run(run, listens),
        task_of(finished) == (if run.len() == 0 {
            first.task
        } else {
            next.task
        }),
    ensures
        first.now == start,
        is_run(
            run.push(
                Done {
                    finished,
                    now: if run.len() == 0 {
                        first.now
                    } else {
                        next.now
                    },
                },
            ),
            listens,
        ),
{
    let done = Done {
        finished,
        now: if run.len() == 0 {
            first.now
        } else {
            next.now
        },
    };
    let longer = run.push(done);
    assert forall|i: int| 0 < i < longer.len() implies #[trigger] follows(longer, i) by {
        if i < run.len() {
            assert(follows(run, i));
        }
    }
}

/// The task that comes next does not depend on the time.
pub proof fn law_jobs_are_tasks(
    now: LocalTime,
    finished: Finished,
    job: Job,
    task: Task,
    shutdown: bool,
    after: Task,
)
    requires
        call_ensures(next_job, (now, finished), job),
        call_ensures(next_task, (finished,), task),
        call_ensures(woken, (shutdown,), after),
    ensures
        job.task == task,
        after == Task::Stop <==> shutdown,
        after == Task::TakeCommands <==> !shutdown,
{
}

} // verus!
