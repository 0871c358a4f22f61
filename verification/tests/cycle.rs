use nakamoto_net_poll::addr::{Link, SocketAddr};
use nakamoto_net_poll::cycle::{first_job, next_job, next_task, woken, Finished, Job, Task};
use nakamoto_net_poll::io::{Accepted, ErrorKind, Ready, Woken};
use nakamoto_net_poll::time::LocalTime;

fn peer() -> SocketAddr {
    SocketAddr::V4 { ip: 1, port: 8333 }
}

fn at(millis: u128) -> LocalTime {
    LocalTime { millis }
}

fn waited(result: Result<usize, ErrorKind>) -> Finished {
    Finished::Waited { result, at: at(9) }
}

#[test]
fn a_run_starts_with_the_service() {
    assert_eq!(next_task(Finished::Initialized), Task::Drain);
    assert_eq!(next_task(Finished::Drained), Task::Ask);
}

#[test]
fn the_service_is_asked_until_it_wants_nothing() {
    assert_eq!(next_task(Finished::Asked { output: true }), Task::Handle);
    assert_eq!(next_task(Finished::Handled), Task::Ask);
    assert_eq!(next_task(Finished::Asked { output: false }), Task::Wait);
}

#[test]
fn the_service_is_told_the_time_after_every_wait() {
    assert_eq!(next_task(waited(Ok(2))), Task::Tick(Woken::Events));
    assert_eq!(next_task(waited(Err(ErrorKind::TimedOut))), Task::Tick(Woken::TimedOut));
    assert_eq!(next_task(waited(Err(ErrorKind::Other))), Task::Tick(Woken::Failed));
    assert_eq!(next_task(Finished::Ticked(Woken::Events)), Task::TakeEvent);
    assert_eq!(next_task(Finished::Ticked(Woken::TimedOut)), Task::Expire);
    assert_eq!(next_task(Finished::Ticked(Woken::Failed)), Task::Fail);
}

#[test]
fn peers_are_written_to_before_they_are_read_from() {
    let ready = |write, read| Finished::TookEvent(Some(Ready::Peer { addr: peer(), write, read }));
    assert_eq!(next_task(ready(true, true)), Task::Write { addr: peer(), read: true });
    assert_eq!(next_task(Finished::Written { addr: peer(), read: true }), Task::Read(peer()));
    assert_eq!(next_task(ready(true, false)), Task::Write { addr: peer(), read: false });
    assert_eq!(next_task(Finished::Written { addr: peer(), read: false }), Task::TakeEvent);
    assert_eq!(next_task(ready(false, true)), Task::Read(peer()));
    assert_eq!(next_task(Finished::HasRead(peer())), Task::TakeEvent);
    assert_eq!(next_task(ready(false, false)), Task::TakeEvent);
    assert_eq!(next_task(Finished::TookEvent(Some(Ready::Gone))), Task::TakeEvent);
}

#[test]
fn connections_are_accepted_until_there_are_no_more() {
    assert_eq!(next_task(Finished::TookEvent(Some(Ready::Accept))), Task::Accept);
    let connected = Finished::Accepted(Accepted::Connected(Link::Inbound));
    assert_eq!(next_task(connected), Task::Accept);
    assert_eq!(next_task(Finished::Accepted(Accepted::Done)), Task::TakeEvent);
    assert_eq!(next_task(Finished::Accepted(Accepted::Failed)), Task::TakeEvent);
}

#[test]
fn a_shutdown_ends_the_run() {
    assert_eq!(next_task(Finished::TookEvent(Some(Ready::Wake))), Task::LookForShutdown);
    assert_eq!(next_task(Finished::LookedForShutdown { shutdown: true }), Task::Stop);
    assert_eq!(next_task(Finished::LookedForShutdown { shutdown: false }), Task::TakeCommands);
    assert_eq!(next_task(Finished::TookCommands), Task::TakeEvent);
    assert_eq!(woken(true), Task::Stop);
    assert_eq!(woken(false), Task::TakeCommands);
}

#[test]
fn outputs_are_processed_at_the_end_of_every_round() {
    assert_eq!(next_task(Finished::TookEvent(None)), Task::Drain);
    assert_eq!(next_task(Finished::Expired(0)), Task::Drain);
    assert_eq!(next_task(Finished::Expired(3)), Task::Notify);
    assert_eq!(next_task(Finished::Notified), Task::Drain);
}

#[test]
fn tasks_that_have_to_be_done_end_the_run() {
    assert_eq!(next_task(Finished::CannotListen), Task::Fail);
    assert_eq!(next_task(Finished::CannotAccept), Task::Fail);
    assert_eq!(next_task(Finished::CannotWrite { addr: peer(), read: true }), Task::Fail);
}

#[test]
fn listening_comes_first() {
    assert_eq!(first_job(true, at(1)), Job { task: Task::Listen, now: at(1) });
    assert_eq!(first_job(false, at(1)), Job { task: Task::Initialize, now: at(1) });
    let listening = Finished::Listening { at: at(2) };
    assert_eq!(next_job(at(1), listening), Job { task: Task::Initialize, now: at(2) });
}

#[test]
fn a_round_has_one_time() {
    let mut job = first_job(false, at(5));
    let mut tasks = Vec::new();
    for finished in [
        Finished::Initialized,
        Finished::Drained,
        Finished::Asked { output: false },
    ] {
        assert_eq!(job.now, at(5));
        tasks.push(job.task);
        job = next_job(job.now, finished);
    }
    assert_eq!(job, Job { task: Task::Wait, now: at(5) });

    job = next_job(job.now, waited(Ok(1)));
    for finished in [
        Finished::Ticked(Woken::Events),
        Finished::TookEvent(Some(Ready::Peer { addr: peer(), write: true, read: true })),
        Finished::Written { addr: peer(), read: true },
        Finished::HasRead(peer()),
        Finished::TookEvent(None),
        Finished::Drained,
        Finished::Asked { output: true },
        Finished::Handled,
        Finished::Asked { output: false },
    ] {
        assert_eq!(job.now, at(9));
        tasks.push(job.task);
        job = next_job(job.now, finished);
    }
    assert_eq!(job, Job { task: Task::Wait, now: at(9) });
    assert_eq!(
        tasks,
        vec![
            Task::Initialize,
            Task::Drain,
            Task::Ask,
            Task::Tick(Woken::Events),
            Task::TakeEvent,
            Task::Write { addr: peer(), read: true },
            Task::Read(peer()),
            Task::TakeEvent,
            Task::Drain,
            Task::Ask,
            Task::Handle,
            Task::Ask,
        ]
    );
}
