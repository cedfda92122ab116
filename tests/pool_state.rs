use worker_pool::message::Message;
use worker_pool::pool::{Phase, PoolState, SubmitError};
use worker_pool::worker::WorkerState;

fn job_of(m: Option<Message<u32>>) -> u32 {
    match m {
        Some(Message::NewJob(j)) => j,
        _ => panic!("expected a job"),
    }
}

fn is_stop(m: &Option<Message<u32>>) -> bool {
    matches!(m, Some(Message::Terminate))
}

/// Sends the stop signals, lets every worker take one, and joins them all.
fn stop_and_join(p: &mut PoolState<u32>) {
    p.shutdown();
    for w in 0..p.size() {
        assert!(is_stop(&p.receive(w)));
        assert_eq!(p.worker_state(w), WorkerState::Exited);
        p.mark_joined(w);
    }
}

#[test]
fn new_pool_is_idle_and_running() {
    let p: PoolState<u32> = PoolState::new(3);
    assert_eq!(p.size(), 3);
    assert_eq!(p.phase(), Phase::Running);
    for w in 0..3 {
        assert_eq!(p.worker_state(w), WorkerState::Idle);
    }
    assert_eq!(p.submitted(), 0);
    assert_eq!(p.started(), 0);
    assert_eq!(p.finished(), 0);
    assert_eq!(p.pending_len(), 0);
}

#[test]
fn submit_gives_tickets_in_order() {
    let mut p: PoolState<u32> = PoolState::new(2);
    assert_eq!(p.submit(10), Ok(0));
    assert_eq!(p.submit(11), Ok(1));
    assert_eq!(p.submit(12), Ok(2));
    assert_eq!(p.submitted(), 3);
    assert_eq!(p.pending_len(), 3);
}

#[test]
fn receive_on_empty_queue_gives_nothing() {
    let mut p: PoolState<u32> = PoolState::new(2);
    assert!(p.receive(0).is_none());
    assert_eq!(p.worker_state(0), WorkerState::Idle);
    assert_eq!(p.started(), 0);
}

#[test]
fn receive_hands_out_in_send_order() {
    let mut p: PoolState<u32> = PoolState::new(2);
    p.submit(10).unwrap();
    p.submit(11).unwrap();
    assert_eq!(job_of(p.receive(1)), 10);
    assert_eq!(p.worker_state(1), WorkerState::Busy(0));
    assert_eq!(job_of(p.receive(0)), 11);
    assert_eq!(p.worker_state(0), WorkerState::Busy(1));
    assert_eq!(p.started(), 2);
    assert_eq!(p.pending_len(), 0);
}

#[test]
fn complete_returns_ticket_and_frees_worker() {
    let mut p: PoolState<u32> = PoolState::new(2);
    p.submit(10).unwrap();
    p.submit(11).unwrap();
    job_of(p.receive(0));
    job_of(p.receive(1));
    assert_eq!(p.complete(1), 1);
    assert_eq!(p.worker_state(1), WorkerState::Idle);
    assert_eq!(p.complete(0), 0);
    assert_eq!(p.finished(), 2);
}

#[test]
fn submit_after_shutdown_is_refused() {
    let mut p: PoolState<u32> = PoolState::new(2);
    p.submit(1).unwrap();
    p.shutdown();
    assert_eq!(p.phase(), Phase::Draining);
    assert_eq!(p.submit(2), Err(SubmitError::ShuttingDown));
    assert_eq!(p.submitted(), 1);
    assert_eq!(p.pending_len(), 3);
}

#[test]
fn shutdown_twice_changes_nothing() {
    let mut p: PoolState<u32> = PoolState::new(3);
    p.shutdown();
    assert_eq!(p.pending_len(), 3);
    p.shutdown();
    assert_eq!(p.pending_len(), 3);
    assert_eq!(p.phase(), Phase::Draining);
}

#[test]
fn each_job_runs_exactly_once() {
    let mut p: PoolState<u32> = PoolState::new(3);
    for j in 0..7u32 {
        p.submit(100 + j).unwrap();
    }
    let mut seen: Vec<u32> = Vec::new();
    // Workers take turns in an uneven order.
    let order = [2usize, 0, 2, 1, 1, 0, 2];
    for &w in order.iter() {
        seen.push(job_of(p.receive(w)));
        p.complete(w);
    }
    stop_and_join(&mut p);
    assert_eq!(p.phase(), Phase::Stopped);
    assert_eq!(p.started(), 7);
    assert_eq!(p.finished(), 7);
    seen.sort();
    assert_eq!(seen, vec![100, 101, 102, 103, 104, 105, 106]);
}

#[test]
fn completion_order_is_free() {
    let mut p: PoolState<u32> = PoolState::new(4);
    for j in 0..4u32 {
        p.submit(j).unwrap();
    }
    for w in 0..4 {
        assert_eq!(job_of(p.receive(w)), w as u32);
    }
    let mut done: Vec<u64> = Vec::new();
    for &w in [3usize, 1, 0, 2].iter() {
        done.push(p.complete(w));
    }
    assert_eq!(done, vec![3, 1, 0, 2]);
    let mut sorted = done.clone();
    sorted.sort();
    assert_eq!(sorted, vec![0, 1, 2, 3]);
}

#[test]
fn busy_pool_holds_back_the_next_job() {
    let mut p: PoolState<u32> = PoolState::new(2);
    for j in 0..3u32 {
        p.submit(j).unwrap();
    }
    assert_eq!(job_of(p.receive(0)), 0);
    assert_eq!(job_of(p.receive(1)), 1);
    // Both workers are busy: the third job waits in the queue.
    assert_eq!(p.worker_state(0), WorkerState::Busy(0));
    assert_eq!(p.worker_state(1), WorkerState::Busy(1));
    assert_eq!(p.pending_len(), 1);
    assert_eq!(p.started() - p.finished(), 2);
    // Once one finishes, its worker takes the held job.
    assert_eq!(p.complete(1), 1);
    assert_eq!(job_of(p.receive(1)), 2);
    assert_eq!(p.worker_state(1), WorkerState::Busy(2));
}

#[test]
fn stopped_only_after_last_join() {
    let mut p: PoolState<u32> = PoolState::new(2);
    p.shutdown();
    assert!(is_stop(&p.receive(0)));
    p.mark_joined(0);
    assert_eq!(p.phase(), Phase::Draining);
    assert_eq!(p.worker_state(0), WorkerState::Joined);
    assert!(is_stop(&p.receive(1)));
    p.mark_joined(1);
    assert_eq!(p.phase(), Phase::Stopped);
}

#[test]
fn queued_jobs_drain_before_stop_signals() {
    let mut p: PoolState<u32> = PoolState::new(2);
    for j in 0..3u32 {
        p.submit(j).unwrap();
    }
    p.shutdown();
    assert_eq!(p.pending_len(), 5);
    // One worker alone works through every queued job before its stop signal.
    for j in 0..3u32 {
        assert_eq!(job_of(p.receive(0)), j);
        p.complete(0);
    }
    assert!(is_stop(&p.receive(0)));
    assert_eq!(p.worker_state(0), WorkerState::Exited);
    assert!(is_stop(&p.receive(1)));
    assert_eq!(p.pending_len(), 0);
    assert_eq!(p.finished(), 3);
    p.mark_joined(1);
    p.mark_joined(0);
    assert_eq!(p.phase(), Phase::Stopped);
}

#[test]
fn two_workers_run_four_jobs_in_two_rounds() {
    let mut p: PoolState<u32> = PoolState::new(2);
    for id in 1..=4u32 {
        p.submit(id).unwrap();
    }
    let mut recorded: Vec<u32> = Vec::new();
    let mut rounds = 0;
    while p.pending_len() > 0 {
        let a = job_of(p.receive(0));
        let b = job_of(p.receive(1));
        recorded.push(a);
        recorded.push(b);
        p.complete(0);
        p.complete(1);
        rounds += 1;
    }
    assert_eq!(rounds, 2);
    recorded.sort();
    assert_eq!(recorded, vec![1, 2, 3, 4]);
    stop_and_join(&mut p);
    assert_eq!(p.phase(), Phase::Stopped);
}

#[test]
fn message_kind() {
    let j: Message<u32> = Message::NewJob(5);
    let t: Message<u32> = Message::Terminate;
    assert!(!j.is_terminate());
    assert!(t.is_terminate());
}
