use std::collections::BTreeSet;
use std::sync::atomic::{AtomicU64, Ordering};
use std::sync::{Arc, Mutex};
use std::time::{Duration, Instant};

use thread_pool::message::Message;
use thread_pool::pool::{Phase, PoolError, ThreadPool};
use thread_pool::worker::{Worker, WorkerState};

type Job = Box<dyn FnOnce() + Send>;

/// Lets every worker in turn take and run tasks until none is left.
fn run_queued(pool: &mut ThreadPool<Job>) -> usize {
    let mut ran = 0;
    loop {
        let mut progressed = false;
        for w in 0..pool.size() {
            match pool.receive(w) {
                Some(Message::NewJob(job)) => {
                    job();
                    assert!(pool.complete(w));
                    ran += 1;
                    progressed = true;
                }
                Some(Message::Terminate) => progressed = true,
                None => {}
            }
        }
        if !progressed {
            return ran;
        }
    }
}

/// Shuts the pool down and joins every worker, as a host's teardown does.
fn teardown<T>(pool: &mut ThreadPool<T>) -> usize {
    pool.shutdown().unwrap();
    let mut terminates = 0;
    for w in 0..pool.size() {
        loop {
            match pool.receive(w) {
                Some(Message::Terminate) => {
                    terminates += 1;
                    break;
                }
                Some(Message::NewJob(_)) => {
                    assert!(pool.complete(w));
                }
                None => break,
            }
        }
    }
    for w in 0..pool.size() {
        pool.record_join(w).unwrap();
    }
    terminates
}

#[test]
fn construct_with_positive_size_succeeds() {
    for n in 1..6usize {
        let pool = ThreadPool::<u64>::try_new(n).unwrap();
        assert_eq!(pool.size(), n);
        assert_eq!(pool.phase(), Phase::Accepting);
    }
    let pool = ThreadPool::<u64>::new(4);
    assert_eq!(pool.size(), 4);
}

#[test]
fn construct_with_zero_fails() {
    assert!(matches!(ThreadPool::<u64>::try_new(0), Err(PoolError::ZeroWorkers)));
}

#[test]
fn every_task_runs_exactly_once() {
    let mut pool = ThreadPool::<u64>::new(3);
    for t in 0..10u64 {
        pool.execute(t).unwrap();
    }
    let mut seen = Vec::new();
    let mut w = 0;
    while let Some(Message::NewJob(t)) = pool.receive(w) {
        seen.push(t);
        assert!(pool.complete(w));
        w = (w + 1) % 3;
    }
    assert_eq!(seen, (0..10u64).collect::<Vec<_>>());
    assert_eq!(teardown(&mut pool), 3);
    assert_eq!(pool.phase(), Phase::Stopped);
}

#[test]
fn tasks_left_queued_at_shutdown_still_run() {
    let mut pool = ThreadPool::<u64>::new(2);
    for t in 0..5u64 {
        pool.execute(t).unwrap();
    }
    pool.shutdown().unwrap();
    let mut seen = Vec::new();
    let mut exited = 0;
    let mut w = 0;
    while exited < 2 {
        match pool.receive(w) {
            Some(Message::NewJob(t)) => {
                assert_eq!(exited, 0);
                seen.push(t);
                assert!(pool.complete(w));
            }
            Some(Message::Terminate) => exited += 1,
            None => {}
        }
        w = (w + 1) % 2;
    }
    assert_eq!(seen, vec![0, 1, 2, 3, 4]);
    pool.record_join(0).unwrap();
    assert_eq!(pool.phase(), Phase::ShuttingDown);
    pool.record_join(1).unwrap();
    assert_eq!(pool.phase(), Phase::Stopped);
}

#[test]
fn shared_counter_reaches_task_count() {
    for n in 1..5usize {
        for k in [0u64, 1, 7, 20] {
            let counter = Arc::new(AtomicU64::new(0));
            let mut pool = ThreadPool::<Job>::new(n);
            for i in 0..k {
                let c = Arc::clone(&counter);
                pool.execute(Box::new(move || {
                    c.fetch_add(1, Ordering::SeqCst);
                }))
                .unwrap();
                if i % 3 == 0 {
                    run_queued(&mut pool);
                }
            }
            run_queued(&mut pool);
            assert_eq!(teardown(&mut pool), n);
            assert_eq!(counter.load(Ordering::SeqCst), k);
        }
    }
}

#[test]
fn shutdown_sends_one_terminate_per_worker() {
    let mut pool = ThreadPool::<u64>::new(4);
    pool.shutdown().unwrap();
    assert_eq!(pool.phase(), Phase::ShuttingDown);
    let mut terminates = 0;
    for w in 0..4 {
        if let Some(Message::Terminate) = pool.receive(w) {
            terminates += 1;
        }
    }
    assert_eq!(terminates, 4);
    for w in 0..4 {
        assert!(pool.receive(w).is_none());
    }
    for w in 0..4 {
        assert_eq!(pool.phase(), Phase::ShuttingDown);
        pool.record_join(w).unwrap();
    }
    assert_eq!(pool.phase(), Phase::Stopped);
}

#[test]
fn running_task_blocks_its_join() {
    let mut pool = ThreadPool::<u64>::new(1);
    pool.execute(9).unwrap();
    assert!(matches!(pool.receive(0), Some(Message::NewJob(9))));
    pool.shutdown().unwrap();
    assert!(pool.receive(0).is_none());
    assert_eq!(pool.record_join(0), Err(PoolError::JoinFailed));
    assert_eq!(pool.phase(), Phase::ShuttingDown);
    assert!(pool.complete(0));
    assert!(matches!(pool.receive(0), Some(Message::Terminate)));
    pool.record_join(0).unwrap();
    assert_eq!(pool.phase(), Phase::Stopped);
}

#[test]
fn submit_after_shutdown_fails() {
    let mut pool = ThreadPool::<u64>::new(2);
    pool.execute(1).unwrap();
    pool.shutdown().unwrap();
    assert_eq!(pool.execute(2), Err(PoolError::ShutDown));
    assert_eq!(teardown_rest(&mut pool), 1);
    assert_eq!(pool.phase(), Phase::Stopped);
    assert_eq!(pool.execute(3), Err(PoolError::ShutDown));
    assert_eq!(pool.phase(), Phase::Stopped);
    for w in 0..2 {
        assert!(pool.receive(w).is_none());
    }
}

/// Runs what is left after shutdown and joins every worker; returns the
/// number of tasks run.
fn teardown_rest(pool: &mut ThreadPool<u64>) -> usize {
    let mut ran = 0;
    for w in 0..pool.size() {
        loop {
            match pool.receive(w) {
                Some(Message::NewJob(_)) => {
                    ran += 1;
                    assert!(pool.complete(w));
                }
                _ => break,
            }
        }
    }
    for w in 0..pool.size() {
        pool.record_join(w).unwrap();
    }
    ran
}

#[test]
fn shutdown_happens_once() {
    let mut pool = ThreadPool::<u64>::new(2);
    pool.shutdown().unwrap();
    assert_eq!(pool.shutdown(), Err(PoolError::ShutDown));
    let mut terminates = 0;
    for w in 0..2 {
        while let Some(m) = pool.receive(w) {
            assert!(!m.is_job());
            terminates += 1;
        }
    }
    assert_eq!(terminates, 2);
}

#[test]
fn join_errors() {
    let mut pool = ThreadPool::<u64>::new(2);
    assert_eq!(pool.record_join(0), Err(PoolError::JoinFailed));
    pool.shutdown().unwrap();
    assert_eq!(pool.record_join(0), Err(PoolError::JoinFailed));
    assert!(matches!(pool.receive(0), Some(Message::Terminate)));
    assert_eq!(pool.record_join(5), Err(PoolError::JoinFailed));
    pool.record_join(0).unwrap();
    assert_eq!(pool.record_join(0), Err(PoolError::JoinFailed));
    assert!(matches!(pool.receive(1), Some(Message::Terminate)));
    pool.record_join(1).unwrap();
    assert_eq!(pool.phase(), Phase::Stopped);
    assert_eq!(pool.record_join(1), Err(PoolError::JoinFailed));
}

#[test]
fn receive_and_complete_out_of_turn() {
    let mut pool = ThreadPool::<u64>::new(2);
    assert!(pool.receive(0).is_none());
    assert!(pool.receive(7).is_none());
    assert!(!pool.complete(0));
    assert!(!pool.complete(7));
    pool.execute(4).unwrap();
    assert!(matches!(pool.receive(1), Some(Message::NewJob(4))));
    assert!(!pool.complete(0));
    assert!(pool.complete(1));
    assert!(!pool.complete(1));
}

#[test]
fn two_workers_four_tasks_log_each_index() {
    let log = Arc::new(Mutex::new(Vec::new()));
    let mut pool = ThreadPool::<Job>::new(2);
    for i in 1..=4u64 {
        let log = Arc::clone(&log);
        pool.execute(Box::new(move || log.lock().unwrap().push(i))).unwrap();
    }
    assert_eq!(run_queued(&mut pool), 4);
    assert_eq!(teardown(&mut pool), 2);
    assert_eq!(pool.phase(), Phase::Stopped);
    let log = log.lock().unwrap();
    assert_eq!(log.len(), 4);
    let set: BTreeSet<u64> = log.iter().copied().collect();
    assert_eq!(set, BTreeSet::from([1, 2, 3, 4]));
}

#[test]
fn one_worker_runs_tasks_one_after_another() {
    let start = Instant::now();
    let done = Arc::new(AtomicU64::new(0));
    let mut pool = ThreadPool::<Job>::new(1);
    let d = Arc::clone(&done);
    pool.execute(Box::new(move || {
        let t = Instant::now();
        while t.elapsed() < Duration::from_millis(50) {}
        d.fetch_add(1, Ordering::SeqCst);
    }))
    .unwrap();
    let d = Arc::clone(&done);
    pool.execute(Box::new(move || {
        d.fetch_add(1, Ordering::SeqCst);
    }))
    .unwrap();
    let first = match pool.receive(0) {
        Some(Message::NewJob(job)) => job,
        _ => panic!("the first task was not handed out"),
    };
    assert!(pool.receive(0).is_none());
    first();
    assert!(pool.complete(0));
    match pool.receive(0) {
        Some(Message::NewJob(job)) => job(),
        _ => panic!("the second task was not handed out"),
    }
    assert!(pool.complete(0));
    assert_eq!(done.load(Ordering::SeqCst), 2);
    assert!(start.elapsed() >= Duration::from_millis(50));
    assert_eq!(teardown(&mut pool), 1);
    assert_eq!(pool.phase(), Phase::Stopped);
}

#[test]
fn worker_records() {
    let mut w = Worker::new(3);
    assert_eq!(w.id(), 3);
    assert_eq!(w.state(), WorkerState::Idle);
    assert!(!w.is_joined());
    w.start_job();
    assert_eq!(w.state(), WorkerState::Running);
    w.finish_job();
    assert_eq!(w.state(), WorkerState::Idle);
    w.exit();
    assert_eq!(w.state(), WorkerState::Exited);
    w.mark_joined();
    assert!(w.is_joined());
}

#[test]
fn message_kinds() {
    assert!(Message::NewJob(1u8).is_job());
    assert!(!Message::<u8>::Terminate.is_job());
}
