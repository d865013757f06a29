use minigrep::pool::{Delivery, PoolCreationError, ThreadPool, WorkerState};
use std::cell::{Cell, RefCell};
use std::rc::Rc;

type Job = Box<dyn FnOnce()>;

/// Lets the workers take turns until every one of them has exited.
fn run_to_exit(pool: &mut ThreadPool<Job>) -> usize {
    let mut exits = 0;
    while exits < pool.size() {
        for w in 0..pool.size() {
            if pool.worker_state(w) != WorkerState::Idle {
                continue;
            }
            match pool.receive(w) {
                Delivery::Job(job) => {
                    job();
                    pool.finish(w);
                }
                Delivery::Closed => exits += 1,
                Delivery::Wait => {}
            }
        }
    }
    exits
}

#[test]
fn zero_size_is_rejected() {
    let r: Result<ThreadPool<Job>, PoolCreationError> = ThreadPool::build(0);
    assert_eq!(r.err(), Some(PoolCreationError));
    assert_eq!(
        PoolCreationError.message(),
        "Error has ocurred while the Thread Poll has been created"
    );
}

#[test]
fn build_makes_idle_workers() {
    let pool: ThreadPool<Job> = ThreadPool::build(3).ok().unwrap();
    assert_eq!(pool.size(), 3);
    assert!(pool.is_open());
    assert_eq!(pool.pending(), 0);
    for w in 0..3 {
        assert_eq!(pool.worker_state(w), WorkerState::Idle);
    }
}

#[test]
fn idle_teardown_exits_every_worker() {
    for n in 1..6 {
        let mut pool: ThreadPool<Job> = ThreadPool::new(n);
        pool.close();
        assert_eq!(run_to_exit(&mut pool), n);
        for w in 0..n {
            assert_eq!(pool.worker_state(w), WorkerState::Exited);
        }
    }
}

#[test]
fn open_empty_queue_makes_worker_wait() {
    let mut pool: ThreadPool<Job> = ThreadPool::new(2);
    assert!(matches!(pool.receive(1), Delivery::Wait));
    assert_eq!(pool.worker_state(1), WorkerState::Idle);
}

#[test]
fn hundred_jobs_on_four_workers() {
    let counter = Rc::new(Cell::new(0u32));
    let mut pool: ThreadPool<Job> = ThreadPool::new(4);
    for _ in 0..100 {
        let c = Rc::clone(&counter);
        assert!(pool.execute(Box::new(move || c.set(c.get() + 1))).is_ok());
    }
    assert_eq!(pool.pending(), 100);
    pool.close();
    assert_eq!(run_to_exit(&mut pool), 4);
    assert_eq!(counter.get(), 100);
    assert_eq!(pool.pending(), 0);
}

#[test]
fn single_worker_runs_in_submission_order() {
    let log = Rc::new(RefCell::new(Vec::new()));
    let mut pool: ThreadPool<Job> = ThreadPool::new(1);
    let a = Rc::clone(&log);
    let b = Rc::clone(&log);
    pool.execute(Box::new(move || a.borrow_mut().push("A done"))).ok().unwrap();
    pool.execute(Box::new(move || b.borrow_mut().push("B"))).ok().unwrap();
    pool.close();
    run_to_exit(&mut pool);
    assert_eq!(*log.borrow(), vec!["A done", "B"]);
}

#[test]
fn jobs_leave_in_submission_order() {
    let mut pool: ThreadPool<u32> = ThreadPool::new(3);
    for k in 0..5u32 {
        assert!(pool.execute(k).is_ok());
    }
    let mut seen = Vec::new();
    for w in 0..3 {
        match pool.receive(w) {
            Delivery::Job(k) => seen.push(k),
            _ => panic!("expected a job"),
        }
        assert_eq!(pool.worker_state(w), WorkerState::Busy);
    }
    assert_eq!(seen, vec![0, 1, 2]);
    pool.finish(1);
    match pool.receive(1) {
        Delivery::Job(k) => assert_eq!(k, 3),
        _ => panic!("expected a job"),
    }
    assert_eq!(pool.pending(), 1);
}

#[test]
fn closed_queue_is_drained_before_exit() {
    let mut pool: ThreadPool<u32> = ThreadPool::new(1);
    pool.execute(7).ok().unwrap();
    pool.close();
    assert!(matches!(pool.receive(0), Delivery::Job(7)));
    pool.finish(0);
    assert!(matches!(pool.receive(0), Delivery::Closed));
    assert_eq!(pool.worker_state(0), WorkerState::Exited);
}

#[test]
fn execute_after_close_hands_job_back() {
    let mut pool: ThreadPool<u32> = ThreadPool::new(2);
    pool.close();
    assert!(!pool.is_open());
    assert_eq!(pool.execute(9), Err(9));
    assert_eq!(pool.pending(), 0);
}
