use bunker::exception::BunkerError;
use bunker::internal::{Order, PoolPlan, WorkQueue};

#[test]
fn pool_of_zero_workers_is_refused() {
    let r = PoolPlan::new(0);
    assert!(matches!(r, Err(BunkerError::InvalidPoolSize(0))));
}

#[test]
fn threadpool_size() {
    let plan = PoolPlan::new(2).unwrap();
    assert_eq!(plan.get_size(), 2);
}

#[test]
fn worker_count() {
    let plan = PoolPlan::new(3).unwrap();
    let mock: Vec<usize> = vec![0, 1, 2];
    assert_eq!(mock, plan.worker_ids());
}

#[test]
fn queue_hands_out_tasks_in_submission_order_exactly_once() {
    let mut q: WorkQueue<u64> = WorkQueue::new();
    q.submit(1);
    q.submit(2);
    q.submit(3);
    q.shutdown(2);
    assert!(matches!(q.take(), Some(Order::Do(1))));
    assert!(matches!(q.take(), Some(Order::Do(2))));
    assert!(matches!(q.take(), Some(Order::Do(3))));
    assert!(matches!(q.take(), Some(Order::Stop)));
    assert!(matches!(q.take(), Some(Order::Stop)));
    assert!(matches!(q.take(), None));
}

#[test]
fn stop_sentinels_queue_behind_pending_tasks() {
    let mut q: WorkQueue<u64> = WorkQueue::new();
    q.submit(10);
    q.shutdown(1);
    q.submit(11);
    assert!(matches!(q.take(), Some(Order::Do(10))));
    assert!(matches!(q.take(), Some(Order::Stop)));
    assert!(matches!(q.take(), Some(Order::Do(11))));
    assert!(matches!(q.take(), None));
}
