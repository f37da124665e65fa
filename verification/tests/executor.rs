use blog_os::task::PollStatus;
use blog_os::task::Task;
use blog_os::task::executor::Executor;
use blog_os::task::executor::TASK_QUEUE_CAPACITY;

#[test]
fn spawn_queues_first_poll() {
    let mut ex = Executor::new();
    ex.spawn(Task::new(5));
    assert!(ex.contains_task(5));
    assert_eq!(ex.next_ready(), Some(5));
    assert_eq!(ex.next_ready(), None);
    // No wake arrived, so nothing is ready, but the task is still there.
    assert!(ex.contains_task(5));
}

#[test]
fn ready_tasks_are_dropped_pending_tasks_sleep() {
    let mut ex = Executor::new();
    ex.spawn(Task::new(1));
    ex.spawn(Task::new(2));
    let first = ex.next_ready().unwrap();
    assert_eq!(first, 1);
    ex.handle_poll(first, PollStatus::Pending);
    let second = ex.next_ready().unwrap();
    assert_eq!(second, 2);
    ex.handle_poll(second, PollStatus::Ready);
    assert!(ex.contains_task(1));
    assert!(!ex.contains_task(2));
    // Only a wake makes the pending task ready again.
    assert_eq!(ex.next_ready(), None);
    assert!(ex.wake_task(1));
    assert_eq!(ex.next_ready(), Some(1));
}

#[test]
fn stale_wakes_are_skippable() {
    let mut ex = Executor::new();
    ex.spawn(Task::new(9));
    ex.wake_task(9);
    let id = ex.next_ready().unwrap();
    ex.handle_poll(id, PollStatus::Ready);
    // The second wake is still queued but names a finished task.
    let stale = ex.next_ready().unwrap();
    assert_eq!(stale, 9);
    assert!(!ex.contains_task(stale));
}

#[test]
fn full_wake_queue_drops_wakes() {
    let mut ex = Executor::new();
    ex.spawn(Task::new(0));
    for _ in 0..TASK_QUEUE_CAPACITY - 1 {
        assert!(ex.wake_task(0));
    }
    assert!(!ex.wake_task(0));
}
