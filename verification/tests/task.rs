use blog_os::task::PollStatus;
use blog_os::task::Task;
use blog_os::task::keyboard::DecodedInput;
use blog_os::task::keyboard::ScancodeQueue;
use blog_os::task::keyboard::decode_scancode;
use blog_os::task::keyboard::new_keyboard;
use blog_os::task::simple_executor::SimpleExecutor;

#[test]
fn task_keeps_its_id() {
    let t = Task::new(7);
    assert_eq!(t.id(), 7);
}

#[test]
fn executor_runs_tasks_in_spawn_order() {
    let mut ex = SimpleExecutor::new();
    ex.spawn(Task::new(1));
    ex.spawn(Task::new(2));
    ex.spawn(Task::new(3));
    assert_eq!(ex.next_task().map(|t| t.id()), Some(1));
    assert_eq!(ex.next_task().map(|t| t.id()), Some(2));
    assert_eq!(ex.next_task().map(|t| t.id()), Some(3));
    assert_eq!(ex.next_task().map(|t| t.id()), None);
}

#[test]
fn pending_tasks_requeue_and_ready_tasks_drop() {
    let mut ex = SimpleExecutor::new();
    ex.spawn(Task::new(1));
    ex.spawn(Task::new(2));
    let t1 = ex.next_task().unwrap();
    ex.handle_poll(t1, PollStatus::Pending);
    let t2 = ex.next_task().unwrap();
    ex.handle_poll(t2, PollStatus::Ready);
    // Task 1 went to the back of the queue; task 2 is gone.
    assert_eq!(ex.next_task().map(|t| t.id()), Some(1));
    assert_eq!(ex.next_task().map(|t| t.id()), None);
}

#[test]
fn scancode_queue_is_bounded_fifo() {
    let mut q = ScancodeQueue::new(2);
    assert!(q.add_scancode(0x1e));
    assert!(q.add_scancode(0x9e));
    // The queue is full: the scancode is dropped.
    assert!(!q.add_scancode(0x30));
    assert_eq!(q.pop_scancode(), Some(0x1e));
    assert_eq!(q.pop_scancode(), Some(0x9e));
    assert_eq!(q.pop_scancode(), None);
    assert!(q.add_scancode(0x30));
    assert_eq!(q.pop_scancode(), Some(0x30));
}

#[test]
fn decode_scancode_decodes_a_key_press() {
    // Scancode 0x1e in set 1 is the press of the A key, which the US layout
    // maps to the character 'a'; 0x9e is its release, which maps to nothing.
    let mut kb = new_keyboard();
    assert_eq!(decode_scancode(&mut kb, 0x1e), Some(DecodedInput::Unicode('a')));
    assert_eq!(decode_scancode(&mut kb, 0x9e), None);
}

#[test]
fn decode_scancode_tracks_shift_state() {
    let mut kb = new_keyboard();
    // 0x2a is the left shift press: a key with no printable equivalent.
    assert!(matches!(decode_scancode(&mut kb, 0x2a), Some(DecodedInput::RawKey(_))));
    // With shift held, the A key gives 'A'.
    assert_eq!(decode_scancode(&mut kb, 0x1e), Some(DecodedInput::Unicode('A')));
}
