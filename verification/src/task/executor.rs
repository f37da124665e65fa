//! The waking executor.
//!
//! Unlike the simple executor, which re-polls every pending task on every
//! round, this executor polls a task only when something has woken it: the
//! spawned tasks live in a map by identifier, and a bounded queue carries
//! the identifiers that are ready to be polled.  A task's waker pushes its
//! identifier onto that queue from wherever the wake happens (the kernel
//! shares the queue with interrupt handlers, which is why it is bounded and
//! why a full queue drops the wake).  What is verified here is the
//! bookkeeping discipline: spawning, waking, picking the next ready task,
//! and dropping or keeping a task after a poll.  The wakers themselves and
//! the polling loop live with the unverified runner.

use vstd::prelude::*;
use vstd::std_specs::btree::group_btree_axioms;

use std::collections::BTreeMap;
use std::collections::VecDeque;

use crate::task::PollStatus;
use crate::task::Task;

verus! {

broadcast use group_btree_axioms;

/// How many ready identifiers the wake queue can hold.
pub const TASK_QUEUE_CAPACITY: usize = 100;

/// The mathematical state of the waking executor: the ready queue, front
/// first, and the spawned tasks by identifier.
pub ghost struct ExecutorModel {
    pub queue: Seq<usize>,
    pub tasks: Map<usize, Task>,
}

/// The waking executor.
pub struct Executor {
    task_queue: VecDeque<usize>,
    tasks: BTreeMap<usize, Task>,
}

impl View for Executor {
    type V = ExecutorModel;

    closed spec fn view(&self) -> ExecutorModel {
        ExecutorModel { queue: self.task_queue@, tasks: self.tasks@ }
    }
}

impl Executor {
    /// Creates an executor with no tasks and an empty ready queue.
    pub fn new() -> (r: Executor)
        ensures
            r@.queue == Seq::<usize>::empty(),
            r@.tasks == Map::<usize, Task>::empty(),
    {
        Executor { task_queue: VecDeque::new(), tasks: BTreeMap::new() }
    }

    /// Registers a task and queues it for its first poll.  The ready queue
    /// must have room; spawning with a full queue is a startup error the
    /// kernel stops on.
    pub fn spawn(&mut self, task: Task)
        requires
            old(self)@.queue.len() < TASK_QUEUE_CAPACITY,
        ensures
            final(self)@.tasks == old(self)@.tasks.insert(task.spec_id(), task),
            final(self)@.queue == old(self)@.queue.push(task.spec_id()),
    {
        let task_id = task.id();
        self.tasks.insert(task_id, task);
        self.task_queue.push_back(task_id);
    }

    /// What a task's waker does: queues the identifier to be polled.  A full
    /// queue drops the wake.
    pub fn wake_task(&mut self, id: usize) -> (kept: bool)
        ensures
            final(self)@.tasks == old(self)@.tasks,
            old(self)@.queue.len() < TASK_QUEUE_CAPACITY ==> kept && final(self)@.queue == old(
                self,
            )@.queue.push(id),
            old(self)@.queue.len() >= TASK_QUEUE_CAPACITY ==> !kept && final(self)@.queue == old(
                self,
            )@.queue,
    {
        if self.task_queue.len() < TASK_QUEUE_CAPACITY {
            self.task_queue.push_back(id);
            true
        } else {
            false
        }
    }

    /// Takes the identifier at the front of the ready queue; nothing when no
    /// wake is pending, which ends one round of the runner's loop.  The
    /// identifier may name a task that has already finished: the runner
    /// checks with `contains_task` and skips such stale wakes.
    pub fn next_ready(&mut self) -> (r: Option<usize>)
        ensures
            final(self)@.tasks == old(self)@.tasks,
            match r {
                Some(id) => {
                    &&& old(self)@.queue.len() > 0
                    &&& id == old(self)@.queue[0]
                    &&& final(self)@.queue == old(self)@.queue.drop_first()
                },
                None => {
                    &&& old(self)@.queue.len() == 0
                    &&& final(self)@.queue == old(self)@.queue
                },
            },
    {
        let r = self.task_queue.pop_front();
        proof {
            if r is Some {
                assert(self@.queue =~= old(self)@.queue.drop_first());
            }
        }
        r
    }

    /// Whether a spawned task is still registered under this identifier.
    pub fn contains_task(&self, id: usize) -> (r: bool)
        ensures
            r == self@.tasks.contains_key(id),
    {
        self.tasks.contains_key(&id)
    }

    /// Decides what happens to a polled task: a finished task is dropped
    /// from the registry (the runner drops its waker alongside), a pending
    /// one stays registered and sleeps until its waker queues it again.
    pub fn handle_poll(&mut self, id: usize, status: PollStatus)
        ensures
            final(self)@.queue == old(self)@.queue,
            status is Ready ==> final(self)@.tasks == old(self)@.tasks.remove(id),
            status is Pending ==> final(self)@.tasks == old(self)@.tasks,
    {
        match status {
            PollStatus::Ready => {
                self.tasks.remove(&id);
            },
            PollStatus::Pending => {},
        }
    }
}

} // verus!
