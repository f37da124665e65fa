//! The simple round-robin executor.
//!
//! Tasks wait in a queue.  The runner takes the front task, polls its
//! future, and reports the outcome: a finished task is dropped, a pending
//! one goes to the back of the queue.  The queue discipline is what is
//! verified here; the polling loop itself lives with the unverified runner,
//! which alternates `next_task` and `handle_poll` until the queue is empty.

use vstd::prelude::*;

use std::collections::VecDeque;

use crate::task::PollStatus;
use crate::task::Task;

verus! {

/// The simple executor: a queue of spawned tasks, front first.
pub struct SimpleExecutor {
    task_queue: VecDeque<Task>,
}

impl View for SimpleExecutor {
    type V = Seq<Task>;

    closed spec fn view(&self) -> Seq<Task> {
        self.task_queue@
    }
}

impl SimpleExecutor {
    /// Creates an executor with no tasks.
    pub fn new() -> (r: SimpleExecutor)
        ensures
            r@ == Seq::<Task>::empty(),
    {
        SimpleExecutor { task_queue: VecDeque::new() }
    }

    /// Queues a task behind all already spawned tasks.
    pub fn spawn(&mut self, task: Task)
        ensures
            final(self)@ == old(self)@.push(task),
    {
        self.task_queue.push_back(task)
    }

    /// Takes the front task out of the queue so the runner can poll its
    /// future; nothing when the queue is empty, which ends the runner's
    /// loop.
    pub fn next_task(&mut self) -> (r: Option<Task>)
        ensures
            match r {
                Some(task) => {
                    &&& old(self)@.len() > 0
                    &&& task == old(self)@[0]
                    &&& final(self)@ == old(self)@.drop_first()
                },
                None => {
                    &&& old(self)@.len() == 0
                    &&& final(self)@ == old(self)@
                },
            },
    {
        let r = self.task_queue.pop_front();
        proof {
            if r is Some {
                assert(self@ =~= old(self)@.drop_first());
            }
        }
        r
    }

    /// Decides what happens to a polled task: a finished task is dropped, a
    /// pending one goes to the back of the queue to be polled again.
    pub fn handle_poll(&mut self, task: Task, status: PollStatus)
        ensures
            status is Pending ==> final(self)@ == old(self)@.push(task),
            status is Ready ==> final(self)@ == old(self)@,
    {
        match status {
            PollStatus::Ready => {},
            PollStatus::Pending => self.task_queue.push_back(task),
        }
    }
}

} // verus!
