//! Cooperative tasks.
//!
//! A task is one spawned unit of cooperative work.  The future that does the
//! work cannot be modeled here: it stays with the unverified runner that
//! polls it, and a `Task` names it by an identifier the runner assigns.  The
//! executors in the submodules decide, from the reported poll status alone,
//! what happens to a task next; the runner performs the polling and reports
//! back.

use vstd::prelude::*;

pub mod executor;
pub mod keyboard;
pub mod simple_executor;

verus! {

/// One spawned unit of cooperative work, named by the identifier of the
/// future it names.
#[derive(Debug, Clone, Copy, PartialEq, Eq, Structural)]
pub struct Task {
    id: usize,
}

impl Task {
    /// The task's identifier.
    pub closed spec fn spec_id(self) -> usize {
        self.id
    }

    /// Creates a task for the future the runner keeps under `id`.
    pub fn new(id: usize) -> (r: Task)
        ensures
            r.spec_id() == id,
    {
        Task { id }
    }

    /// The task's identifier.
    pub fn id(&self) -> (r: usize)
        ensures
            r == self.spec_id(),
    {
        self.id
    }
}

/// What polling a task's future reported: the task finished, or it is
/// waiting and must be asked again.
#[derive(Debug, Clone, Copy, PartialEq, Eq, Structural)]
pub enum PollStatus {
    Ready,
    Pending,
}

} // verus!
