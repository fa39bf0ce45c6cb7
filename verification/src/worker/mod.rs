//! A task and the interval at which it is to be run.

use vstd::prelude::*;

verus! {

/// A task to be run again and again, `interval` milliseconds apart. The
/// worker only holds the two; running is left to whoever owns a thread.
pub struct Worker<F> where F: Fn() + Send + Clone + 'static {
    task: F,
    interval: u64,
}

impl<F> Worker<F> where F: Fn() + Send + Clone + 'static {
    pub closed spec fn spec_interval(&self) -> u64 {
        self.interval
    }

    pub closed spec fn spec_task(&self) -> F {
        self.task
    }

    pub fn new(interval: u64, task: F) -> (worker: Self)
        ensures
            worker.spec_interval() == interval,
            worker.spec_task() == task,
    {
        Worker { task, interval }
    }

    /// The pause between two runs, in milliseconds.
    pub fn interval(&self) -> (ms: u64)
        ensures
            ms == self.spec_interval(),
    {
        self.interval
    }

    /// The task.
    pub fn task(&self) -> (task: &F)
        ensures
            *task == self.spec_task(),
    {
        &self.task
    }
}

} // verus!
