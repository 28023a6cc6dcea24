//! The simple executor: a plain FIFO of tasks, each polled in turn and put
//! back while it stays pending.  It ignores wake-ups, so it burns polls;
//! its virtue is that when it reports completion, every task has finished.

use vstd::prelude::*;
use std::collections::VecDeque;
use crate::task::{Poll, Pollable, Task};

verus! {

pub struct SimpleExecutor<F: Pollable> {
    pub task_queue: VecDeque<Task<F>>,
}

impl<F: Pollable> SimpleExecutor<F> {
    pub fn new() -> (r: SimpleExecutor<F>)
        ensures
            r.task_queue@.len() == 0,
    {
        SimpleExecutor { task_queue: VecDeque::new() }
    }

    /// Add a task at the back of the queue.
    pub fn spawn(&mut self, task: Task<F>)
        ensures
            final(self).task_queue@ == old(self).task_queue@.push(task),
    {
        self.task_queue.push_back(task)
    }

    /// One scheduling step: pop the front task and poll it once with the
    /// no-op waker.  The task leaves the queue on `Ready` and goes to the
    /// back — its identity unchanged — on `Pending`; an empty queue
    /// reports nothing.
    pub fn run_step(&mut self) -> (outcome: Option<Poll>)
        ensures
            match outcome {
                None => {
                    &&& final(self).task_queue@ == old(self).task_queue@
                    &&& old(self).task_queue@.len() == 0
                },
                Some(p) => {
                    &&& old(self).task_queue@.len() > 0
                    &&& (p == Poll::Ready ==> final(self).task_queue@ == old(
                        self,
                    ).task_queue@.drop_first())
                    &&& (p == Poll::Pending ==> {
                        &&& final(self).task_queue@.len() == old(self).task_queue@.len()
                        &&& (forall|j: int|
                            0 <= j < old(self).task_queue@.len() - 1
                                ==> #[trigger] final(self).task_queue@[j] == old(
                                self,
                            ).task_queue@[j + 1])
                        &&& final(self).task_queue@.last().id == old(self).task_queue@.first().id
                    })
                },
            },
    {
        let mut task = match self.task_queue.pop_front() {
            Some(t) => t,
            None => {
                return None;
            },
        };
        match task.poll() {
            Poll::Ready => Some(Poll::Ready),
            Poll::Pending => {
                self.task_queue.push_back(task);
                Some(Poll::Pending)
            },
        }
    }

    /// Poll the queued tasks round-robin — each pass one [`Self::run_step`]
    /// — for at most `max_polls` polls.  A `true` result means the queue
    /// drained: every spawned task completed.
    pub fn run(&mut self, max_polls: usize) -> (completed: bool)
        ensures
            completed ==> final(self).task_queue@.len() == 0,
            completed == (final(self).task_queue@.len() == 0),
    {
        let mut polls: usize = 0;
        while polls < max_polls
            invariant
                polls <= max_polls,
            decreases max_polls - polls,
        {
            match self.run_step() {
                Some(_) => {
                    polls = polls + 1;
                },
                None => {
                    return true;
                },
            }
        }
        self.task_queue.len() == 0
    }
}

} // verus!
