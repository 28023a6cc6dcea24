//! Cooperative tasks: a task is a unique id plus a pollable future; polling
//! either completes it or yields until something arranges a wake-up.

use vstd::prelude::*;

pub mod executor;
pub mod keyboard;
pub mod simple_executor;

verus! {

/// What one poll of a task reports: done, or not yet.
#[derive(Debug, Clone, Copy, PartialEq, Eq, Structural)]
pub enum Poll {
    Ready,
    Pending,
}

/// The narrow contract a task's future offers the executors: polling
/// either produces the final (unit) result or yields.  Implementations
/// live with the embedding program; nothing is assumed of them.
pub trait Pollable {
    fn poll(&mut self) -> Poll;
}

/// Task identity: a number drawn from a monotonic counter, so no two
/// tasks ever share one.
#[derive(Debug, Clone, Copy, PartialEq, Eq, PartialOrd, Ord, Structural)]
pub struct TaskId(pub i64);

/// The counter task ids are drawn from.  The kernel keeps exactly one.
pub struct TaskIdAllocator {
    pub next: i64,
}

impl TaskIdAllocator {
    pub fn new() -> (r: TaskIdAllocator)
        ensures
            r.next == 0,
    {
        TaskIdAllocator { next: 0 }
    }
}

impl TaskId {
    /// Draw a fresh id: the ids a counter hands out strictly increase, so
    /// they are pairwise distinct.
    pub fn new(counter: &mut TaskIdAllocator) -> (r: TaskId)
        requires
            old(counter).next < i64::MAX,
        ensures
            r.0 == old(counter).next,
            final(counter).next == old(counter).next + 1,
    {
        let id = counter.next;
        counter.next = counter.next + 1;
        TaskId(id)
    }
}

/// A spawned task: its id and the future that drives it.  The task lives
/// from `new` until its first `Ready` poll.
pub struct Task<F: Pollable> {
    pub id: TaskId,
    pub future: F,
}

impl<F: Pollable> Task<F> {
    pub fn new(future: F, counter: &mut TaskIdAllocator) -> (r: Task<F>)
        requires
            old(counter).next < i64::MAX,
        ensures
            r.id.0 == old(counter).next,
            final(counter).next == old(counter).next + 1,
    {
        Task { id: TaskId::new(counter), future }
    }

    /// Poll the task's future once.  The outcome is the future's own; the
    /// task keeps its identity either way.
    pub fn poll(&mut self) -> (r: Poll)
        ensures
            final(self).id == old(self).id,
    {
        self.future.poll()
    }
}

} // verus!
