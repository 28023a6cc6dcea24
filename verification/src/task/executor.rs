//! The waking executor: tasks keyed by id, a bounded lock-free queue of
//! woken ids shared with the wakers, and a cache of which tasks have a
//! waker built.  A drain polls exactly the woken tasks, skipping stale
//! ids, and retires a task — and its waker — on `Ready`.

use vstd::prelude::*;
use crossbeam_queue::ArrayQueue;
use crate::task::{Poll, Pollable, Task, TaskId};

verus! {

/// How many woken task ids the ready queue can hold.
pub const READY_QUEUE_CAPACITY: usize = 100;

/// What a ready queue holds, front first.
pub uninterp spec fn task_queue_contents(q: TaskIdQueue) -> Seq<i64>;

/// The fixed capacity a ready queue was created with.
pub uninterp spec fn task_queue_capacity(q: TaskIdQueue) -> nat;

/// The bounded queue of woken task ids.  It wraps the lock-free array
/// queue of an outside crate, whose pushes are safe from interrupt
/// context: they never block and never allocate.
#[verifier::external_body]
pub struct TaskIdQueue {
    inner: ArrayQueue<i64>,
}

impl TaskIdQueue {
    /// Relies on crossbeam-queue's ArrayQueue::new: an empty bounded queue
    /// of the given (non-zero) capacity.
    #[verifier::external_body]
    fn new(capacity: usize) -> (r: TaskIdQueue)
        requires
            capacity >= 1,
        ensures
            task_queue_contents(r) == Seq::<i64>::empty(),
            task_queue_capacity(r) == capacity,
    {
        TaskIdQueue { inner: ArrayQueue::new(capacity) }
    }

    /// Relies on crossbeam-queue's ArrayQueue::push: appends at the back,
    /// failing exactly when the queue is at capacity.
    #[verifier::external_body]
    fn push(&mut self, id: i64) -> (r: bool)
        ensures
            task_queue_capacity(*final(self)) == task_queue_capacity(*old(self)),
            r == (task_queue_contents(*old(self)).len() < task_queue_capacity(*old(self))),
            r ==> task_queue_contents(*final(self)) == task_queue_contents(*old(self)).push(id),
            !r ==> task_queue_contents(*final(self)) == task_queue_contents(*old(self)),
    {
        self.inner.push(id).is_ok()
    }

    /// Relies on crossbeam-queue's ArrayQueue::pop: takes the front
    /// element, or reports the queue empty.
    #[verifier::external_body]
    fn pop(&mut self) -> (r: Option<i64>)
        ensures
            task_queue_capacity(*final(self)) == task_queue_capacity(*old(self)),
            match r {
                Some(id) => task_queue_contents(*old(self)).len() > 0 && id
                    == task_queue_contents(*old(self))[0] && task_queue_contents(*final(self))
                    == task_queue_contents(*old(self)).drop_first(),
                None => task_queue_contents(*old(self)).len() == 0 && task_queue_contents(
                    *final(self),
                ) == task_queue_contents(*old(self)),
            },
    {
        self.inner.pop().ok()
    }

    /// Relies on crossbeam-queue's ArrayQueue::len: how many elements the
    /// queue holds.
    #[verifier::external_body]
    fn len(&self) -> (r: usize)
        ensures
            r == task_queue_contents(*self).len(),
    {
        self.inner.len()
    }
}

/// The executor: the live tasks, the shared ready queue, and the ids that
/// already have a waker cached.  Ids are unique among the tasks, and every
/// cached waker belongs to a live task.
pub struct Executor<F: Pollable> {
    pub tasks: Vec<Task<F>>,
    pub task_queue: TaskIdQueue,
    pub waker_cache: Vec<TaskId>,
}

impl<F: Pollable> Executor<F> {
    /// The ids of the live tasks, in table order.
    pub open spec fn task_ids(self) -> Seq<i64> {
        self.tasks@.map_values(|t: Task<F>| t.id.0)
    }

    /// The ids with a cached waker.
    pub open spec fn waker_ids(self) -> Seq<i64> {
        self.waker_cache@.map_values(|w: TaskId| w.0)
    }

    /// The executor's invariants: the ready queue has its build-time
    /// capacity; no two tasks share an id; the waker cache names each task
    /// at most once, and only live tasks.
    pub open spec fn wf(self) -> bool {
        &&& task_queue_capacity(self.task_queue) == READY_QUEUE_CAPACITY
        &&& forall|i: int, j: int|
            0 <= i < self.task_ids().len() && 0 <= j < self.task_ids().len() && i != j
                ==> self.task_ids()[i] != self.task_ids()[j]
        &&& forall|i: int, j: int|
            0 <= i < self.waker_ids().len() && 0 <= j < self.waker_ids().len() && i != j
                ==> self.waker_ids()[i] != self.waker_ids()[j]
        &&& forall|k: int|
            0 <= k < self.waker_ids().len() ==> self.task_ids().contains(
                #[trigger] self.waker_ids()[k],
            )
    }

    /// A fresh executor: no tasks, an empty ready queue of the fixed
    /// capacity, no wakers.
    pub fn new() -> (r: Executor<F>)
        ensures
            r.wf(),
            r.tasks@.len() == 0,
            r.waker_cache@.len() == 0,
            task_queue_contents(r.task_queue) == Seq::<i64>::empty(),
    {
        Executor {
            tasks: Vec::new(),
            task_queue: TaskIdQueue::new(READY_QUEUE_CAPACITY),
            waker_cache: Vec::new(),
        }
    }

    /// Take a task in and mark it ready.  The id must be fresh — a
    /// duplicate would be a bug in id allocation — and the ready queue must
    /// have room.
    pub fn spawn(&mut self, task: Task<F>)
        requires
            old(self).wf(),
            forall|i: int|
                0 <= i < old(self).task_ids().len() ==> old(self).task_ids()[i] != task.id.0,
            task_queue_contents(old(self).task_queue).len() < READY_QUEUE_CAPACITY,
        ensures
            final(self).wf(),
            final(self).tasks@ == old(self).tasks@.push(task),
            final(self).waker_cache@ == old(self).waker_cache@,
            task_queue_contents(final(self).task_queue) == task_queue_contents(
                old(self).task_queue,
            ).push(task.id.0),
    {
        let task_id = task.id;
        self.tasks.push(task);
        let _accepted = self.task_queue.push(task_id.0);
        proof {
            assert(self.task_ids() =~= old(self).task_ids().push(task.id.0));
            assert(self.waker_ids() =~= old(self).waker_ids());
            assert forall|k: int| 0 <= k < self.waker_ids().len() implies self.task_ids().contains(
                #[trigger] self.waker_ids()[k],
            ) by {
                assert(old(self).task_ids().contains(old(self).waker_ids()[k]));
                let i = choose|i: int|
                    0 <= i < old(self).task_ids().len() && old(self).task_ids()[i] == old(
                        self,
                    ).waker_ids()[k];
                assert(self.task_ids()[i] == self.waker_ids()[k]);
            }
        }
    }

    /// How many woken ids wait in the ready queue; callers test this
    /// before spawning or waking, the queue being bounded.
    pub fn ready_len(&self) -> (r: usize)
        ensures
            r == task_queue_contents(self.task_queue).len(),
    {
        self.task_queue.len()
    }

    /// What a task's waker does when fired: put the id back on the shared
    /// queue.  The queue must have room — an overflow would mean the
    /// capacity was misconfigured for the workload.
    pub fn wake(&mut self, id: TaskId)
        requires
            old(self).wf(),
            task_queue_contents(old(self).task_queue).len() < READY_QUEUE_CAPACITY,
        ensures
            final(self).wf(),
            final(self).tasks@ == old(self).tasks@,
            final(self).waker_cache@ == old(self).waker_cache@,
            task_queue_contents(final(self).task_queue) == task_queue_contents(
                old(self).task_queue,
            ).push(id.0),
    {
        let _accepted = self.task_queue.push(id.0);
        proof {
            assert(self.task_ids() =~= old(self).task_ids());
            assert(self.waker_ids() =~= old(self).waker_ids());
            assert forall|k: int| 0 <= k < self.waker_ids().len() implies self.task_ids().contains(
                #[trigger] self.waker_ids()[k],
            ) by {
                assert(old(self).task_ids().contains(old(self).waker_ids()[k]));
                let i = choose|i: int|
                    0 <= i < old(self).task_ids().len() && old(self).task_ids()[i] == old(
                        self,
                    ).waker_ids()[k];
                assert(self.task_ids()[i] == self.waker_ids()[k]);
            }
        }
    }

    /// The index of the task with this id, if it is still live.
    fn find_task(&self, id: i64) -> (r: Option<usize>)
        ensures
            match r {
                Some(i) => i < self.tasks@.len() && self.task_ids()[i as int] == id,
                None => forall|i: int|
                    0 <= i < self.task_ids().len() ==> self.task_ids()[i] != id,
            },
    {
        let mut i: usize = 0;
        while i < self.tasks.len()
            invariant
                i <= self.tasks@.len(),
                forall|j: int| 0 <= j < i ==> self.task_ids()[j] != id,
            decreases self.tasks@.len() - i,
        {
            if self.tasks[i].id.0 == id {
                return Some(i);
            }
            i = i + 1;
        }
        None
    }

    /// The index of this id in the waker cache, if a waker was built.
    fn find_waker(&self, id: i64) -> (r: Option<usize>)
        ensures
            match r {
                Some(i) => i < self.waker_cache@.len() && self.waker_ids()[i as int] == id,
                None => forall|i: int|
                    0 <= i < self.waker_ids().len() ==> self.waker_ids()[i] != id,
            },
    {
        let mut i: usize = 0;
        while i < self.waker_cache.len()
            invariant
                i <= self.waker_cache@.len(),
                forall|j: int| 0 <= j < i ==> self.waker_ids()[j] != id,
            decreases self.waker_cache@.len() - i,
        {
            if self.waker_cache[i].0 == id {
                return Some(i);
            }
            i = i + 1;
        }
        None
    }

    /// Handle one woken id.  A stale id — its task already finished —
    /// changes nothing and reports nothing.  A live task gets a waker
    /// cached — built here if this is its first poll — and is polled once:
    /// on `Ready` it retires together with exactly its waker, on `Pending`
    /// it stays in place, waker and all, until something wakes it again.
    pub fn poll_task(&mut self, task_id: i64) -> (outcome: Option<Poll>)
        requires
            old(self).wf(),
        ensures
            final(self).wf(),
            task_queue_contents(final(self).task_queue) == task_queue_contents(
                old(self).task_queue,
            ),
            match outcome {
                None => {
                    &&& final(self).tasks@ == old(self).tasks@
                    &&& final(self).waker_cache@ == old(self).waker_cache@
                    &&& !old(self).task_ids().contains(task_id)
                },
                Some(p) => {
                    &&& old(self).task_ids().contains(task_id)
                    &&& (p == Poll::Ready ==> {
                        &&& (exists|i: int|
                            0 <= i < old(self).tasks@.len() && old(self).tasks@[i].id.0 == task_id
                                && final(self).tasks@ == #[trigger] old(self).tasks@.remove(i))
                        &&& !final(self).task_ids().contains(task_id)
                        &&& !final(self).waker_ids().contains(task_id)
                        &&& (forall|x: i64|
                            x != task_id ==> #[trigger] final(self).task_ids().contains(x) == old(
                                self,
                            ).task_ids().contains(x))
                        &&& (forall|x: i64|
                            x != task_id ==> #[trigger] final(self).waker_ids().contains(x) == old(
                                self,
                            ).waker_ids().contains(x))
                    })
                    &&& (p == Poll::Pending ==> {
                        &&& final(self).task_ids() == old(self).task_ids()
                        &&& (forall|j: int|
                            0 <= j < old(self).tasks@.len() && old(self).tasks@[j].id.0 != task_id
                                ==> #[trigger] final(self).tasks@[j] == old(self).tasks@[j])
                        &&& final(self).waker_ids().contains(task_id)
                        &&& (old(self).waker_ids().contains(task_id) ==> final(self).waker_cache@
                            == old(self).waker_cache@)
                        &&& (!old(self).waker_ids().contains(task_id) ==> final(self).waker_cache@
                            == old(self).waker_cache@.push(TaskId(task_id)))
                    })
                },
            },
    {
        let i = match self.find_task(task_id) {
            Some(i) => i,
            None => {
                return None;
            },
        };
        let cached = self.find_waker(task_id).is_some();
        if !cached {
            let ghost before = *self;
            self.waker_cache.push(TaskId(task_id));
            proof {
                lemma_push_waker_wf(before, *self, task_id, i as int);
                assert(self.task_ids() =~= before.task_ids());
                assert(self.waker_ids() =~= before.waker_ids().push(task_id));
            }
        }
        let ghost mid = *self;
        let mut task = self.tasks.remove(i);
        proof {
            assert(self.waker_ids() =~= mid.waker_ids());
            assert(mid.task_ids() =~= old(self).task_ids());
            assert(mid.task_ids().contains(task_id)) by {
                assert(mid.task_ids()[i as int] == task_id);
            }
        }
        match task.poll() {
            Poll::Ready => {
                // task done: retire it and its cached waker
                match self.find_waker(task_id) {
                    Some(w) => {
                        let ghost wi = w as int;
                        self.waker_cache.remove(w);
                        proof {
                            assert(mid.waker_ids()[wi] == task_id);
                            assert(self.waker_cache@ == mid.waker_cache@.remove(wi));
                            assert(waker_drop_rel(mid, *self, task_id));
                        }
                    },
                    None => {
                        proof {
                            assert forall|k: int| 0 <= k < mid.waker_ids().len() implies
                                mid.waker_ids()[k] != task_id by {}
                            assert(waker_drop_rel(mid, *self, task_id));
                        }
                    },
                }
                proof {
                    lemma_retire_task_wf(mid, *self, i as int, task_id);
                    assert(self.tasks@ == old(self).tasks@.remove(i as int));
                    assert(old(self).tasks@[i as int].id.0 == task_id);
                    // the waker cache differs from the caller's only at
                    // `task_id`, which is gone either way
                    assert forall|x: i64| x != task_id implies #[trigger] self.waker_ids().contains(
                        x,
                    ) == old(self).waker_ids().contains(x) by {
                        if !cached {
                            assert(mid.waker_ids() =~= old(self).waker_ids().push(task_id));
                            if old(self).waker_ids().contains(x) {
                                let k = choose|k: int|
                                    0 <= k < old(self).waker_ids().len() && old(self).waker_ids()[k]
                                        == x;
                                assert(mid.waker_ids()[k] == x);
                            }
                            if mid.waker_ids().contains(x) {
                                let k = choose|k: int|
                                    0 <= k < mid.waker_ids().len() && mid.waker_ids()[k] == x;
                                assert(k < old(self).waker_ids().len());
                                assert(old(self).waker_ids()[k] == x);
                            }
                        }
                    }
                }
                Some(Poll::Ready)
            },
            Poll::Pending => {
                self.tasks.insert(i, task);
                proof {
                    assert(self.task_ids() =~= mid.task_ids());
                    assert(self.waker_ids() =~= mid.waker_ids());
                    assert forall|k: int| 0 <= k < self.waker_ids().len() implies
                        self.task_ids().contains(#[trigger] self.waker_ids()[k]) by {
                        assert(mid.task_ids().contains(mid.waker_ids()[k]));
                        let j = choose|j: int|
                            0 <= j < mid.task_ids().len() && mid.task_ids()[j]
                                == mid.waker_ids()[k];
                        assert(self.task_ids()[j] == self.waker_ids()[k]);
                    }
                    assert forall|k1: int, k2: int|
                        0 <= k1 < self.task_ids().len() && 0 <= k2 < self.task_ids().len() && k1
                            != k2 implies self.task_ids()[k1] != self.task_ids()[k2] by {
                        assert(self.task_ids()[k1] == mid.task_ids()[k1]);
                        assert(self.task_ids()[k2] == mid.task_ids()[k2]);
                    }
                    assert(self.waker_ids().contains(task_id)) by {
                        if cached {
                            let w = choose|w: int|
                                0 <= w < old(self).waker_ids().len() && old(self).waker_ids()[w]
                                    == task_id;
                            assert(mid.waker_ids()[w] == task_id);
                        } else {
                            assert(mid.waker_ids() =~= old(self).waker_ids().push(task_id));
                            assert(mid.waker_ids()[old(self).waker_ids().len() as int]
                                == task_id);
                        }
                        assert(self.waker_ids() =~= mid.waker_ids());
                    }
                    assert forall|j: int|
                        0 <= j < old(self).tasks@.len() && old(self).tasks@[j].id.0 != task_id
                        implies #[trigger] self.tasks@[j] == old(self).tasks@[j] by {
                        assert(j != i as int);
                    }
                }
                Some(Poll::Pending)
            },
        }
    }

    /// Drain the ready queue, handling each woken id with [`Self::poll_task`]:
    /// stale ids are skipped, live woken tasks are polled, and a task
    /// retires — with its waker — exactly on a `Ready` poll.  When this
    /// returns the ready queue is empty; every surviving task was already
    /// held before, a task that was never woken still stands untouched,
    /// wakers were built only for woken tasks, and a surviving task keeps
    /// its waker.
    pub fn run_ready_tasks(&mut self)
        requires
            old(self).wf(),
        ensures
            final(self).wf(),
            task_queue_contents(final(self).task_queue).len() == 0,
            forall|i: int|
                0 <= i < final(self).task_ids().len() ==> old(self).task_ids().contains(
                    #[trigger] final(self).task_ids()[i],
                ),
            forall|id: i64|
                old(self).task_ids().contains(id) && !task_queue_contents(
                    old(self).task_queue,
                ).contains(id) ==> #[trigger] final(self).task_ids().contains(id),
            forall|id: i64|
                #[trigger] final(self).waker_ids().contains(id) && !old(
                    self,
                ).waker_ids().contains(id) ==> task_queue_contents(old(self).task_queue).contains(
                    id,
                ),
            forall|id: i64|
                #[trigger] final(self).task_ids().contains(id) && old(self).waker_ids().contains(
                    id,
                ) ==> final(self).waker_ids().contains(id),
    {
        let ghost orig = *old(self);
        loop
            invariant
                self.wf(),
                forall|j: int|
                    0 <= j < task_queue_contents(self.task_queue).len() ==> task_queue_contents(
                        orig.task_queue,
                    ).contains(#[trigger] task_queue_contents(self.task_queue)[j]),
                forall|id: i64|
                    #[trigger] self.task_ids().contains(id) ==> orig.task_ids().contains(id),
                forall|id: i64|
                    orig.task_ids().contains(id) && !task_queue_contents(
                        orig.task_queue,
                    ).contains(id) ==> #[trigger] self.task_ids().contains(id),
                forall|id: i64|
                    #[trigger] self.waker_ids().contains(id) && !orig.waker_ids().contains(id)
                        ==> task_queue_contents(orig.task_queue).contains(id),
                forall|id: i64|
                    #[trigger] self.task_ids().contains(id) && orig.waker_ids().contains(id)
                        ==> self.waker_ids().contains(id),
            ensures
                task_queue_contents(self.task_queue).len() == 0,
            decreases task_queue_contents(self.task_queue).len(),
        {
            let ghost pre = *self;
            let task_id = match self.task_queue.pop() {
                Some(id) => id,
                None => {
                    proof {
                        assert(self.task_ids() =~= pre.task_ids());
                        assert(self.waker_ids() =~= pre.waker_ids());
                    }
                    break;
                },
            };
            proof {
                assert(self.task_ids() =~= pre.task_ids());
                assert(self.waker_ids() =~= pre.waker_ids());
                assert(task_queue_contents(orig.task_queue).contains(task_id)) by {
                    assert(task_queue_contents(pre.task_queue)[0] == task_id);
                }
                assert forall|j: int| 0 <= j < task_queue_contents(self.task_queue).len() implies
                    task_queue_contents(orig.task_queue).contains(
                    #[trigger] task_queue_contents(self.task_queue)[j],
                ) by {
                    assert(task_queue_contents(self.task_queue)[j] == task_queue_contents(
                        pre.task_queue,
                    )[j + 1]);
                }
            }
            let ghost popped = *self;
            let outcome = self.poll_task(task_id);
            proof {
                // how task and waker membership moved across the poll
                assert forall|x: i64| x != task_id implies #[trigger] self.task_ids().contains(x)
                    == popped.task_ids().contains(x) by {
                    match outcome {
                        None => {
                            assert(self.tasks@ == popped.tasks@);
                            assert(self.task_ids() =~= popped.task_ids());
                        },
                        Some(p) => {
                            if p == Poll::Pending {
                                assert(self.task_ids() == popped.task_ids());
                            }
                        },
                    }
                }
                assert(self.task_ids().contains(task_id)
                    ==> popped.task_ids().contains(task_id)) by {
                    match outcome {
                        None => {
                            assert(self.tasks@ == popped.tasks@);
                            assert(self.task_ids() =~= popped.task_ids());
                        },
                        Some(p) => {
                            if p == Poll::Ready {
                                assert(!self.task_ids().contains(task_id));
                            } else {
                                assert(self.task_ids() == popped.task_ids());
                            }
                        },
                    }
                }
                assert forall|x: i64| x != task_id implies #[trigger] self.waker_ids().contains(x)
                    == popped.waker_ids().contains(x) by {
                    match outcome {
                        None => {
                            assert(self.waker_cache@ == popped.waker_cache@);
                            assert(self.waker_ids() =~= popped.waker_ids());
                        },
                        Some(p) => {
                            if p == Poll::Pending {
                                if popped.waker_ids().contains(task_id) {
                                    assert(self.waker_cache@ == popped.waker_cache@);
                                    assert(self.waker_ids() =~= popped.waker_ids());
                                } else {
                                    assert(self.waker_cache@ == popped.waker_cache@.push(
                                        TaskId(task_id),
                                    ));
                                    assert(self.waker_ids() =~= popped.waker_ids().push(task_id));
                                    if self.waker_ids().contains(x) {
                                        let k = choose|k: int|
                                            0 <= k < self.waker_ids().len()
                                                && self.waker_ids()[k] == x;
                                        assert(k < popped.waker_ids().len());
                                        assert(popped.waker_ids()[k] == x);
                                    }
                                    if popped.waker_ids().contains(x) {
                                        let k = choose|k: int|
                                            0 <= k < popped.waker_ids().len()
                                                && popped.waker_ids()[k] == x;
                                        assert(self.waker_ids()[k] == x);
                                    }
                                }
                            }
                        },
                    }
                }
                // the four loop facts, one by one
                assert forall|id: i64| #[trigger] self.task_ids().contains(id) implies
                    orig.task_ids().contains(id) by {
                    if id == task_id {
                        assert(popped.task_ids().contains(id));
                    } else {
                        assert(popped.task_ids().contains(id));
                    }
                }
                assert forall|id: i64|
                    orig.task_ids().contains(id) && !task_queue_contents(
                        orig.task_queue,
                    ).contains(id) implies #[trigger] self.task_ids().contains(id) by {
                    assert(id != task_id);
                    assert(popped.task_ids().contains(id));
                }
                assert forall|id: i64|
                    #[trigger] self.waker_ids().contains(id) && !orig.waker_ids().contains(id)
                    implies task_queue_contents(orig.task_queue).contains(id) by {
                    if id != task_id {
                        assert(popped.waker_ids().contains(id));
                    }
                }
                assert forall|id: i64|
                    #[trigger] self.task_ids().contains(id) && orig.waker_ids().contains(id)
                    implies self.waker_ids().contains(id) by {
                    if id == task_id {
                        match outcome {
                            None => {
                                assert(self.tasks@ == popped.tasks@);
                                assert(self.task_ids() =~= popped.task_ids());
                                assert(!popped.task_ids().contains(task_id));
                                assert(false);
                            },
                            Some(p) => {
                                if p == Poll::Ready {
                                    assert(!self.task_ids().contains(task_id));
                                    assert(false);
                                } else {
                                    assert(self.waker_ids().contains(task_id));
                                }
                            },
                        }
                    } else {
                        assert(popped.task_ids().contains(id));
                        assert(popped.waker_ids().contains(id));
                    }
                }
            }
        }
        proof {
            assert forall|i: int| 0 <= i < self.task_ids().len() implies
                orig.task_ids().contains(#[trigger] self.task_ids()[i]) by {
                assert(self.task_ids().contains(self.task_ids()[i]));
            }
        }
    }
}

/// How the waker cache may change when the task with `id` retires: either
/// it had no cached waker and the cache stands, or exactly its entry left.
spec fn waker_drop_rel<F: Pollable>(mid: Executor<F>, post: Executor<F>, id: i64) -> bool {
    ||| (post.waker_cache@ == mid.waker_cache@ && forall|k: int|
        0 <= k < mid.waker_ids().len() ==> mid.waker_ids()[k] != id)
    ||| exists|w: int|
        0 <= w < mid.waker_ids().len() && mid.waker_ids()[w] == id && post.waker_cache@
            == mid.waker_cache@.remove(w)
}

/// Caching a waker for a live, so-far-uncached task keeps the executor
/// well formed.
proof fn lemma_push_waker_wf<F: Pollable>(
    pre: Executor<F>,
    post: Executor<F>,
    id: i64,
    i: int,
)
    requires
        pre.wf(),
        0 <= i < pre.task_ids().len(),
        pre.task_ids()[i] == id,
        forall|k: int| 0 <= k < pre.waker_ids().len() ==> pre.waker_ids()[k] != id,
        post.tasks@ == pre.tasks@,
        post.waker_cache@ == pre.waker_cache@.push(TaskId(id)),
        post.task_queue == pre.task_queue,
    ensures
        post.wf(),
{
    assert(post.task_ids() =~= pre.task_ids());
    assert(post.waker_ids() =~= pre.waker_ids().push(id));
    let n = pre.waker_ids().len() as int;
    assert forall|k1: int, k2: int|
        0 <= k1 < post.waker_ids().len() && 0 <= k2 < post.waker_ids().len() && k1 != k2 implies
        post.waker_ids()[k1] != post.waker_ids()[k2] by {
        if k1 < n && k2 < n {
            assert(pre.waker_ids()[k1] != pre.waker_ids()[k2]);
        } else if k1 == n {
            assert(post.waker_ids()[k2] == pre.waker_ids()[k2]);
        } else {
            assert(post.waker_ids()[k1] == pre.waker_ids()[k1]);
        }
    }
    assert forall|k: int| 0 <= k < post.waker_ids().len() implies post.task_ids().contains(
        #[trigger] post.waker_ids()[k],
    ) by {
        if k < n {
            assert(pre.task_ids().contains(pre.waker_ids()[k]));
        } else {
            assert(post.waker_ids()[k] == id);
            assert(post.task_ids()[i] == id);
        }
    }
}

/// Removing a finished task, and whatever waker it had, keeps the executor
/// well formed; the tasks that stay were all there before.
proof fn lemma_retire_task_wf<F: Pollable>(
    mid: Executor<F>,
    post: Executor<F>,
    i: int,
    id: i64,
)
    requires
        mid.wf(),
        0 <= i < mid.task_ids().len(),
        mid.task_ids()[i] == id,
        post.tasks@ == mid.tasks@.remove(i),
        post.task_queue == mid.task_queue,
        waker_drop_rel(mid, post, id),
    ensures
        post.wf(),
        forall|k: int|
            0 <= k < post.task_ids().len() ==> mid.task_ids().contains(
                #[trigger] post.task_ids()[k],
            ),
        !post.task_ids().contains(id),
        !post.waker_ids().contains(id),
        forall|x: i64|
            x != id ==> #[trigger] post.task_ids().contains(x) == mid.task_ids().contains(x),
        forall|x: i64|
            x != id ==> #[trigger] post.waker_ids().contains(x) == mid.waker_ids().contains(x),
{
    assert(post.task_ids() =~= mid.task_ids().remove(i));
    assert forall|k: int| 0 <= k < post.task_ids().len() implies mid.task_ids().contains(
        #[trigger] post.task_ids()[k],
    ) by {
        let k0 = if k < i {
            k
        } else {
            k + 1
        };
        assert(post.task_ids()[k] == mid.task_ids()[k0]);
    }
    assert forall|k1: int, k2: int|
        0 <= k1 < post.task_ids().len() && 0 <= k2 < post.task_ids().len() && k1 != k2 implies
        post.task_ids()[k1] != post.task_ids()[k2] by {
        let j1 = if k1 < i {
            k1
        } else {
            k1 + 1
        };
        let j2 = if k2 < i {
            k2
        } else {
            k2 + 1
        };
        assert(post.task_ids()[k1] == mid.task_ids()[j1]);
        assert(post.task_ids()[k2] == mid.task_ids()[j2]);
    }
    if post.waker_cache@ == mid.waker_cache@ && (forall|k: int|
        0 <= k < mid.waker_ids().len() ==> mid.waker_ids()[k] != id) {
        // the finished task had no waker entry to drop: every cached id
        // still names a surviving task
        assert forall|k: int| 0 <= k < post.waker_ids().len() implies post.task_ids().contains(
            #[trigger] post.waker_ids()[k],
        ) by {
            assert(post.waker_ids()[k] == mid.waker_ids()[k]);
            let t = choose|t: int|
                0 <= t < mid.task_ids().len() && mid.task_ids()[t] == mid.waker_ids()[k];
            if t == i {
                // the waker would name the removed task's id, which this
                // branch rules out
                assert(mid.waker_ids()[k] == id);
                assert(false);
            } else {
                let t2 = if t < i {
                    t
                } else {
                    t - 1
                };
                assert(post.task_ids()[t2] == mid.task_ids()[t]);
            }
        }
    } else {
        let w = choose|w: int|
            0 <= w < mid.waker_ids().len() && mid.waker_ids()[w] == id && post.waker_cache@
                == mid.waker_cache@.remove(w);
        assert(post.waker_ids() =~= mid.waker_ids().remove(w));
        assert forall|k1: int, k2: int|
            0 <= k1 < post.waker_ids().len() && 0 <= k2 < post.waker_ids().len() && k1 != k2
            implies post.waker_ids()[k1] != post.waker_ids()[k2] by {
            let j1 = if k1 < w {
                k1
            } else {
                k1 + 1
            };
            let j2 = if k2 < w {
                k2
            } else {
                k2 + 1
            };
            assert(post.waker_ids()[k1] == mid.waker_ids()[j1]);
            assert(post.waker_ids()[k2] == mid.waker_ids()[j2]);
        }
        assert forall|k: int| 0 <= k < post.waker_ids().len() implies post.task_ids().contains(
            #[trigger] post.waker_ids()[k],
        ) by {
            let j = if k < w {
                k
            } else {
                k + 1
            };
            assert(post.waker_ids()[k] == mid.waker_ids()[j]);
            let t = choose|t: int|
                0 <= t < mid.task_ids().len() && mid.task_ids()[t] == mid.waker_ids()[j];
            if t == i {
                // two distinct waker entries would both name the removed
                // task's id, against waker uniqueness
                assert(mid.waker_ids()[j] == id);
                assert(mid.waker_ids()[w] == id);
                assert(j != w);
                assert(false);
            } else {
                let t2 = if t < i {
                    t
                } else {
                    t - 1
                };
                assert(post.task_ids()[t2] == mid.task_ids()[t]);
            }
        }
    }
    assert(!post.task_ids().contains(id)) by {
        if post.task_ids().contains(id) {
            let k = choose|k: int| 0 <= k < post.task_ids().len() && post.task_ids()[k] == id;
            let k0 = if k < i {
                k
            } else {
                k + 1
            };
            assert(post.task_ids()[k] == mid.task_ids()[k0]);
            assert(mid.task_ids()[k0] == id && mid.task_ids()[i] == id && k0 != i);
            assert(false);
        }
    }
    assert(!post.waker_ids().contains(id)) by {
        if post.waker_ids().contains(id) {
            let k = choose|k: int| 0 <= k < post.waker_ids().len() && post.waker_ids()[k] == id;
            if post.waker_cache@ == mid.waker_cache@ && (forall|m: int|
                0 <= m < mid.waker_ids().len() ==> mid.waker_ids()[m] != id) {
                assert(post.waker_ids()[k] == mid.waker_ids()[k]);
                assert(false);
            } else {
                let w = choose|w: int|
                    0 <= w < mid.waker_ids().len() && mid.waker_ids()[w] == id
                        && post.waker_cache@ == mid.waker_cache@.remove(w);
                let k0 = if k < w {
                    k
                } else {
                    k + 1
                };
                assert(post.waker_ids()[k] == mid.waker_ids()[k0]);
                assert(mid.waker_ids()[k0] == id && mid.waker_ids()[w] == id && k0 != w);
                assert(false);
            }
        }
    }
    assert forall|x: i64| x != id implies #[trigger] post.task_ids().contains(x)
        == mid.task_ids().contains(x) by {
        if post.task_ids().contains(x) {
            let k = choose|k: int| 0 <= k < post.task_ids().len() && post.task_ids()[k] == x;
            let k0 = if k < i {
                k
            } else {
                k + 1
            };
            assert(mid.task_ids()[k0] == x);
        }
        if mid.task_ids().contains(x) {
            let k = choose|k: int| 0 <= k < mid.task_ids().len() && mid.task_ids()[k] == x;
            assert(k != i);
            let k2 = if k < i {
                k
            } else {
                k - 1
            };
            assert(post.task_ids()[k2] == x);
        }
    }
    assert forall|x: i64| x != id implies #[trigger] post.waker_ids().contains(x)
        == mid.waker_ids().contains(x) by {
        if post.waker_cache@ == mid.waker_cache@ && (forall|m: int|
            0 <= m < mid.waker_ids().len() ==> mid.waker_ids()[m] != id) {
            assert(post.waker_ids() =~= mid.waker_ids());
        } else {
            let w = choose|w: int|
                0 <= w < mid.waker_ids().len() && mid.waker_ids()[w] == id && post.waker_cache@
                    == mid.waker_cache@.remove(w);
            assert(post.waker_ids() =~= mid.waker_ids().remove(w));
            if post.waker_ids().contains(x) {
                let k = choose|k: int|
                    0 <= k < post.waker_ids().len() && post.waker_ids()[k] == x;
                let k0 = if k < w {
                    k
                } else {
                    k + 1
                };
                assert(mid.waker_ids()[k0] == x);
            }
            if mid.waker_ids().contains(x) {
                let k = choose|k: int| 0 <= k < mid.waker_ids().len() && mid.waker_ids()[k] == x;
                assert(k != w);
                let k2 = if k < w {
                    k
                } else {
                    k - 1
                };
                assert(post.waker_ids()[k2] == x);
            }
        }
    }
}

} // verus!
