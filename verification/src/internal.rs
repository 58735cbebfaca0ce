//! The worker pool's internals, modelled as data: the validated pool size
//! and the shared FIFO queue of orders that the workers drain. The pool
//! hands every submitted task to exactly one worker, in submission order,
//! and shuts down by queueing one stop sentinel per worker behind all
//! pending tasks.

use vstd::prelude::*;

use crate::exception::BunkerError;

verus! {

/// One order on the pool's shared queue: a task to run, or the stop
/// sentinel that ends one worker.
pub enum Order<T> {
    Do(T),
    Stop,
}

/// The tasks among a sequence of orders, in queue order.
pub open spec fn tasks_of<T>(s: Seq<Order<T>>) -> Seq<T>
    decreases s.len(),
{
    if s.len() == 0 {
        Seq::empty()
    } else {
        match s.last() {
            Order::Do(t) => tasks_of(s.drop_last()).push(t),
            Order::Stop => tasks_of(s.drop_last()),
        }
    }
}

/// Appending an order adds its task, if any, at the end of the task list.
pub proof fn lemma_tasks_of_push<T>(s: Seq<Order<T>>, o: Order<T>)
    ensures
        tasks_of(s.push(o)) == match o {
            Order::Do(t) => tasks_of(s).push(t),
            Order::Stop => tasks_of(s),
        },
{
    assert(s.push(o).drop_last() =~= s);
    assert(s.push(o).last() == o);
}

/// The task list starts with the first order's task, if any.
pub proof fn lemma_tasks_of_first<T>(s: Seq<Order<T>>)
    requires
        s.len() >= 1,
    ensures
        tasks_of(s) == match s[0] {
            Order::Do(t) => seq![t] + tasks_of(s.drop_first()),
            Order::Stop => tasks_of(s.drop_first()),
        },
    decreases s.len(),
{
    if s.len() == 1 {
        assert(s.drop_last() =~= Seq::<Order<T>>::empty());
        assert(s.drop_first() =~= Seq::<Order<T>>::empty());
        assert(s.last() == s[0]);
        match s[0] {
            Order::Do(t) => {
                assert(tasks_of(s) =~= seq![t] + tasks_of(s.drop_first()));
            },
            Order::Stop => {},
        }
    } else {
        let s0 = s.drop_last();
        lemma_tasks_of_first(s0);
        assert(s.drop_first().drop_last() =~= s0.drop_first());
        assert(s.drop_first().last() == s.last());
        assert(s.drop_first().len() >= 1);
        assert(s0[0] == s[0]);
        match s.last() {
            Order::Do(t) => {
                assert(tasks_of(s) == tasks_of(s0).push(t));
                assert(tasks_of(s.drop_first()) == tasks_of(s0.drop_first()).push(t));
                match s[0] {
                    Order::Do(h) => {
                        assert((seq![h] + tasks_of(s0.drop_first())).push(t) =~= seq![h]
                            + tasks_of(s0.drop_first()).push(t));
                    },
                    Order::Stop => {},
                }
            },
            Order::Stop => {
                assert(tasks_of(s) == tasks_of(s0));
                assert(tasks_of(s.drop_first()) == tasks_of(s0.drop_first()));
            },
        }
    }
}

/// The pool's shared FIFO work queue, together with the ghost history of
/// what was submitted to it and what was handed out. Well-formedness says
/// the handed-out tasks followed by the still-pending ones are exactly the
/// submitted ones: nothing is lost, duplicated or reordered.
pub struct WorkQueue<T> {
    orders: Vec<Order<T>>,
    submitted: Ghost<Seq<T>>,
    delivered: Ghost<Seq<T>>,
}

impl<T> WorkQueue<T> {
    /// The orders still waiting in the queue.
    pub closed spec fn pending(&self) -> Seq<Order<T>> {
        self.orders@
    }

    /// Every task ever submitted, in submission order.
    pub closed spec fn submitted(&self) -> Seq<T> {
        self.submitted@
    }

    /// Every task handed to a worker so far, in hand-out order.
    pub closed spec fn delivered(&self) -> Seq<T> {
        self.delivered@
    }

    /// The queue discipline: what went out plus what still waits is what
    /// came in.
    pub open spec fn wf(&self) -> bool {
        self.delivered() + tasks_of(self.pending()) == self.submitted()
    }

    /// An empty queue with an empty history.
    pub fn new() -> (r: WorkQueue<T>)
        ensures
            r.wf(),
            r.pending() == Seq::<Order<T>>::empty(),
            r.submitted() == Seq::<T>::empty(),
            r.delivered() == Seq::<T>::empty(),
    {
        let r = WorkQueue::<T> {
            orders: Vec::new(),
            submitted: Ghost(Seq::empty()),
            delivered: Ghost(Seq::empty()),
        };
        proof {
            assert(r.delivered() + tasks_of(r.pending()) =~= r.submitted());
        }
        r
    }

    /// Enqueues one task behind everything already queued. Never blocks the
    /// submitter.
    pub fn submit(&mut self, task: T)
        requires
            old(self).wf(),
        ensures
            final(self).wf(),
            final(self).pending() == old(self).pending().push(Order::Do(task)),
            final(self).submitted() == old(self).submitted().push(task),
            final(self).delivered() == old(self).delivered(),
    {
        proof {
            lemma_tasks_of_push(self.orders@, Order::Do(task));
        }
        let ghost task_spec = task;
        self.orders.push(Order::Do(task));
        self.submitted = Ghost(self.submitted@.push(task_spec));
        proof {
            assert(self.delivered() + tasks_of(self.pending()) =~= self.submitted());
        }
    }

    /// Enqueues one stop sentinel per worker, behind all currently queued
    /// tasks, so queued work drains before the workers exit.
    pub fn shutdown(&mut self, workers: usize)
        requires
            old(self).wf(),
        ensures
            final(self).wf(),
            final(self).pending().len() == old(self).pending().len() + workers,
            tasks_of(final(self).pending()) == tasks_of(old(self).pending()),
            final(self).submitted() == old(self).submitted(),
            final(self).delivered() == old(self).delivered(),
            forall|i: int|
                old(self).pending().len() <= i < final(self).pending().len() ==> final(self).pending()[i] is Stop,
            forall|i: int|
                0 <= i < old(self).pending().len() ==> final(self).pending()[i] == old(self).pending()[i],
    {
        let mut k: usize = 0;
        while k < workers
            invariant
                old(self).wf(),
                k <= workers,
                self.orders@.len() == old(self).pending().len() + k,
                tasks_of(self.orders@) == tasks_of(old(self).pending()),
                self.submitted@ == old(self).submitted(),
                self.delivered@ == old(self).delivered(),
                forall|i: int|
                    old(self).pending().len() <= i < self.orders@.len()
                        ==> self.orders@[i] is Stop,
                forall|i: int|
                    0 <= i < old(self).pending().len() ==> self.orders@[i] == old(self).pending()[i],
            decreases workers - k,
        {
            proof {
                lemma_tasks_of_push(self.orders@, Order::<T>::Stop);
            }
            self.orders.push(Order::Stop);
            k = k + 1;
        }
    }

    /// Hands out the front order, if the queue is not empty. A task order
    /// moves the front pending task into the delivered history; a stop
    /// order ends the calling worker and delivers nothing.
    pub fn take(&mut self) -> (r: Option<Order<T>>)
        requires
            old(self).wf(),
        ensures
            final(self).wf(),
            final(self).submitted() == old(self).submitted(),
            old(self).pending().len() == 0 ==> r is None && final(self).pending() == old(self).pending() && final(self).delivered() == old(self).delivered(),
            old(self).pending().len() > 0 ==> (r matches Some(o) && o == old(self).pending()[0]
                && final(self).pending() == old(self).pending().drop_first() && final(self).delivered() == match o {
                Order::Do(t) => old(self).delivered().push(t),
                Order::Stop => old(self).delivered(),
            }),
    {
        if self.orders.len() == 0 {
            return None;
        }
        proof {
            lemma_tasks_of_first(self.orders@);
        }
        let order = self.orders.remove(0);
        let ghost taken = order;
        proof {
            assert(old(self).pending().drop_first() =~= self.orders@);
        }
        self.delivered = Ghost(
            match taken {
                Order::Do(t) => self.delivered@.push(t),
                Order::Stop => self.delivered@,
            },
        );
        proof {
            match taken {
                Order::Do(t) => {
                    assert(old(self).delivered() + (seq![t] + tasks_of(self.orders@)) =~= old(self).delivered().push(t) + tasks_of(self.orders@));
                },
                Order::Stop => {},
            }
        }
        Some(order)
    }
}

/// A drained queue has handed out exactly the tasks submitted to it: each
/// one exactly once, in submission order, none lost and none duplicated.
pub proof fn lemma_pool_exactly_once<T>(q: WorkQueue<T>)
    requires
        q.wf(),
        tasks_of(q.pending()) == Seq::<T>::empty(),
    ensures
        q.delivered() == q.submitted(),
{
    assert(q.delivered() + Seq::<T>::empty() =~= q.delivered());
}

/// The validated size of a worker pool: a reportable construction failure,
/// not a crash, guards against a pool of zero workers.
pub struct PoolPlan {
    size: usize,
}

impl PoolPlan {
    /// The number of workers the pool will hold.
    pub closed spec fn spec_size(&self) -> usize {
        self.size
    }

    /// Validates a requested worker count: zero is refused with
    /// `InvalidPoolSize`, anything else is accepted as given.
    pub fn new(size: usize) -> (r: Result<PoolPlan, BunkerError>)
        ensures
            size >= 1 ==> (r matches Ok(p) && p.spec_size() == size),
            size == 0 ==> (r matches Err(BunkerError::InvalidPoolSize(n)) && n == size),
    {
        if size == 0 {
            Err(BunkerError::InvalidPoolSize(size))
        } else {
            Ok(PoolPlan { size })
        }
    }

    /// The pool's worker count.
    pub fn get_size(&self) -> (r: usize)
        ensures
            r == self.spec_size(),
    {
        self.size
    }

    /// The ids of the pool's workers: `0` up to the worker count, in order.
    pub fn worker_ids(&self) -> (r: Vec<usize>)
        ensures
            r@.len() == self.spec_size(),
            forall|i: int| 0 <= i < r@.len() ==> r@[i] == i,
    {
        let mut ids: Vec<usize> = Vec::new();
        let mut k: usize = 0;
        while k < self.size
            invariant
                k <= self.size,
                ids@.len() == k,
                forall|i: int| 0 <= i < ids@.len() ==> ids@[i] == i,
            decreases self.size - k,
        {
            ids.push(k);
            k = k + 1;
        }
        ids
    }
}

} // verus!
