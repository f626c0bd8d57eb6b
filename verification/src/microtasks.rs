//! The microtask queue: an ordered backlog of deferred jobs that the host
//! drains on the engine's behalf, with a re-entrancy guard.
//!
//! The engine and the host talk through a small protocol. The engine enqueues
//! jobs while script runs; after control returns to the host, the host drains
//! the queue: it takes jobs from the front, one at a time, and invokes each
//! one's callable through the engine. Running a job may itself enqueue more
//! jobs or request another drain, so the drain is a guarded state machine
//! rather than a plain loop: `begin_drain` claims the single active pass,
//! `next_job` hands out the front job, and `abort_drain` gives the pass up
//! after a failed invocation, leaving the rest of the backlog queued.

use vstd::prelude::*;

verus! {

/// An opaque reference to an engine-owned object (a callable, a global, a
/// compiled module). The host never looks inside such an object; it only
/// carries the reference back to the engine. The engine guarantees the
/// reference's validity for the life of the environment.
#[derive(Clone, Copy, PartialEq, Eq, Structural, Debug)]
pub struct Handle {
    pub id: u64,
}

/// One deferred job.
#[derive(Clone, Copy, PartialEq, Eq, Structural, Debug)]
pub enum Microtask {
    /// A settled-promise continuation: an engine-owned callable, invoked with
    /// a null receiver and no arguments.
    Promise(Handle),
    /// A plain user callback, invoked with the global object as receiver.
    User(Handle),
    /// A placeholder for a job the engine scheduled without a callable. It is
    /// queued all the same so that ordering and counts stay right, and running
    /// it does nothing.
    Empty,
}

/// The receiver a callable is invoked with.
#[derive(Clone, Copy, PartialEq, Eq, Structural, Debug)]
pub enum Receiver {
    NullObject,
    GlobalObject,
}

/// What running one job asks of the engine.
#[derive(Clone, Copy, PartialEq, Eq, Structural, Debug)]
pub enum Invocation {
    /// Invoke this callable with this receiver and no arguments.
    Call(Handle, Receiver),
    /// Nothing to do.
    Nothing,
}

impl Microtask {
    /// The invocation that runs this job.
    pub open spec fn invocation_spec(&self) -> Invocation {
        match self {
            Microtask::Promise(job) => Invocation::Call(*job, Receiver::NullObject),
            Microtask::User(callback) => Invocation::Call(*callback, Receiver::GlobalObject),
            Microtask::Empty => Invocation::Nothing,
        }
    }

    /// Resolve this job to the invocation the host must perform through the
    /// engine: a promise reaction runs with a null receiver, a user callback
    /// with the global object, and an empty job is a true no-op.
    pub fn invocation(&self) -> (r: Invocation)
        ensures
            r == self.invocation_spec(),
    {
        match self {
            Microtask::Promise(job) => Invocation::Call(*job, Receiver::NullObject),
            Microtask::User(callback) => Invocation::Call(*callback, Receiver::GlobalObject),
            Microtask::Empty => Invocation::Nothing,
        }
    }
}

/// The FIFO backlog of pending jobs, owned by one script environment, plus the
/// flag that keeps at most one drain pass active at a time.
pub struct MicrotaskQueue {
    queue: std::collections::VecDeque<Microtask>,
    draining: bool,
}

impl MicrotaskQueue {
    /// The pending jobs, front first.
    pub closed spec fn jobs(&self) -> Seq<Microtask> {
        self.queue@
    }

    /// Whether a drain pass is active.
    pub closed spec fn is_draining(&self) -> bool {
        self.draining
    }

    pub fn new() -> (q: MicrotaskQueue)
        ensures
            q.jobs() == Seq::<Microtask>::empty(),
            !q.is_draining(),
    {
        MicrotaskQueue { queue: std::collections::VecDeque::new(), draining: false }
    }

    /// Append a job at the tail. Always succeeds. The result says whether the
    /// host must fire the engine's may-not-be-empty notification: exactly when
    /// this enqueue took the queue from empty to non-empty, so the signal fires
    /// once per transition and never for an already non-empty queue.
    pub fn enqueue(&mut self, microtask: Microtask) -> (notify: bool)
        ensures
            final(self).jobs() == old(self).jobs().push(microtask),
            final(self).is_draining() == old(self).is_draining(),
            notify == (old(self).jobs().len() == 0),
    {
        let notify = self.queue.len() == 0;
        self.queue.push_back(microtask);
        notify
    }

    /// The engine's enqueue callback: a scheduled job that arrives without a
    /// callable is still queued, as an `Empty` job, to keep ordering and
    /// counts intact. The callback itself always reports success to the
    /// engine; the result here is the may-not-be-empty signal, as in
    /// [`enqueue`](Self::enqueue).
    pub fn enqueue_promise_job(&mut self, job: Option<Handle>) -> (notify: bool)
        ensures
            final(self).jobs() == old(self).jobs().push(
                match job {
                    Some(h) => Microtask::Promise(h),
                    None => Microtask::Empty,
                },
            ),
            final(self).is_draining() == old(self).is_draining(),
            notify == (old(self).jobs().len() == 0),
    {
        match job {
            Some(h) => self.enqueue(Microtask::Promise(h)),
            None => self.enqueue(Microtask::Empty),
        }
    }

    /// The engine's emptiness query.
    pub fn is_empty(&self) -> (r: bool)
        ensures
            r == (self.jobs().len() == 0),
    {
        self.queue.len() == 0
    }

    /// Claim the drain pass. When none is active, the claim succeeds and the
    /// caller owns the pass. When one is active already — a job's own
    /// execution asked to drain again — the claim fails and the nested request
    /// is a no-op the caller reports as success: the active pass will itself
    /// reach every queued job before it returns.
    pub fn begin_drain(&mut self) -> (started: bool)
        ensures
            final(self).jobs() == old(self).jobs(),
            final(self).is_draining(),
            started == !old(self).is_draining(),
    {
        if self.draining {
            false
        } else {
            self.draining = true;
            true
        }
    }

    /// Take the next job of the active pass: the front of the queue. `None`
    /// means the queue is empty; the pass is then over, the guard is released,
    /// and the host must fire the engine's is-empty notification — once, since
    /// releasing the guard makes this the pass's last step — and report
    /// success.
    pub fn next_job(&mut self) -> (r: Option<Microtask>)
        requires
            old(self).is_draining(),
        ensures
            old(self).jobs().len() > 0 ==> {
                &&& r == Some(old(self).jobs()[0])
                &&& final(self).jobs() == old(self).jobs().drop_first()
                &&& final(self).is_draining()
            },
            old(self).jobs().len() == 0 ==> {
                &&& r is None
                &&& final(self).jobs() == old(self).jobs()
                &&& !final(self).is_draining()
            },
    {
        match self.queue.pop_front() {
            Some(microtask) => Some(microtask),
            None => {
                self.draining = false;
                None
            },
        }
    }

    /// Give the active pass up after a job's invocation failed. The failed job
    /// stays consumed — it is not retried — and every job behind it stays
    /// queued, in order, for a later pass; the guard is released so that a
    /// later drain can run them.
    pub fn abort_drain(&mut self)
        requires
            old(self).is_draining(),
        ensures
            final(self).jobs() == old(self).jobs(),
            !final(self).is_draining(),
    {
        self.draining = false;
    }
}

impl Default for MicrotaskQueue {
    fn default() -> (q: MicrotaskQueue)
        ensures
            q.jobs() == Seq::<Microtask>::empty(),
            !q.is_draining(),
    {
        MicrotaskQueue::new()
    }
}

// What one drain pass does to the backlog, stated over sequences. One step of
// the model is one `next_job` on a non-empty queue followed by the enqueues
// the popped job performed while it ran, exactly as the contracts of those two
// functions describe: the front job leaves, and the spawned jobs go to the
// tail in enqueue order. `spawns[i]` names the jobs that running the pass's
// i-th job enqueued; a job that enqueues nothing has an empty entry.

/// The jobs the i-th job of a pass enqueues while it runs.
pub open spec fn spawned_at(spawns: Seq<Seq<Microtask>>, i: int) -> Seq<Microtask> {
    if 0 <= i < spawns.len() {
        spawns[i]
    } else {
        Seq::empty()
    }
}

/// The queue after `steps` jobs of one pass have been taken and run, starting
/// from backlog `q`.
pub open spec fn queue_after(
    q: Seq<Microtask>,
    spawns: Seq<Seq<Microtask>>,
    steps: nat,
) -> Seq<Microtask>
    decreases steps,
{
    if steps == 0 {
        q
    } else {
        let prev = queue_after(q, spawns, (steps - 1) as nat);
        if prev.len() == 0 {
            prev
        } else {
            prev.drop_first() + spawned_at(spawns, steps - 1)
        }
    }
}

/// The jobs that have run after `steps` steps of one pass, in running order.
pub open spec fn ran_after(
    q: Seq<Microtask>,
    spawns: Seq<Seq<Microtask>>,
    steps: nat,
) -> Seq<Microtask>
    decreases steps,
{
    if steps == 0 {
        Seq::empty()
    } else {
        let prev_q = queue_after(q, spawns, (steps - 1) as nat);
        let prev_r = ran_after(q, spawns, (steps - 1) as nat);
        if prev_q.len() == 0 {
            prev_r
        } else {
            prev_r.push(prev_q[0])
        }
    }
}

/// The arrival order of the pass's first `steps` steps: the backlog as it
/// stood when the pass began, then each job's spawned jobs in enqueue order.
pub open spec fn arrivals(
    q: Seq<Microtask>,
    spawns: Seq<Seq<Microtask>>,
    steps: nat,
) -> Seq<Microtask>
    decreases steps,
{
    if steps == 0 {
        q
    } else {
        arrivals(q, spawns, (steps - 1) as nat) + spawned_at(spawns, steps - 1)
    }
}

/// The pass has a job to take at each of its first `steps` steps.
pub open spec fn live_through(q: Seq<Microtask>, spawns: Seq<Seq<Microtask>>, steps: nat) -> bool {
    forall|j: nat| j < steps ==> #[trigger] queue_after(q, spawns, j).len() > 0
}

/// A pass neither loses nor invents jobs: at every point, the jobs already
/// run followed by the jobs still queued are exactly the jobs that have
/// arrived, in arrival order.
pub proof fn lemma_drain_accounting(q: Seq<Microtask>, spawns: Seq<Seq<Microtask>>, steps: nat)
    requires
        live_through(q, spawns, steps),
    ensures
        ran_after(q, spawns, steps).len() == steps,
        ran_after(q, spawns, steps) + queue_after(q, spawns, steps) == arrivals(q, spawns, steps),
    decreases steps,
{
    if steps == 0 {
        assert(ran_after(q, spawns, 0) + queue_after(q, spawns, 0) =~= q);
    } else {
        let prev: nat = (steps - 1) as nat;
        assert(live_through(q, spawns, prev));
        lemma_drain_accounting(q, spawns, prev);
        let prev_q = queue_after(q, spawns, prev);
        let prev_r = ran_after(q, spawns, prev);
        assert(prev_q.len() > 0);
        let sp = spawned_at(spawns, steps - 1);
        assert(prev_r.push(prev_q[0]) + (prev_q.drop_first() + sp) =~= (prev_r + prev_q) + sp);
    }
}

/// FIFO ordering. During one drain pass the jobs run in exactly the order
/// they arrived: first the jobs already queued when the pass began, in their
/// queue order, then the jobs enqueued during the pass, in enqueue order — a
/// job enqueued while the pass runs goes behind everything already queued.
pub proof fn lemma_fifo_order(q: Seq<Microtask>, spawns: Seq<Seq<Microtask>>, steps: nat)
    requires
        live_through(q, spawns, steps),
    ensures
        ran_after(q, spawns, steps) == arrivals(q, spawns, steps).take(steps as int),
        steps <= q.len() ==> ran_after(q, spawns, steps) == q.take(steps as int),
{
    lemma_drain_accounting(q, spawns, steps);
    let r = ran_after(q, spawns, steps);
    let a = arrivals(q, spawns, steps);
    assert(r =~= a.take(steps as int));
    if steps <= q.len() {
        lemma_arrivals_prefix(q, spawns, steps);
        assert(a.take(steps as int) =~= q.take(steps as int));
    }
}

/// The backlog the pass began with is a prefix of the arrival order.
proof fn lemma_arrivals_prefix(q: Seq<Microtask>, spawns: Seq<Seq<Microtask>>, steps: nat)
    ensures
        arrivals(q, spawns, steps).len() >= q.len(),
        forall|i: int| 0 <= i < q.len() ==> arrivals(q, spawns, steps)[i] == q[i],
    decreases steps,
{
    if steps > 0 {
        lemma_arrivals_prefix(q, spawns, (steps - 1) as nat);
    }
}

/// Re-entrancy safety, completeness half. A pass that observes the queue
/// empty — the only way it ends without a failure — has run every job that
/// arrived, each exactly once, in arrival order: nothing is skipped and
/// nothing runs twice, however often a running job re-entered the scheduler.
pub proof fn lemma_drain_complete(q: Seq<Microtask>, spawns: Seq<Seq<Microtask>>, steps: nat)
    requires
        live_through(q, spawns, steps),
        queue_after(q, spawns, steps).len() == 0,
    ensures
        ran_after(q, spawns, steps) == arrivals(q, spawns, steps),
{
    lemma_drain_accounting(q, spawns, steps);
    assert(ran_after(q, spawns, steps) + queue_after(q, spawns, steps) =~= ran_after(
        q,
        spawns,
        steps,
    ));
}

/// A pass whose jobs enqueue nothing walks the backlog front to back: after
/// `k` steps the first `k` jobs have run, in order, and the rest are still
/// queued, in order.
pub proof fn lemma_no_spawn_progress(q: Seq<Microtask>, k: nat)
    requires
        k <= q.len(),
    ensures
        queue_after(q, Seq::empty(), k) == q.skip(k as int),
        ran_after(q, Seq::empty(), k) == q.take(k as int),
        live_through(q, Seq::empty(), k),
    decreases k,
{
    if k == 0 {
        assert(q.skip(0) =~= q);
        assert(q.take(0) =~= Seq::<Microtask>::empty());
    } else {
        let prev: nat = (k - 1) as nat;
        lemma_no_spawn_progress(q, prev);
        assert(q.skip(prev as int).drop_first() + spawned_at(Seq::empty(), k - 1) =~= q.skip(
            k as int,
        ));
        assert(q.take(prev as int).push(q[prev as int]) =~= q.take(k as int));
        assert(forall|j: nat| j < k ==> #[trigger] queue_after(q, Seq::empty(), j).len() > 0) by {
            assert(forall|j: nat|
                j < k ==> #[trigger] queue_after(q, Seq::empty(), j) == q.skip(j as int)) by {
                assert forall|j: nat| j < k implies #[trigger] queue_after(q, Seq::empty(), j)
                    == q.skip(j as int) by {
                    lemma_no_spawn_progress(q, j);
                }
            }
        }
    }
}

/// Early abort on failure. When the pass's k-th job fails — k jobs have been
/// taken, the failed one is discarded, not retried — the jobs behind it are
/// still queued in their original order, and a later pass that runs without a
/// failure (and without new enqueues) runs exactly those remaining jobs, in
/// that order.
pub proof fn lemma_early_abort(q: Seq<Microtask>, k: nat)
    requires
        k <= q.len(),
    ensures
        queue_after(q, Seq::empty(), k) == q.skip(k as int),
        ran_after(q, Seq::empty(), k) == q.take(k as int),
        ran_after(q.skip(k as int), Seq::empty(), (q.len() - k) as nat) == q.skip(k as int),
{
    lemma_no_spawn_progress(q, k);
    let rest = q.skip(k as int);
    lemma_no_spawn_progress(rest, rest.len());
    assert(rest.take(rest.len() as int) =~= rest);
}
} // verus!
