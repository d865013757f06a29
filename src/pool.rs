use std::collections::VecDeque;
use vstd::prelude::*;

verus! {

/// Where a worker stands in its life.
#[derive(Clone, Copy, Debug, PartialEq, Eq, Structural)]
pub enum WorkerState {
    /// Waiting for a job.
    Idle,
    /// Running the job it took last.
    Busy,
    /// Left its loop after the queue closed and ran dry.
    Exited,
}

/// What a worker gets when it asks the queue for work.
pub enum Delivery<T> {
    /// The oldest job in the queue, now this worker's alone.
    Job(T),
    /// The queue is closed and empty: the worker leaves its loop.
    Closed,
    /// The queue is open and empty: the worker blocks until a job arrives.
    Wait,
}

/// A pool size of zero was asked for.
#[derive(Debug, PartialEq, Eq, Structural)]
pub struct PoolCreationError;

/// The state of a pool as a value: the jobs waiting, whether submission is
/// still open, each worker's state, and the bookkeeping of every job ever
/// submitted (identified by its position in `history`, its ticket).
pub struct PoolView<T> {
    pub queue: Seq<T>,
    pub open: bool,
    pub workers: Seq<WorkerState>,
    /// For a busy worker, the ticket of the job it runs.
    pub tickets: Seq<nat>,
    /// Every job submitted, in order of submission.
    pub history: Seq<T>,
    /// How many jobs have been handed to workers.
    pub taken: nat,
    /// The tickets of the jobs that have run to the end.
    pub done: Set<nat>,
}

/// A fresh pool of `n` idle workers with an open, empty queue.
pub open spec fn init_view<T>(n: nat) -> PoolView<T> {
    PoolView {
        queue: Seq::empty(),
        open: true,
        workers: Seq::new(n, |i: int| WorkerState::Idle),
        tickets: Seq::new(n, |i: int| 0nat),
        history: Seq::empty(),
        taken: 0,
        done: Set::empty(),
    }
}

/// Submitting `job`: appended to the queue while it is open, refused after.
pub open spec fn submit_view<T>(v: PoolView<T>, job: T) -> PoolView<T> {
    if v.open {
        PoolView { queue: v.queue.push(job), history: v.history.push(job), ..v }
    } else {
        v
    }
}

/// Closing the queue: nothing more can be submitted.
pub open spec fn close_view<T>(v: PoolView<T>) -> PoolView<T> {
    PoolView { open: false, ..v }
}

/// Idle worker `w` asks for work: it takes the oldest job if there is one,
/// exits if the queue is closed and empty, and waits otherwise.
pub open spec fn receive_view<T>(v: PoolView<T>, w: int) -> (PoolView<T>, Delivery<T>) {
    if v.queue.len() > 0 {
        (
            PoolView {
                queue: v.queue.drop_first(),
                workers: v.workers.update(w, WorkerState::Busy),
                tickets: v.tickets.update(w, v.taken),
                taken: v.taken + 1,
                ..v
            },
            Delivery::Job(v.queue[0]),
        )
    } else if !v.open {
        (PoolView { workers: v.workers.update(w, WorkerState::Exited), ..v }, Delivery::Closed)
    } else {
        (v, Delivery::Wait)
    }
}

/// Busy worker `w` has run its job to the end and is idle again.
pub open spec fn finish_view<T>(v: PoolView<T>, w: int) -> PoolView<T> {
    PoolView {
        workers: v.workers.update(w, WorkerState::Idle),
        done: v.done.insert(v.tickets[w]),
        ..v
    }
}

/// Worker `w` is busy.
pub open spec fn busy<T>(v: PoolView<T>, w: int) -> bool {
    0 <= w < v.workers.len() && v.workers[w] == WorkerState::Busy
}

/// Every worker has left its loop.
pub open spec fn all_exited<T>(v: PoolView<T>) -> bool {
    forall|w: int| 0 <= w < v.workers.len() ==> v.workers[w] == WorkerState::Exited
}

/// The consistency of a pool's state.
pub open spec fn inv<T>(v: PoolView<T>) -> bool {
    &&& v.workers.len() > 0
    &&& v.tickets.len() == v.workers.len()
    &&& v.taken <= v.history.len()
    &&& v.queue == v.history.skip(v.taken as int)
    &&& forall|w: int| busy(v, w) ==> v.tickets[w] < v.taken && !v.done.contains(v.tickets[w])
    &&& forall|w1: int, w2: int|
        busy(v, w1) && busy(v, w2) && w1 != w2 ==> v.tickets[w1] != v.tickets[w2]
    &&& forall|t: nat| v.done.contains(t) ==> t < v.taken
    &&& forall|t: nat|
        t < v.taken ==> v.done.contains(t) || exists|w: int| busy(v, w) && v.tickets[w] == t
    &&& (exists|w: int| 0 <= w < v.workers.len() && v.workers[w] == WorkerState::Exited) ==> (
    !v.open && v.queue.len() == 0)
}

/// A fresh pool of at least one worker is consistent.
pub proof fn lemma_init_inv<T>(n: nat)
    requires
        n > 0,
    ensures
        inv(init_view::<T>(n)),
{
    let v = init_view::<T>(n);
    assert(v.history.skip(0) =~= v.queue);
}

/// Submitting keeps a pool consistent.
pub proof fn lemma_submit_inv<T>(v: PoolView<T>, job: T)
    requires
        inv(v),
    ensures
        inv(submit_view(v, job)),
{
    let u = submit_view(v, job);
    if v.open {
        assert(u.queue =~= u.history.skip(u.taken as int));
        assert forall|t: nat| t < u.taken implies u.done.contains(t) || exists|w: int|
            busy(u, w) && u.tickets[w] == t by {
            if !v.done.contains(t) {
                let w = choose|w: int| busy(v, w) && v.tickets[w] == t;
                assert(busy(u, w));
            }
        }
        assert forall|x: int| busy(u, x) implies u.tickets[x] < u.taken && !u.done.contains(
            u.tickets[x],
        ) by {
            assert(busy(v, x));
        }
        assert forall|w1: int, w2: int|
            busy(u, w1) && busy(u, w2) && w1 != w2 implies u.tickets[w1] != u.tickets[w2] by {
            assert(busy(v, w1) && busy(v, w2));
        }
    }
}

/// Closing keeps a pool consistent.
pub proof fn lemma_close_inv<T>(v: PoolView<T>)
    requires
        inv(v),
    ensures
        inv(close_view(v)),
{
    let u = close_view(v);
    assert forall|t: nat| t < u.taken implies u.done.contains(t) || exists|w: int|
        busy(u, w) && u.tickets[w] == t by {
        if !v.done.contains(t) {
            let w = choose|w: int| busy(v, w) && v.tickets[w] == t;
            assert(busy(u, w));
        }
    }
    assert forall|x: int| busy(u, x) implies u.tickets[x] < u.taken && !u.done.contains(
        u.tickets[x],
    ) by {
        assert(busy(v, x));
    }
    assert forall|w1: int, w2: int|
        busy(u, w1) && busy(u, w2) && w1 != w2 implies u.tickets[w1] != u.tickets[w2] by {
        assert(busy(v, w1) && busy(v, w2));
    }
}

/// An idle worker's request for work keeps a pool consistent.
pub proof fn lemma_receive_inv<T>(v: PoolView<T>, w: int)
    requires
        inv(v),
        0 <= w < v.workers.len(),
        v.workers[w] == WorkerState::Idle,
    ensures
        inv(receive_view(v, w).0),
{
    let u = receive_view(v, w).0;
    if v.queue.len() > 0 {
        assert(u.queue =~= u.history.skip(u.taken as int));
        assert forall|t: nat| t < u.taken implies u.done.contains(t) || exists|x: int|
            busy(u, x) && u.tickets[x] == t by {
            if t == v.taken {
                assert(busy(u, w) && u.tickets[w] == t);
            } else if !v.done.contains(t) {
                let x = choose|x: int| busy(v, x) && v.tickets[x] == t;
                assert(x != w);
                assert(busy(u, x) && u.tickets[x] == t);
            }
        }
        assert forall|x: int| busy(u, x) implies u.tickets[x] < u.taken && !u.done.contains(
            u.tickets[x],
        ) by {
            if x != w {
                assert(busy(v, x));
            }
        }
        assert forall|w1: int, w2: int|
            busy(u, w1) && busy(u, w2) && w1 != w2 implies u.tickets[w1] != u.tickets[w2] by {
            if w1 != w {
                assert(busy(v, w1));
            }
            if w2 != w {
                assert(busy(v, w2));
            }
        }
        if exists|x: int| 0 <= x < u.workers.len() && u.workers[x] == WorkerState::Exited {
            let x = choose|x: int| 0 <= x < u.workers.len() && u.workers[x] == WorkerState::Exited;
            assert(v.workers[x] == WorkerState::Exited);
        }
    } else if !v.open {
        assert forall|t: nat| t < u.taken implies u.done.contains(t) || exists|x: int|
            busy(u, x) && u.tickets[x] == t by {
            if !v.done.contains(t) {
                let x = choose|x: int| busy(v, x) && v.tickets[x] == t;
                assert(busy(u, x));
            }
        }
        assert forall|x: int| busy(u, x) implies u.tickets[x] < u.taken && !u.done.contains(
            u.tickets[x],
        ) by {
            assert(busy(v, x));
        }
        assert forall|w1: int, w2: int|
            busy(u, w1) && busy(u, w2) && w1 != w2 implies u.tickets[w1] != u.tickets[w2] by {
            assert(busy(v, w1) && busy(v, w2));
        }
    }
}

/// A busy worker's finishing its job keeps a pool consistent.
pub proof fn lemma_finish_inv<T>(v: PoolView<T>, w: int)
    requires
        inv(v),
        busy(v, w),
    ensures
        inv(finish_view(v, w)),
{
    let u = finish_view(v, w);
    assert forall|t: nat| t < u.taken implies u.done.contains(t) || exists|x: int|
        busy(u, x) && u.tickets[x] == t by {
        if !v.done.contains(t) && t != v.tickets[w] {
            let x = choose|x: int| busy(v, x) && v.tickets[x] == t;
            assert(x != w);
            assert(busy(u, x));
        }
    }
    assert forall|x: int| busy(u, x) implies u.tickets[x] < u.taken && !u.done.contains(
        u.tickets[x],
    ) by {
        assert(busy(v, x));
        assert(x != w);
    }
    assert forall|w1: int, w2: int|
        busy(u, w1) && busy(u, w2) && w1 != w2 implies u.tickets[w1] != u.tickets[w2] by {
        assert(busy(v, w1) && busy(v, w2));
    }
    if exists|x: int| 0 <= x < u.workers.len() && u.workers[x] == WorkerState::Exited {
        let x = choose|x: int| 0 <= x < u.workers.len() && u.workers[x] == WorkerState::Exited;
        assert(v.workers[x] == WorkerState::Exited);
    }
}

/// The state after workers `0`, ..., `k - 1` have each asked once for work,
/// in that order.
pub open spec fn drain<T>(v: PoolView<T>, k: nat) -> PoolView<T>
    decreases k,
{
    if k == 0 {
        v
    } else {
        receive_view(drain(v, (k - 1) as nat), k - 1).0
    }
}

/// A pool of `n` workers torn down before any job was submitted: once the
/// queue is closed, each worker in turn is told to leave its loop, after
/// which all `n` of them have exited and can be joined.
pub proof fn lemma_idle_teardown<T>(n: nat)
    requires
        n > 0,
    ensures
        forall|k: nat|
            k < n ==> (#[trigger] receive_view(drain(close_view(init_view::<T>(n)), k), k as int).1)
                is Closed,
        drain(close_view(init_view::<T>(n)), n).workers.len() == n,
        all_exited(drain(close_view(init_view::<T>(n)), n)),
{
    let s = close_view(init_view::<T>(n));
    lemma_drain_idle(s, n);
}

proof fn lemma_drain_idle<T>(s: PoolView<T>, k: nat)
    requires
        s == close_view(init_view::<T>(s.workers.len())),
        k <= s.workers.len(),
    ensures
        drain(s, k).queue.len() == 0,
        !drain(s, k).open,
        drain(s, k).workers.len() == s.workers.len(),
        forall|w: int| 0 <= w < k ==> drain(s, k).workers[w] == WorkerState::Exited,
        forall|w: int| k <= w < s.workers.len() ==> drain(s, k).workers[w] == WorkerState::Idle,
        forall|j: nat| j < k ==> (#[trigger] receive_view(drain(s, j), j as int).1) is Closed,
    decreases k,
{
    if k > 0 {
        lemma_drain_idle(s, (k - 1) as nat);
    }
}

/// Jobs leave the queue in the order they were submitted, each once: an
/// idle worker that finds work gets the job with the next ticket in line,
/// and the count of jobs handed out grows by one.
pub proof fn lemma_fifo_delivery<T>(v: PoolView<T>, w: int)
    requires
        inv(v),
        0 <= w < v.workers.len(),
        v.workers[w] == WorkerState::Idle,
        v.queue.len() > 0,
    ensures
        v.taken < v.history.len(),
        receive_view(v, w).1 == Delivery::Job(v.history[v.taken as int]),
        receive_view(v, w).0.taken == v.taken + 1,
        receive_view(v, w).0.tickets[w] == v.taken,
        receive_view(v, w).0.history == v.history,
{
}

/// Submission appends: a job submitted while the queue is open gets the next
/// ticket, after every job submitted before it.
pub proof fn lemma_submit_appends<T>(v: PoolView<T>, job: T)
    requires
        inv(v),
        v.open,
    ensures
        submit_view(v, job).history == v.history.push(job),
        submit_view(v, job).history[v.history.len() as int] == job,
        submit_view(v, job).queue.last() == job,
{
}

/// Once every worker has exited, every job ever submitted has been handed
/// out and has run to the end.
pub proof fn lemma_teardown_completes<T>(v: PoolView<T>)
    requires
        inv(v),
        all_exited(v),
    ensures
        v.taken == v.history.len(),
        forall|t: nat| t < v.history.len() ==> v.done.contains(t),
{
    assert(v.workers[0] == WorkerState::Exited);
    assert forall|t: nat| t < v.history.len() implies v.done.contains(t) by {
        if !v.done.contains(t) {
            let w = choose|w: int| busy(v, w) && v.tickets[w] == t;
            assert(v.workers[w] == WorkerState::Exited);
        }
    }
}

/// No two workers ever hold the same job, and no job runs after it has
/// finished.
pub proof fn lemma_exclusive_jobs<T>(v: PoolView<T>, w1: int, w2: int)
    requires
        inv(v),
        busy(v, w1),
        busy(v, w2),
        w1 != w2,
    ensures
        v.tickets[w1] != v.tickets[w2],
        !v.done.contains(v.tickets[w1]),
        !v.done.contains(v.tickets[w2]),
{
}

impl PoolCreationError {
    /// What went wrong, in words.
    pub fn message(&self) -> (r: &'static str)
        ensures
            r@ == "Error has ocurred while the Thread Poll has been created"@,
    {
        "Error has ocurred while the Thread Poll has been created"
    }
}

/// The dispatch state of a fixed-size worker pool: one FIFO queue of jobs
/// shared by all workers, and each worker's state. Whoever runs the worker
/// threads asks it what each worker does next.
pub struct ThreadPool<T> {
    queue: VecDeque<T>,
    open: bool,
    workers: Vec<WorkerState>,
    tickets: Ghost<Seq<nat>>,
    history: Ghost<Seq<T>>,
    taken: Ghost<nat>,
    done: Ghost<Set<nat>>,
}

impl<T> View for ThreadPool<T> {
    type V = PoolView<T>;

    closed spec fn view(&self) -> PoolView<T> {
        PoolView {
            queue: self.queue@,
            open: self.open,
            workers: self.workers@,
            tickets: self.tickets@,
            history: self.history@,
            taken: self.taken@,
            done: self.done@,
        }
    }
}

impl<T> ThreadPool<T> {
    /// The pool is consistent.
    pub open spec fn wf(&self) -> bool {
        inv(self@)
    }

    /// A pool of `size` idle workers with an open, empty queue.
    pub fn new(size: usize) -> (r: ThreadPool<T>)
        requires
            size > 0,
        ensures
            r@ == init_view::<T>(size as nat),
            r.wf(),
    {
        let mut workers: Vec<WorkerState> = Vec::with_capacity(size);
        let mut i: usize = 0;
        while i < size
            invariant
                i <= size,
                workers@ == Seq::new(i as nat, |k: int| WorkerState::Idle),
            decreases size - i,
        {
            workers.push(WorkerState::Idle);
            i = i + 1;
            assert(workers@ =~= Seq::new(i as nat, |k: int| WorkerState::Idle));
        }
        let r = ThreadPool {
            queue: VecDeque::new(),
            open: true,
            workers,
            tickets: Ghost(Seq::new(size as nat, |k: int| 0nat)),
            history: Ghost(Seq::empty()),
            taken: Ghost(0),
            done: Ghost(Set::empty()),
        };
        assert(r@.queue =~= init_view::<T>(size as nat).queue);
        proof {
            lemma_init_inv::<T>(size as nat);
        }
        r
    }

    /// A pool of `size` workers, or an error where `size` is zero.
    pub fn build(size: usize) -> (r: Result<ThreadPool<T>, PoolCreationError>)
        ensures
            size == 0 <==> r is Err,
            r is Ok ==> r->Ok_0@ == init_view::<T>(size as nat) && r->Ok_0.wf(),
    {
        if size == 0 {
            return Err(PoolCreationError);
        }
        Ok(ThreadPool::new(size))
    }

    /// The number of workers.
    pub fn size(&self) -> (r: usize)
        ensures
            r == self@.workers.len(),
    {
        self.workers.len()
    }

    /// Whether jobs can still be submitted.
    pub fn is_open(&self) -> (r: bool)
        ensures
            r == self@.open,
    {
        self.open
    }

    /// The number of jobs waiting in the queue.
    pub fn pending(&self) -> (r: usize)
        ensures
            r == self@.queue.len(),
    {
        self.queue.len()
    }

    /// The state of worker `w`.
    pub fn worker_state(&self, w: usize) -> (r: WorkerState)
        requires
            w < self@.workers.len(),
        ensures
            r == self@.workers[w as int],
    {
        self.workers[w]
    }

    /// Appends `job` to the queue while it is open; hands it back once the
    /// queue is closed.
    pub fn execute(&mut self, job: T) -> (r: Result<(), T>)
        requires
            old(self).wf(),
        ensures
            final(self).wf(),
            final(self)@ == submit_view(old(self)@, job),
            old(self)@.open <==> r is Ok,
            r is Err ==> r->Err_0 == job,
    {
        if !self.open {
            return Err(job);
        }
        proof {
            lemma_submit_inv(self@, job);
        }
        self.history = Ghost(self.history@.push(job));
        self.queue.push_back(job);
        Ok(())
    }

    /// Closes the queue: later submissions are refused, and workers leave
    /// their loops once it runs dry.
    pub fn close(&mut self)
        requires
            old(self).wf(),
        ensures
            final(self).wf(),
            final(self)@ == close_view(old(self)@),
    {
        proof {
            lemma_close_inv(self@);
        }
        self.open = false;
    }

    /// Idle worker `w` asks for work: it takes the oldest job if there is
    /// one, exits if the queue is closed and empty, and waits otherwise.
    pub fn receive(&mut self, w: usize) -> (r: Delivery<T>)
        requires
            old(self).wf(),
            w < old(self)@.workers.len(),
            old(self)@.workers[w as int] == WorkerState::Idle,
        ensures
            final(self).wf(),
            (final(self)@, r) == receive_view(old(self)@, w as int),
    {
        proof {
            lemma_receive_inv(self@, w as int);
        }
        match self.queue.pop_front() {
            Some(job) => {
                self.workers.set(w, WorkerState::Busy);
                self.tickets = Ghost(self.tickets@.update(w as int, self.taken@));
                self.taken = Ghost(self.taken@ + 1);
                Delivery::Job(job)
            },
            None => {
                if self.open {
                    Delivery::Wait
                } else {
                    self.workers.set(w, WorkerState::Exited);
                    Delivery::Closed
                }
            },
        }
    }

    /// Busy worker `w` has run its job to the end and is idle again.
    pub fn finish(&mut self, w: usize)
        requires
            old(self).wf(),
            busy(old(self)@, w as int),
        ensures
            final(self).wf(),
            final(self)@ == finish_view(old(self)@, w as int),
    {
        proof {
            lemma_finish_inv(self@, w as int);
        }
        self.done = Ghost(self.done@.insert(self.tickets@[w as int]));
        self.workers.set(w, WorkerState::Idle);
    }
}

} // verus!
