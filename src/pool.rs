use std::collections::VecDeque;
use vstd::prelude::*;
use crate::message::Message;
use crate::worker::{Worker, WorkerState, WorkerView};

verus! {

/// The pool's lifecycle.
#[derive(Clone, Copy, Debug, PartialEq, Eq, Structural)]
pub enum Phase {
    /// Accepting tasks.
    Accepting,
    /// Terminate messages have been sent; waiting for workers to be joined.
    ShuttingDown,
    /// Every worker has exited and been joined.
    Stopped,
}

/// The pool's errors.
#[derive(Clone, Copy, Debug, PartialEq, Eq, Structural)]
pub enum PoolError {
    /// A pool of zero workers was asked for.
    ZeroWorkers,
    /// A task was submitted, or shutdown asked for, after shutdown began.
    ShutDown,
    /// A worker was reported joined that had not exited, or was joined before.
    JoinFailed,
}

/// The abstract state of a pool.
///
/// Tasks are numbered by submission order: `tasks[t]` is the `t`-th task
/// ever submitted. The first `dispatched` of them have been handed to a
/// worker; `runs[t]` is the worker that received task `t`, `current[w]` the
/// task that worker `w` is running, and `done` the tasks that have finished.
pub struct PoolView<T> {
    pub queue: Seq<Message<T>>,
    pub workers: Seq<WorkerView>,
    pub phase: Phase,
    pub tasks: Seq<T>,
    pub dispatched: nat,
    pub terminates_sent: nat,
    pub runs: Map<nat, nat>,
    pub current: Map<nat, nat>,
    pub done: Set<nat>,
}

impl<T> PoolView<T> {
    /// Number of task messages still waiting in the queue.
    pub open spec fn waiting(self) -> int {
        self.tasks.len() - self.dispatched
    }

    pub open spec fn has_exited(self, w: int) -> bool {
        self.workers[w].state == WorkerState::Exited
    }

    /// The queue holds the undispatched tasks in submission order, followed
    /// only by terminate messages.
    pub open spec fn queue_shape(self) -> bool {
        &&& self.dispatched <= self.tasks.len()
        &&& self.waiting() <= self.queue.len()
        &&& forall|i: int|
            0 <= i < self.queue.len() ==> (#[trigger] self.queue[i] is NewJob <==> i
                < self.waiting())
        &&& forall|i: int|
            0 <= i < self.waiting() ==> #[trigger] self.queue[i] == Message::NewJob(
                self.tasks[self.dispatched + i],
            )
    }

    /// Each dispatched task went to one worker and is either done or being
    /// run by that worker.
    pub open spec fn tasks_accounted(self) -> bool {
        &&& forall|t: nat| #[trigger] self.runs.contains_key(t) <==> t < self.dispatched
        &&& forall|t: nat| t < self.dispatched ==> #[trigger] self.runs[t] < self.workers.len()
        &&& forall|t: nat| #[trigger] self.done.contains(t) ==> t < self.dispatched
        &&& forall|w: nat|
            w < self.workers.len() ==> (self.workers[w as int].state == WorkerState::Running
                <==> #[trigger] self.current.contains_key(w))
        &&& forall|w: nat|
            #[trigger] self.current.contains_key(w) ==> {
                &&& w < self.workers.len()
                &&& self.current[w] < self.dispatched
                &&& !self.done.contains(self.current[w])
                &&& self.runs[self.current[w]] == w
            }
        &&& forall|t: nat|
            t < self.dispatched && !#[trigger] self.done.contains(t) ==> {
                &&& self.current.contains_key(self.runs[t])
                &&& self.current[self.runs[t]] == t
            }
    }

    /// The lifecycle: no terminate before shutdown, exactly one per worker
    /// after it, and a worker exits only once no task is left ahead of it.
    pub open spec fn lifecycle(self) -> bool {
        &&& self.phase == Phase::Accepting ==> {
            &&& self.queue.len() == self.waiting()
            &&& self.terminates_sent == 0
            &&& forall|w: int| 0 <= w < self.workers.len() ==> !#[trigger] self.has_exited(w)
        }
        &&& self.phase != Phase::Accepting ==> self.terminates_sent == self.workers.len()
        &&& forall|w: int|
            0 <= w < self.workers.len() && #[trigger] self.has_exited(w) ==> self.waiting() == 0
        &&& forall|w: int|
            0 <= w < self.workers.len() && #[trigger] self.workers[w].joined ==> self.has_exited(
                w,
            )
        &&& self.phase == Phase::Stopped ==> forall|w: int|
            0 <= w < self.workers.len() ==> #[trigger] self.workers[w].joined
    }

    /// The pool's invariant.
    pub open spec fn inv(self) -> bool {
        &&& self.workers.len() > 0
        &&& forall|w: int| 0 <= w < self.workers.len() ==> #[trigger] self.workers[w].id == w
        &&& self.queue_shape()
        &&& self.tasks_accounted()
        &&& self.lifecycle()
    }

    /// Handing the front task to an idle worker keeps the invariant.
    proof fn lemma_dispatch(self, w: nat)
        requires
            self.inv(),
            w < self.workers.len(),
            self.workers[w as int].state == WorkerState::Idle,
            self.queue.len() > 0,
            self.queue[0] is NewJob,
        ensures
            (PoolView {
                queue: self.queue.drop_first(),
                workers: self.workers.update(
                    w as int,
                    WorkerView { state: WorkerState::Running, ..self.workers[w as int] },
                ),
                dispatched: self.dispatched + 1,
                runs: self.runs.insert(self.dispatched, w),
                current: self.current.insert(w, self.dispatched),
                ..self
            }).inv(),
    {
        let n = PoolView {
            queue: self.queue.drop_first(),
            workers: self.workers.update(
                w as int,
                WorkerView { state: WorkerState::Running, ..self.workers[w as int] },
            ),
            dispatched: self.dispatched + 1,
            runs: self.runs.insert(self.dispatched, w),
            current: self.current.insert(w, self.dispatched),
            ..self
        };
        assert(self.waiting() > 0);
        assert(!self.current.contains_key(w));
        assert forall|i: int| 0 <= i < n.queue.len() implies (#[trigger] n.queue[i] is NewJob
            <==> i < n.waiting()) by {
            assert(self.queue[i + 1] is NewJob <==> i + 1 < self.waiting());
        }
        assert forall|i: int| 0 <= i < n.waiting() implies #[trigger] n.queue[i] == Message::NewJob(
            n.tasks[n.dispatched + i],
        ) by {
            assert(self.queue[i + 1] == Message::NewJob(self.tasks[self.dispatched + (i + 1)]));
        }
        assert(n.queue_shape());
        assert forall|x: int| 0 <= x < self.workers.len() implies !#[trigger] self.has_exited(x) by {
            if self.has_exited(x) {
                assert(self.waiting() == 0);
            }
        }
        assert forall|x: int| 0 <= x < n.workers.len() implies !#[trigger] n.has_exited(x) by {
            assert(!self.has_exited(x));
        }
        assert forall|x: int| 0 <= x < n.workers.len() implies !#[trigger] n.workers[x].joined by {
            assert(!self.has_exited(x));
            if self.workers[x].joined {
                assert(self.has_exited(x));
            }
        }
        if self.phase == Phase::Stopped {
            assert(self.workers[w as int].joined);
        }
        assert(n.lifecycle());
        assert forall|t: nat| t < n.dispatched && !#[trigger] n.done.contains(t) implies {
            &&& n.current.contains_key(n.runs[t])
            &&& n.current[n.runs[t]] == t
        } by {
            if t < self.dispatched {
                assert(self.current.contains_key(self.runs[t]));
            }
        }
        assert forall|x: nat| #[trigger] n.current.contains_key(x) implies {
            &&& x < n.workers.len()
            &&& n.current[x] < n.dispatched
            &&& !n.done.contains(n.current[x])
            &&& n.runs[n.current[x]] == x
        } by {
            if x != w {
                assert(self.current.contains_key(x));
            }
        }
        assert forall|x: nat|
            x < n.workers.len() implies (n.workers[x as int].state == WorkerState::Running
            <==> #[trigger] n.current.contains_key(x)) by {
            if x != w {
                assert(self.workers[x as int].state == WorkerState::Running
                    <==> self.current.contains_key(x));
            }
        }
        assert(n.tasks_accounted());
    }

    /// Handing a terminate message to an idle worker keeps the invariant.
    proof fn lemma_exit(self, w: nat)
        requires
            self.inv(),
            w < self.workers.len(),
            self.workers[w as int].state == WorkerState::Idle,
            self.queue.len() > 0,
            self.queue[0] is Terminate,
        ensures
            (PoolView {
                queue: self.queue.drop_first(),
                workers: self.workers.update(
                    w as int,
                    WorkerView { state: WorkerState::Exited, ..self.workers[w as int] },
                ),
                ..self
            }).inv(),
    {
        let n = PoolView {
            queue: self.queue.drop_first(),
            workers: self.workers.update(
                w as int,
                WorkerView { state: WorkerState::Exited, ..self.workers[w as int] },
            ),
            ..self
        };
        assert(!(self.queue[0] is NewJob));
        assert(self.waiting() == 0);
        assert(!self.current.contains_key(w));
        assert forall|i: int| 0 <= i < n.queue.len() implies (#[trigger] n.queue[i] is NewJob
            <==> i < n.waiting()) by {
            assert(self.queue[i + 1] is NewJob <==> i + 1 < self.waiting());
        }
        assert(n.queue_shape());
        if self.phase == Phase::Stopped {
            assert(self.workers[w as int].joined);
        }
        assert forall|x: int|
            0 <= x < n.workers.len() && #[trigger] n.workers[x].joined implies n.has_exited(x) by {
            assert(self.workers[x].joined ==> self.has_exited(x));
        }
        assert(n.lifecycle());
        assert forall|x: nat|
            x < n.workers.len() implies (n.workers[x as int].state == WorkerState::Running
            <==> #[trigger] n.current.contains_key(x)) by {
            if x != w {
                assert(self.workers[x as int].state == WorkerState::Running
                    <==> self.current.contains_key(x));
            }
        }
        assert(n.tasks_accounted());
    }

    /// A running worker finishing its task keeps the invariant.
    proof fn lemma_finish(self, w: nat)
        requires
            self.inv(),
            w < self.workers.len(),
            self.workers[w as int].state == WorkerState::Running,
        ensures
            (PoolView {
                workers: self.workers.update(
                    w as int,
                    WorkerView { state: WorkerState::Idle, ..self.workers[w as int] },
                ),
                current: self.current.remove(w),
                done: self.done.insert(self.current[w]),
                ..self
            }).inv(),
    {
        let n = PoolView {
            workers: self.workers.update(
                w as int,
                WorkerView { state: WorkerState::Idle, ..self.workers[w as int] },
            ),
            current: self.current.remove(w),
            done: self.done.insert(self.current[w]),
            ..self
        };
        let t0 = self.current[w];
        assert(self.current.contains_key(w));
        assert(!self.has_exited(w as int));
        assert(!self.workers[w as int].joined);
        assert forall|x: nat| #[trigger] n.current.contains_key(x) implies {
            &&& x < n.workers.len()
            &&& n.current[x] < n.dispatched
            &&& !n.done.contains(n.current[x])
            &&& n.runs[n.current[x]] == x
        } by {
            assert(self.current.contains_key(x));
        }
        assert forall|t: nat| t < n.dispatched && !#[trigger] n.done.contains(t) implies {
            &&& n.current.contains_key(n.runs[t])
            &&& n.current[n.runs[t]] == t
        } by {
            assert(!self.done.contains(t));
            assert(self.current.contains_key(self.runs[t]));
        }
        assert forall|x: nat|
            x < n.workers.len() implies (n.workers[x as int].state == WorkerState::Running
            <==> #[trigger] n.current.contains_key(x)) by {
            if x != w {
                assert(self.workers[x as int].state == WorkerState::Running
                    <==> self.current.contains_key(x));
            }
        }
        assert(n.tasks_accounted());
        assert forall|x: int| 0 <= x < n.workers.len() && #[trigger] n.has_exited(x) implies n.waiting()
            == 0 by {
            assert(self.has_exited(x));
        }
        assert forall|x: int|
            0 <= x < n.workers.len() && #[trigger] n.workers[x].joined implies n.has_exited(x) by {
            assert(self.workers[x].joined ==> self.has_exited(x));
        }
        if self.phase == Phase::Stopped {
            assert(self.workers[w as int].joined);
        }
        if self.phase == Phase::Accepting {
            assert forall|x: int| 0 <= x < n.workers.len() implies !#[trigger] n.has_exited(x) by {
                assert(!self.has_exited(x));
            }
        }
        assert(n.lifecycle());
    }

    /// Whether every worker's thread has been joined.
    pub open spec fn all_joined(self) -> bool {
        forall|w: int| 0 <= w < self.workers.len() ==> #[trigger] self.workers[w].joined
    }

    /// Recording the join of an exited worker keeps the invariant; the pool
    /// stops once every worker is joined.
    proof fn lemma_join(self, w: nat, n: PoolView<T>)
        requires
            self.inv(),
            self.phase == Phase::ShuttingDown,
            w < self.workers.len(),
            self.has_exited(w as int),
            n == (PoolView {
                workers: self.workers.update(
                    w as int,
                    WorkerView { joined: true, ..self.workers[w as int] },
                ),
                phase: n.phase,
                ..self
            }),
            n.phase == (if n.all_joined() {
                Phase::Stopped
            } else {
                Phase::ShuttingDown
            }),
        ensures
            n.inv(),
    {
        assert forall|x: nat|
            x < n.workers.len() implies (n.workers[x as int].state == WorkerState::Running
            <==> #[trigger] n.current.contains_key(x)) by {
            assert(self.workers[x as int].state == WorkerState::Running
                <==> self.current.contains_key(x));
        }
        assert(n.tasks_accounted());
        assert forall|x: int| 0 <= x < n.workers.len() && #[trigger] n.has_exited(x) implies n.waiting()
            == 0 by {
            assert(self.has_exited(x));
        }
        assert forall|x: int|
            0 <= x < n.workers.len() && #[trigger] n.workers[x].joined implies n.has_exited(x) by {
            assert(self.workers[x].joined ==> self.has_exited(x));
        }
        assert(n.lifecycle());
    }

    /// A fresh pool of `n` idle workers.
    pub open spec fn initial(n: nat) -> PoolView<T> {
        PoolView {
            queue: Seq::empty(),
            workers: Seq::new(
                n,
                |w: int| WorkerView { id: w as nat, state: WorkerState::Idle, joined: false },
            ),
            phase: Phase::Accepting,
            tasks: Seq::empty(),
            dispatched: 0,
            terminates_sent: 0,
            runs: Map::empty(),
            current: Map::empty(),
            done: Set::empty(),
        }
    }
}

/// Once a pool has stopped, every task ever submitted was handed to exactly
/// one worker and ran to completion, exactly one terminate message was sent
/// per worker, and every worker has exited and been joined.
pub proof fn lemma_stopped_pool_ran_every_task<T>(p: PoolView<T>)
    requires
        p.inv(),
        p.phase == Phase::Stopped,
    ensures
        p.dispatched == p.tasks.len(),
        forall|t: nat|
            t < p.tasks.len() ==> #[trigger] p.runs.contains_key(t) && p.runs[t]
                < p.workers.len() && p.done.contains(t),
        p.runs.dom() =~= Set::new(|t: nat| t < p.tasks.len()),
        p.terminates_sent == p.workers.len(),
        forall|w: int|
            0 <= w < p.workers.len() ==> #[trigger] p.workers[w].state == WorkerState::Exited
                && p.workers[w].joined,
{
    assert(p.workers[0].joined);
    assert(p.has_exited(0));
    assert forall|w: int| 0 <= w < p.workers.len() implies #[trigger] p.workers[w].state
        == WorkerState::Exited && p.workers[w].joined by {
        assert(p.workers[w].joined);
        assert(p.has_exited(w));
    }
    assert forall|t: nat| t < p.tasks.len() implies #[trigger] p.runs.contains_key(t) && p.runs[t]
        < p.workers.len() && p.done.contains(t) by {
        if !p.done.contains(t) {
            let w = p.runs[t];
            assert(p.current.contains_key(w));
            assert(p.workers[w as int].state == WorkerState::Exited);
        }
    }
}

/// A task that never finishes keeps its worker running, and a pool with a
/// running worker cannot stop: that worker cannot be joined.
pub proof fn lemma_running_task_blocks_stop<T>(p: PoolView<T>, w: int)
    requires
        p.inv(),
        0 <= w < p.workers.len(),
        p.workers[w].state == WorkerState::Running,
    ensures
        p.phase != Phase::Stopped,
        !p.workers[w].joined,
{
    if p.workers[w].joined {
        assert(p.has_exited(w));
    }
}

/// A fixed-size pool of workers fed through one control queue.
pub struct ThreadPool<T> {
    workers: Vec<Worker>,
    queue: VecDeque<Message<T>>,
    phase: Phase,
    tasks: Ghost<Seq<T>>,
    dispatched: Ghost<nat>,
    terminates_sent: Ghost<nat>,
    runs: Ghost<Map<nat, nat>>,
    current: Ghost<Map<nat, nat>>,
    done: Ghost<Set<nat>>,
}

impl<T> View for ThreadPool<T> {
    type V = PoolView<T>;

    closed spec fn view(&self) -> PoolView<T> {
        PoolView {
            queue: self.queue@,
            workers: self.workers@.map_values(|w: Worker| w@),
            phase: self.phase,
            tasks: self.tasks@,
            dispatched: self.dispatched@,
            terminates_sent: self.terminates_sent@,
            runs: self.runs@,
            current: self.current@,
            done: self.done@,
        }
    }
}

impl<T> ThreadPool<T> {
    /// Creates a pool of `size` workers, all idle.
    pub fn new(size: usize) -> (p: ThreadPool<T>)
        requires
            size > 0,
        ensures
            p@ == PoolView::<T>::initial(size as nat),
            p@.inv(),
    {
        let mut workers: Vec<Worker> = Vec::with_capacity(size);
        let mut id: usize = 0;
        while id < size
            invariant
                id <= size,
                workers@.len() == id,
                forall|w: int|
                    0 <= w < id ==> #[trigger] workers@[w]@ == (WorkerView {
                        id: w as nat,
                        state: WorkerState::Idle,
                        joined: false,
                    }),
            decreases size - id,
        {
            workers.push(Worker::new(id));
            id = id + 1;
        }
        let p = ThreadPool {
            workers,
            queue: VecDeque::new(),
            phase: Phase::Accepting,
            tasks: Ghost(Seq::empty()),
            dispatched: Ghost(0),
            terminates_sent: Ghost(0),
            runs: Ghost(Map::empty()),
            current: Ghost(Map::empty()),
            done: Ghost(Set::empty()),
        };
        assert(p@.workers =~= PoolView::<T>::initial(size as nat).workers);
        p
    }

    /// Creates a pool of `size` workers; a pool of zero workers is refused.
    pub fn try_new(size: usize) -> (r: Result<ThreadPool<T>, PoolError>)
        ensures
            r is Err <==> size == 0,
            r is Err ==> r == Err::<ThreadPool<T>, PoolError>(PoolError::ZeroWorkers),
            r matches Ok(p) ==> p@ == PoolView::<T>::initial(size as nat) && p@.inv(),
    {
        if size == 0 {
            Err(PoolError::ZeroWorkers)
        } else {
            Ok(ThreadPool::new(size))
        }
    }

    /// Number of workers.
    pub fn size(&self) -> (r: usize)
        ensures
            r == self@.workers.len(),
    {
        self.workers.len()
    }

    /// The pool's lifecycle phase.
    pub fn phase(&self) -> (r: Phase)
        ensures
            r == self@.phase,
    {
        self.phase
    }

    /// Submits a task: it is queued behind every task submitted before it.
    /// Once shutdown has begun the task is refused.
    pub fn execute(&mut self, job: T) -> (r: Result<(), PoolError>)
        requires
            old(self)@.inv(),
        ensures
            final(self)@.inv(),
            r is Ok <==> old(self)@.phase == Phase::Accepting,
            r is Ok ==> final(self)@ == (PoolView {
                queue: old(self)@.queue.push(Message::NewJob(job)),
                tasks: old(self)@.tasks.push(job),
                ..old(self)@
            }),
            r is Err ==> r == Err::<(), PoolError>(PoolError::ShutDown) && final(self)@ == old(
                self,
            )@,
    {
        if self.phase != Phase::Accepting {
            return Err(PoolError::ShutDown);
        }
        let ghost old_view = self@;
        proof {
            self.tasks@ = self.tasks@.push(job);
        }
        self.queue.push_back(Message::NewJob(job));
        proof {
            let v = self@;
            assert(v.waiting() == old_view.waiting() + 1);
            assert forall|i: int| 0 <= i < v.waiting() implies #[trigger] v.queue[i]
                == Message::NewJob(v.tasks[v.dispatched + i]) by {
                if i < old_view.waiting() {
                    assert(old_view.queue[i] == Message::NewJob(
                        old_view.tasks[old_view.dispatched + i],
                    ));
                }
            }
            assert forall|i: int| 0 <= i < v.queue.len() implies (#[trigger] v.queue[i] is NewJob
                <==> i < v.waiting()) by {
                if i < old_view.queue.len() {
                    assert(old_view.queue[i] is NewJob <==> i < old_view.waiting());
                }
            }
            assert forall|w: int| 0 <= w < v.workers.len() implies !#[trigger] v.has_exited(w) by {
                assert(!old_view.has_exited(w));
            }
        }
        Ok(())
    }

    /// Begins shutdown: sends exactly one terminate message per worker,
    /// behind every task already queued. Shutdown happens once.
    pub fn shutdown(&mut self) -> (r: Result<(), PoolError>)
        requires
            old(self)@.inv(),
        ensures
            final(self)@.inv(),
            r is Ok <==> old(self)@.phase == Phase::Accepting,
            r is Ok ==> final(self)@ == (PoolView {
                queue: old(self)@.queue + Seq::new(
                    old(self)@.workers.len(),
                    |i: int| Message::<T>::Terminate,
                ),
                phase: Phase::ShuttingDown,
                terminates_sent: old(self)@.workers.len(),
                ..old(self)@
            }),
            r is Err ==> r == Err::<(), PoolError>(PoolError::ShutDown) && final(self)@ == old(
                self,
            )@,
    {
        if self.phase != Phase::Accepting {
            return Err(PoolError::ShutDown);
        }
        let ghost old_view = self@;
        let n = self.workers.len();
        let mut sent: usize = 0;
        while sent < n
            invariant
                old_view.inv(),
                old_view.phase == Phase::Accepting,
                n == old_view.workers.len(),
                sent <= n,
                self@ == (PoolView {
                    queue: old_view.queue + Seq::new(sent as nat, |i: int| Message::<T>::Terminate),
                    ..old_view
                }),
            decreases n - sent,
        {
            self.queue.push_back(Message::Terminate);
            sent = sent + 1;
            assert(self@.queue =~= old_view.queue + Seq::new(
                sent as nat,
                |i: int| Message::<T>::Terminate,
            ));
        }
        self.phase = Phase::ShuttingDown;
        proof {
            self.terminates_sent@ = n as nat;
            let v = self@;
            assert forall|i: int| 0 <= i < v.queue.len() implies (#[trigger] v.queue[i] is NewJob
                <==> i < v.waiting()) by {
                if i < old_view.queue.len() {
                    assert(old_view.queue[i] is NewJob <==> i < old_view.waiting());
                }
            }
            assert forall|i: int| 0 <= i < v.waiting() implies #[trigger] v.queue[i]
                == Message::NewJob(v.tasks[v.dispatched + i]) by {
                assert(old_view.queue[i] == Message::NewJob(
                    old_view.tasks[old_view.dispatched + i],
                ));
            }
            assert forall|w: int| 0 <= w < v.workers.len() implies !#[trigger] v.has_exited(w) by {
                assert(!old_view.has_exited(w));
            }
            assert forall|w: int| 0 <= w < v.workers.len() implies !#[trigger] v.workers[w].joined by {
                assert(!old_view.has_exited(w));
            }
        }
        Ok(())
    }

    /// Hands the next queued message to worker `w`, which must be idle.
    ///
    /// A task goes to exactly one worker, which runs it until it reports it
    /// done; a terminate message ends the worker's loop. Nothing is handed out
    /// when `w` is not an idle worker or the queue is empty.
    pub fn receive(&mut self, w: usize) -> (r: Option<Message<T>>)
        requires
            old(self)@.inv(),
        ensures
            final(self)@.inv(),
            r is Some <==> w < old(self)@.workers.len() && old(self)@.workers[w as int].state
                == WorkerState::Idle && old(self)@.queue.len() > 0,
            r is None ==> final(self)@ == old(self)@,
            r matches Some(m) ==> m == old(self)@.queue[0],
            r matches Some(Message::NewJob(job)) ==> {
                let o = old(self)@;
                &&& job == o.tasks[o.dispatched as int]
                &&& final(self)@ == (PoolView {
                    queue: o.queue.drop_first(),
                    workers: o.workers.update(
                        w as int,
                        WorkerView { state: WorkerState::Running, ..o.workers[w as int] },
                    ),
                    dispatched: o.dispatched + 1,
                    runs: o.runs.insert(o.dispatched, w as nat),
                    current: o.current.insert(w as nat, o.dispatched),
                    ..o
                })
            },
            r matches Some(Message::Terminate) ==> {
                let o = old(self)@;
                final(self)@ == (PoolView {
                    queue: o.queue.drop_first(),
                    workers: o.workers.update(
                        w as int,
                        WorkerView { state: WorkerState::Exited, ..o.workers[w as int] },
                    ),
                    ..o
                })
            },
    {
        if w >= self.workers.len() {
            return None;
        }
        if self.workers[w].state() != WorkerState::Idle {
            return None;
        }
        let ghost o = self@;
        let m = match self.queue.pop_front() {
            Some(m) => m,
            None => return None,
        };
        assert(self.queue@ =~= o.queue.drop_first());
        proof {
            assert(o.queue[0] is NewJob <==> 0 < o.waiting());
        }
        if m.is_job() {
            proof {
                o.lemma_dispatch(w as nat);
            }
            self.workers[w].start_job();
            proof {
                assert(o.queue[0] == Message::NewJob(o.tasks[o.dispatched as int + 0]));
                let t = self.dispatched@;
                self.runs@ = self.runs@.insert(t, w as nat);
                self.current@ = self.current@.insert(w as nat, t);
                self.dispatched@ = t + 1;
            }
        } else {
            proof {
                o.lemma_exit(w as nat);
            }
            self.workers[w].exit();
        }
        proof {
            assert(self@.workers =~= o.workers.update(
                w as int,
                WorkerView { state: self.workers@[w as int]@.state, ..o.workers[w as int] },
            ));
        }
        Some(m)
    }

    /// Worker `w` reports that the task it was running has finished.
    /// Returns false, changing nothing, when `w` is not running a task.
    pub fn complete(&mut self, w: usize) -> (r: bool)
        requires
            old(self)@.inv(),
        ensures
            final(self)@.inv(),
            r <==> w < old(self)@.workers.len() && old(self)@.workers[w as int].state
                == WorkerState::Running,
            !r ==> final(self)@ == old(self)@,
            r ==> {
                let o = old(self)@;
                final(self)@ == (PoolView {
                    workers: o.workers.update(
                        w as int,
                        WorkerView { state: WorkerState::Idle, ..o.workers[w as int] },
                    ),
                    current: o.current.remove(w as nat),
                    done: o.done.insert(o.current[w as nat]),
                    ..o
                })
            },
    {
        if w >= self.workers.len() {
            return false;
        }
        if self.workers[w].state() != WorkerState::Running {
            return false;
        }
        let ghost o = self@;
        proof {
            o.lemma_finish(w as nat);
            self.done@ = self.done@.insert(self.current@[w as nat]);
            self.current@ = self.current@.remove(w as nat);
        }
        self.workers[w].finish_job();
        assert(self@.workers =~= o.workers.update(
            w as int,
            WorkerView { state: WorkerState::Idle, ..o.workers[w as int] },
        ));
        true
    }

    /// Records that the thread of worker `w` has been joined. Only a worker
    /// that has exited during shutdown can be joined, and only once; when
    /// the last one is joined the pool is stopped.
    pub fn record_join(&mut self, w: usize) -> (r: Result<(), PoolError>)
        requires
            old(self)@.inv(),
        ensures
            final(self)@.inv(),
            r is Ok <==> old(self)@.phase == Phase::ShuttingDown && w < old(self)@.workers.len()
                && old(self)@.has_exited(w as int) && !old(self)@.workers[w as int].joined,
            r is Err ==> r == Err::<(), PoolError>(PoolError::JoinFailed) && final(self)@ == old(
                self,
            )@,
            r is Ok ==> {
                let o = old(self)@;
                let ws = o.workers.update(
                    w as int,
                    WorkerView { joined: true, ..o.workers[w as int] },
                );
                final(self)@ == (PoolView {
                    workers: ws,
                    phase: if (PoolView { workers: ws, ..o }).all_joined() {
                        Phase::Stopped
                    } else {
                        Phase::ShuttingDown
                    },
                    ..o
                })
            },
    {
        if self.phase != Phase::ShuttingDown || w >= self.workers.len() {
            return Err(PoolError::JoinFailed);
        }
        if self.workers[w].state() != WorkerState::Exited || self.workers[w].is_joined() {
            return Err(PoolError::JoinFailed);
        }
        let ghost o = self@;
        self.workers[w].mark_joined();
        let ghost ws = o.workers.update(w as int, WorkerView { joined: true, ..o.workers[w as int] });
        assert(self@.workers =~= ws);
        let mut all: bool = true;
        let mut i: usize = 0;
        while i < self.workers.len()
            invariant
                i <= self.workers@.len(),
                self@.workers == ws,
                self@ == (PoolView { workers: ws, ..o }),
                all <==> forall|x: int| 0 <= x < i ==> #[trigger] ws[x].joined,
            decreases self.workers@.len() - i,
        {
            assert(self.workers@[i as int]@ == ws[i as int]);
            if !self.workers[i].is_joined() {
                all = false;
            }
            i = i + 1;
            assert(all <==> forall|x: int| 0 <= x < i ==> #[trigger] ws[x].joined) by {
                if all {
                    assert forall|x: int| 0 <= x < i implies #[trigger] ws[x].joined by {
                        if x < i - 1 {
                            assert(ws[x].joined);
                        }
                    }
                }
            }
        }
        if all {
            self.phase = Phase::Stopped;
        }
        proof {
            o.lemma_join(w as nat, self@);
        }
        Ok(())
    }
}

} // verus!
