use vstd::prelude::*;

verus! {

/// Where a worker stands in its loop.
#[derive(Clone, Copy, Debug, PartialEq, Eq, Structural)]
pub enum WorkerState {
    /// Waiting for the next message.
    Idle,
    /// Running a task it has claimed.
    Running,
    /// Received a terminate message; its loop has ended.
    Exited,
}

/// The abstract content of a worker record.
pub struct WorkerView {
    pub id: nat,
    pub state: WorkerState,
    pub joined: bool,
}

/// The pool's record of one worker: its id, its state, and whether its
/// thread has been joined.
pub struct Worker {
    id: usize,
    state: WorkerState,
    joined: bool,
}

impl View for Worker {
    type V = WorkerView;

    closed spec fn view(&self) -> WorkerView {
        WorkerView { id: self.id as nat, state: self.state, joined: self.joined }
    }
}

impl Worker {
    /// A new worker starts idle and unjoined.
    pub fn new(id: usize) -> (w: Worker)
        ensures
            w@ == (WorkerView { id: id as nat, state: WorkerState::Idle, joined: false }),
    {
        Worker { id, state: WorkerState::Idle, joined: false }
    }

    pub fn id(&self) -> (r: usize)
        ensures
            r as nat == self@.id,
    {
        self.id
    }

    pub fn state(&self) -> (r: WorkerState)
        ensures
            r == self@.state,
    {
        self.state
    }

    pub fn is_joined(&self) -> (r: bool)
        ensures
            r == self@.joined,
    {
        self.joined
    }

    /// An idle worker claims a task and starts running it.
    pub fn start_job(&mut self)
        requires
            old(self)@.state == WorkerState::Idle,
        ensures
            final(self)@ == (WorkerView { state: WorkerState::Running, ..old(self)@ }),
    {
        self.state = WorkerState::Running;
    }

    /// A running worker finishes its task and goes back to waiting.
    pub fn finish_job(&mut self)
        requires
            old(self)@.state == WorkerState::Running,
        ensures
            final(self)@ == (WorkerView { state: WorkerState::Idle, ..old(self)@ }),
    {
        self.state = WorkerState::Idle;
    }

    /// An idle worker receives a terminate message and leaves its loop.
    pub fn exit(&mut self)
        requires
            old(self)@.state == WorkerState::Idle,
        ensures
            final(self)@ == (WorkerView { state: WorkerState::Exited, ..old(self)@ }),
    {
        self.state = WorkerState::Exited;
    }

    /// The thread of an exited worker is joined, once.
    pub fn mark_joined(&mut self)
        requires
            old(self)@.state == WorkerState::Exited,
            !old(self)@.joined,
        ensures
            final(self)@ == (WorkerView { joined: true, ..old(self)@ }),
    {
        self.joined = true;
    }
}

} // verus!
