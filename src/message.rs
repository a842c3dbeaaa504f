use vstd::prelude::*;

verus! {

/// What travels on the control queue from the pool to its workers.
pub enum Message<T> {
    /// A task for the receiving worker to run.
    NewJob(T),
    /// Leave the worker loop.
    Terminate,
}

impl<T> Message<T> {
    /// Whether this message carries a task.
    pub fn is_job(&self) -> (r: bool)
        ensures
            r == (self is NewJob),
    {
        match self {
            Message::NewJob(_) => true,
            Message::Terminate => false,
        }
    }
}

} // verus!
