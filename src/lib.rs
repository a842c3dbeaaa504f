//! A fixed-size worker pool, modelled as a verified state machine.
//!
//! The pool owns a control queue of messages and the bookkeeping of its
//! workers. Threads, locks and waiting stay with the host: a worker thread
//! asks the pool for its next message under a lock, runs a task outside it,
//! and reports back when the task is done. Every transition is checked
//! against the pool's invariant, from which the shutdown guarantees follow.
//!
//! The `http` module holds the decisions of the small web server that feeds
//! the pool: which page a request line asks for, and how a response is framed.

pub mod message;
pub mod worker;
pub mod pool;
pub mod http;
