//! A fixed-size worker pool, modelled as a verified state machine.
//!
//! The pool's bookkeeping lives here: the dispatch queue of messages, the
//! state of each worker, the lifecycle phase and the record of every message
//! handed to a worker. Threads, locks and the jobs' own code run around it:
//! each step a thread takes (submit, receive, complete, shut down, join) is a
//! call of a verified method under the pool's lock.
pub mod message;
pub mod worker;
pub mod pool;
pub mod laws;
