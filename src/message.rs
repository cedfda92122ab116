use vstd::prelude::*;

verus! {

/// What travels through the dispatch queue: a job to run, or the signal
/// that tells one worker to stop.
pub enum Message<J> {
    NewJob(J),
    Terminate,
}

/// A message without its payload: the job it carries, by ticket (the
/// order in which jobs were submitted, from zero), or a stop signal.
#[derive(Clone, Copy, Debug, PartialEq, Eq, Structural)]
pub enum Tag {
    Job(u64),
    Terminate,
}

impl<J> Message<J> {
    /// Whether this message asks its receiver to stop.
    pub fn is_terminate(&self) -> (r: bool)
        ensures
            r == (*self is Terminate),
    {
        match self {
            Message::NewJob(_) => false,
            Message::Terminate => true,
        }
    }
}

} // verus!
