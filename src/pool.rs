use vstd::prelude::*;
use std::collections::VecDeque;
use crate::message::{Message, Tag};
use crate::worker::{
    busy, count_in, joined, lemma_count_constant, lemma_count_le_len, lemma_count_none,
    lemma_count_update, WorkerState,
};

verus! {

/// Where a pool stands in its life. `Running` accepts jobs; `Draining` has
/// sent one stop signal per worker and lets the queued jobs run out;
/// `Stopped` has joined every worker. There is no way back.
#[derive(Clone, Copy, Debug, PartialEq, Eq, Structural)]
pub enum Phase {
    Running,
    Draining,
    Stopped,
}

/// Why a job was turned away.
#[derive(Clone, Copy, Debug, PartialEq, Eq, Structural)]
pub enum SubmitError {
    /// Shutdown has begun: the pool takes no more jobs.
    ShuttingDown,
}

/// The mathematical state of a pool.
pub struct PoolView<J> {
    /// One entry per worker, by worker id.
    pub workers: Seq<WorkerState>,
    /// The messages waiting in the dispatch queue, oldest first.
    pub pending: Seq<Message<J>>,
    /// Jobs accepted so far; the next job gets this ticket.
    pub submitted: nat,
    /// Jobs handed to a worker so far.
    pub started: nat,
    /// Jobs whose worker has reported them done.
    pub finished: nat,
    /// Stop signals sent so far.
    pub terminates: nat,
    /// Workers whose thread has been joined.
    pub joined: nat,
    pub phase: Phase,
    /// Every message handed out so far, in order, with the worker that took it.
    pub log: Seq<(Tag, nat)>,
}

/// `n` stop signals.
pub open spec fn stops<J>(n: nat) -> Seq<Message<J>> {
    Seq::new(n, |_i: int| Message::Terminate)
}

impl<J> PoolView<J> {
    pub open spec fn size(self) -> nat {
        self.workers.len()
    }

    /// The message sent in position `i` of the queue's whole history: every
    /// job first, in ticket order, then the stop signals.
    pub open spec fn sent_at(self, i: int) -> Tag {
        if i < self.submitted {
            Tag::Job(i as u64)
        } else {
            Tag::Terminate
        }
    }

    /// Worker `w` has been handed a stop signal.
    pub open spec fn received_stop(self, w: nat) -> bool {
        exists|i: int| 0 <= i < self.log.len() && #[trigger] self.log[i] == (Tag::Terminate, w)
    }

    /// The invariant that every reachable state keeps.
    pub open spec fn inv(self) -> bool {
        &&& self.workers.len() > 0
        &&& self.submitted <= u64::MAX
        &&& self.log.len() + self.pending.len() == self.submitted + self.terminates
        &&& forall|i: int|
            0 <= i < self.log.len() ==> (#[trigger] self.log[i]).0 == self.sent_at(i)
                && self.log[i].1 < self.workers.len()
        &&& forall|i: int|
            0 <= i < self.pending.len() ==> ((#[trigger] self.pending[i]) is Terminate <==> self.log.len()
                + i >= self.submitted)
        &&& self.started == if self.log.len() < self.submitted {
            self.log.len()
        } else {
            self.submitted
        }
        &&& self.finished <= self.started
        &&& self.started - self.finished == count_in(self.workers, busy())
        &&& self.joined == count_in(self.workers, joined())
        &&& (self.phase is Running <==> self.terminates == 0)
        &&& (!(self.phase is Running) ==> self.terminates == self.workers.len())
        &&& (self.phase is Stopped <==> (!(self.phase is Running) && self.joined == self.workers.len()))
        &&& forall|w: int|
            0 <= w < self.workers.len() ==> ((#[trigger] self.workers[w] is Exited
                || self.workers[w] is Joined) <==> self.received_stop(w as nat))
        &&& forall|i: int, j: int|
            0 <= i < j < self.log.len() && (#[trigger] self.log[i]).0 is Terminate ==> (
            #[trigger] self.log[j]).1 != self.log[i].1
    }

    /// A fresh pool of `n` idle workers.
    pub open spec fn initial(n: nat) -> PoolView<J> {
        PoolView {
            workers: Seq::new(n, |_i: int| WorkerState::Idle),
            pending: Seq::empty(),
            submitted: 0,
            started: 0,
            finished: 0,
            terminates: 0,
            joined: 0,
            phase: Phase::Running,
            log: Seq::empty(),
        }
    }

    /// A job joins the back of the queue under the next ticket.
    pub open spec fn after_submit(self, job: J) -> PoolView<J> {
        PoolView { pending: self.pending.push(Message::NewJob(job)), submitted: self.submitted + 1, ..self }
    }

    /// Worker `w` takes the message at the front of the queue.
    pub open spec fn after_receive(self, w: nat) -> PoolView<J> {
        let tag = self.sent_at(self.log.len() as int);
        PoolView {
            workers: self.workers.update(
                w as int,
                match tag {
                    Tag::Job(t) => WorkerState::Busy(t),
                    Tag::Terminate => WorkerState::Exited,
                },
            ),
            pending: self.pending.drop_first(),
            started: if tag is Job {
                self.started + 1
            } else {
                self.started
            },
            log: self.log.push((tag, w)),
            ..self
        }
    }

    /// Worker `w` reports its job done and waits again.
    pub open spec fn after_complete(self, w: nat) -> PoolView<J> {
        PoolView {
            workers: self.workers.update(w as int, WorkerState::Idle),
            finished: self.finished + 1,
            ..self
        }
    }

    /// One stop signal per worker joins the back of the queue.
    pub open spec fn after_shutdown(self) -> PoolView<J> {
        PoolView {
            pending: self.pending + stops(self.workers.len()),
            terminates: self.workers.len(),
            phase: Phase::Draining,
            ..self
        }
    }

    /// Worker `w`'s thread has been joined; with the last one the pool stops.
    pub open spec fn after_join(self, w: nat) -> PoolView<J> {
        PoolView {
            workers: self.workers.update(w as int, WorkerState::Joined),
            joined: self.joined + 1,
            phase: if self.joined + 1 == self.workers.len() {
                Phase::Stopped
            } else {
                self.phase
            },
            ..self
        }
    }
}

/// The state of a pool: the dispatch queue, the workers' states and the
/// lifecycle. Every step a thread takes is one method call.
pub struct PoolState<J> {
    queue: VecDeque<Message<J>>,
    workers: Vec<WorkerState>,
    submitted: u64,
    started: u64,
    finished: u64,
    terminates: usize,
    joined: usize,
    phase: Phase,
    log: Ghost<Seq<(Tag, nat)>>,
}

impl<J> View for PoolState<J> {
    type V = PoolView<J>;

    closed spec fn view(&self) -> PoolView<J> {
        PoolView {
            workers: self.workers@,
            pending: self.queue@,
            submitted: self.submitted as nat,
            started: self.started as nat,
            finished: self.finished as nat,
            terminates: self.terminates as nat,
            joined: self.joined as nat,
            phase: self.phase,
            log: self.log@,
        }
    }
}


impl<J> PoolState<J> {
    /// Well-formed: the state keeps the pool's invariant.
    pub open spec fn wf(&self) -> bool {
        self@.inv()
    }

    /// A pool of `size` idle workers with an empty queue. A pool without
    /// workers would never run a job: `size` must be positive.
    pub fn new(size: usize) -> (r: Self)
        requires
            size > 0,
        ensures
            r.wf(),
            r@ == PoolView::<J>::initial(size as nat),
    {
        let mut workers: Vec<WorkerState> = Vec::with_capacity(size);
        let mut k: usize = 0;
        while k < size
            invariant
                k <= size,
                workers@.len() == k,
                forall|i: int| 0 <= i < k ==> workers@[i] == WorkerState::Idle,
            decreases size - k,
        {
            workers.push(WorkerState::Idle);
            k = k + 1;
        }
        let r = PoolState {
            queue: VecDeque::new(),
            workers,
            submitted: 0,
            started: 0,
            finished: 0,
            terminates: 0,
            joined: 0,
            phase: Phase::Running,
            log: Ghost(Seq::empty()),
        };
        proof {
            assert(r@.workers =~= Seq::new(size as nat, |_i: int| WorkerState::Idle));
            lemma_count_constant(r@.workers, busy(), WorkerState::Idle);
            lemma_count_constant(r@.workers, joined(), WorkerState::Idle);
        }
        r
    }

    /// Queues `job` behind every message sent before it and returns its
    /// ticket. Once shutdown has begun, jobs are refused and nothing changes.
    pub fn submit(&mut self, job: J) -> (r: Result<u64, SubmitError>)
        requires
            old(self).wf(),
            old(self)@.phase is Running ==> old(self)@.submitted < u64::MAX,
        ensures
            final(self).wf(),
            r is Ok <==> old(self)@.phase is Running,
            match r {
                Ok(t) => t == old(self)@.submitted && final(self)@ == old(self)@.after_submit(job),
                Err(e) => e == SubmitError::ShuttingDown && final(self)@ == old(self)@,
            },
    {
        match self.phase {
            Phase::Running => {},
            _ => {
                return Err(SubmitError::ShuttingDown);
            },
        }
        let ticket = self.submitted;
        self.queue.push_back(Message::NewJob(job));
        self.submitted = ticket + 1;
        proof {
            let o = old(self)@;
            let v = self@;
            assert(v =~= o.after_submit(job));
            assert forall|i: int| 0 <= i < v.log.len() implies (#[trigger] v.log[i]).0 == v.sent_at(i) by {
                assert(o.log[i].0 == o.sent_at(i));
            }
            assert forall|i: int| 0 <= i < v.pending.len() implies ((#[trigger] v.pending[i]) is Terminate
                <==> v.log.len() + i >= v.submitted) by {
                if i < o.pending.len() {
                    assert(v.pending[i] == o.pending[i]);
                }
            }
            assert forall|w: int| 0 <= w < v.workers.len() implies ((#[trigger] v.workers[w] is Exited
                || v.workers[w] is Joined) <==> v.received_stop(w as nat)) by {
                lemma_stop_same_log(o, v, w as nat);
            }
        }
        Ok(ticket)
    }

    /// Worker `worker`, idle, takes the oldest queued message. A job makes
    /// it busy with that job's ticket; a stop signal makes it exit. With
    /// nothing queued it gets `None` and nothing changes.
    pub fn receive(&mut self, worker: usize) -> (r: Option<Message<J>>)
        requires
            old(self).wf(),
            worker < old(self)@.size(),
            old(self)@.workers[worker as int] is Idle,
        ensures
            final(self).wf(),
            r is Some <==> old(self)@.pending.len() > 0,
            match r {
                Some(m) => m == old(self)@.pending[0] && final(self)@ == old(self)@.after_receive(
                    worker as nat,
                ),
                None => final(self)@ == old(self)@,
            },
    {
        let m = match self.queue.pop_front() {
            Some(m) => m,
            None => {
                return None;
            },
        };
        let ghost o = old(self)@;
        let ghost tag = o.sent_at(o.log.len() as int);
        proof {
            assert(o.pending[0] is Terminate <==> o.log.len() >= o.submitted);
        }
        match &m {
            Message::NewJob(_) => {
                let t = self.started;
                self.workers.set(worker, WorkerState::Busy(t));
                self.started = t + 1;
            },
            Message::Terminate => {
                self.workers.set(worker, WorkerState::Exited);
            },
        }
        self.log = Ghost(self.log@.push((tag, worker as nat)));
        proof {
            let v = self@;
            let w = worker as int;
            assert(v =~= o.after_receive(worker as nat));
            lemma_count_update(o.workers, busy(), w, v.workers[w]);
            lemma_count_update(o.workers, joined(), w, v.workers[w]);
            assert forall|i: int| 0 <= i < v.log.len() implies (#[trigger] v.log[i]).0 == v.sent_at(i)
                && v.log[i].1 < v.workers.len() by {
                if i < o.log.len() {
                    assert(v.log[i] == o.log[i]);
                }
            }
            assert forall|i: int| 0 <= i < v.pending.len() implies ((#[trigger] v.pending[i]) is Terminate
                <==> v.log.len() + i >= v.submitted) by {
                assert(v.pending[i] == o.pending[i + 1]);
            }
            assert(!o.received_stop(worker as nat));
            assert forall|x: int| 0 <= x < v.workers.len() implies ((#[trigger] v.workers[x] is Exited
                || v.workers[x] is Joined) <==> v.received_stop(x as nat)) by {
                if x == w {
                    if tag is Terminate {
                        assert(v.log[o.log.len() as int] == (Tag::Terminate, x as nat));
                    } else {
                        if v.received_stop(x as nat) {
                            let i = choose|i: int|
                                0 <= i < v.log.len() && #[trigger] v.log[i] == (Tag::Terminate, x as nat);
                            assert(i < o.log.len());
                            assert(o.log[i] == v.log[i]);
                        }
                    }
                } else {
                    if v.received_stop(x as nat) {
                        let i = choose|i: int|
                            0 <= i < v.log.len() && #[trigger] v.log[i] == (Tag::Terminate, x as nat);
                        assert(o.log[i] == v.log[i]);
                    }
                    if o.received_stop(x as nat) {
                        let i = choose|i: int|
                            0 <= i < o.log.len() && #[trigger] o.log[i] == (Tag::Terminate, x as nat);
                        assert(o.log[i] == v.log[i]);
                    }
                }
            }
            assert forall|i: int, j: int|
                0 <= i < j < v.log.len() && (#[trigger] v.log[i]).0 is Terminate implies (
                #[trigger] v.log[j]).1 != v.log[i].1 by {
                assert(v.log[i] == o.log[i]);
                if j < o.log.len() {
                    assert(v.log[j] == o.log[j]);
                } else if v.log[i].1 == worker as nat {
                    assert(o.log[i] == (Tag::Terminate, worker as nat));
                }
            }
        }
        Some(m)
    }

    /// Worker `worker` reports that the job it was running is done, and
    /// returns to waiting. Gives back that job's ticket.
    pub fn complete(&mut self, worker: usize) -> (r: u64)
        requires
            old(self).wf(),
            worker < old(self)@.size(),
            old(self)@.workers[worker as int] is Busy,
        ensures
            final(self).wf(),
            old(self)@.workers[worker as int] == WorkerState::Busy(r),
            final(self)@ == old(self)@.after_complete(worker as nat),
    {
        let ghost o = old(self)@;
        proof {
            lemma_count_update(o.workers, busy(), worker as int, WorkerState::Idle);
            lemma_count_update(o.workers, joined(), worker as int, WorkerState::Idle);
        }
        let t = match self.workers[worker] {
            WorkerState::Busy(t) => t,
            _ => 0,
        };
        self.workers.set(worker, WorkerState::Idle);
        self.finished = self.finished + 1;
        proof {
            let v = self@;
            assert(v =~= o.after_complete(worker as nat));
            assert forall|x: int| 0 <= x < v.workers.len() implies ((#[trigger] v.workers[x] is Exited
                || v.workers[x] is Joined) <==> v.received_stop(x as nat)) by {
                lemma_stop_same_log(o, v, x as nat);
                if x != worker as int {
                    assert(v.workers[x] == o.workers[x]);
                }
            }
        }
        t
    }

    /// Begins shutdown: appends one stop signal per worker behind every job
    /// already queued, and stops accepting jobs. A second call changes
    /// nothing.
    pub fn shutdown(&mut self)
        requires
            old(self).wf(),
        ensures
            final(self).wf(),
            old(self)@.phase is Running ==> final(self)@ == old(self)@.after_shutdown(),
            !(old(self)@.phase is Running) ==> final(self)@ == old(self)@,
    {
        match self.phase {
            Phase::Running => {},
            _ => {
                return ;
            },
        }
        let n = self.workers.len();
        push_stops(&mut self.queue, n);
        self.terminates = n;
        self.phase = Phase::Draining;
        proof {
            let o = old(self)@;
            let v = self@;
            assert(v =~= o.after_shutdown());
            assert forall|w: int| 0 <= w < o.workers.len() implies !(#[trigger] joined()(o.workers[w])) by {
                if o.workers[w] is Joined {
                    let i = choose|i: int|
                        0 <= i < o.log.len() && #[trigger] o.log[i] == (Tag::Terminate, w as nat);
                }
            }
            lemma_count_none(o.workers, joined());
            assert forall|i: int| 0 <= i < v.pending.len() implies ((#[trigger] v.pending[i]) is Terminate
                <==> v.log.len() + i >= v.submitted) by {
                if i < o.pending.len() {
                    assert(v.pending[i] == o.pending[i]);
                }
            }
            assert forall|w: int| 0 <= w < v.workers.len() implies ((#[trigger] v.workers[w] is Exited
                || v.workers[w] is Joined) <==> v.received_stop(w as nat)) by {
                lemma_stop_same_log(o, v, w as nat);
            }
        }
    }

    /// Records that worker `worker`, which had exited, has been joined. When
    /// it is the last one, the pool has stopped.
    pub fn mark_joined(&mut self, worker: usize)
        requires
            old(self).wf(),
            worker < old(self)@.size(),
            old(self)@.workers[worker as int] is Exited,
        ensures
            final(self).wf(),
            final(self)@ == old(self)@.after_join(worker as nat),
    {
        let ghost o = old(self)@;
        proof {
            lemma_count_update(o.workers, busy(), worker as int, WorkerState::Joined);
            lemma_count_update(o.workers, joined(), worker as int, WorkerState::Joined);
            lemma_count_le_len(o.workers.update(worker as int, WorkerState::Joined), joined());
        }
        self.workers.set(worker, WorkerState::Joined);
        self.joined = self.joined + 1;
        if self.joined == self.workers.len() {
            self.phase = Phase::Stopped;
        }
        proof {
            let v = self@;
            assert(v =~= o.after_join(worker as nat));
            assert forall|x: int| 0 <= x < v.workers.len() implies ((#[trigger] v.workers[x] is Exited
                || v.workers[x] is Joined) <==> v.received_stop(x as nat)) by {
                lemma_stop_same_log(o, v, x as nat);
                if x != worker as int {
                    assert(v.workers[x] == o.workers[x]);
                }
            }
            let i = choose|i: int|
                0 <= i < o.log.len() && #[trigger] o.log[i] == (Tag::Terminate, worker as nat);
            assert(o.log[i].0 == o.sent_at(i));
        }
    }

    /// The number of workers.
    pub fn size(&self) -> (r: usize)
        ensures
            r == self@.size(),
    {
        self.workers.len()
    }

    /// Where the pool stands in its life.
    pub fn phase(&self) -> (r: Phase)
        ensures
            r == self@.phase,
    {
        self.phase
    }

    /// The state of worker `worker`.
    pub fn worker_state(&self, worker: usize) -> (r: WorkerState)
        requires
            worker < self@.size(),
        ensures
            r == self@.workers[worker as int],
    {
        self.workers[worker]
    }

    /// Jobs accepted so far.
    pub fn submitted(&self) -> (r: u64)
        ensures
            r == self@.submitted,
    {
        self.submitted
    }

    /// Jobs handed to a worker so far.
    pub fn started(&self) -> (r: u64)
        ensures
            r == self@.started,
    {
        self.started
    }

    /// Jobs reported done so far.
    pub fn finished(&self) -> (r: u64)
        ensures
            r == self@.finished,
    {
        self.finished
    }

    /// Messages waiting in the queue.
    pub fn pending_len(&self) -> (r: usize)
        ensures
            r == self@.pending.len(),
    {
        self.queue.len()
    }
}


/// Appends `n` stop signals to `q`.
fn push_stops<J>(q: &mut VecDeque<Message<J>>, n: usize)
    ensures
        final(q)@ == old(q)@ + stops::<J>(n as nat),
{
    let mut k: usize = 0;
    while k < n
        invariant
            k <= n,
            q@ =~= old(q)@ + stops::<J>(k as nat),
        decreases n - k,
    {
        q.push_back(Message::Terminate);
        k = k + 1;
        assert(q@ =~= old(q)@ + stops::<J>(k as nat));
    }
}


/// Whether a worker was handed a stop signal depends on the log alone.
proof fn lemma_stop_same_log<J>(a: PoolView<J>, b: PoolView<J>, w: nat)
    requires
        a.log == b.log,
    ensures
        a.received_stop(w) == b.received_stop(w),
{
    if a.received_stop(w) {
        let i = choose|i: int| 0 <= i < a.log.len() && #[trigger] a.log[i] == (Tag::Terminate, w);
        assert(b.log[i] == (Tag::Terminate, w));
    }
    if b.received_stop(w) {
        let i = choose|i: int| 0 <= i < b.log.len() && #[trigger] b.log[i] == (Tag::Terminate, w);
        assert(a.log[i] == (Tag::Terminate, w));
    }
}

} // verus!
