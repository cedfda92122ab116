use vstd::prelude::*;
use crate::message::Tag;
use crate::pool::PoolView;
use crate::worker::{busy, count_in, joined, lemma_count_constant, lemma_count_full, lemma_count_le_len, WorkerState};

verus! {

/// No job is ever handed out twice: two deliveries of the same job are the
/// same delivery, and every delivery goes to one worker of the pool.
pub proof fn lemma_job_delivered_at_most_once<J>(v: PoolView<J>)
    requires
        v.inv(),
    ensures
        forall|i: int, j: int|
            0 <= i < v.log.len() && 0 <= j < v.log.len() && (#[trigger] v.log[i]).0 is Job
                && v.log[i].0 == (#[trigger] v.log[j]).0 ==> i == j,
        forall|i: int| 0 <= i < v.log.len() ==> (#[trigger] v.log[i]).1 < v.size(),
{
    assert forall|i: int, j: int|
        0 <= i < v.log.len() && 0 <= j < v.log.len() && (#[trigger] v.log[i]).0 is Job
            && v.log[i].0 == (#[trigger] v.log[j]).0 implies i == j by {
        assert(v.log[i].0 == v.sent_at(i));
        assert(v.log[j].0 == v.sent_at(j));
    }
}

/// Once the pool has stopped, every job ever submitted was handed out
/// exactly once, to one worker, and has finished.
pub proof fn lemma_stopped_ran_every_job<J>(v: PoolView<J>)
    requires
        v.inv(),
        v.phase is Stopped,
    ensures
        v.started == v.submitted,
        v.finished == v.submitted,
        forall|t: int|
            0 <= t < v.submitted ==> (#[trigger] v.log[t]).0 == Tag::Job(t as u64) && v.log[t].1
                < v.size(),
        forall|i: int|
            0 <= i < v.log.len() && (#[trigger] v.log[i]).0 is Job ==> i < v.submitted && v.log[i].0
                == Tag::Job(i as u64),
{
    lemma_all_joined(v);
    assert(v.workers[0] is Joined);
    let i = choose|i: int| 0 <= i < v.log.len() && #[trigger] v.log[i] == (Tag::Terminate, 0nat);
    assert(v.log[i].0 == v.sent_at(i));
    assert(v.log.len() > v.submitted);
    assert forall|w: int| 0 <= w < v.workers.len() implies !#[trigger] busy()(v.workers[w]) by {
        assert(v.workers[w] is Joined);
    }
    crate::worker::lemma_count_none(v.workers, busy());
    assert forall|t: int| 0 <= t < v.submitted implies (#[trigger] v.log[t]).0 == Tag::Job(t as u64)
        && v.log[t].1 < v.size() by {
        assert(v.log[t].0 == v.sent_at(t));
    }
    assert forall|i: int| 0 <= i < v.log.len() && (#[trigger] v.log[i]).0 is Job implies i
        < v.submitted && v.log[i].0 == Tag::Job(i as u64) by {
        assert(v.log[i].0 == v.sent_at(i));
    }
}

/// Stop signals come after every job. In the queue, nothing but stop
/// signals follows a stop signal; and by the time any worker is handed a
/// stop signal, every submitted job has already been handed out.
pub proof fn lemma_stop_signals_follow_jobs<J>(v: PoolView<J>)
    requires
        v.inv(),
    ensures
        forall|i: int, j: int|
            0 <= i < j < v.pending.len() && (#[trigger] v.pending[i]) is Terminate
                ==> (#[trigger] v.pending[j]) is Terminate,
        forall|i: int|
            0 <= i < v.log.len() && (#[trigger] v.log[i]).0 is Terminate ==> v.submitted <= i
                && v.started == v.submitted,
        forall|w: nat| w < v.size() && #[trigger] v.received_stop(w) ==> v.started == v.submitted,
{
    assert forall|i: int|
        0 <= i < v.log.len() && (#[trigger] v.log[i]).0 is Terminate implies v.submitted <= i
        && v.started == v.submitted by {
        assert(v.log[i].0 == v.sent_at(i));
    }
    assert forall|w: nat| w < v.size() && #[trigger] v.received_stop(w) implies v.started
        == v.submitted by {
        let i = choose|i: int| 0 <= i < v.log.len() && #[trigger] v.log[i] == (Tag::Terminate, w);
        assert(v.log[i].0 == v.sent_at(i));
    }
}

/// Shutdown sends exactly one stop signal per worker, and no worker is
/// handed more than one; once the pool has stopped, each worker has had
/// exactly one.
pub proof fn lemma_one_stop_per_worker<J>(v: PoolView<J>)
    requires
        v.inv(),
    ensures
        !(v.phase is Running) ==> v.terminates == v.size(),
        v.phase is Running ==> v.terminates == 0,
        forall|i: int, j: int|
            0 <= i < v.log.len() && 0 <= j < v.log.len() && (#[trigger] v.log[i]).0 is Terminate
                && v.log[i] == #[trigger] v.log[j] ==> i == j,
        v.phase is Stopped ==> forall|w: nat| w < v.size() ==> #[trigger] v.received_stop(w),
{
    assert forall|i: int, j: int|
        0 <= i < v.log.len() && 0 <= j < v.log.len() && (#[trigger] v.log[i]).0 is Terminate
            && v.log[i] == #[trigger] v.log[j] implies i == j by {
        if i < j {
            assert(v.log[j].1 != v.log[i].1);
        } else if j < i {
            assert(v.log[i].1 != v.log[j].1);
        }
    }
    if v.phase is Stopped {
        lemma_all_joined(v);
        assert forall|w: nat| w < v.size() implies #[trigger] v.received_stop(w) by {
            assert(v.workers[w as int] is Joined);
        }
    }
}

/// At most one job runs per worker: the jobs handed out and not yet
/// finished are exactly as many as the busy workers, never more than the
/// pool's size; and while that many run, no worker is free to take another.
pub proof fn lemma_bounded_concurrency<J>(v: PoolView<J>)
    requires
        v.inv(),
    ensures
        v.started - v.finished == count_in(v.workers, busy()),
        v.started - v.finished <= v.size(),
        v.started - v.finished == v.size() ==> forall|w: int|
            0 <= w < v.size() ==> (#[trigger] v.workers[w]) is Busy,
{
    lemma_count_le_len(v.workers, busy());
    if v.started - v.finished == v.size() {
        lemma_count_full(v.workers, busy());
        assert forall|w: int| 0 <= w < v.size() implies (#[trigger] v.workers[w]) is Busy by {
            assert(busy()(v.workers[w]));
        }
    }
}

/// The pool has stopped exactly when shutdown has sent its stop signals and
/// every worker's thread has been joined.
pub proof fn lemma_stopped_iff_all_joined<J>(v: PoolView<J>)
    requires
        v.inv(),
    ensures
        v.phase is Stopped <==> (v.terminates == v.size() && forall|w: int|
            0 <= w < v.size() ==> (#[trigger] v.workers[w]) is Joined),
{
    if v.phase is Stopped {
        lemma_all_joined(v);
    }
    if v.terminates == v.size() && forall|w: int| 0 <= w < v.size() ==> (#[trigger] v.workers[w]) is Joined {
        assert forall|w: int| 0 <= w < v.size() implies v.workers[w] == WorkerState::Joined by {
            assert(v.workers[w] is Joined);
        }
        lemma_count_constant(v.workers, joined(), WorkerState::Joined);
    }
}

/// Shutdown keeps every queued job where it was and puts the stop signals,
/// one per worker, behind them; it takes no job away and adds none.
pub proof fn lemma_shutdown_keeps_queued_jobs<J>(v: PoolView<J>)
    requires
        v.inv(),
        v.phase is Running,
    ensures
        v.after_shutdown().submitted == v.submitted,
        v.after_shutdown().pending.len() == v.pending.len() + v.size(),
        forall|i: int|
            0 <= i < v.pending.len() ==> (#[trigger] v.after_shutdown().pending[i]) == v.pending[i]
                && v.pending[i] is NewJob,
        forall|i: int|
            v.pending.len() <= i < v.after_shutdown().pending.len() ==> (
            #[trigger] v.after_shutdown().pending[i]) is Terminate,
{
    assert forall|i: int| 0 <= i < v.pending.len() implies (#[trigger] v.after_shutdown().pending[i])
        == v.pending[i] && v.pending[i] is NewJob by {
        assert(!(v.pending[i] is Terminate));
    }
}

/// In a stopped pool every worker is joined.
proof fn lemma_all_joined<J>(v: PoolView<J>)
    requires
        v.inv(),
        v.phase is Stopped,
    ensures
        forall|w: int| 0 <= w < v.size() ==> (#[trigger] v.workers[w]) is Joined,
{
    lemma_count_full(v.workers, joined());
    assert forall|w: int| 0 <= w < v.size() implies (#[trigger] v.workers[w]) is Joined by {
        assert(joined()(v.workers[w]));
    }
}

} // verus!
