use vstd::prelude::*;

verus! {

/// Where one worker stands in its life.
#[derive(Clone, Copy, Debug, PartialEq, Eq, Structural)]
pub enum WorkerState {
    /// Waiting for its next message.
    Idle,
    /// Running the job with this ticket.
    Busy(u64),
    /// Has received its stop signal; its thread ends.
    Exited,
    /// Its thread has been joined; the handle is gone.
    Joined,
}

/// The predicate "is running a job".
pub open spec fn busy() -> spec_fn(WorkerState) -> bool {
    |w: WorkerState| w is Busy
}

/// The predicate "has been joined".
pub open spec fn joined() -> spec_fn(WorkerState) -> bool {
    |w: WorkerState| w is Joined
}

/// How many entries of `s` satisfy `p`.
pub open spec fn count_in(s: Seq<WorkerState>, p: spec_fn(WorkerState) -> bool) -> nat
    decreases s.len(),
{
    if s.len() == 0 {
        0
    } else {
        count_in(s.drop_last(), p) + if p(s.last()) {
            1nat
        } else {
            0nat
        }
    }
}

/// A count never exceeds the length.
pub proof fn lemma_count_le_len(s: Seq<WorkerState>, p: spec_fn(WorkerState) -> bool)
    ensures
        count_in(s, p) <= s.len(),
    decreases s.len(),
{
    if s.len() > 0 {
        lemma_count_le_len(s.drop_last(), p);
    }
}

/// A count that reaches the length means every entry satisfies `p`.
pub proof fn lemma_count_full(s: Seq<WorkerState>, p: spec_fn(WorkerState) -> bool)
    requires
        count_in(s, p) == s.len(),
    ensures
        forall|i: int| 0 <= i < s.len() ==> #[trigger] p(s[i]),
    decreases s.len(),
{
    if s.len() > 0 {
        lemma_count_le_len(s.drop_last(), p);
        lemma_count_full(s.drop_last(), p);
        assert forall|i: int| 0 <= i < s.len() implies #[trigger] p(s[i]) by {
            if i < s.len() - 1 {
                assert(s[i] == s.drop_last()[i]);
            }
        }
    }
}

/// A count is zero where no entry satisfies `p`.
pub proof fn lemma_count_none(s: Seq<WorkerState>, p: spec_fn(WorkerState) -> bool)
    requires
        forall|i: int| 0 <= i < s.len() ==> !#[trigger] p(s[i]),
    ensures
        count_in(s, p) == 0,
    decreases s.len(),
{
    if s.len() > 0 {
        assert forall|i: int| 0 <= i < s.len() - 1 implies !#[trigger] p(s.drop_last()[i]) by {
            assert(s.drop_last()[i] == s[i]);
        }
        lemma_count_none(s.drop_last(), p);
    }
}

/// Of a sequence whose entries are all `x`, the count is the length or zero.
pub proof fn lemma_count_constant(s: Seq<WorkerState>, p: spec_fn(WorkerState) -> bool, x: WorkerState)
    requires
        forall|i: int| 0 <= i < s.len() ==> s[i] == x,
    ensures
        count_in(s, p) == if p(x) { s.len() } else { 0 },
    decreases s.len(),
{
    if s.len() > 0 {
        lemma_count_constant(s.drop_last(), p, x);
    }
}

/// Replacing one entry changes the count by what it removed and added.
pub proof fn lemma_count_update(
    s: Seq<WorkerState>,
    p: spec_fn(WorkerState) -> bool,
    i: int,
    x: WorkerState,
)
    requires
        0 <= i < s.len(),
    ensures
        count_in(s.update(i, x), p) + (if p(s[i]) { 1int } else { 0int }) == count_in(s, p) + (
        if p(x) {
            1int
        } else {
            0int
        }),
    decreases s.len(),
{
    let t = s.update(i, x);
    if i == s.len() - 1 {
        assert(t.drop_last() =~= s.drop_last());
    } else {
        assert(t.drop_last() =~= s.drop_last().update(i, x));
        lemma_count_update(s.drop_last(), p, i, x);
    }
}

} // verus!
