use vstd::prelude::*;

use crate::job::JobView;
use crate::scheduler::spawned_by;
use crate::store::{claimed, eligible, holds_slot, Schedule, Store};

verus! {

/// For every schedule, at any moment, the queue holds at most one pending job spawned
/// by it (indeed at most one job, pending or running).
pub proof fn lemma_schedule_uniqueness(st: &Store, ws: Seq<char>, path: Seq<char>)
    requires
        st.wf(),
    ensures
        forall|i: int, k: int|
            0 <= i < st.queue@.len() && 0 <= k < st.queue@.len()
                && holds_slot(#[trigger] st.queue@[i]@, ws, path) && holds_slot(#[trigger] st.queue@[k]@, ws, path)
                ==> i == k,
        forall|i: int, k: int|
            0 <= i < st.queue@.len() && 0 <= k < st.queue@.len()
                && !st.queue@[i].running && !st.queue@[k].running
                && holds_slot(#[trigger] st.queue@[i]@, ws, path) && holds_slot(#[trigger] st.queue@[k]@, ws, path)
                ==> i == k,
{
    assert forall|i: int, k: int|
        0 <= i < st.queue@.len() && 0 <= k < st.queue@.len()
            && holds_slot(#[trigger] st.queue@[i]@, ws, path) && holds_slot(#[trigger] st.queue@[k]@, ws, path)
            implies i == k by {
        if i != k {
            assert(!crate::store::same_slot(st.queue@[i]@, st.queue@[k]@));
        }
    }
}

/// A job claimed by one worker is running, so no later claim can return it: each job
/// is handed to one worker only, until a sweep finds it a zombie.
pub proof fn lemma_claim_is_exclusive(j: JobView, claimed_at: i64, later: i64)
    ensures
        !eligible(claimed(j, claimed_at), later),
{
}

/// The job that re-arming a schedule enqueues, when a due job of that schedule
/// completes, is scheduled strictly later than the completed one: successive
/// occurrences of a schedule are strictly increasing.
pub proof fn lemma_rearm_strictly_later(st: &Store, s: Schedule, done: JobView, now: i64, next: JobView)
    requires
        done.scheduled_for <= now,
        spawned_by(st, s, now, next),
    ensures
        next.scheduled_for > done.scheduled_for,
{
}

} // verus!
