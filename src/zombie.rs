use vstd::prelude::*;
use vstd::string::StringExecFns;

use crate::error::Error;
use crate::job::{CompletedJob, JobView};
use crate::store::Store;

verus! {

/// Restarts a job may go through before a sweep archives it as failed.
pub const MAX_RESTARTS: u32 = 3;

/// A running job whose holder has not sent a heartbeat for more than `timeout` seconds.
pub open spec fn is_zombie(j: JobView, now: i64, timeout: i64) -> bool {
    &&& j.running
    &&& j.last_ping matches Some(p) && p + timeout < now
}

/// A job that has been restarted as many times as allowed.
pub open spec fn exhausted(j: JobView) -> bool {
    j.restart_count >= MAX_RESTARTS
}

/// A zombie job made pending again, with one more restart counted.
pub open spec fn revived(j: JobView) -> JobView {
    JobView { running: false, started_at: None, last_ping: None, restart_count: (j.restart_count + 1) as u32, ..j }
}

/// The queue after a sweep: zombies are made pending again, or leave the queue when
/// they have been restarted too often; the other rows stay as they are, in order.
pub open spec fn swept(q: Seq<JobView>, now: i64, timeout: i64) -> Seq<JobView>
    decreases q.len(),
{
    if q.len() == 0 {
        seq![]
    } else {
        let rest = swept(q.drop_first(), now, timeout);
        let j = q[0];
        if !is_zombie(j, now, timeout) {
            seq![j] + rest
        } else if exhausted(j) {
            rest
        } else {
            seq![revived(j)] + rest
        }
    }
}

/// The zombies that a sweep archives, last queue row first: those restarted too often.
pub open spec fn archived(q: Seq<JobView>, now: i64, timeout: i64) -> Seq<JobView>
    decreases q.len(),
{
    if q.len() == 0 {
        seq![]
    } else {
        let rest = archived(q.drop_first(), now, timeout);
        if is_zombie(q[0], now, timeout) && exhausted(q[0]) {
            rest.push(q[0])
        } else {
            rest
        }
    }
}

/// Whether `c` is the archive entry that a sweep at `now` makes of zombie `j`.
pub open spec fn archive_entry(c: CompletedJob, j: JobView, now: i64) -> bool {
    &&& c.job@ == j
    &&& !c.success
    &&& c.completed_at == now
    &&& c.duration_s == 0
    &&& c.result@ == "{\"error\": \"too many restarts\"}"@
}

impl Store {
    /// Reclaims the jobs whose holders stopped sending heartbeats: each becomes pending
    /// again, or, past the allowed restarts, is archived as failed.
    pub fn restart_zombie_jobs(&mut self, now: i64, timeout: i64)
        requires
            old(self).wf(),
        ensures
            final(self).wf(),
            final(self).schedules == old(self).schedules,
            final(self).scripts == old(self).scripts,
            final(self).next_id == old(self).next_id,
            final(self).jobs() == swept(old(self).jobs(), now, timeout),
            final(self).completed@.len() == old(self).completed@.len() + archived(old(self).jobs(), now, timeout).len(),
            final(self).completed@.subrange(0, old(self).completed@.len() as int) == old(self).completed@,
            forall|i: int| 0 <= i < archived(old(self).jobs(), now, timeout).len() ==> archive_entry(
                #[trigger] final(self).completed@[old(self).completed@.len() + i],
                archived(old(self).jobs(), now, timeout)[i],
                now,
            ),
    {
        let ghost q0 = self.jobs();
        let ghost n = q0.len();
        let mut i: usize = self.queue.len();
        assert(q0.subrange(n as int, n as int) =~= seq![]);
        assert(q0.subrange(0, n as int) =~= q0);
        while i > 0
            invariant
                self.wf(),
                i <= n,
                n == q0.len(),
                self.next_id == old(self).next_id,
                self.schedules == old(self).schedules,
                self.scripts == old(self).scripts,
                self.jobs() == q0.subrange(0, i as int) + swept(q0.subrange(i as int, n as int), now, timeout),
                self.completed@.len() == old(self).completed@.len() + archived(q0.subrange(i as int, n as int), now, timeout).len(),
                self.completed@.subrange(0, old(self).completed@.len() as int) == old(self).completed@,
                forall|m: int| 0 <= m < archived(q0.subrange(i as int, n as int), now, timeout).len() ==> archive_entry(
                    #[trigger] self.completed@[old(self).completed@.len() + m],
                    archived(q0.subrange(i as int, n as int), now, timeout)[m],
                    now,
                ),
            decreases i,
        {
            let k = i - 1;
            assert(self.jobs().len() == self.queue@.len());
            assert(self.jobs().len() >= i);
            let ghost tail = q0.subrange(i as int, n as int);
            let ghost seg = q0.subrange(k as int, n as int);
            assert(seg.drop_first() =~= tail);
            assert(seg[0] == q0[k as int]);
            assert(self.jobs()[k as int] == q0[k as int]);
            assert(self.jobs()[k as int] == self.queue@[k as int]@);
            let ghost old_q = self.queue@;
            let old_len = self.completed.len();
            let zombie = self.queue[k].running && match self.queue[k].last_ping {
                Some(p) => (p as i128) + (timeout as i128) < (now as i128),
                None => false,
            };
            let ghost before = self.jobs();
            assert(zombie == is_zombie(q0[k as int], now, timeout));
            assert(before =~= q0.subrange(0, k as int) + seq![q0[k as int]] + swept(tail, now, timeout));
            if zombie {
                if self.queue[k].restart_count >= MAX_RESTARTS {
                    let job = self.queue.remove(k);
                    assert(swept(seg, now, timeout) == swept(tail, now, timeout));
                    assert(self.jobs() =~= before.remove(k as int));
                    assert(self.jobs() =~= q0.subrange(0, k as int) + swept(seg, now, timeout));
                    proof {
                        reveal_strlit("{\"error\": \"too many restarts\"}");
                    }
                    assert(archived(seg, now, timeout) == archived(tail, now, timeout).push(q0[k as int]));
                    self.completed.push(CompletedJob {
                        job,
                        success: false,
                        result: String::from_str("{\"error\": \"too many restarts\"}"),
                        duration_s: 0,
                        completed_at: now,
                    });
                    assert(self.completed@.subrange(0, old(self).completed@.len() as int)
                        =~= old(self).completed@);
                } else {
                    let mut job = self.queue[k].duplicate();
                    job.running = false;
                    job.started_at = None;
                    job.last_ping = None;
                    job.restart_count = job.restart_count + 1;
                    self.queue.set(k, job);
                    assert(archived(seg, now, timeout) == archived(tail, now, timeout));
                    assert(swept(seg, now, timeout) == seq![revived(q0[k as int])] + swept(tail, now, timeout));
                    assert(self.jobs() =~= before.update(k as int, revived(q0[k as int])));
                    assert(self.jobs() =~= q0.subrange(0, k as int) + swept(seg, now, timeout));
                    proof {
                        assert forall|a: int, b: int|
                            0 <= a < self.queue@.len() && 0 <= b < self.queue@.len() && a != b
                                implies !crate::store::same_slot(#[trigger] self.queue@[a]@, #[trigger] self.queue@[b]@) by {
                            assert(!crate::store::same_slot(old_q[a]@, old_q[b]@));
                        }
                        assert forall|a: int, b: int|
                            0 <= a < self.queue@.len() && 0 <= b < self.queue@.len() && a != b
                                implies #[trigger] self.queue@[a].id != #[trigger] self.queue@[b].id by {
                            assert(old_q[a].id != old_q[b].id);
                        }
                    }
                }
            } else {
                assert(archived(seg, now, timeout) == archived(tail, now, timeout));
                assert(self.jobs() =~= q0.subrange(0, k as int) + swept(seg, now, timeout));
            }
            i = k;
        }
        assert(q0.subrange(0, n as int) =~= q0);
        assert(q0.subrange(0, 0) + swept(q0, now, timeout) =~= swept(q0, now, timeout));
    }

    /// Records a heartbeat at `now` for the running job `id`.
    pub fn update_ping(&mut self, id: u64, now: i64) -> (r: Result<(), Error>)
        requires
            old(self).wf(),
        ensures
            final(self).wf(),
            final(self).completed == old(self).completed,
            final(self).schedules == old(self).schedules,
            final(self).scripts == old(self).scripts,
            final(self).next_id == old(self).next_id,
            r is Err ==> *final(self) == *old(self),
            r is Err <==> !(exists|k: int| 0 <= k < old(self).queue@.len()
                && (#[trigger] old(self).queue@[k]).id == id && old(self).queue@[k].running),
            forall|k: int| 0 <= k < old(self).queue@.len() && (#[trigger] old(self).queue@[k]).id == id
                && old(self).queue@[k].running ==> final(self).jobs() == old(self).jobs().update(
                    k, JobView { last_ping: Some(now), ..old(self).queue@[k]@ }),
    {
        let k = match self.find_job(id) {
            Some(k) => k,
            None => {
                return Err(Error::NotFound("no job with this id in the queue".to_string()));
            },
        };
        if !self.queue[k].running {
            return Err(Error::NotFound("the job is not running".to_string()));
        }
        let mut job = self.queue[k].duplicate();
        job.last_ping = Some(now);
        let ghost old_q = self.queue@;
        self.queue.set(k, job);
        assert(self.jobs() =~= old(self).jobs().update(k as int, JobView { last_ping: Some(now), ..old_q[k as int]@ }));
        proof {
            assert forall|a: int, b: int|
                0 <= a < self.queue@.len() && 0 <= b < self.queue@.len() && a != b
                    implies !crate::store::same_slot(#[trigger] self.queue@[a]@, #[trigger] self.queue@[b]@) by {
                assert(!crate::store::same_slot(old_q[a]@, old_q[b]@));
            }
            assert forall|a: int, b: int|
                0 <= a < self.queue@.len() && 0 <= b < self.queue@.len() && a != b
                    implies #[trigger] self.queue@[a].id != #[trigger] self.queue@[b].id by {
                assert(old_q[a].id != old_q[b].id);
            }
        }
        Ok(())
    }
}

} // verus!
