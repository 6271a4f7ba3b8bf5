use vstd::prelude::*;
use vstd::string::StringExecFns;

use crate::cron_time::{anchor_of, cron_accepts, instant_in_range, next_fire, shifted_next};
use crate::error::Error;
use crate::job::{clone_pairs, ArgValue, CompletedJob, Job, JobKind, JobView};
use crate::schedule::{get_owner_from_path, owner_of, schedule_to_user, schedule_user};
use crate::store::{
    holds_slot, latest_hash, new_job, opt_args_view, resolved_kind, same_but_enabled, EditSchedule, JobRequest,
    NewSchedule, Schedule, Store,
};

verus! {

/// Whether the schedule with cron `expr` and offset `offset` fires next at `v`, as seen at `now`.
pub open spec fn fires_at(expr: Seq<char>, offset: i32, now: i64, v: i64) -> bool {
    &&& cron_accepts(expr)
    &&& instant_in_range(anchor_of(offset as int, now as int))
    &&& shifted_next(expr, offset as int, now as int) == Some(v as int)
}

/// Whether the schedule has a next occurrence that the calendar arithmetic can hold.
pub open spec fn has_next_fire(expr: Seq<char>, offset: i32, now: i64) -> bool {
    &&& cron_accepts(expr)
    &&& instant_in_range(anchor_of(offset as int, now as int))
    &&& shifted_next(expr, offset as int, now as int) matches Some(n) && i64::MIN <= n <= i64::MAX
}

/// The kind of job that schedule `s` spawns.
pub open spec fn schedule_kind(scripts: Seq<crate::store::PublishedScript>, s: Schedule) -> Option<JobKind> {
    if s.is_flow {
        Some(JobKind::Flow { path: s.script_path })
    } else {
        match latest_hash(scripts, s.workspace_id@, s.script_path@) {
            Some(h) => Some(JobKind::ScriptHash { hash: Some(h), path: s.script_path }),
            None => None,
        }
    }
}

/// Whether a schedule of workspace `ws` with cron `expr`, offset `offset`, arguments
/// `args` and target (`is_flow`, `script_path`) can spawn its next job at `now`.
pub open spec fn armable(
    st: &Store,
    ws: Seq<char>,
    expr: Seq<char>,
    offset: i32,
    args: Option<ArgValue>,
    is_flow: bool,
    script_path: Seq<char>,
    now: i64,
) -> bool {
    &&& has_next_fire(expr, offset, now)
    &&& !(args matches Some(ArgValue::NotMapping(_)))
    &&& (is_flow || latest_hash(st.scripts@, ws, script_path) is Some)
}

/// Whether schedule `s` can spawn its next job at `now` in this store.
pub open spec fn schedulable(st: &Store, s: Schedule, now: i64) -> bool {
    armable(st, s.workspace_id@, s.schedule@, s.offset_, s.args, s.is_flow, s.script_path@, now)
}

/// The job that the schedule `s` spawns: at its next occurrence, for its target,
/// with its arguments, under the schedule's own user.
pub open spec fn spawned_by(st: &Store, s: Schedule, now: i64, j: JobView) -> bool {
    &&& holds_slot(j, s.workspace_id@, s.path@)
    &&& fires_at(s.schedule@, s.offset_, now, j.scheduled_for)
    &&& j.scheduled_for > now + 1
    &&& Some(j.kind) == schedule_kind(st.scripts@, s)
    &&& j.args == crate::store::args_of(opt_args_view(s.args))
    &&& j.created_by@ == schedule_user(s.path@)
    &&& j.permissioned_as@ == owner_of(s.path@)
    &&& !j.running
    &&& j.started_at is None
    &&& j.last_ping is None
    &&& j.restart_count == 0
    &&& j.parent_job is None
    &&& j.created_at == now
}

/// The error that arming schedule `s` at `now` fails with, checked in this order: a
/// malformed expression, an instant out of range, no next occurrence, arguments that
/// are not a mapping, no published script at the target path.
pub open spec fn arm_fails_with(st: &Store, s: Schedule, now: i64, e: Error) -> bool {
    arm_fails_with_fields(st, s.schedule@, s.offset_, s.args, now, e)
}

/// The error that arming a schedule with cron `expr`, offset `offset` and arguments
/// `args` fails with, when the cause is not a missing script (see `arm_fails_with`).
pub open spec fn arm_fails_with_fields(st: &Store, expr: Seq<char>, offset: i32, args: Option<ArgValue>, now: i64, e: Error) -> bool {
    if !cron_accepts(expr) {
        e is BadRequest
    } else if !instant_in_range(anchor_of(offset as int, now as int)) {
        e is Internal
    } else if shifted_next(expr, offset as int, now as int) is None {
        e is BadRequest
    } else if !has_next_fire(expr, offset, now) {
        e is Internal
    } else if args matches Some(ArgValue::NotMapping(_)) {
        e matches Error::ExecutionErr(m) && m@ == "args of scripts needs to be dict"@
    } else {
        e is NotFound
    }
}

/// The index of the schedule at `path` of workspace `ws` in `scheds`, if there is one.
pub open spec fn schedule_at(scheds: Seq<Schedule>, ws: Seq<char>, path: Seq<char>, i: int) -> bool {
    0 <= i < scheds.len() && scheds[i].workspace_id@ == ws && scheds[i].path@ == path
}

pub open spec fn same_slot_at(q: Seq<Job>, i: int, k: int) -> bool {
    crate::store::same_slot(q[i]@, q[k]@)
}

/// Whether job `j`, once completed, calls for the next occurrence of its schedule:
/// it was spawned by a schedule that exists and is enabled.
pub open spec fn needs_rearm(st: &Store, j: JobView) -> bool {
    j.schedule_path matches Some(p) && exists|si: int|
        schedule_at(st.schedules@, j.workspace_id@, p@, si) && (#[trigger] st.schedules@[si]).enabled
}

/// Whether every schedule that job `j` would re-arm can spawn its next job at `now`.
pub open spec fn rearm_ready(st: &Store, j: JobView, now: i64) -> bool {
    forall|si: int| schedule_at(st.schedules@, j.workspace_id@, j.schedule_path->0@, si)
        ==> schedulable(st, #[trigger] st.schedules@[si], now)
}

/// A workspace holds at most one schedule at a path.
pub proof fn unique_schedule(st: &Store, ws: Seq<char>, path: Seq<char>)
    requires
        st.wf(),
    ensures
        forall|a: int, b: int| schedule_at(st.schedules@, ws, path, a) && schedule_at(st.schedules@, ws, path, b) ==> a == b,
{
}

/// The first position from `p` on in `order` whose schedule was edited before `key`.
pub open spec fn first_lower(order: Seq<int>, scheds: Seq<Schedule>, key: i64, p: int) -> int
    decreases order.len() - p,
{
    if p >= order.len() || p < 0 {
        order.len() as int
    } else if scheds[order[p]].edited_at < key {
        p
    } else {
        first_lower(order, scheds, key, p + 1)
    }
}

/// The indices of the first `n` schedules of workspace `ws`, most recently edited first,
/// ties kept in creation order.
pub open spec fn listing(scheds: Seq<Schedule>, ws: Seq<char>, n: int) -> Seq<int>
    decreases n,
{
    if n <= 0 {
        seq![]
    } else {
        let prev = listing(scheds, ws, n - 1);
        if scheds[n - 1].workspace_id@ == ws {
            prev.insert(first_lower(prev, scheds, scheds[n - 1].edited_at, 0), n - 1)
        } else {
            prev
        }
    }
}

/// Every position of `order` before `first_lower` holds a schedule edited at or after
/// `key`; the one at `first_lower`, if any, was edited before it.
proof fn lemma_first_lower(order: Seq<int>, scheds: Seq<Schedule>, key: i64, p: int)
    requires
        0 <= p <= order.len(),
        forall|k: int| 0 <= k < order.len() ==> 0 <= #[trigger] order[k] < scheds.len(),
    ensures
        p <= first_lower(order, scheds, key, p) <= order.len(),
        forall|q: int| p <= q < first_lower(order, scheds, key, p) ==> scheds[#[trigger] order[q]].edited_at >= key,
        first_lower(order, scheds, key, p) < order.len() ==> scheds[order[first_lower(order, scheds, key, p)]].edited_at < key,
    decreases order.len() - p,
{
    if p < order.len() && scheds[order[p]].edited_at >= key {
        lemma_first_lower(order, scheds, key, p + 1);
    }
}

/// The listing holds only schedules of the workspace, most recently edited first.
pub proof fn lemma_listing_sorted(scheds: Seq<Schedule>, ws: Seq<char>, n: int)
    requires
        0 <= n <= scheds.len(),
    ensures
        forall|k: int| 0 <= k < listing(scheds, ws, n).len() ==> {
            let x = #[trigger] listing(scheds, ws, n)[k];
            0 <= x < n && scheds[x].workspace_id@ == ws
        },
        forall|k: int| 0 < k < listing(scheds, ws, n).len() ==>
            scheds[listing(scheds, ws, n)[k - 1]].edited_at >= scheds[#[trigger] listing(scheds, ws, n)[k]].edited_at,
    decreases n,
{
    if n > 0 {
        lemma_listing_sorted(scheds, ws, n - 1);
        let prev = listing(scheds, ws, n - 1);
        if scheds[n - 1].workspace_id@ == ws {
            let key = scheds[n - 1].edited_at;
            lemma_first_lower(prev, scheds, key, 0);
            let p = first_lower(prev, scheds, key, 0);
            let l = prev.insert(p, n - 1);
            assert(listing(scheds, ws, n) == l);
            assert forall|k: int| 0 <= k < l.len() implies {
                let x = #[trigger] l[k];
                0 <= x < n && scheds[x].workspace_id@ == ws
            } by {
                if k < p {
                    assert(l[k] == prev[k]);
                } else if k > p {
                    assert(l[k] == prev[k - 1]);
                }
            }
            assert forall|k: int| 0 < k < l.len() implies scheds[l[k - 1]].edited_at >= scheds[#[trigger] l[k]].edited_at by {
                if k < p {
                    assert(l[k - 1] == prev[k - 1] && l[k] == prev[k]);
                } else if k == p {
                    assert(l[k - 1] == prev[k - 1]);
                } else if k == p + 1 {
                    assert(l[k] == prev[p]);
                } else {
                    assert(l[k - 1] == prev[k - 2] && l[k] == prev[k - 1]);
                }
            }
        }
    }
}

pub open spec fn listing_ok(order: Seq<usize>, scheds: Seq<Schedule>, ws: Seq<char>, n: int) -> bool {
    &&& order.map_values(|x: usize| x as int) == listing(scheds, ws, n)
    &&& forall|k: int| 0 <= k < order.len() ==> #[trigger] order[k] < n
}

/// The queue's rows without the one spawned by the schedule at `path`, if any.
pub open spec fn without_slot(st: &Store, ws: Seq<char>, path: Seq<char>) -> Seq<JobView> {
    if exists|i: int| 0 <= i < st.queue@.len() && holds_slot(#[trigger] st.queue@[i]@, ws, path) {
        st.jobs().remove(choose|i: int| 0 <= i < st.queue@.len() && holds_slot(#[trigger] st.queue@[i]@, ws, path))
    } else {
        st.jobs()
    }
}

/// Schedule `s` with the expression, target and arguments of `es`.
pub open spec fn edited(s: Schedule, es: EditSchedule) -> Schedule {
    Schedule { schedule: es.schedule, script_path: es.script_path, is_flow: es.is_flow, args: es.args, ..s }
}

/// The confirmation that `set_enabled` answers with.
pub open spec fn enabled_message(path: Seq<char>, enabled: bool) -> Seq<char> {
    "succesfully updated schedule at path "@ + path + " to status "@ + if enabled { "true"@ } else { "false"@ }
}

fn enabled_text(path: &String, enabled: bool) -> (r: String)
    ensures
        r@ == enabled_message(path@, enabled),
{
    let mut m = String::from_str("succesfully updated schedule at path ");
    m.append(path.as_str());
    m.append(" to status ");
    if enabled {
        m.append("true");
    } else {
        m.append("false");
    }
    proof {
        reveal_strlit("succesfully updated schedule at path ");
        reveal_strlit(" to status ");
        reveal_strlit("true");
        reveal_strlit("false");
    }
    m
}

impl Store {
    pub fn find_schedule(&self, workspace_id: &String, path: &String) -> (r: Option<usize>)
        ensures
            r matches Some(i) ==> schedule_at(self.schedules@, workspace_id@, path@, i as int),
            r is None ==> forall|i: int| !schedule_at(self.schedules@, workspace_id@, path@, i),
    {
        let mut i: usize = 0;
        while i < self.schedules.len()
            invariant
                i <= self.schedules@.len(),
                forall|k: int| 0 <= k < i ==> !schedule_at(self.schedules@, workspace_id@, path@, k),
            decreases self.schedules.len() - i,
        {
            if self.schedules[i].workspace_id == *workspace_id && self.schedules[i].path == *path {
                return Some(i);
            }
            i = i + 1;
        }
        None
    }

    /// The request that enqueues the next occurrence of schedule `s`.
    fn scheduled_job_request(&self, s: &Schedule, now: i64) -> (r: Result<JobRequest, Error>)
        ensures
            r is Ok <==> schedulable(self, *s, now),
            r matches Err(e) ==> arm_fails_with(self, *s, now, e),
            r matches Ok(q) ==> {
                &&& q.workspace_id == s.workspace_id
                &&& q.schedule_path == Some(s.path)
                &&& q.scheduled_for matches Some(v) && fires_at(s.schedule@, s.offset_, now, v) && v > now + 1
                &&& Some(q.kind) == schedule_kind(self.scripts@, *s)
                &&& resolved_kind(self.scripts@, q.workspace_id@, q.kind) == Some(q.kind)
                &&& opt_args_view(q.args) == opt_args_view(s.args)
                &&& !(q.args matches Some(ArgValue::NotMapping(_)))
                &&& q.created_by@ == schedule_user(s.path@)
                &&& q.permissioned_as@ == owner_of(s.path@)
                &&& q.parent_job is None
            },
    {
        let next = next_fire(s.schedule.as_str(), s.offset_, now)?;
        let args = match &s.args {
            Some(ArgValue::NotMapping(_)) => {
                proof {
                    reveal_strlit("args of scripts needs to be dict");
                }
                return Err(Error::ExecutionErr(String::from_str("args of scripts needs to be dict")));
            },
            Some(ArgValue::Mapping(v)) => Some(ArgValue::Mapping(clone_pairs(v))),
            None => None,
        };
        let kind = if s.is_flow {
            JobKind::Flow { path: s.script_path.clone() }
        } else {
            match self.get_latest_hash_for_path(&s.workspace_id, &s.script_path) {
                Some(h) => JobKind::ScriptHash { hash: Some(h), path: s.script_path.clone() },
                None => {
                    return Err(Error::NotFound("no script published at the schedule's script path".to_string()));
                },
            }
        };
        Ok(JobRequest {
            workspace_id: s.workspace_id.clone(),
            kind,
            args,
            created_by: schedule_to_user(s.path.as_str()),
            permissioned_as: get_owner_from_path(s.path.as_str()),
            scheduled_for: Some(next),
            schedule_path: Some(s.path.clone()),
            parent_job: None,
        })
    }

    /// Enqueues the next occurrence of schedule `s`, as seen at `now`, unless a job of
    /// that schedule is already in the queue; returns the id of the schedule's row. A
    /// disabled schedule is left alone (`Ok(None)`).
    pub fn push_scheduled_job(&mut self, s: &Schedule, now: i64) -> (r: Result<Option<u64>, Error>)
        requires
            old(self).wf(),
        ensures
            final(self).wf(),
            final(self).completed == old(self).completed,
            final(self).schedules == old(self).schedules,
            final(self).scripts == old(self).scripts,
            !s.enabled ==> r == Ok::<Option<u64>, Error>(None) && *final(self) == *old(self),
            s.enabled && !schedulable(old(self), *s, now) ==> (r matches Err(e) && arm_fails_with(old(self), *s, now, e))
                && *final(self) == *old(self),
            s.enabled && schedulable(old(self), *s, now) ==> {
                if exists|i: int| 0 <= i < old(self).queue@.len() && holds_slot(#[trigger] old(self).queue@[i]@, s.workspace_id@, s.path@) {
                    &&& *final(self) == *old(self)
                    &&& r matches Ok(Some(id)) && exists|i: int| 0 <= i < old(self).queue@.len()
                        && holds_slot(#[trigger] old(self).queue@[i]@, s.workspace_id@, s.path@) && old(self).queue@[i].id == id
                } else if old(self).next_id == u64::MAX {
                    (r matches Err(Error::Internal(_))) && *final(self) == *old(self)
                } else {
                    &&& r == Ok::<Option<u64>, Error>(Some(old(self).next_id))
                    &&& final(self).next_id == old(self).next_id + 1
                    &&& final(self).jobs() == old(self).jobs().push(final(self).jobs().last())
                    &&& final(self).jobs().len() == old(self).jobs().len() + 1
                    &&& final(self).jobs().last().id == old(self).next_id
                    &&& spawned_by(old(self), *s, now, final(self).jobs().last())
                }
            },
    {
        if !s.enabled {
            return Ok(None);
        }
        let req = self.scheduled_job_request(s, now)?;
        let id = self.push(req, now)?;
        Ok(Some(id))
    }

    /// Removes the queue row spawned by the schedule at `path`, if there is one.
    pub fn clear_schedule(&mut self, workspace_id: &String, path: &String)
        requires
            old(self).wf(),
        ensures
            final(self).wf(),
            final(self).completed == old(self).completed,
            final(self).schedules == old(self).schedules,
            final(self).scripts == old(self).scripts,
            final(self).next_id == old(self).next_id,
            forall|i: int| 0 <= i < final(self).queue@.len() ==> !holds_slot(#[trigger] final(self).queue@[i]@, workspace_id@, path@),
            (forall|i: int| 0 <= i < old(self).queue@.len() ==> !holds_slot(#[trigger] old(self).queue@[i]@, workspace_id@, path@))
                ==> *final(self) == *old(self),
            forall|i: int| 0 <= i < old(self).queue@.len() && holds_slot(#[trigger] old(self).queue@[i]@, workspace_id@, path@)
                ==> final(self).jobs() == old(self).jobs().remove(i),
    {
        match self.find_slot(workspace_id, path) {
            None => {},
            Some(k) => {
                let ghost old_q = self.queue@;
                let _ = self.queue.remove(k);
                assert(self.jobs() =~= old(self).jobs().remove(k as int));
                proof {
                    assert forall|i: int| 0 <= i < self.queue@.len() implies !holds_slot(#[trigger] self.queue@[i]@, workspace_id@, path@) by {
                        if i < k {
                            assert(old_q[i] == self.queue@[i]);
                            assert(!same_slot_at(old_q, i, k as int));
                        } else {
                            assert(old_q[i + 1] == self.queue@[i]);
                            assert(!same_slot_at(old_q, i + 1, k as int));
                        }
                    }
                    assert forall|i: int| 0 <= i < old_q.len() && holds_slot(#[trigger] old_q[i]@, workspace_id@, path@)
                        implies i == k by {
                        if i != k {
                            assert(!same_slot_at(old_q, i, k as int));
                        }
                    }
                }
            },
        }
    }

    /// Archives the job `id` with its outcome, taking it off the queue, and, where it
    /// was spawned by a schedule that is still enabled, enqueues that schedule's next
    /// occurrence as seen at `now`, all or nothing.
    pub fn complete(&mut self, id: u64, success: bool, result: String, now: i64) -> (r: Result<(), Error>)
        requires
            old(self).wf(),
        ensures
            final(self).wf(),
            final(self).schedules == old(self).schedules,
            final(self).scripts == old(self).scripts,
            !old(self).has_job(id) ==> (r matches Err(Error::NotFound(_))) && *final(self) == *old(self),
            r is Err ==> *final(self) == *old(self),
            r is Ok ==> !final(self).has_job(id),
            forall|k: int| 0 <= k < old(self).queue@.len() && (#[trigger] old(self).queue@[k]).id == id ==> {
                let j = old(self).queue@[k]@;
                &&& (!needs_rearm(old(self), j) || (rearm_ready(old(self), j, now) && old(self).next_id < u64::MAX)) ==> r is Ok
                &&& r is Ok ==> {
                    &&& final(self).completed@ == old(self).completed@.push(final(self).completed@.last())
                    &&& final(self).completed@.last().job@ == j
                    &&& final(self).completed@.last().success == success
                    &&& final(self).completed@.last().result == result
                    &&& final(self).completed@.last().completed_at == now
                    &&& if needs_rearm(old(self), j) {
                        &&& final(self).jobs() == old(self).jobs().remove(k).push(final(self).jobs().last())
                        &&& final(self).jobs().len() == old(self).jobs().len()
                        &&& final(self).jobs().last().id == old(self).next_id
                        &&& final(self).next_id == old(self).next_id + 1
                        &&& forall|si: int| schedule_at(old(self).schedules@, j.workspace_id@, j.schedule_path->0@, si)
                            ==> spawned_by(old(self), old(self).schedules@[si], now, final(self).jobs().last())
                    } else {
                        &&& final(self).jobs() == old(self).jobs().remove(k)
                        &&& final(self).next_id == old(self).next_id
                    }
                }
            },
    {
        let k = match self.find_job(id) {
            Some(k) => k,
            None => {
                return Err(Error::NotFound("no job with this id in the queue".to_string()));
            },
        };
        let ghost jv = self.queue@[k as int]@;
        let mut rearm: Option<JobRequest> = None;
        match &self.queue[k].schedule_path {
            Some(p) => {
                match self.find_schedule(&self.queue[k].workspace_id, p) {
                    Some(si) => {
                        if self.schedules[si].enabled {
                            let req = self.scheduled_job_request(&self.schedules[si], now)?;
                            if self.next_id == u64::MAX {
                                return Err(Error::Internal("job ids exhausted".to_string()));
                            }
                            rearm = Some(req);
                        }
                    },
                    None => {},
                }
            },
            None => {},
        }
        assert(rearm is Some <==> needs_rearm(old(self), jv)) by {
            if jv.schedule_path is Some {
                unique_schedule(old(self), jv.workspace_id@, jv.schedule_path->0@);
            }
        }
        let ghost old_q = self.queue@;
        let job = self.queue.remove(k);
        assert(self.jobs() =~= old(self).jobs().remove(k as int));
        proof {
            assert forall|i: int| 0 <= i < self.queue@.len() implies (#[trigger] self.queue@[i]).id != id by {
                if i < k {
                    assert(old_q[i] == self.queue@[i]);
                } else {
                    assert(old_q[i + 1] == self.queue@[i]);
                }
            }
            assert forall|i: int| 0 <= i < self.queue@.len() && jv.schedule_path is Some
                implies !holds_slot(#[trigger] self.queue@[i]@, jv.workspace_id@, jv.schedule_path->0@) by {
                if i < k {
                    assert(old_q[i] == self.queue@[i]);
                    assert(!same_slot_at(old_q, i, k as int));
                } else {
                    assert(old_q[i + 1] == self.queue@[i]);
                    assert(!same_slot_at(old_q, i + 1, k as int));
                }
            }
        }
        let duration_s: i64 = match job.started_at {
            Some(t) => if now >= t && (t >= 0 || now <= i64::MAX + t) { now - t } else { 0 },
            None => 0,
        };
        self.completed.push(CompletedJob { job, success, result, duration_s, completed_at: now });
        match rearm {
            Some(req) => {
                let ghost mid = self.jobs();
                let pushed = self.push(req, now);
                assert(pushed is Ok);
                proof {
                    assert(jv.id < old(self).next_id);
                    assert forall|i: int| 0 <= i < self.queue@.len() implies (#[trigger] self.queue@[i]).id != id by {
                        assert(self.jobs()[i].id == self.queue@[i].id);
                        if i < mid.len() {
                            assert(self.jobs()[i] == mid[i]);
                        }
                    }
                    assert forall|si: int| schedule_at(old(self).schedules@, jv.workspace_id@, jv.schedule_path->0@, si)
                        implies spawned_by(old(self), old(self).schedules@[si], now, self.jobs().last()) by {
                        unique_schedule(old(self), jv.workspace_id@, jv.schedule_path->0@);
                    }
                }
            },
            None => {},
        }
        Ok(())
    }

    /// The schedule at `path` of workspace `ws`, if there is one.
    pub fn get_schedule_opt(&self, workspace_id: &String, path: &String) -> (r: Option<Schedule>)
        ensures
            r is None <==> forall|i: int| !schedule_at(self.schedules@, workspace_id@, path@, i),
            r matches Some(s) ==> exists|i: int| schedule_at(self.schedules@, workspace_id@, path@, i)
                && same_but_enabled(s, self.schedules@[i]) && s.enabled == self.schedules@[i].enabled,
    {
        match self.find_schedule(workspace_id, path) {
            Some(i) => Some(self.schedules[i].duplicate()),
            None => None,
        }
    }

    /// The schedule at `path` of workspace `ws`, or `NotFound`.
    pub fn get_schedule(&self, workspace_id: &String, path: &String) -> (r: Result<Schedule, Error>)
        ensures
            r is Err <==> forall|i: int| !schedule_at(self.schedules@, workspace_id@, path@, i),
            r matches Err(e) ==> e is NotFound,
            r matches Ok(s) ==> exists|i: int| schedule_at(self.schedules@, workspace_id@, path@, i)
                && same_but_enabled(s, self.schedules@[i]) && s.enabled == self.schedules@[i].enabled,
    {
        match self.get_schedule_opt(workspace_id, path) {
            Some(s) => Ok(s),
            None => Err(Error::NotFound("Schedule not found".to_string())),
        }
    }

    /// Turns the schedule at `path` on or off. Its job in the queue, if any, is removed;
    /// when turned on, its next occurrence as seen at `now` is enqueued. All or nothing.
    pub fn set_enabled(&mut self, workspace_id: &String, path: &String, enabled: bool, now: i64) -> (r: Result<String, Error>)
        requires
            old(self).wf(),
        ensures
            final(self).wf(),
            final(self).completed == old(self).completed,
            final(self).scripts == old(self).scripts,
            r is Err ==> *final(self) == *old(self),
            r matches Ok(m) ==> m@ == enabled_message(path@, enabled),
            (forall|i: int| !schedule_at(old(self).schedules@, workspace_id@, path@, i))
                ==> (r matches Err(Error::NotFound(_))),
            forall|si: int| #[trigger] schedule_at(old(self).schedules@, workspace_id@, path@, si) ==> {
                let s = old(self).schedules@[si];
                &&& (!enabled || (schedulable(old(self), s, now) && old(self).next_id < u64::MAX)) <==> r is Ok
                &&& r matches Err(e) ==> if schedulable(old(self), s, now) {
                    e is Internal
                } else {
                    arm_fails_with(old(self), s, now, e)
                }
                &&& r is Ok ==> {
                    &&& final(self).schedules@.len() == old(self).schedules@.len()
                    &&& forall|i: int| 0 <= i < old(self).schedules@.len() && i != si
                        ==> final(self).schedules@[i] == old(self).schedules@[i]
                    &&& same_but_enabled(final(self).schedules@[si], s)
                    &&& final(self).schedules@[si].enabled == enabled
                    &&& !enabled ==> {
                        &&& final(self).next_id == old(self).next_id
                        &&& final(self).jobs() == without_slot(old(self), workspace_id@, path@)
                    }
                    &&& enabled ==> {
                        &&& final(self).next_id == old(self).next_id + 1
                        &&& final(self).jobs() == without_slot(old(self), workspace_id@, path@).push(final(self).jobs().last())
                        &&& final(self).jobs().last().id == old(self).next_id
                        &&& spawned_by(old(self), s, now, final(self).jobs().last())
                    }
                    &&& forall|i: int| 0 <= i < final(self).queue@.len() - (if enabled { 1int } else { 0int })
                        ==> !holds_slot(#[trigger] final(self).queue@[i]@, workspace_id@, path@)
                }
            },
    {
        let si = match self.find_schedule(workspace_id, path) {
            Some(si) => si,
            None => {
                return Err(Error::NotFound("no schedule at this path".to_string()));
            },
        };
        proof {
            unique_schedule(old(self), workspace_id@, path@);
        }
        let mut rearm: Option<JobRequest> = None;
        if enabled {
            let req = self.scheduled_job_request(&self.schedules[si], now)?;
            if self.next_id == u64::MAX {
                return Err(Error::Internal("job ids exhausted".to_string()));
            }
            rearm = Some(req);
        }
        let mut updated = self.schedules[si].duplicate();
        updated.enabled = enabled;
        self.schedules.set(si, updated);
        let ghost q1 = self.jobs();
        self.clear_schedule(workspace_id, path);
        proof {
            if exists|i: int| 0 <= i < old(self).queue@.len() && holds_slot(#[trigger] old(self).queue@[i]@, workspace_id@, path@) {
                let w = choose|i: int| 0 <= i < old(self).queue@.len() && holds_slot(#[trigger] old(self).queue@[i]@, workspace_id@, path@);
                assert(self.jobs() == q1.remove(w));
            }
            assert(self.jobs() == without_slot(old(self), workspace_id@, path@));
        }
        match rearm {
            Some(req) => {
                let ghost mid = self.jobs();
                let ghost mid_q = self.queue@;
                let pushed = self.push(req, now);
                assert(pushed is Ok);
                proof {
                    assert forall|i: int| 0 <= i < self.queue@.len() - 1
                        implies !holds_slot(#[trigger] self.queue@[i]@, workspace_id@, path@) by {
                        assert(self.jobs()[i] == mid[i]);
                        assert(self.jobs()[i] == self.queue@[i]@);
                        assert(mid[i] == mid_q[i]@);
                    }
                }
            },
            None => {},
        }
        Ok(enabled_text(path, enabled))
    }

    /// Creates an enabled schedule at `ns.path` and enqueues its next occurrence as seen
    /// at `now`. A malformed expression, or a path already taken, is refused. All or nothing.
    pub fn create_schedule(&mut self, workspace_id: String, ns: NewSchedule, user: String, now: i64) -> (r: Result<String, Error>)
        requires
            old(self).wf(),
        ensures
            final(self).wf(),
            final(self).completed == old(self).completed,
            final(self).scripts == old(self).scripts,
            r is Err ==> *final(self) == *old(self),
            !cron_accepts(ns.schedule@) ==> (r matches Err(Error::BadRequest(_))),
            cron_accepts(ns.schedule@) && (exists|i: int| schedule_at(old(self).schedules@, workspace_id@, ns.path@, i))
                ==> (r matches Err(Error::StoreErr(_))),
            cron_accepts(ns.schedule@) && (forall|i: int| !schedule_at(old(self).schedules@, workspace_id@, ns.path@, i)) ==> {
                let ok = armable(old(self), workspace_id@, ns.schedule@, ns.offset, ns.args, ns.is_flow, ns.script_path@, now);
                &&& (ok && old(self).next_id < u64::MAX) <==> r is Ok
                &&& r matches Err(e) ==> if ok {
                    e is Internal
                } else {
                    arm_fails_with_fields(old(self), ns.schedule@, ns.offset, ns.args, now, e)
                }
            },
            r matches Ok(p) ==> {
                let s = final(self).schedules@.last();
                &&& p == ns.path
                &&& final(self).schedules@ == old(self).schedules@.push(s)
                &&& s.workspace_id == workspace_id && s.path == ns.path && s.schedule == ns.schedule
                &&& s.offset_ == ns.offset && s.script_path == ns.script_path && s.is_flow == ns.is_flow
                &&& s.args == ns.args
                &&& s.enabled && s.edited_by == user && s.edited_at == now
                &&& if exists|i: int| 0 <= i < old(self).queue@.len() && holds_slot(#[trigger] old(self).queue@[i]@, workspace_id@, ns.path@) {
                    *final(self) == (Store { schedules: final(self).schedules, ..*old(self) })
                } else {
                    &&& final(self).next_id == old(self).next_id + 1
                    &&& final(self).jobs() == old(self).jobs().push(final(self).jobs().last())
                    &&& final(self).jobs().last().id == old(self).next_id
                    &&& spawned_by(old(self), s, now, final(self).jobs().last())
                }
            },
    {
        match crate::cron_time::validate_cron(ns.schedule.as_str()) {
            Ok(()) => {},
            Err(e) => {
                return Err(e);
            },
        }
        match self.find_schedule(&workspace_id, &ns.path) {
            Some(_) => {
                return Err(Error::StoreErr("a schedule already exists at this path".to_string()));
            },
            None => {},
        }
        let ret = ns.path.clone();
        let sched = Schedule {
            workspace_id,
            path: ns.path,
            edited_by: user,
            edited_at: now,
            schedule: ns.schedule,
            offset_: ns.offset,
            enabled: true,
            script_path: ns.script_path,
            is_flow: ns.is_flow,
            args: ns.args,
            extra_perms: "{}".to_string(),
        };
        let req = self.scheduled_job_request(&sched, now)?;
        if self.next_id == u64::MAX {
            return Err(Error::Internal("job ids exhausted".to_string()));
        }
        let ws = sched.workspace_id.clone();
        let p = sched.path.clone();
        let ghost old_s = self.schedules@;
        self.schedules.push(sched);
        proof {
            assert forall|i: int, k: int|
                0 <= i < self.schedules@.len() && 0 <= k < self.schedules@.len() && i != k
                    implies !(#[trigger] self.schedules@[i].workspace_id@ == #[trigger] self.schedules@[k].workspace_id@
                    && self.schedules@[i].path@ == self.schedules@[k].path@) by {
                if i == old_s.len() {
                    assert(!schedule_at(old_s, ws@, p@, k));
                } else if k == old_s.len() {
                    assert(!schedule_at(old_s, ws@, p@, i));
                }
            }
        }
        let ghost rq = req;
        let ghost q0 = self.queue@;
        let ghost j0 = self.jobs();
        let pushed = self.push(req, now);
        assert(pushed is Ok);
        proof {
            assert(rq.schedule_path == Some(p));
            assert(rq.workspace_id@ == ws@);
            if exists|i: int| 0 <= i < q0.len() && holds_slot(#[trigger] q0[i]@, ws@, p@) {
                let w = choose|i: int| 0 <= i < q0.len() && holds_slot(#[trigger] q0[i]@, ws@, p@);
                assert(self.queue@[w] == q0[w]);
            } else {
                let n = (self.queue@.len() - 1) as int;
                assert(self.jobs() == j0.push(new_job(rq, resolved_kind(self.scripts@, rq.workspace_id@, rq.kind)->0, old(self).next_id, now)));
                assert(self.jobs()[n] == self.queue@[n]@);
                assert(holds_slot(self.queue@[n]@, ws@, p@));
            }
        }
        Ok(ret)
    }

    /// Replaces the expression, target and arguments of the schedule at `path`. Its job
    /// in the queue, if any, is removed and, if the schedule is enabled, the next
    /// occurrence of the new expression as seen at `now` is enqueued. All or nothing.
    pub fn edit_schedule(&mut self, workspace_id: &String, path: &String, es: EditSchedule, now: i64) -> (r: Result<String, Error>)
        requires
            old(self).wf(),
        ensures
            final(self).wf(),
            final(self).completed == old(self).completed,
            final(self).scripts == old(self).scripts,
            r is Err ==> *final(self) == *old(self),
            r matches Ok(p) ==> p == *path,
            !cron_accepts(es.schedule@) ==> (r matches Err(Error::BadRequest(_))),
            cron_accepts(es.schedule@) && (forall|i: int| !schedule_at(old(self).schedules@, workspace_id@, path@, i))
                ==> (r matches Err(Error::NotFound(_))),
            forall|si: int| #[trigger] schedule_at(old(self).schedules@, workspace_id@, path@, si) ==> {
                let s = old(self).schedules@[si];
                let t = edited(s, es);
                &&& (cron_accepts(es.schedule@) && (!s.enabled || (schedulable(old(self), t, now)
                    && old(self).next_id < u64::MAX))) <==> r is Ok
                &&& cron_accepts(es.schedule@) ==> (r matches Err(e) ==> if schedulable(old(self), t, now) {
                    e is Internal
                } else {
                    arm_fails_with(old(self), t, now, e)
                })
                &&& r is Ok ==> {
                    &&& final(self).schedules@ == old(self).schedules@.update(si, t)
                    &&& !s.enabled ==> final(self).jobs() == without_slot(old(self), workspace_id@, path@)
                    &&& s.enabled ==> {
                        &&& final(self).next_id == old(self).next_id + 1
                        &&& final(self).jobs() == without_slot(old(self), workspace_id@, path@).push(final(self).jobs().last())
                        &&& final(self).jobs().last().id == old(self).next_id
                        &&& spawned_by(old(self), t, now, final(self).jobs().last())
                    }
                    &&& forall|i: int| 0 <= i < final(self).queue@.len() - (if s.enabled { 1int } else { 0int })
                        ==> !holds_slot(#[trigger] final(self).queue@[i]@, workspace_id@, path@)
                }
            },
    {
        match crate::cron_time::validate_cron(es.schedule.as_str()) {
            Ok(()) => {},
            Err(e) => {
                return Err(e);
            },
        }
        let si = match self.find_schedule(workspace_id, path) {
            Some(si) => si,
            None => {
                return Err(Error::NotFound("no schedule at this path".to_string()));
            },
        };
        proof {
            unique_schedule(old(self), workspace_id@, path@);
        }
        let mut updated = self.schedules[si].duplicate();
        updated.schedule = es.schedule;
        updated.script_path = es.script_path;
        updated.is_flow = es.is_flow;
        updated.args = es.args;
        assert(updated == edited(self.schedules@[si as int], es));
        let mut rearm: Option<JobRequest> = None;
        if updated.enabled {
            let req = self.scheduled_job_request(&updated, now)?;
            if self.next_id == u64::MAX {
                return Err(Error::Internal("job ids exhausted".to_string()));
            }
            rearm = Some(req);
        }
        let ghost t = updated;
        self.schedules.set(si, updated);
        let ghost q1 = self.jobs();
        self.clear_schedule(workspace_id, path);
        proof {
            if exists|i: int| 0 <= i < old(self).queue@.len() && holds_slot(#[trigger] old(self).queue@[i]@, workspace_id@, path@) {
                let w = choose|i: int| 0 <= i < old(self).queue@.len() && holds_slot(#[trigger] old(self).queue@[i]@, workspace_id@, path@);
                assert(self.jobs() == q1.remove(w));
            }
            assert(self.jobs() == without_slot(old(self), workspace_id@, path@));
        }
        match rearm {
            Some(req) => {
                let ghost mid = self.jobs();
                let ghost mid_q = self.queue@;
                let pushed = self.push(req, now);
                assert(pushed is Ok);
                proof {
                    assert forall|i: int| 0 <= i < self.queue@.len() - 1
                        implies !holds_slot(#[trigger] self.queue@[i]@, workspace_id@, path@) by {
                        assert(self.jobs()[i] == mid[i]);
                        assert(self.jobs()[i] == self.queue@[i]@);
                        assert(mid[i] == mid_q[i]@);
                    }
                }
            },
            None => {},
        }
        Ok(path.clone())
    }

    /// The schedules of workspace `ws`, most recently edited first (schedules edited at
    /// the same instant in the order they were created), skipping `offset` and keeping
    /// at most `limit`.
    /// The indices of the schedules of workspace `ws`, in listing order.
    fn listing_order(&self, workspace_id: &String) -> (r: Vec<usize>)
        ensures
            listing_ok(r@, self.schedules@, workspace_id@, self.schedules@.len() as int),
    {
        let n = self.schedules.len();
        let mut order: Vec<usize> = Vec::new();
        let mut i: usize = 0;
        assert(order@.map_values(|x: usize| x as int) =~= seq![]);
        while i < n
            invariant
                n == self.schedules@.len(),
                i <= n,
                listing_ok(order@, self.schedules@, workspace_id@, i as int),
            decreases n - i,
        {
            let ghost prev = listing(self.schedules@, workspace_id@, i as int);
            if self.schedules[i].workspace_id == *workspace_id {
                let key = self.schedules[i].edited_at;
                let mut p: usize = 0;
                while p < order.len()
                    invariant
                        n == self.schedules@.len(),
                        i < n,
                        listing_ok(order@, self.schedules@, workspace_id@, i as int),
                        p <= order@.len(),
                        prev == order@.map_values(|x: usize| x as int),
                        key == self.schedules@[i as int].edited_at,
                        first_lower(prev, self.schedules@, key, p as int) == first_lower(prev, self.schedules@, key, 0),
                    ensures
                        p <= order@.len(),
                        first_lower(prev, self.schedules@, key, 0) == p,
                    decreases order.len() - p,
                {
                    assert(prev[p as int] == order@[p as int] as int);
                    if self.schedules[order[p]].edited_at < key {
                        assert(first_lower(prev, self.schedules@, key, p as int) == p);
                        break;
                    }
                    p = p + 1;
                }
                let ghost before = order@;
                order.insert(p, i);
                assert(order@ == before.insert(p as int, i));
                assert(order@.map_values(|x: usize| x as int) =~= prev.insert(p as int, i as int));
                assert(listing(self.schedules@, workspace_id@, i + 1) == prev.insert(p as int, i as int));
                assert forall|k: int| 0 <= k < order@.len() implies #[trigger] order@[k] < i + 1 by {
                    if k < p {
                        assert(order@[k] == before[k]);
                    } else if k > p {
                        assert(order@[k] == before[k - 1]);
                    }
                }
            } else {
                assert(listing(self.schedules@, workspace_id@, i + 1) == prev);
            }
            i = i + 1;
        }
        order
    }

    pub fn list_schedule(&self, workspace_id: &String, limit: usize, offset: usize) -> (r: Vec<Schedule>)
        ensures
            forall|k: int| 0 <= k < r@.len() ==> (#[trigger] r@[k]).workspace_id@ == workspace_id@,
            forall|k: int| 0 < k < r@.len() ==> r@[k - 1].edited_at >= (#[trigger] r@[k]).edited_at,
            ({
                let order = listing(self.schedules@, workspace_id@, self.schedules@.len() as int);
                let start = if offset <= order.len() { offset as int } else { order.len() as int };
                let end = if start + limit <= order.len() { start + limit } else { order.len() as int };
                &&& r@.len() == end - start
                &&& forall|k: int| 0 <= k < r@.len() ==> {
                    let s = self.schedules@[order[start + k]];
                    &&& same_but_enabled(#[trigger] r@[k], s)
                    &&& r@[k].enabled == s.enabled
                }
            }),
    {
        let n = self.schedules.len();
        let order = self.listing_order(workspace_id);
        proof {
            lemma_listing_sorted(self.schedules@, workspace_id@, n as int);
        }
        let len = order.len();
        let start = if offset <= len { offset } else { len };
        let end = if limit <= len - start { start + limit } else { len };
        let mut out: Vec<Schedule> = Vec::new();
        let mut k: usize = start;
        while k < end
            invariant
                n == self.schedules@.len(),
                listing_ok(order@, self.schedules@, workspace_id@, n as int),
                start <= k <= end <= order@.len(),
                out@.len() == k - start,
                forall|m: int| 0 <= m < out@.len() ==> {
                    let s = self.schedules@[order@[start + m] as int];
                    &&& same_but_enabled(#[trigger] out@[m], s)
                    &&& out@[m].enabled == s.enabled
                },
            decreases end - k,
        {
            let s = self.schedules[order[k]].duplicate();
            out.push(s);
            k = k + 1;
        }
        proof {
            let o = order@.map_values(|x: usize| x as int);
            assert forall|m: int| 0 <= m < out@.len() implies (#[trigger] out@[m]).workspace_id@ == workspace_id@ by {
                assert(o[start + m] == order@[start + m] as int);
            }
            assert forall|m: int| 0 < m < out@.len() implies out@[m - 1].edited_at >= (#[trigger] out@[m]).edited_at by {
                assert(o[start + m] == order@[start + m] as int);
                assert(o[start + m - 1] == order@[start + m - 1] as int);
            }
        }
        out
    }
}

} // verus!
