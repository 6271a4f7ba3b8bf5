use vstd::prelude::*;
use vstd::string::StringExecFns;

use crate::error::Error;
use crate::job::{ArgValue, ArgView, CompletedJob, Job, JobKind, JobView};

verus! {

/// A published version of a script: the hash that identifies it at its path.
pub struct PublishedScript {
    pub workspace_id: String,
    pub path: String,
    pub hash: i64,
}

/// What a caller hands to `push`.
pub struct JobRequest {
    pub workspace_id: String,
    pub kind: JobKind,
    pub args: Option<ArgValue>,
    pub created_by: String,
    pub permissioned_as: String,
    pub scheduled_for: Option<i64>,
    pub schedule_path: Option<String>,
    pub parent_job: Option<u64>,
}

/// A cron definition owned by a workspace.
pub struct Schedule {
    pub workspace_id: String,
    pub path: String,
    pub edited_by: String,
    pub edited_at: i64,
    pub schedule: String,
    pub offset_: i32,
    pub enabled: bool,
    pub script_path: String,
    pub is_flow: bool,
    pub args: Option<ArgValue>,
    pub extra_perms: String,
}

/// Request body that creates a schedule.
pub struct NewSchedule {
    pub path: String,
    pub schedule: String,
    pub offset: i32,
    pub script_path: String,
    pub is_flow: bool,
    pub args: Option<ArgValue>,
}

/// Request body that edits a schedule's expression and target.
pub struct EditSchedule {
    pub schedule: String,
    pub script_path: String,
    pub is_flow: bool,
    pub args: Option<ArgValue>,
}

/// Whether `a` and `b` are the same schedule but for, possibly, the enabled flag.
pub open spec fn same_but_enabled(a: Schedule, b: Schedule) -> bool {
    &&& a.workspace_id == b.workspace_id
    &&& a.path == b.path
    &&& a.edited_by == b.edited_by
    &&& a.edited_at == b.edited_at
    &&& a.schedule == b.schedule
    &&& a.offset_ == b.offset_
    &&& a.script_path == b.script_path
    &&& a.is_flow == b.is_flow
    &&& opt_args_view(a.args) == opt_args_view(b.args)
    &&& a.extra_perms == b.extra_perms
}

impl Schedule {
    pub fn duplicate(&self) -> (r: Schedule)
        ensures
            same_but_enabled(r, *self),
            r.enabled == self.enabled,
    {
        Schedule {
            workspace_id: self.workspace_id.clone(),
            path: self.path.clone(),
            edited_by: self.edited_by.clone(),
            edited_at: self.edited_at,
            schedule: self.schedule.clone(),
            offset_: self.offset_,
            enabled: self.enabled,
            script_path: self.script_path.clone(),
            is_flow: self.is_flow,
            args: match &self.args {
                Some(a) => Some(a.duplicate()),
                None => None,
            },
            extra_perms: self.extra_perms.clone(),
        }
    }
}

/// The transactional backing of the core: the queue, the archive of completed jobs,
/// the schedules and the published scripts, with the next job id to hand out.
pub struct Store {
    pub queue: Vec<Job>,
    pub completed: Vec<CompletedJob>,
    pub schedules: Vec<Schedule>,
    pub scripts: Vec<PublishedScript>,
    pub next_id: u64,
}

/// Whether job `j` was spawned by the schedule at `path` of workspace `ws`.
pub open spec fn holds_slot(j: JobView, ws: Seq<char>, path: Seq<char>) -> bool {
    &&& j.workspace_id@ == ws
    &&& j.schedule_path matches Some(p) && p@ == path
}

/// Whether two jobs were spawned by the same schedule.
pub open spec fn same_slot(a: JobView, b: JobView) -> bool {
    a.schedule_path matches Some(p) && holds_slot(b, a.workspace_id@, p@)
}

/// The hash of the script most recently published at `path` of workspace `ws`.
pub open spec fn latest_hash(scripts: Seq<PublishedScript>, ws: Seq<char>, path: Seq<char>) -> Option<i64>
    decreases scripts.len(),
{
    if scripts.len() == 0 {
        None
    } else {
        let last = scripts.last();
        if last.workspace_id@ == ws && last.path@ == path {
            Some(last.hash)
        } else {
            latest_hash(scripts.drop_last(), ws, path)
        }
    }
}

/// The kind that a job of kind `k` runs as, its open hash resolved, if it can be.
pub open spec fn resolved_kind(scripts: Seq<PublishedScript>, ws: Seq<char>, k: JobKind) -> Option<JobKind> {
    match k {
        JobKind::ScriptHash { hash: None, path } => match latest_hash(scripts, ws, path@) {
            Some(h) => Some(JobKind::ScriptHash { hash: Some(h), path }),
            None => None,
        },
        _ => Some(k),
    }
}

pub open spec fn args_of(a: Option<ArgView>) -> Option<Seq<(String, String)>> {
    match a {
        Some(ArgView::Mapping(v)) => Some(v),
        _ => None,
    }
}

pub open spec fn opt_args_view(a: Option<ArgValue>) -> Option<ArgView> {
    match a {
        Some(v) => Some(v@),
        None => None,
    }
}

/// The queue row that `push` inserts for `req`, with id `id`, at `now`.
pub open spec fn new_job(req: JobRequest, kind: JobKind, id: u64, now: i64) -> JobView {
    JobView {
        id,
        workspace_id: req.workspace_id,
        kind,
        args: args_of(opt_args_view(req.args)),
        created_by: req.created_by,
        permissioned_as: req.permissioned_as,
        created_at: now,
        scheduled_for: match req.scheduled_for {
            Some(t) => t,
            None => now,
        },
        schedule_path: req.schedule_path,
        parent_job: req.parent_job,
        running: false,
        started_at: None,
        last_ping: None,
        restart_count: 0,
    }
}

/// A pending job whose time has come.
pub open spec fn eligible(j: JobView, now: i64) -> bool {
    !j.running && j.scheduled_for <= now
}

/// Order in which pending jobs are claimed: scheduled time, then creation time, then id.
pub open spec fn claimed_before(a: JobView, b: JobView) -> bool {
    ||| a.scheduled_for < b.scheduled_for
    ||| a.scheduled_for == b.scheduled_for && a.created_at < b.created_at
    ||| a.scheduled_for == b.scheduled_for && a.created_at == b.created_at && a.id < b.id
}

/// A job as it stands once a worker has claimed it at `now`.
pub open spec fn claimed(j: JobView, now: i64) -> JobView {
    JobView { running: true, started_at: Some(now), last_ping: Some(now), ..j }
}

impl Store {
    pub open spec fn jobs(&self) -> Seq<JobView> {
        self.queue@.map_values(|j: Job| j@)
    }

    pub open spec fn has_job(&self, id: u64) -> bool {
        exists|i: int| 0 <= i < self.queue@.len() && (#[trigger] self.queue@[i]).id == id
    }

    /// The store's invariant: ids are unique and below the next one to hand out; at
    /// most one row per schedule; a running job has a start time and a heartbeat, a
    /// pending one has no start time; schedules are unique per workspace and path.
    pub open spec fn wf(&self) -> bool {
        &&& forall|i: int| 0 <= i < self.queue@.len() ==> (#[trigger] self.queue@[i]).id < self.next_id
        &&& forall|i: int, k: int|
            0 <= i < self.queue@.len() && 0 <= k < self.queue@.len() && i != k
                ==> #[trigger] self.queue@[i].id != #[trigger] self.queue@[k].id
        &&& forall|i: int, k: int|
            0 <= i < self.queue@.len() && 0 <= k < self.queue@.len() && i != k
                ==> !same_slot(#[trigger] self.queue@[i]@, #[trigger] self.queue@[k]@)
        &&& forall|i: int| 0 <= i < self.queue@.len() ==> {
            let j = #[trigger] self.queue@[i];
            &&& j.running == j.started_at is Some
            &&& j.running ==> j.last_ping is Some
        }
        &&& forall|i: int, k: int|
            0 <= i < self.schedules@.len() && 0 <= k < self.schedules@.len() && i != k
                ==> !(#[trigger] self.schedules@[i].workspace_id@ == #[trigger] self.schedules@[k].workspace_id@
                    && self.schedules@[i].path@ == self.schedules@[k].path@)
    }

    /// An empty store.
    pub fn new() -> (r: Store)
        ensures
            r.wf(),
            r.queue@.len() == 0,
            r.completed@.len() == 0,
            r.schedules@.len() == 0,
            r.scripts@.len() == 0,
            r.next_id == 1,
    {
        Store { queue: Vec::new(), completed: Vec::new(), schedules: Vec::new(), scripts: Vec::new(), next_id: 1 }
    }

    /// Records that `hash` is now the latest version of the script at `path`.
    pub fn publish_script(&mut self, workspace_id: String, path: String, hash: i64)
        requires
            old(self).wf(),
        ensures
            final(self).wf(),
            final(self).scripts@ == old(self).scripts@.push(PublishedScript { workspace_id, path, hash }),
            final(self).queue == old(self).queue,
            final(self).completed == old(self).completed,
            final(self).schedules == old(self).schedules,
            final(self).next_id == old(self).next_id,
    {
        self.scripts.push(PublishedScript { workspace_id, path, hash });
    }

    /// The hash of the script most recently published at `path`.
    pub fn get_latest_hash_for_path(&self, workspace_id: &String, path: &String) -> (r: Option<i64>)
        ensures
            r == latest_hash(self.scripts@, workspace_id@, path@),
    {
        let mut i: usize = self.scripts.len();
        assert(self.scripts@.subrange(0, i as int) =~= self.scripts@);
        while i > 0
            invariant
                i <= self.scripts@.len(),
                latest_hash(self.scripts@, workspace_id@, path@)
                    == latest_hash(self.scripts@.subrange(0, i as int), workspace_id@, path@),
            decreases i,
        {
            let s = &self.scripts[i - 1];
            assert(self.scripts@.subrange(0, i - 1) =~= self.scripts@.subrange(0, i as int).drop_last());
            if s.workspace_id == *workspace_id && s.path == *path {
                return Some(s.hash);
            }
            i = i - 1;
        }
        None
    }

    /// The index of the queue row spawned by the schedule at `path`, if any.
    pub fn find_slot(&self, workspace_id: &String, path: &String) -> (r: Option<usize>)
        ensures
            r matches Some(i) ==> i < self.queue@.len() && holds_slot(self.queue@[i as int]@, workspace_id@, path@),
            r is None ==> forall|i: int| 0 <= i < self.queue@.len()
                ==> !holds_slot(#[trigger] self.queue@[i]@, workspace_id@, path@),
    {
        let mut i: usize = 0;
        while i < self.queue.len()
            invariant
                i <= self.queue@.len(),
                forall|k: int| 0 <= k < i ==> !holds_slot(#[trigger] self.queue@[k]@, workspace_id@, path@),
            decreases self.queue.len() - i,
        {
            let j = &self.queue[i];
            if j.workspace_id == *workspace_id {
                match &j.schedule_path {
                    Some(p) => {
                        if *p == *path {
                            return Some(i);
                        }
                    },
                    None => {},
                }
            }
            i = i + 1;
        }
        None
    }

    /// The index of the queue row with id `id`, if any.
    pub fn find_job(&self, id: u64) -> (r: Option<usize>)
        ensures
            r matches Some(i) ==> i < self.queue@.len() && self.queue@[i as int].id == id,
            r is None <==> !self.has_job(id),
    {
        let mut i: usize = 0;
        while i < self.queue.len()
            invariant
                i <= self.queue@.len(),
                forall|k: int| 0 <= k < i ==> (#[trigger] self.queue@[k]).id != id,
            decreases self.queue.len() - i,
        {
            if self.queue[i].id == id {
                return Some(i);
            }
            i = i + 1;
        }
        None
    }

    /// Enqueues a job. Arguments that are not a mapping are refused; an open script
    /// hash is resolved to the latest published one; a job for a schedule that already
    /// has a row in the queue is not inserted again, and the existing row's id is returned.
    /// A running row counts too: the zombie sweep may make a running row pending again,
    /// and a second row of the same schedule would then make two pending ones.
    pub fn push(&mut self, req: JobRequest, now: i64) -> (r: Result<u64, Error>)
        requires
            old(self).wf(),
        ensures
            final(self).wf(),
            final(self).completed == old(self).completed,
            final(self).schedules == old(self).schedules,
            final(self).scripts == old(self).scripts,
            req.args matches Some(ArgValue::NotMapping(_)) ==> (r matches Err(Error::ExecutionErr(m))
                && m@ == "args of scripts needs to be dict"@) && *final(self) == *old(self),
            !(req.args matches Some(ArgValue::NotMapping(_))) && resolved_kind(old(self).scripts@, req.workspace_id@, req.kind) is None
                ==> (r matches Err(Error::NotFound(_))) && *final(self) == *old(self),
            !(req.args matches Some(ArgValue::NotMapping(_))) && resolved_kind(old(self).scripts@, req.workspace_id@, req.kind) is Some
                ==> match req.schedule_path {
                    Some(p) if exists|i: int| 0 <= i < old(self).queue@.len()
                        && holds_slot(#[trigger] old(self).queue@[i]@, req.workspace_id@, p@) =>
                        *final(self) == *old(self) && (r matches Ok(id) && exists|i: int|
                            0 <= i < old(self).queue@.len() && holds_slot(#[trigger] old(self).queue@[i]@, req.workspace_id@, p@)
                                && old(self).queue@[i].id == id),
                    _ => if old(self).next_id == u64::MAX {
                        (r matches Err(Error::Internal(_))) && *final(self) == *old(self)
                    } else {
                        &&& r == Ok::<u64, Error>(old(self).next_id)
                        &&& final(self).jobs() == old(self).jobs().push(
                            new_job(req, resolved_kind(old(self).scripts@, req.workspace_id@, req.kind)->0, old(self).next_id, now))
                        &&& final(self).next_id == old(self).next_id + 1
                    },
                },
    {
        let args: Option<Vec<(String, String)>> = match req.args {
            Some(ArgValue::NotMapping(_)) => {
                proof {
                    reveal_strlit("args of scripts needs to be dict");
                }
                return Err(Error::ExecutionErr(String::from_str("args of scripts needs to be dict")));
            },
            Some(ArgValue::Mapping(v)) => Some(v),
            None => None,
        };
        let kind = match req.kind {
            JobKind::ScriptHash { hash: None, path } => {
                match self.get_latest_hash_for_path(&req.workspace_id, &path) {
                    Some(h) => JobKind::ScriptHash { hash: Some(h), path },
                    None => {
                        return Err(Error::NotFound("no script published at this path".to_string()));
                    },
                }
            },
            k => k,
        };
        match &req.schedule_path {
            Some(p) => {
                match self.find_slot(&req.workspace_id, p) {
                    Some(i) => {
                        return Ok(self.queue[i].id);
                    },
                    None => {},
                }
            },
            None => {},
        }
        assert(req.schedule_path matches Some(p) ==> forall|k: int| 0 <= k < self.queue@.len()
            ==> !holds_slot(#[trigger] self.queue@[k]@, req.workspace_id@, p@));
        if self.next_id == u64::MAX {
            return Err(Error::Internal("job ids exhausted".to_string()));
        }
        let id = self.next_id;
        let scheduled_for = match req.scheduled_for {
            Some(t) => t,
            None => now,
        };
        let job = Job {
            id,
            workspace_id: req.workspace_id,
            kind,
            args,
            created_by: req.created_by,
            permissioned_as: req.permissioned_as,
            created_at: now,
            scheduled_for,
            schedule_path: req.schedule_path,
            parent_job: req.parent_job,
            running: false,
            started_at: None,
            last_ping: None,
            restart_count: 0,
        };
        let ghost old_q = self.queue@;
        self.queue.push(job);
        self.next_id = id + 1;
        assert(self.jobs() =~= old(self).jobs().push(job@));
        proof {
            assert forall|i: int, k: int|
                0 <= i < self.queue@.len() && 0 <= k < self.queue@.len() && i != k
                    implies !same_slot(#[trigger] self.queue@[i]@, #[trigger] self.queue@[k]@) by {
                if i == old_q.len() as int && job.schedule_path is Some {
                    assert(!holds_slot(old_q[k]@, job.workspace_id@, job.schedule_path->0@));
                } else if k == old_q.len() as int && job.schedule_path is Some {
                    assert(!holds_slot(old_q[i]@, job.workspace_id@, job.schedule_path->0@));
                    assert(!same_slot(old_q[i]@, job@));
                }
            }
        }
        Ok(id)
    }

    /// Claims the oldest eligible job for a worker at `now`: it becomes running, with
    /// its start and heartbeat at `now`. None when no pending job is due.
    pub fn pull(&mut self, now: i64) -> (r: Option<Job>)
        requires
            old(self).wf(),
        ensures
            final(self).wf(),
            final(self).completed == old(self).completed,
            final(self).schedules == old(self).schedules,
            final(self).scripts == old(self).scripts,
            final(self).next_id == old(self).next_id,
            r is None <==> forall|i: int| 0 <= i < old(self).queue@.len() ==> !eligible(#[trigger] old(self).queue@[i]@, now),
            r is None ==> *final(self) == *old(self),
            r matches Some(j) ==> exists|k: int| {
                &&& 0 <= k < old(self).queue@.len()
                &&& eligible(#[trigger] old(self).queue@[k]@, now)
                &&& forall|i: int| 0 <= i < old(self).queue@.len() && i != k && eligible(#[trigger] old(self).queue@[i]@, now)
                    ==> claimed_before(old(self).queue@[k]@, old(self).queue@[i]@)
                &&& j@ == claimed(old(self).queue@[k]@, now)
                &&& final(self).jobs() == old(self).jobs().update(k, j@)
            },
    {
        let mut best: Option<usize> = None;
        let mut i: usize = 0;
        while i < self.queue.len()
            invariant
                i <= self.queue@.len(),
                self.wf(),
                best is None ==> forall|k: int| 0 <= k < i ==> !eligible(#[trigger] self.queue@[k]@, now),
                best matches Some(b) ==> b < i && eligible(self.queue@[b as int]@, now) && forall|k: int|
                    0 <= k < i && k != b && eligible(#[trigger] self.queue@[k]@, now)
                        ==> claimed_before(self.queue@[b as int]@, self.queue@[k]@),
            decreases self.queue.len() - i,
        {
            let j = &self.queue[i];
            if !j.running && j.scheduled_for <= now {
                match best {
                    None => {
                        best = Some(i);
                    },
                    Some(b) => {
                        let c = &self.queue[b];
                        assert(c.id != j.id);
                        if j.scheduled_for < c.scheduled_for
                            || (j.scheduled_for == c.scheduled_for && j.created_at < c.created_at)
                            || (j.scheduled_for == c.scheduled_for && j.created_at == c.created_at && j.id < c.id) {
                            best = Some(i);
                        }
                    },
                }
            }
            i = i + 1;
        }
        match best {
            None => None,
            Some(b) => {
                let mut job = self.queue[b].duplicate();
                job.running = true;
                job.started_at = Some(now);
                job.last_ping = Some(now);
                let out = job.duplicate();
                let ghost old_q = self.queue@;
                self.queue.set(b, job);
                assert(self.jobs() =~= old(self).jobs().update(b as int, out@));
                proof {
                    assert forall|i: int| 0 <= i < self.queue@.len() implies (#[trigger] self.queue@[i]).id == old_q[i].id
                        && self.queue@[i]@.workspace_id == old_q[i]@.workspace_id
                        && self.queue@[i]@.schedule_path == old_q[i]@.schedule_path by {}
                    assert forall|i: int, k: int|
                        0 <= i < self.queue@.len() && 0 <= k < self.queue@.len() && i != k
                            implies !same_slot(#[trigger] self.queue@[i]@, #[trigger] self.queue@[k]@) by {
                        assert(!same_slot(old_q[i]@, old_q[k]@));
                    }
                    assert forall|i: int, k: int|
                        0 <= i < self.queue@.len() && 0 <= k < self.queue@.len() && i != k
                            implies #[trigger] self.queue@[i].id != #[trigger] self.queue@[k].id by {
                        assert(old_q[i].id != old_q[k].id);
                    }
                }
                Some(out)
            },
        }
    }
}

} // verus!
