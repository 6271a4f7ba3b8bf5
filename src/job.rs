use vstd::prelude::*;

verus! {

/// Arguments as handed to the queue: a mapping from names to JSON texts, or
/// some other JSON value (kept as its text), which the queue refuses.
#[derive(Debug, PartialEq, Eq)]
pub enum ArgValue {
    Mapping(Vec<(String, String)>),
    NotMapping(String),
}

pub enum ArgView {
    Mapping(Seq<(String, String)>),
    NotMapping(String),
}

impl View for ArgValue {
    type V = ArgView;

    open spec fn view(&self) -> ArgView {
        match self {
            ArgValue::Mapping(v) => ArgView::Mapping(v@),
            ArgValue::NotMapping(s) => ArgView::NotMapping(*s),
        }
    }
}

/// A copy of a list of named arguments.
pub fn clone_pairs(v: &Vec<(String, String)>) -> (r: Vec<(String, String)>)
    ensures
        r@ == v@,
{
    let mut r: Vec<(String, String)> = Vec::new();
    let mut i: usize = 0;
    while i < v.len()
        invariant
            i <= v.len(),
            r@ == v@.subrange(0, i as int),
        decreases v.len() - i,
    {
        let k = v[i].0.clone();
        let x = v[i].1.clone();
        r.push((k, x));
        assert(r@ =~= v@.subrange(0, i + 1));
        i = i + 1;
    }
    assert(r@ =~= v@);
    r
}

pub open spec fn opt_pairs_view(a: &Option<Vec<(String, String)>>) -> Option<Seq<(String, String)>> {
    match a {
        Some(v) => Some(v@),
        None => None,
    }
}

pub fn clone_opt_pairs(a: &Option<Vec<(String, String)>>) -> (r: Option<Vec<(String, String)>>)
    ensures
        opt_pairs_view(&r) == opt_pairs_view(a),
{
    match a {
        Some(v) => Some(clone_pairs(v)),
        None => None,
    }
}

pub fn clone_opt_string(a: &Option<String>) -> (r: Option<String>)
    ensures
        r == *a,
{
    match a {
        Some(s) => Some(s.clone()),
        None => None,
    }
}

impl ArgValue {
    pub fn duplicate(&self) -> (r: ArgValue)
        ensures
            r@ == self@,
    {
        match self {
            ArgValue::Mapping(v) => ArgValue::Mapping(clone_pairs(v)),
            ArgValue::NotMapping(s) => ArgValue::NotMapping(s.clone()),
        }
    }
}

/// What a job runs: a published script version (its hash left open to mean the latest
/// one at its path), a flow, or a script body given inline.
#[derive(Debug, PartialEq, Eq)]
pub enum JobKind {
    ScriptHash { hash: Option<i64>, path: String },
    Flow { path: String },
    Preview { content: String, language: String },
}

impl JobKind {
    pub fn duplicate(&self) -> (r: JobKind)
        ensures
            r == *self,
    {
        match self {
            JobKind::ScriptHash { hash, path } => JobKind::ScriptHash { hash: *hash, path: path.clone() },
            JobKind::Flow { path } => JobKind::Flow { path: path.clone() },
            JobKind::Preview { content, language } => JobKind::Preview {
                content: content.clone(),
                language: language.clone(),
            },
        }
    }
}

/// A queue row: a unit of work awaiting execution or being executed.
pub struct Job {
    pub id: u64,
    pub workspace_id: String,
    pub kind: JobKind,
    pub args: Option<Vec<(String, String)>>,
    pub created_by: String,
    pub permissioned_as: String,
    pub created_at: i64,
    pub scheduled_for: i64,
    pub schedule_path: Option<String>,
    pub parent_job: Option<u64>,
    pub running: bool,
    pub started_at: Option<i64>,
    pub last_ping: Option<i64>,
    pub restart_count: u32,
}

pub struct JobView {
    pub id: u64,
    pub workspace_id: String,
    pub kind: JobKind,
    pub args: Option<Seq<(String, String)>>,
    pub created_by: String,
    pub permissioned_as: String,
    pub created_at: i64,
    pub scheduled_for: i64,
    pub schedule_path: Option<String>,
    pub parent_job: Option<u64>,
    pub running: bool,
    pub started_at: Option<i64>,
    pub last_ping: Option<i64>,
    pub restart_count: u32,
}

impl View for Job {
    type V = JobView;

    open spec fn view(&self) -> JobView {
        JobView {
            id: self.id,
            workspace_id: self.workspace_id,
            kind: self.kind,
            args: opt_pairs_view(&self.args),
            created_by: self.created_by,
            permissioned_as: self.permissioned_as,
            created_at: self.created_at,
            scheduled_for: self.scheduled_for,
            schedule_path: self.schedule_path,
            parent_job: self.parent_job,
            running: self.running,
            started_at: self.started_at,
            last_ping: self.last_ping,
            restart_count: self.restart_count,
        }
    }
}

impl Job {
    pub fn duplicate(&self) -> (r: Job)
        ensures
            r@ == self@,
    {
        Job {
            id: self.id,
            workspace_id: self.workspace_id.clone(),
            kind: self.kind.duplicate(),
            args: clone_opt_pairs(&self.args),
            created_by: self.created_by.clone(),
            permissioned_as: self.permissioned_as.clone(),
            created_at: self.created_at,
            scheduled_for: self.scheduled_for,
            schedule_path: clone_opt_string(&self.schedule_path),
            parent_job: self.parent_job,
            running: self.running,
            started_at: self.started_at,
            last_ping: self.last_ping,
            restart_count: self.restart_count,
        }
    }
}

/// An archived job, with the outcome of its execution.
pub struct CompletedJob {
    pub job: Job,
    pub success: bool,
    pub result: String,
    pub duration_s: i64,
    pub completed_at: i64,
}

} // verus!
