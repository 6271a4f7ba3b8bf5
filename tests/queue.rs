use windmill_core::error::Error;
use windmill_core::job::{ArgValue, JobKind};
use windmill_core::store::{EditSchedule, JobRequest, NewSchedule, Store};
use windmill_core::worker::{worker_step, WorkerAction, WorkerEvent};

// 2022-01-01T12:00:00Z
const NOON: i64 = 1_641_038_400;

fn request(ws: &str, kind: JobKind, args: Option<ArgValue>, at: Option<i64>, path: Option<&str>) -> JobRequest {
    JobRequest {
        workspace_id: ws.to_string(),
        kind,
        args,
        created_by: "alice".to_string(),
        permissioned_as: "u/alice".to_string(),
        scheduled_for: at,
        schedule_path: path.map(|p| p.to_string()),
        parent_job: None,
    }
}

fn flow(p: &str) -> JobKind {
    JobKind::Flow { path: p.to_string() }
}

fn pings_schedule(cron: &str) -> NewSchedule {
    NewSchedule {
        path: "wk/pings".to_string(),
        schedule: cron.to_string(),
        offset: 0,
        script_path: "f/pings".to_string(),
        is_flow: true,
        args: None,
    }
}

fn rows_for(store: &Store, path: &str) -> Vec<i64> {
    store
        .queue
        .iter()
        .filter(|j| j.schedule_path.as_deref() == Some(path))
        .map(|j| j.scheduled_for)
        .collect()
}

#[test]
fn enable_then_fire() {
    let mut st = Store::new();
    let r = st.create_schedule("w".to_string(), pings_schedule("0 */5 * * * *"), "alice".to_string(), NOON + 2);
    assert_eq!(r, Ok("wk/pings".to_string()));
    assert_eq!(rows_for(&st, "wk/pings"), vec![NOON + 300]);
    let j = &st.queue[0];
    assert!(!j.running);
    assert_eq!(j.created_by, "schedule-wk-pings");
    assert_eq!(j.permissioned_as, "wk/pings");
}

#[test]
fn edit_clears_previous() {
    let mut st = Store::new();
    st.create_schedule("w".to_string(), pings_schedule("0 */5 * * * *"), "alice".to_string(), NOON + 2).unwrap();
    let es = EditSchedule {
        schedule: "0 */10 * * * *".to_string(),
        script_path: "f/pings".to_string(),
        is_flow: true,
        args: None,
    };
    let r = st.edit_schedule(&"w".to_string(), &"wk/pings".to_string(), es, NOON + 2);
    assert_eq!(r, Ok("wk/pings".to_string()));
    assert_eq!(rows_for(&st, "wk/pings"), vec![NOON + 600]);
    assert_eq!(st.schedules[0].schedule, "0 */10 * * * *");
}

#[test]
fn edit_rejects_bad_cron() {
    let mut st = Store::new();
    st.create_schedule("w".to_string(), pings_schedule("0 */5 * * * *"), "alice".to_string(), NOON + 2).unwrap();
    let es = EditSchedule { schedule: "nonsense".to_string(), script_path: "x".to_string(), is_flow: true, args: None };
    let r = st.edit_schedule(&"w".to_string(), &"wk/pings".to_string(), es, NOON + 2);
    assert!(matches!(r, Err(Error::BadRequest(_))));
    assert_eq!(rows_for(&st, "wk/pings"), vec![NOON + 300]);
}

#[test]
fn disable_clears() {
    let mut st = Store::new();
    st.create_schedule("w".to_string(), pings_schedule("0 */5 * * * *"), "alice".to_string(), NOON + 2).unwrap();
    assert_eq!(
        st.set_enabled(&"w".to_string(), &"wk/pings".to_string(), false, NOON + 3),
        Ok("succesfully updated schedule at path wk/pings to status false".to_string())
    );
    assert!(rows_for(&st, "wk/pings").is_empty());
    assert!(!st.schedules[0].enabled);
    // re-enabling arms the next occurrence again
    assert_eq!(
        st.set_enabled(&"w".to_string(), &"wk/pings".to_string(), true, NOON + 3),
        Ok("succesfully updated schedule at path wk/pings to status true".to_string())
    );
    // enabling again replaces the pending row by an identical one
    assert!(st.set_enabled(&"w".to_string(), &"wk/pings".to_string(), true, NOON + 3).is_ok());
    assert_eq!(rows_for(&st, "wk/pings"), vec![NOON + 300]);
    assert_eq!(rows_for(&st, "wk/pings"), vec![NOON + 300]);
}

#[test]
fn set_enabled_unknown_schedule() {
    let mut st = Store::new();
    let r = st.set_enabled(&"w".to_string(), &"nope".to_string(), true, NOON);
    assert!(matches!(r, Err(Error::NotFound(_))));
}

#[test]
fn create_rejects_duplicates_and_bad_cron() {
    let mut st = Store::new();
    st.create_schedule("w".to_string(), pings_schedule("0 */5 * * * *"), "alice".to_string(), NOON).unwrap();
    let again = st.create_schedule("w".to_string(), pings_schedule("0 */5 * * * *"), "alice".to_string(), NOON);
    assert!(matches!(again, Err(Error::StoreErr(_))));
    let bad = st.create_schedule("v".to_string(), pings_schedule("* * *"), "alice".to_string(), NOON);
    assert!(matches!(bad, Err(Error::BadRequest(_))));
    assert_eq!(st.schedules.len(), 1);
    assert_eq!(st.queue.len(), 1);
}

#[test]
fn create_rejects_schedule_without_future() {
    let mut st = Store::new();
    let r = st.create_schedule("w".to_string(), pings_schedule("0 0 0 30 2 *"), "alice".to_string(), NOON);
    assert!(matches!(r, Err(Error::BadRequest(_))));
    assert!(st.schedules.is_empty());
}

#[test]
fn zombie_reclaim() {
    let mut st = Store::new();
    let id = st.push(request("w", flow("f/a"), None, None, None), NOON).unwrap();
    let a = st.pull(NOON).unwrap();
    assert_eq!(a.id, id);
    assert!(st.pull(NOON).is_none());
    // worker A dies: no heartbeat
    st.restart_zombie_jobs(NOON + 300, 300);
    assert!(st.queue[0].running);
    st.restart_zombie_jobs(NOON + 301, 300);
    assert!(!st.queue[0].running);
    assert_eq!(st.queue[0].last_ping, None);
    assert_eq!(st.queue[0].restart_count, 1);
    let b = st.pull(NOON + 303).unwrap();
    assert_eq!(b.id, id);
    assert_eq!(st.complete(id, true, "{}".to_string(), NOON + 304), Ok(()));
}

#[test]
fn heartbeat_keeps_job_alive() {
    let mut st = Store::new();
    let id = st.push(request("w", flow("f/a"), None, None, None), NOON).unwrap();
    st.pull(NOON).unwrap();
    assert_eq!(st.update_ping(id, NOON + 250), Ok(()));
    st.restart_zombie_jobs(NOON + 400, 300);
    assert!(st.queue[0].running);
    assert!(matches!(st.update_ping(999, NOON), Err(Error::NotFound(_))));
}

#[test]
fn zombie_archived_after_too_many_restarts() {
    let mut st = Store::new();
    let id = st.push(request("w", flow("f/a"), None, None, None), NOON).unwrap();
    let mut t = NOON;
    for _ in 0..3 {
        st.pull(t).unwrap();
        t += 1000;
        st.restart_zombie_jobs(t, 300);
        assert!(!st.queue[0].running);
    }
    assert_eq!(st.queue[0].restart_count, 3);
    st.pull(t).unwrap();
    st.restart_zombie_jobs(t + 1000, 300);
    assert!(st.queue.is_empty());
    assert_eq!(st.completed.len(), 1);
    assert_eq!(st.completed[0].job.id, id);
    assert!(!st.completed[0].success);
}

#[test]
fn args_shape_rejection() {
    let mut st = Store::new();
    let r = st.push(request("w", flow("f/a"), Some(ArgValue::NotMapping("[1,2,3]".to_string())), None, None), NOON);
    assert_eq!(r, Err(Error::ExecutionErr("args of scripts needs to be dict".to_string())));
    assert!(st.queue.is_empty());
    let args = vec![("x".to_string(), "1".to_string())];
    let ok = st.push(request("w", flow("f/a"), Some(ArgValue::Mapping(args.clone())), None, None), NOON);
    assert!(ok.is_ok());
    assert_eq!(st.queue[0].args, Some(args));
}

#[test]
fn concurrent_pull() {
    let mut st = Store::new();
    for i in 0..100 {
        st.push(request("w", flow("f/a"), None, Some(NOON + (i % 7)), None), NOON).unwrap();
    }
    let mut seen = std::collections::HashSet::new();
    let mut per_worker = vec![0; 10];
    loop {
        let mut got = false;
        for w in 0..10 {
            if let Some(j) = st.pull(NOON + 10) {
                assert!(seen.insert(j.id), "job claimed twice");
                per_worker[w] += 1;
                got = true;
            }
        }
        if !got {
            break;
        }
    }
    assert_eq!(seen.len(), 100);
    assert!(per_worker.iter().all(|&n| n == 10));
    for id in seen {
        assert_eq!(st.complete(id, true, "{}".to_string(), NOON + 20), Ok(()));
    }
    assert!(st.queue.is_empty());
    assert_eq!(st.completed.len(), 100);
}

#[test]
fn pull_order_and_eligibility() {
    let mut st = Store::new();
    let late = st.push(request("w", flow("f/a"), None, Some(NOON + 100), None), NOON).unwrap();
    let b = st.push(request("w", flow("f/a"), None, Some(NOON + 5), None), NOON + 1).unwrap();
    let a = st.push(request("w", flow("f/a"), None, Some(NOON + 5), None), NOON).unwrap();
    assert!(st.pull(NOON + 4).is_none());
    assert_eq!(st.pull(NOON + 5).unwrap().id, a);
    let jb = st.pull(NOON + 5).unwrap();
    assert_eq!(jb.id, b);
    assert!(jb.running);
    assert_eq!(jb.started_at, Some(NOON + 5));
    assert!(st.pull(NOON + 50).is_none());
    assert_eq!(st.pull(NOON + 100).unwrap().id, late);
}

#[test]
fn complete_only_once() {
    let mut st = Store::new();
    let id = st.push(request("w", flow("f/a"), None, None, None), NOON).unwrap();
    st.pull(NOON).unwrap();
    assert_eq!(st.complete(id, false, "boom".to_string(), NOON + 7), Ok(()));
    assert!(matches!(st.complete(id, true, "{}".to_string(), NOON + 8), Err(Error::NotFound(_))));
    assert_eq!(st.completed.len(), 1);
    assert_eq!(st.completed[0].duration_s, 7);
    assert_eq!(st.completed[0].result, "boom");
}

#[test]
fn scheduled_round_trip() {
    let mut st = Store::new();
    st.create_schedule("w".to_string(), pings_schedule("0 */5 * * * *"), "alice".to_string(), NOON + 2).unwrap();
    let prev = rows_for(&st, "wk/pings")[0];
    let j = st.pull(prev).unwrap();
    assert_eq!(st.complete(j.id, true, "{}".to_string(), prev + 3), Ok(()));
    let next = rows_for(&st, "wk/pings");
    assert_eq!(next, vec![NOON + 600]);
    assert!(next[0] > prev);
}

#[test]
fn schedule_path_push_is_idempotent() {
    let mut st = Store::new();
    let first = st.push(request("w", flow("f/a"), None, Some(NOON), Some("s/x")), NOON).unwrap();
    let second = st.push(request("w", flow("f/a"), None, Some(NOON + 60), Some("s/x")), NOON).unwrap();
    assert_eq!(first, second);
    assert_eq!(st.queue.len(), 1);
    let other_ws = st.push(request("v", flow("f/a"), None, Some(NOON), Some("s/x")), NOON).unwrap();
    assert_ne!(other_ws, first);
}

#[test]
fn script_hash_resolution() {
    let mut st = Store::new();
    let kind = || JobKind::ScriptHash { hash: None, path: "u/a/s".to_string() };
    let missing = st.push(request("w", kind(), None, None, None), NOON);
    assert!(matches!(missing, Err(Error::NotFound(_))));
    st.publish_script("w".to_string(), "u/a/s".to_string(), 11);
    st.publish_script("w".to_string(), "u/a/s".to_string(), 12);
    st.publish_script("v".to_string(), "u/a/s".to_string(), 13);
    st.push(request("w", kind(), None, None, None), NOON).unwrap();
    assert_eq!(st.queue[0].kind, JobKind::ScriptHash { hash: Some(12), path: "u/a/s".to_string() });
    assert_eq!(st.get_latest_hash_for_path(&"v".to_string(), &"u/a/s".to_string()), Some(13));
}

#[test]
fn scheduled_script_needs_published_hash() {
    let mut st = Store::new();
    let mut ns = pings_schedule("0 */5 * * * *");
    ns.is_flow = false;
    let r = st.create_schedule("w".to_string(), ns, "alice".to_string(), NOON);
    assert!(matches!(r, Err(Error::NotFound(_))));
    assert!(st.schedules.is_empty());
}

#[test]
fn scheduled_args_must_be_mapping() {
    let mut st = Store::new();
    let mut ns = pings_schedule("0 */5 * * * *");
    ns.args = Some(ArgValue::NotMapping("3".to_string()));
    let r = st.create_schedule("w".to_string(), ns, "alice".to_string(), NOON);
    assert!(matches!(r, Err(Error::ExecutionErr(_))));
}

#[test]
fn get_schedule_opt_finds_by_workspace_and_path() {
    let mut st = Store::new();
    st.create_schedule("w".to_string(), pings_schedule("0 */5 * * * *"), "alice".to_string(), NOON).unwrap();
    let s = st.get_schedule_opt(&"w".to_string(), &"wk/pings".to_string()).unwrap();
    assert_eq!(s.schedule, "0 */5 * * * *");
    assert!(s.enabled);
    assert!(st.get_schedule_opt(&"v".to_string(), &"wk/pings".to_string()).is_none());
}

#[test]
fn worker_decisions() {
    assert_eq!(worker_step(WorkerEvent::Started, false, 50), WorkerAction::Pull);
    assert_eq!(worker_step(WorkerEvent::Started, true, 50), WorkerAction::Exit);
    assert_eq!(worker_step(WorkerEvent::Pulled(None), false, 50), WorkerAction::Sleep(50));
    assert_eq!(worker_step(WorkerEvent::Pulled(None), true, 50), WorkerAction::Exit);
    assert_eq!(worker_step(WorkerEvent::Pulled(Some(4)), true, 50), WorkerAction::Execute(4));
    assert_eq!(
        worker_step(WorkerEvent::Executed { job_id: 4, success: false }, true, 50),
        WorkerAction::Complete { job_id: 4, success: false }
    );
    assert_eq!(worker_step(WorkerEvent::Completed, true, 50), WorkerAction::Exit);
    assert_eq!(worker_step(WorkerEvent::Slept, false, 50), WorkerAction::Pull);
}

#[test]
fn list_schedule_orders_by_edit_time() {
    let mut st = Store::new();
    let mk = |p: &str| NewSchedule {
        path: p.to_string(),
        schedule: "0 */5 * * * *".to_string(),
        offset: 0,
        script_path: "f/x".to_string(),
        is_flow: true,
        args: None,
    };
    st.create_schedule("w".to_string(), mk("a"), "u".to_string(), NOON).unwrap();
    st.create_schedule("w".to_string(), mk("b"), "u".to_string(), NOON + 10).unwrap();
    st.create_schedule("v".to_string(), mk("c"), "u".to_string(), NOON + 20).unwrap();
    st.create_schedule("w".to_string(), mk("d"), "u".to_string(), NOON + 10).unwrap();
    st.create_schedule("w".to_string(), mk("e"), "u".to_string(), NOON + 5).unwrap();
    let names = |v: Vec<windmill_core::store::Schedule>| v.into_iter().map(|s| s.path).collect::<Vec<_>>();
    assert_eq!(names(st.list_schedule(&"w".to_string(), 100, 0)), vec!["b", "d", "e", "a"]);
    assert_eq!(names(st.list_schedule(&"w".to_string(), 2, 1)), vec!["d", "e"]);
    assert_eq!(names(st.list_schedule(&"w".to_string(), 2, 10)), Vec::<String>::new());
    assert_eq!(names(st.list_schedule(&"x".to_string(), 5, 0)), Vec::<String>::new());
}

#[test]
fn get_schedule_not_found() {
    let st = Store::new();
    assert!(matches!(st.get_schedule(&"w".to_string(), &"p".to_string()), Err(Error::NotFound(_))));
}

#[test]
fn push_scheduled_job_cases() {
    let mut st = Store::new();
    st.create_schedule("w".to_string(), pings_schedule("0 */5 * * * *"), "alice".to_string(), NOON + 2).unwrap();
    let mut s = st.get_schedule_opt(&"w".to_string(), &"wk/pings".to_string()).unwrap();
    let existing = st.queue[0].id;
    // a row of the schedule is already queued: no second one
    assert_eq!(st.push_scheduled_job(&s, NOON + 2), Ok(Some(existing)));
    assert_eq!(st.queue.len(), 1);
    // a disabled schedule is left alone
    s.enabled = false;
    assert_eq!(st.push_scheduled_job(&s, NOON + 2), Ok(None));
    s.enabled = true;
    s.args = Some(ArgValue::NotMapping("[1,2,3]".to_string()));
    assert_eq!(
        st.push_scheduled_job(&s, NOON + 2),
        Err(Error::ExecutionErr("args of scripts needs to be dict".to_string()))
    );
    s.args = None;
    s.is_flow = false;
    assert!(matches!(st.push_scheduled_job(&s, NOON + 2), Err(Error::NotFound(_))));
    s.schedule = "bad".to_string();
    assert!(matches!(st.push_scheduled_job(&s, NOON + 2), Err(Error::BadRequest(_))));
    assert_eq!(st.queue.len(), 1);
}

#[test]
fn zombie_archive_text() {
    let mut st = Store::new();
    st.push(request("w", flow("f/a"), None, None, None), NOON).unwrap();
    let mut t = NOON;
    for _ in 0..4 {
        st.pull(t).unwrap();
        t += 1000;
        st.restart_zombie_jobs(t, 300);
    }
    assert_eq!(st.completed.len(), 1);
    assert_eq!(st.completed[0].result, "{\"error\": \"too many restarts\"}");
    assert_eq!(st.completed[0].completed_at, t);
}

#[test]
fn worker_ping_upsert() {
    let mut p = windmill_core::worker_ping::WorkerPings::new();
    p.upsert("a".to_string(), 1, "ip".to_string(), vec![]);
    p.upsert("b".to_string(), 2, "ip".to_string(), vec![]);
    p.upsert("a".to_string(), 3, "ip2".to_string(), vec!["t".to_string()]);
    assert_eq!(p.rows.len(), 2);
    assert_eq!(p.rows[0].last_ping, 3);
    assert_eq!(p.rows[0].ip, "ip2");
    assert_eq!(p.rows[1].worker_name, "b");
}
