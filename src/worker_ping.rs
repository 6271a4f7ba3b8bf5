use vstd::prelude::*;

verus! {

/// The last heartbeat of a worker.
pub struct WorkerPing {
    pub worker_name: String,
    pub last_ping: i64,
    pub ip: String,
    pub custom_tags: Vec<String>,
}

/// One row per worker, keyed by name.
pub struct WorkerPings {
    pub rows: Vec<WorkerPing>,
}

impl WorkerPings {
    /// Names are unique.
    pub open spec fn wf(&self) -> bool {
        forall|i: int, k: int|
            0 <= i < self.rows@.len() && 0 <= k < self.rows@.len() && i != k
                ==> #[trigger] self.rows@[i].worker_name@ != #[trigger] self.rows@[k].worker_name@
    }

    pub fn new() -> (r: WorkerPings)
        ensures
            r.wf(),
            r.rows@.len() == 0,
    {
        WorkerPings { rows: Vec::new() }
    }

    /// Records a heartbeat of worker `worker_name` at `now`: its row is replaced, or
    /// added when the worker has none yet.
    pub fn upsert(&mut self, worker_name: String, now: i64, ip: String, custom_tags: Vec<String>)
        requires
            old(self).wf(),
        ensures
            final(self).wf(),
            ({
                let row = WorkerPing { worker_name, last_ping: now, ip, custom_tags };
                if exists|i: int| 0 <= i < old(self).rows@.len() && (#[trigger] old(self).rows@[i]).worker_name@ == worker_name@ {
                    exists|i: int| 0 <= i < old(self).rows@.len() && (#[trigger] old(self).rows@[i]).worker_name@ == worker_name@
                        && final(self).rows@ == old(self).rows@.update(i, row)
                } else {
                    final(self).rows@ == old(self).rows@.push(row)
                }
            }),
    {
        let ghost row = WorkerPing { worker_name, last_ping: now, ip, custom_tags };
        let mut i: usize = 0;
        while i < self.rows.len()
            invariant
                i <= self.rows@.len(),
                self.rows == old(self).rows,
                old(self).wf(),
                forall|k: int| 0 <= k < i ==> (#[trigger] self.rows@[k]).worker_name@ != worker_name@,
            decreases self.rows.len() - i,
        {
            if self.rows[i].worker_name == worker_name {
                let ghost old_rows = self.rows@;
                self.rows.set(i, WorkerPing { worker_name, last_ping: now, ip, custom_tags });
                proof {
                    assert forall|a: int, b: int|
                        0 <= a < self.rows@.len() && 0 <= b < self.rows@.len() && a != b
                            implies #[trigger] self.rows@[a].worker_name@ != #[trigger] self.rows@[b].worker_name@ by {
                        assert(self.rows@[a].worker_name@ == old_rows[a].worker_name@);
                        assert(self.rows@[b].worker_name@ == old_rows[b].worker_name@);
                        assert(old_rows[a].worker_name@ != old_rows[b].worker_name@);
                    }
                }
                return;
            }
            i = i + 1;
        }
        self.rows.push(WorkerPing { worker_name, last_ping: now, ip, custom_tags });
    }
}

} // verus!
