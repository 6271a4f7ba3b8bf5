use vstd::prelude::*;
use vstd::string::StrSliceExecFns;
use vstd::string::StringExecFns;

use crate::cron_time::{cron_accepts, upcoming, upcoming_after, upcoming_in_range};
use crate::error::Error;

verus! {

/// Number of occurrences that a preview lists.
pub const PREVIEW_LEN: usize = 10;

/// Request body of a preview: a cron expression and an optional offset, in minutes west of UTC.
pub struct PreviewPayload {
    pub schedule: String,
    pub offset: Option<i32>,
}

/// Request body that turns a schedule on or off.
pub struct SetEnabled {
    pub enabled: bool,
}

/// The identity under which jobs spawned by the schedule at `path` run:
/// `schedule-` followed by the path with every `/` turned into `-`.
pub open spec fn schedule_user(path: Seq<char>) -> Seq<char> {
    "schedule-"@ + path.map_values(|c: char| if c == '/' { '-' } else { c })
}

/// The user name recorded on jobs that the schedule at `path` spawns.
pub fn schedule_to_user(path: &str) -> (r: String)
    ensures
        r@ == schedule_user(path@),
{
    let ghost mapped = path@.map_values(|c: char| if c == '/' { '-' } else { c });
    let mut r = String::from_str("schedule-");
    proof {
        reveal_strlit("schedule-");
    }
    let n = path.unicode_len();
    let mut i: usize = 0;
    while i < n
        invariant
            n == path@.len(),
            mapped.len() == n,
            mapped == path@.map_values(|c: char| if c == '/' { '-' } else { c }),
            i <= n,
            r@ == "schedule-"@ + mapped.subrange(0, i as int),
        decreases n - i,
    {
        let c = path.get_char(i);
        if c == '/' {
            r.append("-");
            proof {
                reveal_strlit("-");
            }
        } else {
            r.append(path.substring_char(i, i + 1));
        }
        assert(mapped.subrange(0, i + 1) =~= mapped.subrange(0, i as int).push(mapped[i as int]));
        i = i + 1;
    }
    assert(mapped.subrange(0, n as int) =~= mapped);
    r
}

/// The zone offset of a preview, in seconds west of UTC: the payload's minutes, or none.
pub open spec fn offset_seconds(offset: Option<i32>) -> int {
    match offset {
        Some(m) => m * 60,
        None => 0,
    }
}

fn get_offset(offset: Option<i32>) -> (r: i64)
    ensures
        r == offset_seconds(offset),
{
    match offset {
        Some(m) => m as i64 * 60,
        None => 0,
    }
}

/// The next ten occurrences of the payload's cron expression after `now`, as UTC
/// instants, evaluated on the wall clock of the payload's zone.
pub fn preview_schedule(payload: &PreviewPayload, now: i64) -> (r: Result<Vec<i64>, Error>)
    ensures
        !cron_accepts(payload.schedule@) ==> r matches Err(Error::BadRequest(_)),
        cron_accepts(payload.schedule@) ==> (r is Ok <==> upcoming_in_range(
            payload.schedule@,
            now - offset_seconds(payload.offset),
            PREVIEW_LEN as nat,
        )),
        r matches Ok(v) ==> {
            let u = upcoming(payload.schedule@, now - offset_seconds(payload.offset), PREVIEW_LEN as nat);
            &&& v@.len() == u.len()
            &&& forall|j: int| 0 <= j < v@.len() ==> v@[j] == #[trigger] u[j] + offset_seconds(payload.offset)
        },
        r matches Ok(v) ==> v@.len() > 0 ==> v@[0] > now,
        r matches Ok(v) ==> forall|j: int| 0 < j < v@.len() ==> v@[j - 1] < #[trigger] v@[j],
{
    let shift = get_offset(payload.offset);
    upcoming_after(payload.schedule.as_str(), shift, now, PREVIEW_LEN)
}

/// Where the owner part of `path` ends when the search starts at `i` having passed
/// `seen` slashes: at the second slash, or at the end.
pub open spec fn owner_end(path: Seq<char>, i: int, seen: int) -> int
    decreases path.len() - i,
{
    if i >= path.len() {
        path.len() as int
    } else if path[i] == '/' && seen == 1 {
        i
    } else if path[i] == '/' {
        owner_end(path, i + 1, seen + 1)
    } else {
        owner_end(path, i + 1, seen)
    }
}

/// The owner of a path: its first two segments (`u/alice` of `u/alice/job`).
pub open spec fn owner_of(path: Seq<char>) -> Seq<char> {
    path.subrange(0, owner_end(path, 0, 0))
}

proof fn lemma_owner_end_bounds(path: Seq<char>, i: int, seen: int)
    requires
        0 <= i <= path.len(),
    ensures
        i <= owner_end(path, i, seen) <= path.len(),
    decreases path.len() - i,
{
    if i < path.len() {
        if path[i] == '/' && seen == 1 {
        } else if path[i] == '/' {
            lemma_owner_end_bounds(path, i + 1, seen + 1);
        } else {
            lemma_owner_end_bounds(path, i + 1, seen);
        }
    }
}

/// The owner of the items under `path`: the path up to its second `/`.
pub fn get_owner_from_path(path: &str) -> (r: String)
    ensures
        r@ == owner_of(path@),
{
    let n = path.unicode_len();
    let mut i: usize = 0;
    let mut seen: usize = 0;
    proof {
        lemma_owner_end_bounds(path@, 0, 0);
    }
    while i < n
        invariant
            n == path@.len(),
            i <= n,
            seen <= 1,
            i <= owner_end(path@, i as int, seen as int) <= n,
            owner_end(path@, i as int, seen as int) == owner_end(path@, 0, 0),
        ensures
            i <= n,
            owner_end(path@, 0, 0) == i,
        decreases n - i,
    {
        let c = path.get_char(i);
        if c == '/' {
            if seen == 1 {
                assert(owner_end(path@, i as int, seen as int) == i);
                break;
            }
            seen = seen + 1;
        }
        i = i + 1;
        proof {
            lemma_owner_end_bounds(path@, i as int, seen as int);
        }
    }
    String::from_str(path.substring_char(0, i))
}

} // verus!
