use std::str::FromStr;
use vstd::prelude::*;

use crate::error::Error;

verus! {

/// Earliest instant (seconds since the Unix epoch) handed to the cron engine.
pub const MIN_INSTANT: i64 = 0;

/// Latest instant (seconds since the Unix epoch, end of year 9999) handed to the cron engine.
pub const MAX_INSTANT: i64 = 253402300799;

/// Whether the cron engine accepts `expr` as a schedule.
pub uninterp spec fn cron_accepts(expr: Seq<char>) -> bool;

/// The first occurrence of the schedule `expr` strictly after the UTC instant `t`, if any.
pub uninterp spec fn cron_next(expr: Seq<char>, t: int) -> Option<int>;

pub open spec fn instant_in_range(t: int) -> bool {
    MIN_INSTANT <= t <= MAX_INSTANT
}

/// Relies on `cron::Schedule::from_str`: it accepts or rejects an expression by its
/// text alone, and describes a rejection in a message.
#[verifier::external_body]
fn parse_cron(expr: &str) -> (r: Result<(), String>)
    ensures
        r.is_ok() == cron_accepts(expr@),
{
    cron::Schedule::from_str(expr).map(|_| ()).map_err(|e| e.to_string())
}

/// Relies on `cron::Schedule::after(..).next()` over UTC: the first occurrence strictly
/// after `t` (the engine starts its search one second later), or none when the engine's
/// calendar (which ends with 2100) holds no further one. The expression is parsed with
/// `cron::Schedule::from_str`, and instants are converted with chrono's
/// `DateTime::from_timestamp` and `DateTime::timestamp`.
#[verifier::external_body]
fn next_after(expr: &str, t: i64) -> (r: Option<i64>)
    requires
        cron_accepts(expr@),
        instant_in_range(t as int),
    ensures
        r is None <==> cron_next(expr@, t as int) is None,
        r matches Some(n) ==> cron_next(expr@, t as int) == Some(n as int) && t < n,
{
    let schedule = cron::Schedule::from_str(expr).ok()?;
    let after = chrono::DateTime::<chrono::Utc>::from_timestamp(t, 0)?;
    schedule.after(&after).next().map(|d| d.timestamp())
}

/// Checks that `expr` is a cron expression the scheduler can use.
pub fn validate_cron(expr: &str) -> (r: Result<(), Error>)
    ensures
        r.is_ok() == cron_accepts(expr@),
        r matches Err(e) ==> e is BadRequest,
{
    match parse_cron(expr) {
        Ok(()) => Ok(()),
        Err(msg) => Err(Error::BadRequest(msg)),
    }
}

/// The instant at which the search for the next occurrence starts: the wall clock of
/// a zone `offset_minutes` west of UTC, one second after `now`.
pub open spec fn anchor_of(offset_minutes: int, now: int) -> int {
    now - offset_minutes * 60 + 1
}

/// Next occurrence, in UTC, of `expr` evaluated on the wall clock of a zone
/// `offset_minutes` west of UTC, strictly after `now` plus one second.
pub open spec fn shifted_next(expr: Seq<char>, offset_minutes: int, now: int) -> Option<int> {
    match cron_next(expr, anchor_of(offset_minutes, now)) {
        Some(n) => Some(n + offset_minutes * 60),
        None => None,
    }
}

/// Computes when a schedule fires next, as seen at `now`.
pub fn next_fire(expr: &str, offset_minutes: i32, now: i64) -> (r: Result<i64, Error>)
    ensures
        !cron_accepts(expr@) ==> r matches Err(Error::BadRequest(_)),
        cron_accepts(expr@) && !instant_in_range(anchor_of(offset_minutes as int, now as int))
            ==> r matches Err(Error::Internal(_)),
        cron_accepts(expr@) && instant_in_range(anchor_of(offset_minutes as int, now as int))
            ==> match shifted_next(expr@, offset_minutes as int, now as int) {
                Some(n) => if i64::MIN <= n <= i64::MAX {
                    r == Ok::<i64, Error>(n as i64)
                } else {
                    r matches Err(Error::Internal(_))
                },
                None => r matches Err(Error::BadRequest(_)),
            },
        r matches Ok(v) ==> v > now + 1,
{
    validate_cron(expr)?;
    let shift: i64 = offset_minutes as i64 * 60;
    if now < MIN_INSTANT + shift - 1 || now > MAX_INSTANT + shift - 1 {
        return Err(Error::Internal("instant out of range".to_string()));
    }
    let anchor: i64 = now - shift + 1;
    match next_after(expr, anchor) {
        Some(n) => {
            if shift > 0 && n > i64::MAX - shift {
                return Err(Error::Internal("instant out of range".to_string()));
            }
            Ok(n + shift)
        },
        None => Err(Error::BadRequest("a schedule should have a next event".to_string())),
    }
}

} // verus!

verus! {

/// The first `k` occurrences of `expr` after the instant `t`, each strictly after the one before.
pub open spec fn upcoming(expr: Seq<char>, t: int, k: nat) -> Seq<int>
    decreases k,
{
    if k == 0 {
        seq![]
    } else {
        match cron_next(expr, t) {
            Some(n) => seq![n] + upcoming(expr, n, (k - 1) as nat),
            None => seq![],
        }
    }
}

/// Whether the search from `t` for `k` occurrences stays within the supported instants.
pub open spec fn upcoming_in_range(expr: Seq<char>, t: int, k: nat) -> bool {
    &&& instant_in_range(t)
    &&& forall|j: int| 0 <= j < upcoming(expr, t, k).len() ==> instant_in_range(#[trigger] upcoming(expr, t, k)[j])
}

/// Lists the next `count` occurrences of `expr`, evaluated on the wall clock of a zone
/// `shift` seconds west of UTC and starting strictly after `now`, as UTC instants.
#[verifier::rlimit(40)]
pub fn upcoming_after(expr: &str, shift: i64, now: i64, count: usize) -> (r: Result<Vec<i64>, Error>)
    requires
        -200_000_000_000 <= shift <= 200_000_000_000,
    ensures
        !cron_accepts(expr@) ==> r matches Err(Error::BadRequest(_)),
        cron_accepts(expr@) ==> (r is Ok <==> upcoming_in_range(expr@, now - shift, count as nat)),
        r matches Ok(v) ==> {
            let u = upcoming(expr@, now - shift, count as nat);
            &&& v@.len() == u.len()
            &&& forall|j: int| 0 <= j < v@.len() ==> v@[j] == #[trigger] u[j] + shift
        },
        r matches Ok(v) ==> v@.len() > 0 ==> v@[0] > now,
        r matches Ok(v) ==> forall|j: int| 0 < j < v@.len() ==> v@[j - 1] < #[trigger] v@[j],
{
    validate_cron(expr)?;
    let ghost t0: int = now - shift;
    let ghost u = upcoming(expr@, t0, count as nat);
    if now < MIN_INSTANT + shift || now > MAX_INSTANT + shift {
        return Err(Error::Internal("instant out of range".to_string()));
    }
    let mut cur: i64 = now - shift;
    let mut out: Vec<i64> = Vec::new();
    let ghost mut done: Seq<int> = seq![];
    let mut i: usize = 0;
    while i < count
        invariant
            cron_accepts(expr@),
            -200_000_000_000 <= shift <= 200_000_000_000,
            t0 == now - shift,
            u == upcoming(expr@, t0, count as nat),
            instant_in_range(t0),
            instant_in_range(cur as int),
            i <= count,
            done.len() == i,
            done + upcoming(expr@, cur as int, (count - i) as nat) == u,
            forall|j: int| 0 <= j < done.len() ==> instant_in_range(#[trigger] done[j]),
            out@.len() == done.len(),
            forall|j: int| 0 <= j < out@.len() ==> out@[j] == #[trigger] done[j] + shift,
            out@.len() == 0 ==> cur as int == t0,
            out@.len() > 0 ==> out@.last() == cur + shift && out@[0] > now,
            forall|j: int| 0 < j < out@.len() ==> out@[j - 1] < #[trigger] out@[j],
        decreases count - i,
    {
        let ghost rest = upcoming(expr@, cur as int, (count - i) as nat);
        match next_after(expr, cur) {
            None => {
                assert(rest =~= seq![]);
                assert(done =~= u);
                return Ok(out);
            },
            Some(n) => {
                let ghost tail = upcoming(expr@, n as int, (count - i - 1) as nat);
                assert(rest == seq![n as int] + tail);
                assert(u[done.len() as int] == n as int) by {
                    assert((done + rest)[done.len() as int] == rest[0]);
                }
                if n < MIN_INSTANT || n > MAX_INSTANT {
                    return Err(Error::Internal("instant out of range".to_string()));
                }
                let ghost prev_out = out@;
                out.push(n + shift);
                assert forall|j: int| 0 < j < out@.len() implies out@[j - 1] < #[trigger] out@[j] by {
                    if j < prev_out.len() {
                        assert(out@[j - 1] == prev_out[j - 1] && out@[j] == prev_out[j]);
                    }
                }
                proof {
                    assert(done + rest == done.push(n as int) + tail);
                    done = done.push(n as int);
                }
                cur = n;
                i = i + 1;
            },
        }
    }
    assert(upcoming(expr@, cur as int, 0) =~= seq![]);
    assert(done =~= u);
    Ok(out)
}

} // verus!
