//! Points in time and the date arithmetic that loans need.

use vstd::prelude::*;

verus! {

/// The earliest second that `chrono::DateTime<Utc>` can represent
/// (the first second of the year -262143).
pub const MIN_UNIX_SECS: i64 = -8334601228800;

/// The latest second that `chrono::DateTime<Utc>` can represent
/// (the last second of the year 262142).
pub const MAX_UNIX_SECS: i64 = 8210266876799;

pub const NANOS_PER_SEC: u32 = 1_000_000_000;

pub const SECS_PER_DAY: i64 = 86400;

/// A point in UTC time: whole seconds since the Unix epoch and a
/// sub-second part in nanoseconds.
#[derive(Clone, Copy, Debug, PartialEq, Eq, Structural)]
pub struct Timestamp {
    pub secs: i64,
    pub nanos: u32,
}

impl Timestamp {
    /// The timestamp stands for an instant that a `DateTime<Utc>` can hold.
    pub open spec fn representable(self) -> bool {
        &&& MIN_UNIX_SECS <= self.secs <= MAX_UNIX_SECS
        &&& self.nanos < NANOS_PER_SEC
    }

    pub fn is_representable(&self) -> (b: bool)
        ensures
            b == self.representable(),
    {
        MIN_UNIX_SECS <= self.secs && self.secs <= MAX_UNIX_SECS && self.nanos < NANOS_PER_SEC
    }

    /// The same instant with its sub-second part dropped, as the store's
    /// own clock (`datetime('now')`) records it.
    pub open spec fn spec_whole_seconds(self) -> Timestamp {
        Timestamp { secs: self.secs, nanos: 0 }
    }

    pub fn whole_seconds(&self) -> (r: Timestamp)
        ensures
            r == self.spec_whole_seconds(),
    {
        Timestamp { secs: self.secs, nanos: 0 }
    }
}

/// `at` moved forward (or back, for a negative count) by whole days; `None`
/// when the result leaves the representable range.
pub open spec fn add_days_spec(at: Timestamp, days: int) -> Option<Timestamp> {
    let secs = at.secs + days * SECS_PER_DAY;
    if at.representable() && MIN_UNIX_SECS <= secs <= MAX_UNIX_SECS {
        Some(Timestamp { secs: secs as i64, nanos: at.nanos })
    } else {
        None
    }
}

/// Calls `chrono::DateTime::<Utc>::checked_add_signed` with
/// `chrono::TimeDelta::days(days)`. Claimed: chrono keeps the time of day and
/// the sub-second part, adds `days * 86400` seconds, and returns `None` exactly
/// when the result falls outside the years -262143 to 262142, its
/// representable range.
#[verifier::external_body]
fn chrono_add_days(at: Timestamp, days: i32) -> (r: Option<Timestamp>)
    requires
        at.representable(),
    ensures
        r == add_days_spec(at, days as int),
{
    let start = match chrono::DateTime::from_timestamp(at.secs, at.nanos) {
        Some(dt) => dt,
        None => return None,
    };
    match start.checked_add_signed(chrono::TimeDelta::days(days as i64)) {
        Some(dt) => Some(Timestamp { secs: dt.timestamp(), nanos: dt.timestamp_subsec_nanos() }),
        None => None,
    }
}

/// How long a loan runs when the request names no length.
pub const DEFAULT_LOAN_DAYS: i32 = 14;

pub open spec fn loan_days(days: Option<i32>) -> i32 {
    match days {
        Some(d) => d,
        None => DEFAULT_LOAN_DAYS,
    }
}

/// The due date of a loan that starts at `now` and runs for `days` days
/// (fourteen when not given).
pub open spec fn due_date_spec(now: Timestamp, days: Option<i32>) -> Option<Timestamp> {
    add_days_spec(now, loan_days(days) as int)
}

/// Computes the due date of a loan; `None` when it cannot be represented.
pub fn due_date(now: Timestamp, days: Option<i32>) -> (r: Option<Timestamp>)
    ensures
        r == due_date_spec(now, days),
{
    if !now.is_representable() {
        return None;
    }
    let d = match days {
        Some(d) => d,
        None => DEFAULT_LOAN_DAYS,
    };
    chrono_add_days(now, d)
}

/// `a` is an earlier instant than `b`.
pub open spec fn is_before(a: Timestamp, b: Timestamp) -> bool {
    a.secs < b.secs || (a.secs == b.secs && a.nanos < b.nanos)
}

/// A loan due at `due` is overdue at `now` once its due date has passed.
pub open spec fn spec_is_overdue(due: Timestamp, now: Timestamp) -> bool {
    is_before(due, now)
}

pub fn is_overdue(due: &Timestamp, now: &Timestamp) -> (b: bool)
    ensures
        b == spec_is_overdue(*due, *now),
{
    due.secs < now.secs || (due.secs == now.secs && due.nanos < now.nanos)
}

} // verus!
