//! Points in time, and their form as milliseconds since the Unix epoch.

use chrono::TimeZone;
use vstd::prelude::*;

verus! {

/// A point in time: `secs` whole seconds since the Unix epoch and `nanos` nanoseconds more.
#[derive(Clone, Copy, Debug, PartialEq, Eq, Structural)]
pub struct Timestamp {
    pub secs: i64,
    pub nanos: u32,
}

/// The first millisecond that a calendar date can be given to.
pub const MIN_MILLIS: i64 = -8334601228800000;

/// The last millisecond that a calendar date can be given to.
pub const MAX_MILLIS: i64 = 8210266876799999;

impl Timestamp {
    /// The nanoseconds are less than a second, and a calendar date can be given to the time.
    pub open spec fn valid(self) -> bool {
        &&& self.nanos < 1_000_000_000
        &&& MIN_MILLIS <= self.millis() <= MAX_MILLIS
    }

    /// Whole milliseconds since the Unix epoch; negative before it.
    pub open spec fn millis(self) -> int {
        self.secs * 1000 + self.nanos as int / 1_000_000
    }

    /// Returns the whole milliseconds since the Unix epoch; negative before it.
    pub fn timestamp_millis(&self) -> (ms: i64)
        requires
            self.valid(),
        ensures
            ms == self.millis(),
            ms == self.secs * 1000 + self.nanos as int / 1_000_000,
    {
        self.secs * 1000 + (self.nanos / 1_000_000) as i64
    }
}

/// The point in time that lies `ms` milliseconds after the Unix epoch.
pub open spec fn at_millis(ms: int) -> Timestamp {
    Timestamp { secs: (ms / 1000) as i64, nanos: (ms % 1000 * 1_000_000) as u32 }
}

/// Milliseconds since the Unix epoch; times before it count as the epoch.
pub open spec fn epoch_ms(t: Timestamp) -> int {
    if t.secs < 0 {
        0
    } else {
        t.millis()
    }
}

/// Converts a time to milliseconds since the Unix epoch. Times before the epoch give zero.
pub fn system_time_to_epoch_ms(t: Timestamp) -> (ms: u64)
    requires
        t.nanos < 1_000_000_000,
        t.millis() <= u64::MAX,
    ensures
        ms == epoch_ms(t),
        t.valid() ==> ms <= MAX_MILLIS,
        t.secs < 0 ==> ms == 0,
        t.secs >= 0 ==> ms == t.secs * 1000 + t.nanos as int / 1_000_000,
{
    if t.secs < 0 {
        0
    } else {
        (t.secs as u64) * 1000 + (t.nanos / 1_000_000) as u64
    }
}

/// Converts milliseconds since the Unix epoch to a time.
pub fn epoch_ms_to_system_time(ms: u64) -> (t: Timestamp)
    ensures
        t == at_millis(ms as int),
        t.valid() <==> ms <= MAX_MILLIS,
        t.secs * 1000 + t.nanos as int / 1_000_000 == ms,
        t.nanos < 1_000_000_000,
        t.nanos % 1_000_000 == 0,
{
    Timestamp { secs: (ms / 1000) as i64, nanos: (ms % 1000) as u32 * 1_000_000 }
}

/// Calls `timestamp_millis_opt` of `chrono::Utc` and `single` on what it returns. The contract
/// states for which milliseconds there is a time, and which.
#[verifier::external_body]
pub(crate) fn time_at_millis(ms: i64) -> (t: Option<Timestamp>)
    ensures
        t is Some <==> MIN_MILLIS <= ms <= MAX_MILLIS,
        t matches Some(t) ==> t == at_millis(ms as int),
{
    let t = chrono::Utc.timestamp_millis_opt(ms).single();
    t.map(|t| Timestamp { secs: t.timestamp(), nanos: t.timestamp_subsec_nanos() })
}

/// Milliseconds survive the conversion to a time and back.
pub proof fn lemma_epoch_ms_round_trip(ms: u64)
    ensures
        epoch_ms(at_millis(ms as int)) == ms,
{
}

/// A time that is not before the epoch survives the conversion to milliseconds and back,
/// rounded down to the millisecond.
pub proof fn lemma_system_time_round_trip(t: Timestamp)
    requires
        t.nanos < 1_000_000_000,
        t.secs >= 0,
    ensures
        at_millis(epoch_ms(t)) == (Timestamp {
            secs: t.secs,
            nanos: (t.nanos as int / 1_000_000 * 1_000_000) as u32,
        }),
{
}

/// Whether time `t` is not after time `u`.
pub open spec fn not_after(t: Timestamp, u: Timestamp) -> bool {
    t.secs < u.secs || t.secs == u.secs && t.nanos <= u.nanos
}

/// Later times have no fewer milliseconds, and all times before the Unix epoch have none.
pub proof fn lemma_epoch_ms_monotonic(t: Timestamp, u: Timestamp)
    requires
        t.nanos < 1_000_000_000,
        u.nanos < 1_000_000_000,
        not_after(t, u),
    ensures
        epoch_ms(t) <= epoch_ms(u),
        t.secs < 0 ==> epoch_ms(t) == 0,
{
}

/// The time at a millisecond is that millisecond, also before the Unix epoch: it has that many
/// whole milliseconds and nothing beyond them.
pub proof fn lemma_at_millis(ms: int)
    requires
        -0x8000_0000_0000_0000 <= ms / 1000 < 0x8000_0000_0000_0000,
    ensures
        at_millis(ms).secs * 1000 + at_millis(ms).nanos as int / 1_000_000 == ms,
        at_millis(ms).nanos < 1_000_000_000,
        at_millis(ms).nanos % 1_000_000 == 0,
{
}

/// A calendar date can be given to the times from the first day of the year -262143 through the
/// last of the year 262142, and to no others.
pub proof fn lemma_valid_times(t: Timestamp)
    ensures
        t.valid() <==> t.nanos < 1_000_000_000 && -8334601228800 <= t.secs <= 8210266876799,
{
}

} // verus!
