//! Instants on the UTC time line and the calendar arithmetic that the
//! statistics need.

use chrono::{DateTime, Local, NaiveDate, NaiveTime, Utc};
use vstd::arithmetic::div_mod::{
    lemma_div_denominator, lemma_fundamental_div_mod, lemma_fundamental_div_mod_converse,
};
use vstd::prelude::*;

verus! {

/// The earliest second that chrono can represent (-262143-01-01T00:00:00Z).
pub const MIN_TIMESTAMP: i64 = -8_334_601_228_800i64;

/// The latest whole second that chrono can represent (+262142-12-31T23:59:59Z).
pub const MAX_TIMESTAMP: i64 = 8_210_266_876_799i64;

pub const NANOS_PER_SECOND: u32 = 1_000_000_000u32;

/// An instant: whole seconds since the Unix epoch and the nanoseconds past
/// that second.
#[derive(Clone, Copy, Debug, PartialEq, Eq)]
pub struct Timestamp {
    pub secs: i64,
    pub nanos: u32,
}

/// The earliest day chrono can represent, counted from 1970-01-01
/// (-262143-01-01).
pub const MIN_EPOCH_DAY: i32 = -96_465_292i32;

/// The latest day chrono can represent, counted from 1970-01-01
/// (+262142-12-31).
pub const MAX_EPOCH_DAY: i32 = 95_026_236i32;

/// A calendar date, as the number of days since 1970-01-01.
#[derive(Clone, Copy, Debug, PartialEq, Eq)]
pub struct CalendarDate {
    pub epoch_day: i32,
}

impl CalendarDate {
    /// The date lies in chrono's range.
    pub open spec fn in_range(self) -> bool {
        MIN_EPOCH_DAY <= self.epoch_day <= MAX_EPOCH_DAY
    }
}

/// `t` can be the instant of local midnight starting `date` in a time zone
/// whose offset from UTC is less than a day: a whole second less than a day
/// away from the date's UTC midnight.
pub open spec fn is_possible_local_midnight(date: CalendarDate, t: Timestamp) -> bool {
    &&& t.nanos == 0
    &&& date.epoch_day * 86_400 - 86_400 < t.secs < date.epoch_day * 86_400 + 86_400
}

impl Timestamp {
    /// The instant lies in chrono's range and its nanoseconds make less
    /// than a second.
    pub open spec fn in_range(self) -> bool {
        &&& MIN_TIMESTAMP <= self.secs <= MAX_TIMESTAMP
        &&& self.nanos < NANOS_PER_SECOND
    }

    /// Nanoseconds since the Unix epoch.
    pub open spec fn total_nanos(self) -> int {
        self.secs * 1_000_000_000 + self.nanos
    }

    /// `self` is the same instant as `other` or a later one.
    pub open spec fn is_at_or_after(self, other: Timestamp) -> bool {
        self.secs > other.secs || (self.secs == other.secs && self.nanos >= other.nanos)
    }

    /// `self` is strictly later than `other`.
    pub open spec fn is_after(self, other: Timestamp) -> bool {
        self.secs > other.secs || (self.secs == other.secs && self.nanos > other.nanos)
    }

    /// Whether `self` is the same instant as `other` or a later one.
    pub fn at_or_after(&self, other: &Timestamp) -> (r: bool)
        ensures
            r == self.is_at_or_after(*other),
    {
        self.secs > other.secs || (self.secs == other.secs && self.nanos >= other.nanos)
    }

    /// Whether `self` is strictly later than `other`.
    pub fn after(&self, other: &Timestamp) -> (r: bool)
        ensures
            r == self.is_after(*other),
    {
        self.secs > other.secs || (self.secs == other.secs && self.nanos > other.nanos)
    }
}

/// Integer division that rounds toward zero, as Rust's `/` on signed
/// integers does.
pub open spec fn trunc_div(x: int, d: int) -> int {
    if x >= 0 {
        x / d
    } else {
        -((-x) / d)
    }
}

/// The whole days from `then` to `now`, rounded toward zero: negative when
/// `then` lies after `now`.
pub open spec fn whole_days_between(now: Timestamp, then: Timestamp) -> int {
    trunc_div(now.total_nanos() - then.total_nanos(), 86_400_000_000_000)
}

/// The start (00:00:00 UTC) of the day that holds `t`.
pub open spec fn start_of_day(t: Timestamp) -> Timestamp {
    Timestamp { secs: (t.secs - t.secs % 86_400) as i64, nanos: 0 }
}

/// The instant `weeks` whole weeks before `t`.
pub open spec fn weeks_before(t: Timestamp, weeks: int) -> Timestamp {
    Timestamp { secs: (t.secs - weeks * 604_800) as i64, nanos: t.nanos }
}

proof fn lemma_trunc_div_of_negation(y: int, d: int)
    requires
        y >= 0,
        d > 0,
    ensures
        trunc_div(-y, d) == -(y / d),
{
    if y == 0 {
        assert(0int / d == 0) by (nonlinear_arith)
            requires
                d > 0,
        ;
    }
}

proof fn lemma_trunc_div_twice(x: int, a: int, b: int)
    requires
        a > 0,
        b > 0,
    ensures
        trunc_div(trunc_div(x, a), b) == trunc_div(x, a * b),
{
    if x >= 0 {
        lemma_div_denominator(x, a, b);
        assert(x / a >= 0) by (nonlinear_arith)
            requires
                x >= 0,
                a > 0,
        ;
    } else {
        let y = -x;
        lemma_div_denominator(y, a, b);
        assert(y / a >= 0) by (nonlinear_arith)
            requires
                y >= 0,
                a > 0,
        ;
        lemma_trunc_div_of_negation(y / a, b);
        assert(a * b > 0) by (nonlinear_arith)
            requires
                a > 0,
                b > 0,
        ;
    }
}

/// A non-negative remainder `r` below `d` with `x == q * d + r` makes
/// `trunc_div(x, d)` the quotient rounded toward zero.
proof fn lemma_trunc_div_from_parts(x: int, q: int, r: int, d: int)
    requires
        d > 0,
        0 <= r < d,
        x == q * d + r,
    ensures
        trunc_div(x, d) == (if q < 0 && r > 0 { q + 1 } else { q }),
{
    if x >= 0 {
        lemma_fundamental_div_mod_converse(x, d, q, r);
        assert(q >= 0) by (nonlinear_arith)
            requires
                x == q * d + r,
                x >= 0,
                r < d,
                d > 0,
        ;
    } else {
        assert(q < 0) by (nonlinear_arith)
            requires
                x == q * d + r,
                x < 0,
                r >= 0,
                d > 0,
        ;
        if r == 0 {
            assert(-x == (-q) * d + 0) by (nonlinear_arith)
                requires
                    x == q * d + r,
                    r == 0,
            ;
            lemma_fundamental_div_mod_converse(-x, d, -q, 0);
        } else {
            assert(-x == (-q - 1) * d + (d - r)) by (nonlinear_arith)
                requires
                    x == q * d + r,
            ;
            lemma_fundamental_div_mod_converse(-x, d, -q - 1, d - r);
        }
    }
}

proof fn lemma_later_has_more_nanos(later: Timestamp, earlier: Timestamp)
    requires
        later.is_at_or_after(earlier),
        earlier.nanos < NANOS_PER_SECOND,
    ensures
        later.total_nanos() >= earlier.total_nanos(),
{
    if later.secs > earlier.secs {
        assert(later.secs * 1_000_000_000 + later.nanos >= earlier.secs * 1_000_000_000
            + earlier.nanos) by (nonlinear_arith)
            requires
                later.secs > earlier.secs,
                earlier.nanos < 1_000_000_000,
                later.nanos >= 0,
        ;
    }
}

/// The whole days from `then` to `now`, rounded toward zero, as chrono's
/// `(now - then).num_days()` computes them.
pub fn days_between(now: &Timestamp, then: &Timestamp) -> (r: i64)
    requires
        now.in_range(),
        then.in_range(),
    ensures
        r == whole_days_between(*now, *then),
        now.is_at_or_after(*then) ==> r >= 0,
{
    let mut secs: i64 = now.secs - then.secs;
    let mut nanos: i64 = now.nanos as i64 - then.nanos as i64;
    if nanos < 0 {
        secs = secs - 1;
        nanos = nanos + 1_000_000_000;
    }
    let whole_secs: i64 = if secs < 0 && nanos > 0 {
        secs + 1
    } else {
        secs
    };
    let days: i64 = if whole_secs >= 0 {
        ((whole_secs as u64) / 86_400) as i64
    } else {
        let magnitude: u64 = (0 - whole_secs) as u64;
        0 - ((magnitude / 86_400) as i64)
    };
    proof {
        let diff = now.total_nanos() - then.total_nanos();
        assert(diff == secs * 1_000_000_000 + nanos) by (nonlinear_arith)
            requires
                diff == now.total_nanos() - then.total_nanos(),
                now.total_nanos() == now.secs * 1_000_000_000 + now.nanos,
                then.total_nanos() == then.secs * 1_000_000_000 + then.nanos,
                secs * 1_000_000_000 + nanos == (now.secs - then.secs) * 1_000_000_000 + (
                now.nanos - then.nanos),
        ;
        lemma_trunc_div_from_parts(diff, secs as int, nanos as int, 1_000_000_000);
        lemma_trunc_div_twice(diff, 1_000_000_000, 86_400);
        if now.is_at_or_after(*then) {
            lemma_later_has_more_nanos(*now, *then);
            assert(diff / 86_400_000_000_000 >= 0) by (nonlinear_arith)
                requires
                    diff >= 0,
            ;
        }
        if whole_secs < 0 {
            lemma_trunc_div_of_negation(-whole_secs, 86_400);
        }
    }
    days
}

/// The whole days from `time` to the current time, rounded toward zero, as
/// chrono's `(Utc::now() - time).num_days()` computes them.
pub fn convert_time_to_days_ago(time: &Timestamp) -> (r: i64)
    requires
        time.in_range(),
    ensures
        exists|now: Timestamp|
            now.in_range() && now.secs >= 0 && r == #[trigger] whole_days_between(now, *time),
{
    let now = utc_now();
    days_between(&now, time)
}

/// The start (00:00:00 UTC) of the day that holds `t`, as chrono's
/// `t.date_naive().and_hms_opt(0, 0, 0).unwrap().and_utc()` computes it.
pub fn day_start(t: &Timestamp) -> (r: Timestamp)
    requires
        t.in_range(),
    ensures
        r == start_of_day(*t),
        r.in_range(),
{
    let secs = t.secs;
    let rem: i64 = if secs >= 0 {
        ((secs as u64) % 86_400) as i64
    } else {
        let magnitude: u64 = (0 - secs) as u64;
        let m: u64 = magnitude % 86_400;
        proof {
            lemma_fundamental_div_mod(magnitude as int, 86_400);
            let q = magnitude as int / 86_400;
            if m == 0 {
                assert(secs == (-q) * 86_400 + 0) by (nonlinear_arith)
                    requires
                        magnitude == 86_400 * q + m,
                        m == 0,
                        secs == -magnitude,
                ;
                lemma_fundamental_div_mod_converse(secs as int, 86_400, -q, 0);
            } else {
                assert(secs == (-q - 1) * 86_400 + (86_400 - m)) by (nonlinear_arith)
                    requires
                        magnitude == 86_400 * q + m,
                        secs == -magnitude,
                ;
                lemma_fundamental_div_mod_converse(secs as int, 86_400, -q - 1, 86_400 - m);
            }
        }
        if m == 0 {
            0
        } else {
            86_400 - (m as i64)
        }
    };
    proof {
        assert(MIN_TIMESTAMP % 86_400 == 0);
        assert(rem == secs % 86_400);
        assert(secs - rem >= MIN_TIMESTAMP) by (nonlinear_arith)
            requires
                secs >= MIN_TIMESTAMP,
                rem == secs % 86_400,
                MIN_TIMESTAMP % 86_400 == 0,
                MIN_TIMESTAMP == -8_334_601_228_800int,
        {
            lemma_fundamental_div_mod(secs as int, 86_400);
        }
    }
    Timestamp { secs: secs - rem, nanos: 0 }
}

/// The instant `weeks` whole weeks before `t`, as chrono's
/// `t - TimeDelta::weeks(weeks)` computes it; chrono panics where that
/// instant falls outside its range, and so those inputs are left out.
pub fn weeks_earlier(t: &Timestamp, weeks: i64) -> (r: Timestamp)
    requires
        t.in_range(),
        MIN_TIMESTAMP <= t.secs - weeks * 604_800 <= MAX_TIMESTAMP,
    ensures
        r == weeks_before(*t, weeks as int),
        r.in_range(),
{
    Timestamp { secs: t.secs - weeks * 604_800, nanos: t.nanos }
}

/// `chrono::DateTime::<Utc>::from_timestamp(secs, 0)`, read back through
/// `timestamp()` and `timestamp_subsec_nanos()`. chrono returns `Some`
/// exactly when the day of `secs` lies between its earliest and its latest
/// date, and its documentation promises that the value reads back the same
/// seconds and nanoseconds.
#[verifier::external_body]
pub(crate) fn timestamp_from_secs(secs: i64) -> (r: Option<Timestamp>)
    ensures
        r is Some <==> MIN_TIMESTAMP <= secs <= MAX_TIMESTAMP,
        r matches Some(t) ==> t == (Timestamp { secs, nanos: 0 }),
{
    match DateTime::<Utc>::from_timestamp(secs, 0) {
        Some(dt) => Some(Timestamp { secs: dt.timestamp(), nanos: dt.timestamp_subsec_nanos() }),
        None => None,
    }
}

/// `chrono::Utc::now()`, read back as seconds and nanoseconds. chrono builds
/// it from `SystemTime::now().duration_since(UNIX_EPOCH).expect(..)` and
/// `DateTime::from_timestamp(..).unwrap()`: it panics on a clock before 1970,
/// so every value it returns lies in range, at or after the epoch, with less
/// than a second of nanoseconds (the seconds of a `SystemTime` fit in an
/// `i64`, so chrono's `as i64` keeps them). This holds of the targets other
/// than wasm32, where chrono's `wasmbind` feature reads JavaScript's `Date`
/// instead. Which instant it is depends on the clock and is left unstated.
#[verifier::external_body]
pub(crate) fn utc_now() -> (r: Timestamp)
    ensures
        r.in_range(),
        r.secs >= 0,
{
    let now = Utc::now();
    Timestamp { secs: now.timestamp(), nanos: now.timestamp_subsec_nanos() }
}

/// chrono's `NaiveDate::from_epoch_days(day)` followed by
/// `.and_time(NaiveTime::MIN).and_local_timezone(Local).earliest()`: the
/// first instant at which the local clock reads midnight starting the date,
/// or `None` where the local clock skips that midnight or the instant falls
/// outside chrono's range. `from_epoch_days` succeeds on every date in range.
/// chrono turns local midnight into UTC by subtracting the zone's offset,
/// which it keeps strictly under a day, and midnight has no nanoseconds; so
/// a result lies in range, within a day of the date's UTC midnight, on a
/// whole second. Which instant it is depends on the machine's time zone and
/// is left unstated.
#[verifier::external_body]
pub(crate) fn to_datetime(date: CalendarDate) -> (r: Option<Timestamp>)
    requires
        date.in_range(),
    ensures
        r matches Some(t) ==> t.in_range() && is_possible_local_midnight(date, t),
{
    match NaiveDate::from_epoch_days(date.epoch_day) {
        Some(day) => match day.and_time(NaiveTime::MIN).and_local_timezone(Local).earliest() {
            Some(dt) => Some(Timestamp { secs: dt.timestamp(), nanos: dt.timestamp_subsec_nanos() }),
            None => None,
        },
        None => None,
    }
}

/// The number of days since the last commit that the statistics show:
/// only a positive one is shown.
pub fn days_ago_to_show(days: i64) -> (r: Option<i64>)
    ensures
        r == (if days > 0 { Some(days) } else { None::<i64> }),
{
    if days > 0 {
        Some(days)
    } else {
        None
    }
}

} // verus!
