//! Time partitions: which slice of its UTC day a timestamp falls in.
//!
//! A table has `partition_count_per_day` partitions per day, numbered from 0.
//! A row belongs to the partition that its timestamp, in seconds since the
//! UNIX epoch, falls in, and a batch to the partition of its first row.
use crate::error::DropletError;
use crate::grid::GridBatch;
use crate::grid::GridView;
use chrono::Datelike;
use chrono::Timelike;
use vstd::prelude::*;

verus! {

/// The seconds of a day.
pub const SECONDS_PER_DAY: u64 = 86400;

/// The last second that has a calendar date: the end of the year 262142.
pub const MAX_UTC_SECONDS: u64 = 8_210_266_876_799;

/// The year, month and day of the UTC calendar date that the second `secs`
/// since the UNIX epoch lies in.
pub uninterp spec fn utc_calendar_date(secs: int) -> (int, int, int);

/// The seconds between the last UTC midnight and the second `secs` since the
/// UNIX epoch.
///
/// Trusted: chrono's `NaiveDateTime::from_timestamp_opt` followed by
/// `Timelike::num_seconds_from_midnight`. From the epoch to the end of the
/// year 262142 the date exists and the result is the remainder of `secs` by
/// the seconds of a day; later seconds have no date.
#[verifier::external_body]
#[allow(deprecated)]
fn utc_seconds_from_midnight(secs: i64) -> (seconds: Option<u32>)
    ensures
        0 <= secs <= MAX_UTC_SECONDS ==> seconds == Some((secs % 86400) as u32),
        secs > MAX_UTC_SECONDS ==> seconds is None,
        seconds matches Some(s) ==> s == secs % 86400,
{
    match chrono::NaiveDateTime::from_timestamp_opt(secs, 0) {
        Some(t) => Some(t.num_seconds_from_midnight()),
        None => None,
    }
}

/// The UTC calendar date of the second `secs` since the UNIX epoch.
///
/// Trusted: chrono's `NaiveDateTime::from_timestamp_opt` followed by
/// `Datelike::year`, `month` and `day`. From the epoch to the end of the year
/// 262142 the date exists; later seconds have none. No year is later than
/// 262142, months count from 1 to 12 and days from 1 to 31.
#[verifier::external_body]
#[allow(deprecated)]
fn utc_date(secs: i64) -> (date: Option<(i32, u32, u32)>)
    ensures
        0 <= secs <= MAX_UTC_SECONDS ==> date is Some,
        secs > MAX_UTC_SECONDS ==> date is None,
        date matches Some(d) ==> (d.0 as int, d.1 as int, d.2 as int) == utc_calendar_date(
            secs as int,
        ) && d.0 <= 262142 && 1 <= d.1 <= 12 && 1 <= d.2 <= 31,
{
    match chrono::NaiveDateTime::from_timestamp_opt(secs, 0) {
        Some(t) => Some((t.year(), t.month(), t.day())),
        None => None,
    }
}

/// The partition of the second `seconds` of a day, where the day has `count`
/// partitions: `floor(seconds * count / 86400)`.
pub open spec fn index_of_seconds(seconds: nat, count: nat) -> nat {
    seconds * count / 86400
}

/// Whether `timestamp` has a calendar date.
pub open spec fn has_date(timestamp: u64) -> bool {
    timestamp <= MAX_UTC_SECONDS
}

/// The partition that `timestamp` falls in.
pub open spec fn index_of_timestamp(timestamp: u64, count: u32) -> nat {
    index_of_seconds((timestamp % 86400) as nat, count as nat)
}

/// The partition of a second of the day.
pub fn partition_index_of_seconds(seconds_in_day: u32, partition_count_per_day: u32) -> (index: u32)
    requires
        seconds_in_day < 86400,
    ensures
        index == index_of_seconds(seconds_in_day as nat, partition_count_per_day as nat),
        partition_count_per_day > 0 ==> index < partition_count_per_day,
{
    assert(seconds_in_day * partition_count_per_day <= 86400 * 0xFFFF_FFFF) by (nonlinear_arith)
        requires
            seconds_in_day < 86400,
            partition_count_per_day <= 0xFFFF_FFFF,
    ;
    let scaled: u64 = seconds_in_day as u64 * partition_count_per_day as u64;
    let index: u64 = scaled / SECONDS_PER_DAY;
    assert(index <= partition_count_per_day) by (nonlinear_arith)
        requires
            scaled == seconds_in_day * partition_count_per_day,
            seconds_in_day < 86400,
            index == scaled / 86400,
    ;
    assert(partition_count_per_day > 0 ==> index < partition_count_per_day) by (nonlinear_arith)
        requires
            scaled == seconds_in_day * partition_count_per_day,
            seconds_in_day < 86400,
            index == scaled / 86400,
    ;
    index as u32
}

/// The partition that `timestamp` falls in.
///
/// Refused with `InvalidArgument`: a table without partitions, and a
/// timestamp without a calendar date.
pub fn partition_index_of_timestamp(timestamp: u64, partition_count_per_day: u32) -> (res: Result<
    u32,
    DropletError,
>)
    ensures
        partition_count_per_day > 0 && has_date(timestamp) ==> res is Ok && res.unwrap()
            == index_of_timestamp(timestamp, partition_count_per_day) && res.unwrap()
            < partition_count_per_day,
        !(partition_count_per_day > 0 && has_date(timestamp)) ==> res == Err::<u32, DropletError>(
            DropletError::InvalidArgument,
        ),
{
    if partition_count_per_day == 0 || timestamp > MAX_UTC_SECONDS {
        return Err(DropletError::InvalidArgument);
    }
    match utc_seconds_from_midnight(timestamp as i64) {
        Some(seconds) => Ok(partition_index_of_seconds(seconds, partition_count_per_day)),
        None => Err(DropletError::InvalidArgument),
    }
}

/// The partition of a batch: that of its first row.
pub open spec fn index_of_grid(grid: GridView, count: u32) -> Option<nat> {
    if grid.rows.len() > 0 && count > 0 && has_date(grid.key(0).timestamp) {
        Some(index_of_timestamp(grid.key(0).timestamp, count))
    } else {
        None
    }
}

/// The partition that a batch is sent to: the one that the timestamp of its
/// first row falls in. The other rows go with the first.
///
/// Refused with `InvalidArgument`: a batch without rows, a table without
/// partitions, and a first row whose timestamp has no calendar date.
pub fn get_partition_index_by_timestamp(gridbuffer: &GridBatch, partition_count_per_day: u32) -> (res:
    Result<u32, DropletError>)
    requires
        gridbuffer.wf(),
    ensures
        match index_of_grid(gridbuffer@, partition_count_per_day) {
            Some(index) => res is Ok && res.unwrap() == index && index < partition_count_per_day,
            None => res == Err::<u32, DropletError>(DropletError::InvalidArgument),
        },
{
    if gridbuffer.num_rows() == 0 {
        return Err(DropletError::InvalidArgument);
    }
    let timestamp = gridbuffer.sample_key(0).timestamp;
    partition_index_of_timestamp(timestamp, partition_count_per_day)
}

/// A partition's place in time.
#[derive(Clone, Copy, Debug, PartialEq, Eq, Structural)]
pub struct PartitionWindow {
    /// The day, as the number `YYYYMMDD`.
    pub partition_date: u32,
    /// The partition's number within the day.
    pub partition_index: u32,
    /// The first millisecond of the partition, since the UNIX epoch.
    pub time_start: u64,
    /// The first millisecond after the partition.
    pub time_end: u64,
}

/// The length of a partition in seconds.
pub open spec fn span_of(count: u32) -> nat {
    86400nat / (count as nat)
}

/// `window` is the partition that `timestamp` falls in on the day `date`,
/// with its bounds: the partition starts `partition_index` spans after the
/// day's midnight and is one span long.
pub open spec fn is_window_on(
    window: PartitionWindow,
    timestamp: u64,
    count: u32,
    date: (int, int, int),
) -> bool {
    let midnight = timestamp - timestamp % 86400;
    &&& window.partition_date == date.0 * 10000 + date.1 * 100 + date.2
    &&& window.partition_index == index_of_timestamp(timestamp, count)
    &&& window.time_start == (midnight + span_of(count) * window.partition_index) * 1000
    &&& window.time_end == window.time_start + span_of(count) * 1000
}

/// Whether a partition of `timestamp` on the day `date` can be told: the
/// table has partitions, the timestamp has a date, the year is not before
/// the year 0, and the date fits the number `YYYYMMDD`.
pub open spec fn has_window_on(timestamp: u64, count: u32, date: (int, int, int)) -> bool {
    &&& count > 0
    &&& has_date(timestamp)
    &&& date.0 >= 0
    &&& date.0 * 10000 + date.1 * 100 + date.2 <= u32::MAX
}

/// The partition that `timestamp` falls in, given the calendar date of
/// `timestamp`, with its day and its bounds in milliseconds. The partition
/// starts `partition_index` spans after the day's midnight, where a span is
/// `86400 / partition_count_per_day` whole seconds.
///
/// Refused with `InvalidArgument`: a table without partitions, a timestamp
/// without a calendar date, a date before the year 0, and a date that does
/// not fit the number `YYYYMMDD`.
pub fn partition_window_on(
    timestamp: u64,
    partition_count_per_day: u32,
    year: i32,
    month: u32,
    day: u32,
) -> (res: Result<PartitionWindow, DropletError>)
    ensures
        match res {
            Ok(window) => has_window_on(
                timestamp,
                partition_count_per_day,
                (year as int, month as int, day as int),
            ) && is_window_on(
                window,
                timestamp,
                partition_count_per_day,
                (year as int, month as int, day as int),
            ),
            Err(e) => e == DropletError::InvalidArgument && !has_window_on(
                timestamp,
                partition_count_per_day,
                (year as int, month as int, day as int),
            ),
        },
{
    let index = match partition_index_of_timestamp(timestamp, partition_count_per_day) {
        Ok(index) => index,
        Err(e) => {
            return Err(e);
        },
    };
    if year < 0 {
        return Err(DropletError::InvalidArgument);
    }
    let number: u64 = year as u64 * 10000 + month as u64 * 100 + day as u64;
    if number > u32::MAX as u64 {
        return Err(DropletError::InvalidArgument);
    }
    let seconds_in_day: u64 = timestamp % SECONDS_PER_DAY;
    let midnight: u64 = timestamp - seconds_in_day;
    let span: u64 = SECONDS_PER_DAY / partition_count_per_day as u64;
    assert(span * index <= 86400) by (nonlinear_arith)
        requires
            span == 86400int / (partition_count_per_day as int),
            0 <= index < partition_count_per_day,
            partition_count_per_day > 0,
    ;
    assert(span <= 86400) by (nonlinear_arith)
        requires
            span == 86400int / (partition_count_per_day as int),
            partition_count_per_day > 0,
    ;
    let start: u64 = midnight + span * index as u64;
    let end: u64 = start + span;
    Ok(
        PartitionWindow {
            partition_date: number as u32,
            partition_index: index,
            time_start: start * 1000,
            time_end: end * 1000,
        },
    )
}

/// The partition that `timestamp` falls in, with its day and its bounds in
/// milliseconds.
///
/// Refused with `InvalidArgument`: a table without partitions, a timestamp
/// without a calendar date, and a date before the year 0.
pub fn partition_window(timestamp: u64, partition_count_per_day: u32) -> (res: Result<
    PartitionWindow,
    DropletError,
>)
    ensures
        match res {
            Ok(window) => has_window_on(
                timestamp,
                partition_count_per_day,
                utc_calendar_date(timestamp as int),
            ) && is_window_on(
                window,
                timestamp,
                partition_count_per_day,
                utc_calendar_date(timestamp as int),
            ),
            Err(e) => e == DropletError::InvalidArgument && !(partition_count_per_day > 0
                && has_date(timestamp) && utc_calendar_date(timestamp as int).0 >= 0),
        },
{
    if timestamp > MAX_UTC_SECONDS {
        return Err(DropletError::InvalidArgument);
    }
    match utc_date(timestamp as i64) {
        Some((year, month, day)) => partition_window_on(
            timestamp,
            partition_count_per_day,
            year,
            month,
            day,
        ),
        None => Err(DropletError::InvalidArgument),
    }
}

/// A timestamp lies in the slice of its day that its partition index names:
/// with `count` partitions per day, the second `s` of the day has the index
/// `p` for which `p * 86400 <= s * count < (p + 1) * 86400`, and `p` is the
/// only such number.
pub proof fn lemma_index_bounds(seconds: nat, count: nat, p: nat)
    requires
        count > 0,
    ensures
        p == index_of_seconds(seconds, count) <==> p * 86400 <= seconds * count < (p + 1) * 86400,
{
    let q = index_of_seconds(seconds, count);
    assert(q * 86400 <= seconds * count < (q + 1) * 86400) by (nonlinear_arith)
        requires
            q == seconds * count / 86400,
    ;
    if p * 86400 <= seconds * count < (p + 1) * 86400 {
        assert(p == q) by (nonlinear_arith)
            requires
                p * 86400 <= seconds * count < (p + 1) * 86400,
                q * 86400 <= seconds * count < (q + 1) * 86400,
        ;
    }
}

/// Where the partitions divide the day evenly, a timestamp's second of the
/// day lies in `[p * span, (p + 1) * span)` for its partition `p` and the
/// span `86400 / count`.
pub proof fn lemma_index_span(seconds: nat, count: nat)
    requires
        count > 0,
        86400int % (count as int) == 0,
    ensures
        index_of_seconds(seconds, count) * (86400int / (count as int)) <= seconds,
        seconds < (index_of_seconds(seconds, count) + 1) * (86400int / (count as int)),
{
    let p = index_of_seconds(seconds, count);
    let span = 86400int / (count as int);
    lemma_index_bounds(seconds, count, p);
    assert(span * count == 86400) by (nonlinear_arith)
        requires
            span == 86400int / (count as int),
            86400int % (count as int) == 0,
            count > 0,
    ;
    assert(p * span <= seconds && seconds < (p + 1) * span) by (nonlinear_arith)
        requires
            span * count == 86400,
            count > 0,
            p * 86400 <= seconds * count < (p + 1) * 86400,
    ;
}

/// A day with `count` partitions has the partitions `0` to `count - 1`.
pub proof fn lemma_index_below_count(seconds: nat, count: nat)
    requires
        seconds < 86400,
        count > 0,
    ensures
        index_of_seconds(seconds, count) < count,
{
    assert(seconds * count / 86400 < count) by (nonlinear_arith)
        requires
            seconds < 86400,
            count > 0,
    ;
}

} // verus!
