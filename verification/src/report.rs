//! The per-minute latency report.
//!
//! The history is read oldest first. Neighbouring entries that were sent in
//! the same calendar minute form one bucket, and each bucket is summarised by
//! the smallest, the largest and the median of its latencies. A probe
//! without a reply counts with the pending latency that the history gives it.

use chrono::{DateTime, Datelike, Timelike};
use vstd::prelude::*;
use vstd::relations::{sorted_by, total_ordering};
use vstd::seq_lib::lemma_sorted_unique;

verus! {

/// A calendar minute in UTC.
#[derive(Debug, Clone, Copy, PartialEq, Eq, Structural)]
pub struct MinuteKey {
    /// The year.
    pub year: i32,
    /// The month, counted from 0 for January.
    pub month0: u32,
    /// The day of the month, counted from 1.
    pub day: u32,
    /// The hour of the day.
    pub hour: u32,
    /// The minute of the hour.
    pub minute: u32,
}

/// The summary of one bucket.
#[derive(Debug, Clone, Copy, PartialEq, Eq, Structural)]
pub struct MinuteStats {
    /// The minute in which the bucket's probes were sent.
    pub minute: MinuteKey,
    /// The smallest latency of the bucket.
    pub min: u64,
    /// The largest latency of the bucket.
    pub max: u64,
    /// The median latency of the bucket.
    pub median: u64,
}

/// The order of latencies.
pub open spec fn at_most() -> spec_fn(u64, u64) -> bool {
    |a: u64, b: u64| a <= b
}

/// No value of `values` is followed by a smaller one.
pub open spec fn ascending(values: Seq<u64>) -> bool {
    forall|i: int, j: int| 0 <= i <= j < values.len() ==> values[i] <= values[j]
}

/// The median of latencies in ascending order: the middle one of an odd
/// count, else the mean of the two middle ones, rounded down.
pub open spec fn median_of_ascending(values: Seq<u64>) -> int {
    let mid = (values.len() / 2) as int;
    if values.len() % 2 == 0 {
        (values[mid - 1] + values[mid]) / 2
    } else {
        values[mid] as int
    }
}

/// The summary of the bucket `minute` with the given latencies, in whatever
/// order they come.
pub open spec fn summary_of(minute: MinuteKey, latencies: Seq<u64>) -> MinuteStats {
    let ordered = latencies.sort_by(at_most());
    MinuteStats {
        minute,
        min: ordered.first(),
        max: ordered.last(),
        median: median_of_ascending(ordered) as u64,
    }
}

/// The order of latencies is a total order.
pub proof fn lemma_at_most_total()
    ensures
        total_ordering(at_most()),
{
}

/// There is one way to put latencies in ascending order: a sequence in
/// ascending order with the same values as `latencies` is the sorted one.
pub proof fn lemma_ascending_is_sorted(ordered: Seq<u64>, latencies: Seq<u64>)
    requires
        ascending(ordered),
        ordered.to_multiset() == latencies.to_multiset(),
    ensures
        ordered == latencies.sort_by(at_most()),
{
    lemma_at_most_total();
    latencies.lemma_sort_by_ensures(at_most());
    assert(sorted_by(ordered, at_most()));
    lemma_sorted_unique(ordered, latencies.sort_by(at_most()), at_most());
}

/// In a bucket that is not empty the smallest and the largest latency are
/// latencies of the bucket, every latency lies between them, and so does the
/// median.
pub proof fn lemma_summary_bounds(minute: MinuteKey, latencies: Seq<u64>)
    requires
        latencies.len() > 0,
    ensures
        latencies.contains(summary_of(minute, latencies).min),
        latencies.contains(summary_of(minute, latencies).max),
        forall|i: int|
            0 <= i < latencies.len() ==> summary_of(minute, latencies).min <= (
            #[trigger] latencies[i]) <= summary_of(minute, latencies).max,
        summary_of(minute, latencies).min <= summary_of(minute, latencies).median <= summary_of(
            minute,
            latencies,
        ).max,
        summary_of(minute, latencies).minute == minute,
{
    let ordered = latencies.sort_by(at_most());
    lemma_at_most_total();
    latencies.lemma_sort_by_ensures(at_most());
    latencies.to_multiset_ensures();
    ordered.to_multiset_ensures();
    let count = ordered.len() as int;
    assert(count == latencies.len());
    assert(ordered.contains(ordered[0]));
    assert(ordered.contains(ordered[count - 1]));
    assert forall|i: int| 0 <= i < latencies.len() implies ordered[0] <= (#[trigger] latencies[i])
        <= ordered[count - 1] by {
        assert(latencies.contains(latencies[i]));
        assert(ordered.to_multiset().count(latencies[i]) > 0);
        assert(ordered.contains(latencies[i]));
        let k = choose|k: int| 0 <= k < ordered.len() && ordered[k] == latencies[i];
        if 0 < k {
            assert(at_most()(ordered[0], ordered[k]));
        }
        if k < count - 1 {
            assert(at_most()(ordered[k], ordered[count - 1]));
        }
    }
    let mid = count / 2;
    if 0 < mid {
        assert(at_most()(ordered[0], ordered[mid - 1]) || mid == 1);
        assert(at_most()(ordered[mid - 1], ordered[mid]));
    }
    if mid < count - 1 {
        assert(at_most()(ordered[mid], ordered[count - 1]));
    }
}

/// `slice::sort_unstable` on the vector's elements: afterwards the vector
/// holds the same values, each as often as before, in ascending order.
#[verifier::external_body]
fn sort_ascending(values: &mut Vec<u64>)
    ensures
        final(values)@.to_multiset() == old(values)@.to_multiset(),
        ascending(final(values)@),
{
    values.sort_unstable();
}

/// Closes a bucket: summarises `latencies` and empties the vector for the
/// next bucket.
pub fn process_group(minute: MinuteKey, latencies: &mut Vec<u64>) -> (stats: MinuteStats)
    requires
        old(latencies)@.len() > 0,
    ensures
        stats == summary_of(minute, old(latencies)@),
        final(latencies)@ == Seq::<u64>::empty(),
{
    sort_ascending(latencies);
    proof {
        lemma_ascending_is_sorted(latencies@, old(latencies)@);
        old(latencies)@.to_multiset_ensures();
        latencies@.to_multiset_ensures();
    }
    let count: usize = latencies.len();
    let mid: usize = count / 2;
    let min: u64 = latencies[0];
    let max: u64 = latencies[count - 1];
    let median: u64 = if count % 2 == 0 {
        let low: u64 = latencies[mid - 1];
        let high: u64 = latencies[mid];
        low + (high - low) / 2
    } else {
        latencies[mid]
    };
    latencies.clear();
    MinuteStats { minute, min, max, median }
}

/// The buckets of a history whose entries carry their minute: each bucket is
/// a longest run of neighbouring entries with one minute, and holds that
/// minute and the run's latencies in the order of the history.
pub open spec fn buckets(entries: Seq<(MinuteKey, u64)>) -> Seq<(MinuteKey, Seq<u64>)>
    decreases entries.len(),
{
    if entries.len() == 0 {
        Seq::empty()
    } else {
        let before = buckets(entries.drop_last());
        let (minute, latency) = entries.last();
        if before.len() > 0 && before.last().0 == minute {
            before.drop_last().push((minute, before.last().1.push(latency)))
        } else {
            before.push((minute, seq![latency]))
        }
    }
}

/// The report of a history whose entries carry their minute: the summary of
/// each bucket, in the order of the history.
pub open spec fn summaries(entries: Seq<(MinuteKey, u64)>) -> Seq<MinuteStats> {
    let runs = buckets(entries);
    Seq::new(runs.len(), |k: int| summary_of(runs[k].0, runs[k].1))
}

/// The last bucket of a history that is not empty holds the minute of the
/// last entry, and no bucket is empty.
pub proof fn lemma_buckets_shape(entries: Seq<(MinuteKey, u64)>)
    ensures
        entries.len() == 0 ==> buckets(entries).len() == 0,
        entries.len() > 0 ==> buckets(entries).len() > 0 && buckets(entries).last().0
            == entries.last().0,
        buckets(entries).len() <= entries.len(),
        forall|k: int| 0 <= k < buckets(entries).len() ==> (#[trigger] buckets(entries)[k]).1.len() > 0,
        forall|k: int|
            0 < k < buckets(entries).len() ==> (#[trigger] buckets(entries)[k]).0 != buckets(
                entries,
            )[k - 1].0,
    decreases entries.len(),
{
    if entries.len() > 0 {
        lemma_buckets_shape(entries.drop_last());
    }
}

/// Summarises a history whose entries carry their minute: one pass that
/// closes a bucket whenever the minute changes, and at the end.
pub fn group_by_key(entries: &Vec<(MinuteKey, u64)>) -> (stats: Vec<MinuteStats>)
    ensures
        stats@ == summaries(entries@),
{
    let mut stats: Vec<MinuteStats> = Vec::new();
    let mut current: Vec<u64> = Vec::new();
    let ghost mut closed: Seq<(MinuteKey, Seq<u64>)> = Seq::empty();
    let mut i: usize = 0;
    while i < entries.len()
        invariant
            i <= entries@.len(),
            i == 0 ==> closed.len() == 0 && current@.len() == 0,
            i > 0 ==> current@.len() > 0 && buckets(entries@.subrange(0, i as int)) == closed.push(
                (entries@[i - 1].0, current@),
            ),
            stats@.len() == closed.len(),
            forall|k: int|
                0 <= k < closed.len() ==> (#[trigger] stats@[k]) == summary_of(
                    closed[k].0,
                    closed[k].1,
                ),
        decreases entries@.len() - i,
    {
        let (minute, latency) = entries[i];
        let ghost before = buckets(entries@.subrange(0, i as int));
        let ghost next = entries@.subrange(0, i + 1);
        proof {
            assert(next.drop_last() =~= entries@.subrange(0, i as int));
            assert(next.last() == entries@[i as int]);
        }
        if i > 0 && entries[i - 1].0 != minute {
            let previous = entries[i - 1].0;
            proof {
                closed = closed.push((previous, current@));
                assert(closed == before);
            }
            let summary = process_group(previous, &mut current);
            stats.push(summary);
            current.push(latency);
            proof {
                assert(current@ =~= seq![latency]);
                assert(buckets(next) == before.push((minute, seq![latency])));
            }
        } else {
            let ghost run = current@;
            current.push(latency);
            proof {
                if i > 0 {
                    assert(before.drop_last() =~= closed);
                    assert(before.last() == (minute, run));
                    assert(buckets(next) == before.drop_last().push((minute, run.push(latency))));
                } else {
                    assert(before =~= Seq::<(MinuteKey, Seq<u64>)>::empty());
                    assert(current@ =~= seq![latency]);
                    assert(buckets(next) == before.push((minute, seq![latency])));
                }
            }
        }
        i += 1;
    }
    if i > 0 {
        let minute = entries[i - 1].0;
        proof {
            assert(entries@.subrange(0, i as int) =~= entries@);
            closed = closed.push((minute, current@));
        }
        let summary = process_group(minute, &mut current);
        stats.push(summary);
    }
    proof {
        assert(stats@ =~= summaries(entries@));
    }
    stats
}

/// Microseconds in a second.
pub const MICROS_PER_SECOND: u128 = 1_000_000;

/// The last second of the year 9999, counted from the start of 1970.
pub const LAST_SECOND_OF_9999: i64 = 253_402_300_799;

impl MinuteKey {
    /// The five fields as mathematical integers: year, month counted from 0,
    /// day, hour, minute.
    pub open spec fn fields(self) -> (int, int, int, int, int) {
        (self.year as int, self.month0 as int, self.day as int, self.hour as int, self.minute as int)
    }
}

/// The calendar minute, in UTC, of the instant `secs` seconds after the start
/// of 1970, as `chrono::DateTime::from_timestamp` places it: year, month
/// counted from 0, day, hour and minute; `None` for an instant outside the
/// years that chrono can name.
pub uninterp spec fn utc_minute(secs: int) -> Option<(int, int, int, int, int)>;

/// `chrono::DateTime::from_timestamp` with no nanoseconds, read through
/// `year`, `month0`, `day`, `hour` and `minute`. The result is the named
/// calendar minute of `secs`. It exists for every instant from 1970 to the
/// end of the year 9999, which lies well inside chrono's range of years. The
/// hour and the minute are those of the second of the day, `secs` modulo
/// 86400, since chrono counts no leap seconds here.
#[verifier::external_body]
fn utc_minute_of(secs: i64) -> (minute: Option<MinuteKey>)
    ensures
        minute matches Some(key) ==> utc_minute(secs as int) == Some(key.fields()),
        minute is None ==> utc_minute(secs as int) is None,
        0 <= secs <= LAST_SECOND_OF_9999 ==> minute is Some,
        minute matches Some(key) ==> key.hour == (secs as int % 86_400) / 3_600 && key.minute == ((
            secs as int % 86_400) / 60) % 60,
{
    match DateTime::from_timestamp(secs, 0) {
        Some(at) => Some(
            MinuteKey {
                year: at.year(),
                month0: at.month0(),
                day: at.day(),
                hour: at.hour(),
                minute: at.minute(),
            },
        ),
        None => None,
    }
}

/// The calendar minute in which a probe was sent at `sent_at` microseconds:
/// the whole seconds are placed in the calendar and the rest is dropped.
/// There is none for a time that the calendar cannot name.
pub open spec fn minute_of(sent_at: u128) -> Option<MinuteKey> {
    let secs = sent_at / MICROS_PER_SECOND;
    if secs > i64::MAX {
        None
    } else {
        match utc_minute(secs as int) {
            Some(fields) => Some(
                MinuteKey {
                    year: fields.0 as i32,
                    month0: fields.1 as u32,
                    day: fields.2 as u32,
                    hour: fields.3 as u32,
                    minute: fields.4 as u32,
                },
            ),
            None => None,
        }
    }
}

/// The calendar minute in which a probe was sent. Every time up to the end
/// of the year 9999 has one, and its hour and minute are those of the second
/// of the day.
pub fn minute_key(sent_at: u128) -> (minute: Option<MinuteKey>)
    ensures
        minute == minute_of(sent_at),
        sent_at / MICROS_PER_SECOND <= LAST_SECOND_OF_9999 ==> minute is Some,
        minute matches Some(key) ==> {
            &&& key.hour == ((sent_at / MICROS_PER_SECOND) % 86_400) / 3_600
            &&& key.minute == (((sent_at / MICROS_PER_SECOND) % 86_400) / 60) % 60
        },
{
    let secs: u128 = sent_at / MICROS_PER_SECOND;
    if secs > i64::MAX as u128 {
        None
    } else {
        utc_minute_of(secs as i64)
    }
}

/// The history with the minute of each entry in place of its send time;
/// `None` where some entry was sent at a time that the calendar cannot name.
pub open spec fn keyed(history: Seq<(u128, u64)>) -> Option<Seq<(MinuteKey, u64)>> {
    if forall|i: int| 0 <= i < history.len() ==> minute_of((#[trigger] history[i]).0) is Some {
        Some(Seq::new(history.len(), |i: int| (minute_of(history[i].0).unwrap(), history[i].1)))
    } else {
        None
    }
}

/// The report of a history of send times and latencies, oldest first.
pub open spec fn report_of(history: Seq<(u128, u64)>) -> Option<Seq<MinuteStats>> {
    match keyed(history) {
        Some(entries) => Some(summaries(entries)),
        None => None,
    }
}

/// A report as a mathematical value.
pub open spec fn report_view(report: Option<Vec<MinuteStats>>) -> Option<Seq<MinuteStats>> {
    match report {
        Some(stats) => Some(stats@),
        None => None,
    }
}

/// The report is a function of the history alone: two reports of one
/// history are the same.
pub proof fn lemma_report_repeatable(
    history: Seq<(u128, u64)>,
    first: Option<Vec<MinuteStats>>,
    second: Option<Vec<MinuteStats>>,
)
    requires
        report_view(first) == report_of(history),
        report_view(second) == report_of(history),
    ensures
        report_view(first) == report_view(second),
{
}

/// Places each entry of the history in its calendar minute.
pub fn key_history(history: &Vec<(u128, u64)>) -> (entries: Option<Vec<(MinuteKey, u64)>>)
    ensures
        match entries {
            Some(entries) => keyed(history@) == Some(entries@),
            None => keyed(history@) is None,
        },
        (forall|i: int|
            0 <= i < history@.len() ==> (#[trigger] history@[i]).0 / MICROS_PER_SECOND
                <= LAST_SECOND_OF_9999) ==> entries is Some,
{
    let mut entries: Vec<(MinuteKey, u64)> = Vec::new();
    let mut i: usize = 0;
    while i < history.len()
        invariant
            i <= history@.len(),
            entries@.len() == i,
            forall|k: int|
                0 <= k < i ==> minute_of((#[trigger] history@[k]).0) == Some(entries@[k].0)
                    && entries@[k].1 == history@[k].1,
        decreases history@.len() - i,
    {
        let (sent_at, latency) = history[i];
        match minute_key(sent_at) {
            Some(minute) => {
                entries.push((minute, latency));
            },
            None => {
                assert(minute_of(history@[i as int].0) is None);
                return None;
            },
        }
        i += 1;
    }
    proof {
        assert(entries@ =~= keyed(history@).unwrap());
    }
    Some(entries)
}

/// Summarises a history of send times and latencies, oldest first: the
/// smallest, largest and median latency of each run of entries sent in one
/// calendar minute. There is no report where some entry was sent at a time
/// that the calendar cannot name; every time up to the end of the year 9999
/// can be named.
pub fn group_by_minute(history: &Vec<(u128, u64)>) -> (report: Option<Vec<MinuteStats>>)
    ensures
        report_view(report) == report_of(history@),
        (forall|i: int|
            0 <= i < history@.len() ==> (#[trigger] history@[i]).0 / MICROS_PER_SECOND
                <= LAST_SECOND_OF_9999) ==> report is Some,
{
    match key_history(history) {
        Some(entries) => Some(group_by_key(&entries)),
        None => None,
    }
}

} // verus!
