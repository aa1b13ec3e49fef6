//! Clocks of browsers, spans of activity, and usage by the day.

use crate::collections::StrMap;
use crate::types::{capped, lemma_total_push, total, DailyBucket, Hours};
use vstd::hash_set::StringHashSet;
use vstd::prelude::*;

verus! {

/// Division that cuts the fraction off, towards zero.
pub open spec fn cut_div(a: int, b: int) -> int {
    if a >= 0 {
        a / b
    } else {
        -((-a) / b)
    }
}

/// A division that cuts off goes as often as it can without going past the number, on either side
/// of zero.
pub proof fn law_division_cuts_off(a: int, b: int)
    requires
        b > 0,
    ensures
        a >= 0 ==> cut_div(a, b) * b <= a < (cut_div(a, b) + 1) * b,
        a <= 0 ==> (cut_div(a, b) - 1) * b < a <= cut_div(a, b) * b,
{
    if a >= 0 {
        vstd::arithmetic::div_mod::lemma_fundamental_div_mod(a, b);
        assert(a / b * b <= a < (a / b + 1) * b) by (nonlinear_arith)
            requires
                a == b * (a / b) + a % b,
                0 <= a % b < b,
        ;
    } else {
        let n = -a;
        vstd::arithmetic::div_mod::lemma_fundamental_div_mod(n, b);
        assert(n / b * b <= n < (n / b + 1) * b) by (nonlinear_arith)
            requires
                n == b * (n / b) + n % b,
                0 <= n % b < b,
        ;
        assert((-(n / b)) * b == -(n / b * b)) by (nonlinear_arith);
        assert((-(n / b) - 1) * b == -((n / b + 1) * b)) by (nonlinear_arith);
    }
    if a == 0 {
        assert((0 - 1) * b == -b) by (nonlinear_arith);
        assert(0int / b == 0) by (nonlinear_arith)
            requires
                b > 0,
        ;
    }
}

/// Microseconds as whole seconds, the fraction cut off.
fn micros_to_seconds(micros: i64) -> (r: i64)
    ensures
        r == cut_div(micros as int, 1_000_000),
        -9_223_372_036_855 <= r <= 9_223_372_036_855,
{
    if micros >= 0 {
        micros / 1_000_000
    } else if micros == i64::MIN {
        -9_223_372_036_854
    } else {
        -((-micros) / 1_000_000)
    }
}

/// Chrome counts microseconds since 1601-01-01: the Unix time of such an instant.
pub fn chrome_time_to_unix(chrome_time: i64) -> (r: i64)
    ensures
        r == cut_div(chrome_time as int, 1_000_000) - 11_644_473_600,
{
    micros_to_seconds(chrome_time) - 11_644_473_600
}

/// Firefox counts microseconds since 1970-01-01: the Unix time of such an instant.
pub fn firefox_time_to_unix(firefox_time: i64) -> (r: i64)
    ensures
        r == cut_div(firefox_time as int, 1_000_000),
{
    micros_to_seconds(firefox_time)
}

/// Whether times stand in order.
pub open spec fn is_sorted(times: Seq<i64>) -> bool {
    forall|i: int, j: int| 0 <= i <= j < times.len() ==> times[i] <= times[j]
}

/// The stretches of activity in a list of times. A gap of more than `threshold` seconds
/// ends one stretch and starts the next.
pub open spec fn segments(times: Seq<i64>, threshold: i64) -> Seq<(i64, i64)>
    decreases times.len(),
{
    if times.len() == 0 {
        Seq::empty()
    } else if times.len() == 1 {
        seq![(times[0], times[0])]
    } else {
        let earlier = segments(times.drop_last(), threshold);
        if times.last() - times[times.len() - 2] > threshold {
            earlier.push((times.last(), times.last()))
        } else {
            earlier.update(earlier.len() - 1, (earlier.last().0, times.last()))
        }
    }
}

/// The number of gaps of more than `threshold` seconds.
pub open spec fn gaps(times: Seq<i64>, threshold: i64) -> nat
    decreases times.len(),
{
    if times.len() < 2 {
        0
    } else {
        gaps(times.drop_last(), threshold) + if times.last() - times[times.len() - 2] > threshold {
            1nat
        } else {
            0
        }
    }
}

/// The summed length of some stretches.
pub open spec fn summed_length(stretches: Seq<(i64, i64)>) -> int
    decreases stretches.len(),
{
    if stretches.len() == 0 {
        0
    } else {
        summed_length(stretches.drop_last()) + (stretches.last().1 - stretches.last().0)
    }
}

/// Seconds of activity in a list of times: the lengths of its stretches, at least a minute
/// where there was any activity at all.
pub open spec fn active_seconds(times: Seq<i64>, threshold: i64) -> int {
    if times.len() == 0 {
        0
    } else if summed_length(segments(times, threshold)) < 60 {
        60
    } else {
        summed_length(segments(times, threshold))
    }
}

/// Times that are not empty have one stretch more than they have gaps; the stretches run from
/// the first time to the last.
pub proof fn law_segments_span_times(times: Seq<i64>, threshold: i64)
    requires
        times.len() > 0,
    ensures
        segments(times, threshold).len() == gaps(times, threshold) + 1,
        segments(times, threshold)[0].0 == times[0],
        segments(times, threshold).last().1 == times.last(),
    decreases times.len(),
{
    if times.len() > 1 {
        law_segments_span_times(times.drop_last(), threshold);
    }
}

/// Between one stretch and the next lies a gap of more than the threshold, and every stretch
/// starts and ends at a time of the list.
pub proof fn law_segments_lie_apart(times: Seq<i64>, threshold: i64)
    ensures
        forall|i: int|
            0 <= i < segments(times, threshold).len() - 1 ==> segments(times, threshold)[i + 1].0
                - (#[trigger] segments(times, threshold)[i]).1 > threshold,
        forall|i: int|
            0 <= i < segments(times, threshold).len() ==> times.contains(
                (#[trigger] segments(times, threshold)[i]).0,
            ) && times.contains(segments(times, threshold)[i].1),
    decreases times.len(),
{
    let all = segments(times, threshold);
    if times.len() == 1 {
        assert(times.contains(times[0]));
    } else if times.len() > 1 {
        let before = times.drop_last();
        let earlier = segments(before, threshold);
        law_segments_lie_apart(before, threshold);
        law_segments_span_times(before, threshold);
        assert forall|i: int| 0 <= i < all.len() implies times.contains((#[trigger] all[i]).0)
            && times.contains(all[i].1) by {
            assert(times.contains(times.last())) by {
                assert(times[times.len() - 1] == times.last());
            }
            if i < earlier.len() {
                assert(before.contains(earlier[i].0) && before.contains(earlier[i].1));
                let a = before.index_of(earlier[i].0);
                let b = before.index_of(earlier[i].1);
                assert(times[a] == earlier[i].0);
                assert(times[b] == earlier[i].1);
            }
        }
        assert forall|i: int| 0 <= i < all.len() - 1 implies all[i + 1].0 - (#[trigger] all[i]).1
            > threshold by {
            if i + 1 < earlier.len() {
                assert(earlier[i + 1].0 - earlier[i].1 > threshold);
            }
        }
    }
}

proof fn lemma_summed_length_last(stretches: Seq<(i64, i64)>, last: (i64, i64))
    ensures
        summed_length(stretches.push(last)) == summed_length(stretches) + (last.1 - last.0),
{
    assert(stretches.push(last).drop_last() =~= stretches);
}

/// The activity in a sorted list of times never exceeds the span from the first to the last.
pub proof fn law_active_within_span(times: Seq<i64>, threshold: i64)
    requires
        times.len() > 0,
        is_sorted(times),
    ensures
        0 <= summed_length(segments(times, threshold)) <= times.last() - times[0],
        segments(times, threshold).last().0 <= times.last(),
    decreases times.len(),
{
    let all = segments(times, threshold);
    if times.len() == 1 {
        assert(all.drop_last() =~= Seq::empty());
        assert(summed_length(all.drop_last()) == 0);
    } else {
        let before = times.drop_last();
        let earlier = segments(before, threshold);
        law_active_within_span(before, threshold);
        law_segments_span_times(before, threshold);
        assert(times[times.len() - 2] <= times.last());
        if times.last() - times[times.len() - 2] > threshold {
            lemma_summed_length_last(earlier, (times.last(), times.last()));
        } else {
            assert(all.drop_last() =~= earlier.drop_last());
        }
    }
}

/// The sessions in a sorted list of times: their number, and the first and last time of each.
/// A gap of more than the threshold separates two sessions.
pub fn count_sessions(timestamps: &[i64], threshold_seconds: i64) -> (r: (u64, Vec<(i64, i64)>))
    ensures
        r.1@ == segments(timestamps@, threshold_seconds),
        r.0 == r.1@.len(),
        timestamps@.len() > 0 ==> r.0 == gaps(timestamps@, threshold_seconds) + 1,
{
    let mut sessions: Vec<(i64, i64)> = Vec::new();
    if timestamps.len() == 0 {
        return (0, sessions);
    }
    let mut segment_start: i64 = timestamps[0];
    let mut prev: i64 = timestamps[0];
    let mut i: usize = 1;
    proof {
        assert(timestamps@.take(1) =~= seq![timestamps@[0]]);
        assert(sessions@.push((segment_start, prev)) =~= segments(
            timestamps@.take(1),
            threshold_seconds,
        ));
    }
    while i < timestamps.len()
        invariant
            1 <= i <= timestamps@.len(),
            prev == timestamps@[i - 1],
            sessions@.push((segment_start, prev)) == segments(
                timestamps@.take(i as int),
                threshold_seconds,
            ),
        decreases timestamps@.len() - i,
    {
        let ts: i64 = timestamps[i];
        let ghost known = sessions@.push((segment_start, prev));
        proof {
            assert(timestamps@.take(i + 1).drop_last() =~= timestamps@.take(i as int));
        }
        if ts as i128 - prev as i128 > threshold_seconds as i128 {
            sessions.push((segment_start, prev));
            segment_start = ts;
        }
        prev = ts;
        i += 1;
        proof {
            assert(sessions@.push((segment_start, prev)) =~= segments(
                timestamps@.take(i as int),
                threshold_seconds,
            ));
        }
    }
    sessions.push((segment_start, prev));
    proof {
        assert(timestamps@.take(i as int) =~= timestamps@);
        law_segments_span_times(timestamps@, threshold_seconds);
    }
    (sessions.len() as u64, sessions)
}

/// The time that a person was active, from a sorted list of Unix times. A gap of more than
/// the threshold starts a new stretch of activity; any activity counts for at least a minute.
pub fn active_hours_from_timestamps(timestamps: &[i64], threshold_seconds: i64) -> (r: Hours)
    requires
        is_sorted(timestamps@),
    ensures
        r.seconds == active_seconds(timestamps@, threshold_seconds),
{
    if timestamps.len() == 0 {
        return Hours { seconds: 0 };
    }
    let mut total: i128 = 0;
    let mut segment_start: i64 = timestamps[0];
    let mut prev: i64 = timestamps[0];
    let mut i: usize = 1;
    proof {
        assert(timestamps@.take(1) =~= seq![timestamps@[0]]);
        assert(segments(timestamps@.take(1), threshold_seconds).drop_last() =~= Seq::empty());
    }
    while i < timestamps.len()
        invariant
            1 <= i <= timestamps@.len(),
            is_sorted(timestamps@),
            prev == timestamps@[i - 1],
            segment_start == segments(timestamps@.take(i as int), threshold_seconds).last().0,
            total == summed_length(
                segments(timestamps@.take(i as int), threshold_seconds).drop_last(),
            ),
        decreases timestamps@.len() - i,
    {
        let ts: i64 = timestamps[i];
        proof {
            let now = timestamps@.take(i as int);
            let next = timestamps@.take(i + 1);
            assert(next.drop_last() =~= now);
            law_active_within_span(now, threshold_seconds);
            law_segments_span_times(now, threshold_seconds);
            assert(segments(next, threshold_seconds).drop_last() =~= if ts - prev
                > threshold_seconds {
                segments(now, threshold_seconds)
            } else {
                segments(now, threshold_seconds).drop_last()
            });
        }
        if ts as i128 - prev as i128 > threshold_seconds as i128 {
            total = total + (prev as i128 - segment_start as i128);
            segment_start = ts;
        }
        prev = ts;
        i += 1;
    }
    proof {
        assert(timestamps@.take(i as int) =~= timestamps@);
        law_active_within_span(timestamps@, threshold_seconds);
        law_segments_span_times(timestamps@, threshold_seconds);
    }
    total = total + (prev as i128 - segment_start as i128);
    if total < 60 {
        Hours { seconds: 60 }
    } else {
        Hours { seconds: total as u128 }
    }
}

/// Times in ascending order.
pub open spec fn sorted_times(times: Seq<i64>) -> Seq<i64> {
    times.sort_by(|a: i64, b: i64| a <= b)
}

/// Sorting gives the times in order, each as often as before.
pub proof fn lemma_sorted_times(times: Seq<i64>)
    ensures
        is_sorted(sorted_times(times)),
        sorted_times(times).to_multiset() == times.to_multiset(),
        sorted_times(times).len() == times.len(),
{
    let leq = |a: i64, b: i64| a <= b;
    times.lemma_sort_by_ensures(leq);
    let s = sorted_times(times);
    assert forall|i: int, j: int| 0 <= i <= j < s.len() implies s[i] <= s[j] by {
        if i < j {
            assert(leq(s[i], s[j]));
        }
    }
    times.to_multiset_ensures();
    s.to_multiset_ensures();
}

proof fn lemma_sorted_times_unique(times: Seq<i64>, sorted: Seq<i64>)
    requires
        is_sorted(sorted),
        sorted.to_multiset() == times.to_multiset(),
    ensures
        sorted == sorted_times(times),
{
    let leq = |a: i64, b: i64| a <= b;
    times.lemma_sort_by_ensures(leq);
    assert(vstd::relations::sorted_by(sorted, leq));
    vstd::seq_lib::lemma_sorted_unique(sorted, sorted_times(times), leq);
}

/// Calls `sort_unstable` of a slice of `i64`.
///
/// Claims that the times are in ascending order afterwards, each as often as before.
#[verifier::external_body]
fn sort_in_place(times: &mut Vec<i64>)
    ensures
        is_sorted(final(times)@),
        final(times)@.to_multiset() == old(times)@.to_multiset(),
{
    times.sort_unstable()
}

/// A sorted copy of some times.
pub fn sort_times(times: &[i64]) -> (r: Vec<i64>)
    ensures
        r@ == sorted_times(times@),
        is_sorted(r@),
{
    let mut r: Vec<i64> = Vec::new();
    let mut i: usize = 0;
    while i < times.len()
        invariant
            i <= times@.len(),
            r@ == times@.take(i as int),
        decreases times@.len() - i,
    {
        r.push(times[i]);
        i += 1;
        assert(r@ =~= times@.take(i as int));
    }
    assert(r@ =~= times@);
    sort_in_place(&mut r);
    proof {
        lemma_sorted_times_unique(times@, r@);
    }
    r
}

/// The time between neighbours of a list, added up over those that are at most `most` seconds
/// apart.
pub open spec fn short_gaps(times: Seq<i64>, most: int) -> int
    decreases times.len(),
{
    if times.len() < 2 {
        0
    } else {
        let gap = times.last() - times[times.len() - 2];
        short_gaps(times.drop_last(), most) + if gap <= most {
            gap
        } else {
            0
        }
    }
}

/// What some times come to where breaks of up to half an hour count as activity: the gaps of at
/// most 1800 seconds between neighbours, a minute where that is less, nothing without any time.
pub open spec fn half_hour_activity(times: Seq<i64>) -> int {
    let gaps = short_gaps(sorted_times(times), 1800);
    if times.len() == 0 {
        0
    } else if gaps < 60 {
        60
    } else {
        gaps
    }
}

/// No gap of more than the threshold counts as activity, and every other does: the stretches of a
/// list add up to its short gaps, whatever the order of its times.
pub proof fn law_stretches_are_short_gaps(times: Seq<i64>, threshold: i64)
    ensures
        summed_length(segments(times, threshold)) == short_gaps(times, threshold as int),
    decreases times.len(),
{
    let all = segments(times, threshold);
    if times.len() == 1 {
        assert(all.drop_last() =~= Seq::empty());
        assert(summed_length(all.drop_last()) == 0);
    } else if times.len() > 1 {
        let before = times.drop_last();
        let earlier = segments(before, threshold);
        law_stretches_are_short_gaps(before, threshold);
        law_segments_span_times(before, threshold);
        if times.last() - times[times.len() - 2] > threshold {
            lemma_summed_length_last(earlier, (times.last(), times.last()));
        } else {
            assert(all.drop_last() =~= earlier.drop_last());
        }
    }
}

/// The activity in a list of times is what its short gaps add up to, at least a minute, and nothing
/// for no times.
pub proof fn law_activity_is_short_gaps(times: Seq<i64>, threshold: i64)
    ensures
        times.len() == 0 ==> active_seconds(times, threshold) == 0,
        times.len() > 0 && short_gaps(times, threshold as int) < 60 ==> active_seconds(
            times,
            threshold,
        ) == 60,
        times.len() > 0 && short_gaps(times, threshold as int) >= 60 ==> active_seconds(
            times,
            threshold,
        ) == short_gaps(times, threshold as int),
{
    law_stretches_are_short_gaps(times, threshold);
}

/// Activity with breaks of up to half an hour fits in machine words.
pub proof fn lemma_half_hour(times: Seq<i64>)
    ensures
        active_seconds(sorted_times(times), 1800) == half_hour_activity(times),
        0 <= half_hour_activity(times) <= 0xffff_ffff_ffff_ffff,
{
    lemma_sorted_times(times);
    law_activity_is_short_gaps(sorted_times(times), 1800);
    if times.len() > 0 {
        law_active_within_span(sorted_times(times), 1800);
    }
}

/// The earliest of some times.
pub open spec fn first_time(times: Seq<i64>) -> Option<i64> {
    if times.len() == 0 {
        None
    } else {
        Some(sorted_times(times)[0])
    }
}

/// The latest of some times.
pub open spec fn last_time(times: Seq<i64>) -> Option<i64> {
    if times.len() == 0 {
        None
    } else {
        Some(sorted_times(times).last())
    }
}

/// The earliest and the latest time are in the list and bound it.
pub proof fn law_first_and_last_time(times: Seq<i64>)
    requires
        times.len() > 0,
    ensures
        times.contains(first_time(times)->0),
        times.contains(last_time(times)->0),
        forall|i: int|
            0 <= i < times.len() ==> first_time(times)->0 <= #[trigger] times[i] <= last_time(
                times,
            )->0,
{
    lemma_sorted_times(times);
    let s = sorted_times(times);
    times.to_multiset_ensures();
    s.to_multiset_ensures();
    assert(s.to_multiset().count(s[0]) > 0) by {
        assert(s.contains(s[0]));
    }
    assert(s.to_multiset().count(s.last()) > 0) by {
        assert(s.contains(s[s.len() - 1]));
    }
    assert forall|i: int| 0 <= i < times.len() implies first_time(times)->0 <= #[trigger] times[i]
        <= last_time(times)->0 by {
        assert(times.contains(times[i]));
        assert(s.to_multiset().count(times[i]) > 0);
        assert(s.contains(times[i]));
        let k = s.index_of(times[i]);
        assert(s[k] == times[i]);
    }
}

/// The active time in a list of times, with breaks of up to half an hour, and the first and the
/// last of them.
pub(crate) fn time_range(times: &[i64]) -> (r: (Hours, Option<i64>, Option<i64>))
    ensures
        r.0.seconds == active_seconds(sorted_times(times@), 1800),
        r.1 == first_time(times@),
        r.2 == last_time(times@),
{
    let sorted = sort_times(times);
    let hours = active_hours_from_timestamps(sorted.as_slice(), 1800);
    proof {
        lemma_sorted_times(times@);
    }
    if sorted.len() == 0 {
        (hours, None, None)
    } else {
        (hours, Some(sorted[0]), Some(sorted[sorted.len() - 1]))
    }
}

/// The Unix time that `chrono` reads out of an RFC 3339 date and time.
pub uninterp spec fn rfc3339_seconds(text: Seq<char>) -> Option<i64>;

/// Calls `chrono::DateTime::parse_from_rfc3339` and takes the timestamp of the result.
///
/// Claims that whether the text is read, and the time it is read as, depend on the text alone.
#[verifier::external_body]
fn read_rfc3339(text: &str) -> (r: Option<i64>)
    ensures
        r == rfc3339_seconds(text@),
{
    chrono::DateTime::parse_from_rfc3339(text).ok().map(|dt| dt.timestamp())
}

/// The Unix time that `chrono` reads out of a date and time in UTC, laid out as `layout` says.
pub uninterp spec fn utc_seconds(text: Seq<char>, layout: Seq<char>) -> Option<i64>;

/// Calls `chrono::NaiveDateTime::parse_from_str`, takes the result for UTC and takes its
/// timestamp.
///
/// Claims that whether the text is read, and the time it is read as, depend on the text and the
/// layout alone.
#[verifier::external_body]
pub(crate) fn read_utc(text: &str, layout: &str) -> (r: Option<i64>)
    ensures
        r == utc_seconds(text@, layout@),
{
    chrono::NaiveDateTime::parse_from_str(text, layout).ok().map(|dt| dt.and_utc().timestamp())
}

/// The first of two results, or the second where there is no first.
pub open spec fn either<T>(first: Option<T>, second: Option<T>) -> Option<T> {
    if first is Some {
        first
    } else {
        second
    }
}

/// The Unix time of an ISO 8601 date and time with its zone.
pub open spec fn iso_seconds(text: Seq<char>) -> Option<i64> {
    either(rfc3339_seconds(text), utc_seconds(text, "%Y-%m-%dT%H:%M:%S%.fZ"@))
}

/// A date in the form of RFC 3339 is read as such. Any other is read in UTC, if it ends in `Z` and is
/// laid out as an ISO 8601 date and time; else it is no date.
pub proof fn law_dates_are_read_by_zone(text: Seq<char>)
    ensures
        rfc3339_seconds(text) is Some ==> iso_seconds(text) == rfc3339_seconds(text),
        rfc3339_seconds(text) is None ==> iso_seconds(text) == utc_seconds(
            text,
            "%Y-%m-%dT%H:%M:%S%.fZ"@,
        ),
{
}

/// The Unix time of an ISO 8601 date and time with its zone: in the form of RFC 3339, or in UTC
/// with a `Z` at its end, where numbers may be shorter than RFC 3339 has them.
pub fn iso8601_to_unix(ts: &str) -> (r: Option<i64>)
    ensures
        r == iso_seconds(ts@),
{
    match read_rfc3339(ts) {
        Some(seconds) => Some(seconds),
        None => read_utc(ts, "%Y-%m-%dT%H:%M:%S%.fZ"),
    }
}

/// The date ("YYYY-MM-DD") that `chrono` gives to a day, counted from 1970-01-01.
pub uninterp spec fn date_of_day(day: int) -> Option<Seq<char>>;

/// The UTC date of a Unix time, where it has one.
pub open spec fn utc_date(ts: i64) -> Option<Seq<char>> {
    date_of_day(ts as int / 86_400)
}

/// Calls `chrono::DateTime::from_timestamp` and writes the result with the layout `%Y-%m-%d`.
///
/// Claims that there is a date, and which, depends on the day alone that the time falls on.
#[verifier::external_body]
pub(crate) fn day_of(ts: i64) -> (r: Option<String>)
    ensures
        crate::text::text_opt(r) == date_of_day(ts as int / 86_400),
{
    chrono::DateTime::from_timestamp(ts, 0).map(|dt| dt.format("%Y-%m-%d").to_string())
}

/// The times of a list that fall on a date.
pub open spec fn times_on(times: Seq<i64>, date: Seq<char>) -> Seq<i64> {
    times.filter(|ts: i64| utc_date(ts) == Some(date))
}

/// Unix times by the UTC date ("YYYY-MM-DD") that they fall on.
pub fn group_by_day(timestamps: &[i64]) -> (r: StrMap<Vec<i64>>)
    ensures
        r.wf(),
        forall|date: Seq<char>| #[trigger]
            r@.contains_key(date) <==> times_on(timestamps@, date).len() > 0,
        forall|date: Seq<char>| #[trigger]
            r@.contains_key(date) ==> r@[date]@ == times_on(timestamps@, date),
{
    let mut out: StrMap<Vec<i64>> = StrMap::new();
    let mut i: usize = 0;
    proof {
        reveal(Seq::filter);
    }
    while i < timestamps.len()
        invariant
            i <= timestamps@.len(),
            out.wf(),
            forall|date: Seq<char>| #[trigger]
                out@.contains_key(date) <==> times_on(timestamps@.take(i as int), date).len() > 0,
            forall|date: Seq<char>| #[trigger]
                out@.contains_key(date) ==> out@[date]@ == times_on(timestamps@.take(i as int), date),
        decreases timestamps@.len() - i,
    {
        let ts: i64 = timestamps[i];
        let ghost before = timestamps@.take(i as int);
        proof {
            assert(timestamps@.take(i + 1) =~= before.push(ts));
            assert forall|date: Seq<char>| #[trigger]
                times_on(before.push(ts), date) == if utc_date(ts) == Some(date) {
                    times_on(before, date).push(ts)
                } else {
                    times_on(before, date)
                } by {
                before.lemma_filter_push(ts, |t: i64| utc_date(t) == Some(date));
            }
        }
        if let Some(day) = day_of(ts) {
            match out.position(day.as_str()) {
                Some(k) => {
                    out.value_mut(k).push(ts);
                },
                None => {
                    let mut list: Vec<i64> = Vec::new();
                    list.push(ts);
                    proof {
                        assert(times_on(before, day@) =~= Seq::empty());
                        assert(list@ =~= times_on(before, day@).push(ts));
                    }
                    out.insert(day, list);
                },
            }
        }
        i += 1;
    }
    assert(timestamps@.take(i as int) =~= timestamps@);
    out
}

/// 2000-01-01 in UTC. An event before it comes from a clock that was never set.
pub const MIN_REASONABLE_TS: i64 = 946_684_800;

/// Something that happened: when, at the cost of how many tokens, and in which session.
#[verifier::ext_equal]
pub ghost struct DayEvent {
    pub ts: i64,
    pub tokens: u64,
    pub session: Option<Seq<char>>,
}

/// The events that a list of tuples stands for.
pub open spec fn day_events(events: Seq<(i64, u64, Option<String>)>) -> Seq<DayEvent> {
    events.map_values(
        |e: (i64, u64, Option<String>)|
            DayEvent { ts: e.0, tokens: e.1, session: crate::text::text_opt(e.2) },
    )
}

/// Every event is read, in order and as it is.
pub proof fn law_every_event_is_read(events: Seq<(i64, u64, Option<String>)>, i: int)
    requires
        0 <= i < events.len(),
    ensures
        day_events(events).len() == events.len(),
        day_events(events)[i].ts == events[i].0,
        day_events(events)[i].tokens == events[i].1,
        day_events(events)[i].session is Some == events[i].2 is Some,
        events[i].2 matches Some(s) ==> day_events(events)[i].session == Some(s@),
{
}

/// The events on a date, without those before `floor`.
pub open spec fn events_on(events: Seq<DayEvent>, floor: i64, date: Seq<char>) -> Seq<DayEvent> {
    events.filter(|e: DayEvent| e.ts >= floor && utc_date(e.ts) == Some(date))
}

/// The tokens of some events.
pub open spec fn tokens_of(events: Seq<DayEvent>) -> nat
    decreases events.len(),
{
    if events.len() == 0 {
        0
    } else {
        tokens_of(events.drop_last()) + events.last().tokens as nat
    }
}

/// The sessions that some events name.
pub open spec fn sessions_of(events: Seq<DayEvent>) -> Set<Seq<char>>
    decreases events.len(),
{
    if events.len() == 0 {
        Set::empty()
    } else {
        match events.last().session {
            Some(s) => sessions_of(events.drop_last()).insert(s),
            None => sessions_of(events.drop_last()),
        }
    }
}

/// The times of some events.
pub open spec fn times_of(events: Seq<DayEvent>) -> Seq<i64> {
    events.map_values(|e: DayEvent| e.ts)
}

/// A session belongs to some events exactly if one of them names it; there are finitely many.
pub proof fn lemma_sessions_of(events: Seq<DayEvent>)
    ensures
        sessions_of(events).finite(),
        sessions_of(events).len() <= events.len(),
        forall|s: Seq<char>| #[trigger]
            sessions_of(events).contains(s) <==> exists|i: int|
                0 <= i < events.len() && (#[trigger] events[i]).session == Some(s),
    decreases events.len(),
{
    if events.len() > 0 {
        let before = events.drop_last();
        lemma_sessions_of(before);
        assert forall|s: Seq<char>| #[trigger] sessions_of(events).contains(s) implies exists|i: int|
            0 <= i < events.len() && (#[trigger] events[i]).session == Some(s) by {
            if events.last().session == Some(s) {
                assert(events[events.len() - 1].session == Some(s));
            } else {
                assert(sessions_of(before).contains(s));
                let i = choose|i: int|
                    0 <= i < before.len() && (#[trigger] before[i]).session == Some(s);
                assert(events[i].session == Some(s));
            }
        }
        assert forall|s: Seq<char>|
            (exists|i: int| 0 <= i < events.len() && (#[trigger] events[i]).session == Some(
                s,
            )) implies #[trigger] sessions_of(events).contains(s) by {
            let i = choose|i: int|
                0 <= i < events.len() && (#[trigger] events[i]).session == Some(s);
            if i < before.len() {
                assert(before[i].session == Some(s));
            }
        }
    }
}

/// The usage on a day on which some events happened; its hours where they are asked for.
pub open spec fn bucket_of(events: Seq<DayEvent>, timed: bool) -> DailyBucket {
    DailyBucket {
        hours: Hours {
            seconds: if timed {
                active_seconds(sorted_times(times_of(events)), 1800) as u128
            } else {
                0
            },
        },
        tokens: capped(tokens_of(events) as int),
        sessions: sessions_of(events).len() as u64,
        invocations: None,
    }
}

/// Usage by the day, for every date on which there was an event that is not before `floor`.
pub open spec fn bucket_map(events: Seq<DayEvent>, floor: i64, timed: bool) -> Map<
    Seq<char>,
    DailyBucket,
> {
    Map::new(
        |date: Seq<char>| events_on(events, floor, date).len() > 0,
        |date: Seq<char>| bucket_of(events_on(events, floor, date), timed),
    )
}

/// Usage by the day with its hours, from 2000-01-01 on.
pub open spec fn buckets_of(events: Seq<DayEvent>) -> Map<Seq<char>, DailyBucket> {
    bucket_map(events, MIN_REASONABLE_TS, true)
}

/// The events that fall on a date, without those before `floor`.
pub open spec fn dated(events: Seq<DayEvent>, floor: i64) -> Seq<DayEvent> {
    events.filter(|e: DayEvent| e.ts >= floor && utc_date(e.ts) is Some)
}

/// The tokens of some days together.
pub open spec fn bucket_tokens(
    buckets: Map<Seq<char>, DailyBucket>,
    dates: Seq<Seq<char>>,
) -> nat
    decreases dates.len(),
{
    if dates.len() == 0 {
        0
    } else {
        bucket_tokens(buckets, dates.drop_last()) + if buckets.contains_key(dates.last()) {
            buckets[dates.last()].tokens as nat
        } else {
            0
        }
    }
}

/// The tokens of the events on some days together.
spec fn summed_days(events: Seq<DayEvent>, floor: i64, dates: Seq<Seq<char>>) -> nat
    decreases dates.len(),
{
    if dates.len() == 0 {
        0
    } else {
        summed_days(events, floor, dates.drop_last()) + tokens_of(
            events_on(events, floor, dates.last()),
        )
    }
}

/// One more event adds its tokens to the day that it falls on.
proof fn lemma_day_gains(events: Seq<DayEvent>, e: DayEvent, floor: i64, date: Seq<char>)
    ensures
        tokens_of(events_on(events.push(e), floor, date)) == tokens_of(
            events_on(events, floor, date),
        ) + if e.ts >= floor && utc_date(e.ts) == Some(date) {
            e.tokens as nat
        } else {
            0
        },
{
    let before = events_on(events, floor, date);
    events.lemma_filter_push(e, |x: DayEvent| x.ts >= floor && utc_date(x.ts) == Some(date));
    assert(before.push(e).drop_last() =~= before);
}

/// One more event adds its tokens to the days, if its own is among them.
proof fn lemma_days_gain(
    events: Seq<DayEvent>,
    e: DayEvent,
    floor: i64,
    dates: Seq<Seq<char>>,
)
    requires
        dates.no_duplicates(),
    ensures
        summed_days(events.push(e), floor, dates) == summed_days(events, floor, dates) + if e.ts
            >= floor && (utc_date(e.ts) matches Some(d) && dates.contains(d)) {
            e.tokens as nat
        } else {
            0
        },
    decreases dates.len(),
{
    if dates.len() > 0 {
        let rest = dates.drop_last();
        lemma_days_gain(events, e, floor, rest);
        lemma_day_gains(events, e, floor, dates.last());
        if let Some(d) = utc_date(e.ts) {
            if rest.contains(d) {
                let j = rest.index_of(d);
                assert(dates[j] == d);
            } else if dates.contains(d) {
                let j = dates.index_of(d);
                assert(j == dates.len() - 1 || rest[j] == d);
            }
            assert(dates.contains(dates[dates.len() - 1]));
        }
    }
}

/// The days that cover all dates have the tokens of all events with a date.
proof fn lemma_days_cover(events: Seq<DayEvent>, floor: i64, dates: Seq<Seq<char>>)
    requires
        dates.no_duplicates(),
        forall|i: int|
            0 <= i < events.len() && (#[trigger] events[i]).ts >= floor ==> (utc_date(
                events[i].ts,
            ) matches Some(d) ==> dates.contains(d)),
    ensures
        summed_days(events, floor, dates) == tokens_of(dated(events, floor)),
    decreases events.len(),
{
    reveal(Seq::filter);
    if events.len() == 0 {
        assert(dated(events, floor) =~= Seq::empty());
        lemma_no_events(events, floor, dates);
    } else {
        let before = events.drop_last();
        let e = events.last();
        assert(events =~= before.push(e));
        assert forall|i: int| 0 <= i < before.len() && (#[trigger] before[i]).ts >= floor implies (
        utc_date(before[i].ts) matches Some(d) ==> dates.contains(d)) by {
            assert(events[i] == before[i]);
        }
        lemma_days_cover(before, floor, dates);
        lemma_days_gain(before, e, floor, dates);
        before.lemma_filter_push(e, |x: DayEvent| x.ts >= floor && utc_date(x.ts) is Some);
        assert(dated(before, floor).push(e).drop_last() =~= dated(before, floor));
        assert(events[events.len() - 1] == e);
    }
}

/// Without events no day has tokens.
proof fn lemma_no_events(events: Seq<DayEvent>, floor: i64, dates: Seq<Seq<char>>)
    requires
        events.len() == 0,
    ensures
        summed_days(events, floor, dates) == 0,
    decreases dates.len(),
{
    reveal(Seq::filter);
    if dates.len() > 0 {
        lemma_no_events(events, floor, dates.drop_last());
        assert(events_on(events, floor, dates.last()) =~= Seq::empty());
    }
}

/// The buckets of some days have the tokens of the events on them, unless a day has too many.
proof fn lemma_bucket_tokens(events: Seq<DayEvent>, dates: Seq<Seq<char>>)
    requires
        summed_days(events, MIN_REASONABLE_TS, dates) <= u64::MAX,
    ensures
        bucket_tokens(buckets_of(events), dates) == summed_days(events, MIN_REASONABLE_TS, dates),
    decreases dates.len(),
{
    if dates.len() > 0 {
        lemma_bucket_tokens(events, dates.drop_last());
        let on_day = events_on(events, MIN_REASONABLE_TS, dates.last());
        assert(buckets_of(events).contains_key(dates.last()) == (on_day.len() > 0));
    }
}

/// Days share out tokens: over any list that names every day with usage once, the tokens of the
/// days add up to those of all events with a date from 2000-01-01 on.
pub proof fn law_days_share_out_tokens(events: Seq<DayEvent>, dates: Seq<Seq<char>>)
    requires
        dates.no_duplicates(),
        forall|date: Seq<char>| #[trigger]
            buckets_of(events).contains_key(date) ==> dates.contains(date),
        tokens_of(dated(events, MIN_REASONABLE_TS)) <= u64::MAX,
    ensures
        bucket_tokens(buckets_of(events), dates) == tokens_of(dated(events, MIN_REASONABLE_TS)),
{
    let floor = MIN_REASONABLE_TS;
    assert forall|i: int| 0 <= i < events.len() && (#[trigger] events[i]).ts >= floor implies (
    utc_date(events[i].ts) matches Some(d) ==> dates.contains(d)) by {
        if let Some(d) = utc_date(events[i].ts) {
            let p = |x: DayEvent| x.ts >= floor && utc_date(x.ts) == Some(d);
            events.lemma_filter_contains(p, i);
            assert(events_on(events, floor, d).len() > 0);
            assert(buckets_of(events).contains_key(d));
        }
    }
    lemma_days_cover(events, floor, dates);
    lemma_bucket_tokens(events, dates);
}

/// To keep some events, and then to count how often each comes up, is the same the other way round.
proof fn lemma_filter_counts(events: Seq<DayEvent>, keep: spec_fn(DayEvent) -> bool)
    ensures
        events.filter(keep).to_multiset() == events.to_multiset().filter(keep),
    decreases events.len(),
{
    reveal(Seq::filter);
    if events.len() == 0 {
        events.to_multiset_ensures();
        events.filter(keep).to_multiset_ensures();
        assert(events.filter(keep).to_multiset() =~= events.to_multiset().filter(keep));
    } else {
        let before = events.drop_last();
        let e = events.last();
        lemma_filter_counts(before, keep);
        assert(events =~= before.push(e));
        before.lemma_filter_push(e, keep);
        before.to_multiset_ensures();
        before.filter(keep).to_multiset_ensures();
        assert(events.filter(keep).to_multiset() =~= events.to_multiset().filter(keep));
    }
}

/// The tokens of some events are those of one of them and of the others.
proof fn lemma_tokens_without(events: Seq<DayEvent>, j: int)
    requires
        0 <= j < events.len(),
    ensures
        tokens_of(events) == tokens_of(events.remove(j)) + events[j].tokens,
    decreases events.len(),
{
    if j == events.len() - 1 {
        assert(events.remove(j) =~= events.drop_last());
    } else {
        lemma_tokens_without(events.drop_last(), j);
        assert(events.remove(j).drop_last() =~= events.drop_last().remove(j));
        assert(events.remove(j).last() == events.last());
    }
}

/// The same events in another order have the same tokens and the same times.
proof fn lemma_reordered(one: Seq<DayEvent>, other: Seq<DayEvent>)
    requires
        one.to_multiset() == other.to_multiset(),
    ensures
        one.len() == other.len(),
        tokens_of(one) == tokens_of(other),
        times_of(one).to_multiset() == times_of(other).to_multiset(),
    decreases one.len(),
{
    one.to_multiset_ensures();
    other.to_multiset_ensures();
    if one.len() == 0 {
        assert(times_of(one) =~= times_of(other));
    } else {
        let last = one.len() - 1;
        let e = one[last];
        assert(one.contains(e));
        assert(one.to_multiset().count(e) > 0);
        let j = other.index_of(e);
        lemma_tokens_without(one, last);
        lemma_tokens_without(other, j);
        lemma_reordered(one.remove(last), other.remove(j));
        let rest_one = times_of(one.remove(last));
        let rest_other = times_of(other.remove(j));
        vstd::seq_lib::to_multiset_insert(rest_one, last, e.ts);
        vstd::seq_lib::to_multiset_insert(rest_other, j, e.ts);
        assert(rest_one.insert(last, e.ts) =~= times_of(one));
        assert(rest_other.insert(j, e.ts) =~= times_of(other));
    }
}

/// The same events in another order name the same sessions.
proof fn lemma_reordered_sessions(one: Seq<DayEvent>, other: Seq<DayEvent>)
    requires
        one.to_multiset() == other.to_multiset(),
    ensures
        sessions_of(one) == sessions_of(other),
{
    one.to_multiset_ensures();
    other.to_multiset_ensures();
    lemma_sessions_of(one);
    lemma_sessions_of(other);
    assert forall|s: Seq<char>| sessions_of(one).contains(s) <==> sessions_of(other).contains(s) by {
        if sessions_of(one).contains(s) {
            let i = choose|i: int| 0 <= i < one.len() && (#[trigger] one[i]).session == Some(s);
            assert(one.contains(one[i]));
            assert(other.to_multiset().count(one[i]) > 0);
            let j = other.index_of(one[i]);
            assert(other[j].session == Some(s));
        }
        if sessions_of(other).contains(s) {
            let i = choose|i: int| 0 <= i < other.len() && (#[trigger] other[i]).session == Some(s);
            assert(other.contains(other[i]));
            assert(one.to_multiset().count(other[i]) > 0);
            let j = one.index_of(other[i]);
            assert(one[j].session == Some(s));
        }
    }
    assert(sessions_of(one) =~= sessions_of(other));
}

/// Days are free of order: the same events in another order give the same usage by the day.
pub proof fn law_days_free_of_order(one: Seq<DayEvent>, other: Seq<DayEvent>)
    requires
        one.to_multiset() == other.to_multiset(),
    ensures
        buckets_of(one) == buckets_of(other),
{
    let floor = MIN_REASONABLE_TS;
    assert forall|date: Seq<char>|
        #![trigger events_on(one, floor, date)]
        #![trigger events_on(other, floor, date)]
        events_on(one, floor, date).len() == events_on(other, floor, date).len() && bucket_of(
            events_on(one, floor, date),
            true,
        ) == bucket_of(events_on(other, floor, date), true) by {
        let keep = |e: DayEvent| e.ts >= floor && utc_date(e.ts) == Some(date);
        let a = events_on(one, floor, date);
        let b = events_on(other, floor, date);
        lemma_filter_counts(one, keep);
        lemma_filter_counts(other, keep);
        assert(a == one.filter(keep) && b == other.filter(keep));
        lemma_reordered(a, b);
        lemma_reordered_sessions(a, b);
        lemma_sorted_times(times_of(a));
        lemma_sorted_times_unique(times_of(b), sorted_times(times_of(a)));
    }
    assert(buckets_of(one) =~= buckets_of(other));
}

proof fn lemma_tokens_total(events: Seq<DayEvent>)
    ensures
        tokens_of(events) == total(events.map_values(|e: DayEvent| e.tokens as nat)),
    decreases events.len(),
{
    let counts = events.map_values(|e: DayEvent| e.tokens as nat);
    if events.len() == 0 {
        assert(counts =~= Seq::empty());
        lemma_total_push(Seq::empty(), 0);
    } else {
        let before = events.drop_last();
        lemma_tokens_total(before);
        let fewer = before.map_values(|e: DayEvent| e.tokens as nat);
        assert(counts =~= fewer.push(events.last().tokens as nat));
        lemma_total_push(fewer, events.last().tokens as nat);
    }
}

/// The sessions that some events name.
pub open spec fn named_sessions(events: Seq<DayEvent>) -> Set<Seq<char>> {
    Set::new(
        |s: Seq<char>|
            exists|i: int| 0 <= i < events.len() && (#[trigger] events[i]).session == Some(s),
    )
}

/// A day is told by the events on it and by nothing else: there is a bucket for a date exactly if an
/// event from 2000-01-01 on falls on it. Its hours are the gaps of at most half an hour between
/// neighbouring times of the day, at least a minute; its tokens are those of its events; its
/// sessions are the distinct ones that they name.
pub proof fn law_day_is_told_by_its_events(events: Seq<DayEvent>, date: Seq<char>)
    ensures
        ({
            let day = events.filter(
                |e: DayEvent|
                    e.ts >= 946_684_800 && date_of_day(e.ts as int / 86_400) == Some(date),
            );
            let bucket = buckets_of(events)[date];
            let tokens = total(day.map_values(|e: DayEvent| e.tokens as nat));
            &&& buckets_of(events).contains_key(date) <==> day.len() > 0
            &&& day.len() > 0 ==> {
                &&& bucket.hours.seconds == half_hour_activity(
                    day.map_values(|e: DayEvent| e.ts),
                )
                &&& bucket.tokens == if tokens <= u64::MAX {
                    tokens as int
                } else {
                    u64::MAX as int
                }
                &&& day.len() <= u64::MAX ==> bucket.sessions == named_sessions(day).len()
                &&& bucket.invocations is None
            }
        }),
{
    let day = events.filter(
        |e: DayEvent| e.ts >= 946_684_800 && date_of_day(e.ts as int / 86_400) == Some(date),
    );
    let keep = |e: DayEvent| e.ts >= MIN_REASONABLE_TS && utc_date(e.ts) == Some(date);
    assert(keep =~= |e: DayEvent|
        e.ts >= 946_684_800 && date_of_day(e.ts as int / 86_400) == Some(date));
    assert(events_on(events, MIN_REASONABLE_TS, date) == day);
    lemma_tokens_total(day);
    lemma_sessions_of(day);
    assert(sessions_of(day) =~= named_sessions(day));
    assert(times_of(day) =~= day.map_values(|e: DayEvent| e.ts));
    lemma_half_hour(times_of(day));
}

/// Where days have no hours, all dates count: a bucket for a date has the tokens and the distinct
/// sessions of the events on it.
pub proof fn law_plain_day_is_told_by_its_events(events: Seq<DayEvent>, date: Seq<char>)
    ensures
        ({
            let day = events.filter(
                |e: DayEvent| date_of_day(e.ts as int / 86_400) == Some(date),
            );
            let buckets = bucket_map(events, i64::MIN, false);
            let bucket = buckets[date];
            let tokens = total(day.map_values(|e: DayEvent| e.tokens as nat));
            &&& buckets.contains_key(date) <==> day.len() > 0
            &&& day.len() > 0 ==> {
                &&& bucket.hours.seconds == 0
                &&& bucket.tokens == if tokens <= u64::MAX {
                    tokens as int
                } else {
                    u64::MAX as int
                }
                &&& day.len() <= u64::MAX ==> bucket.sessions == named_sessions(day).len()
                &&& bucket.invocations is None
            }
        }),
{
    let day = events.filter(|e: DayEvent| date_of_day(e.ts as int / 86_400) == Some(date));
    let keep = |e: DayEvent| e.ts >= i64::MIN && utc_date(e.ts) == Some(date);
    assert(keep =~= |e: DayEvent| date_of_day(e.ts as int / 86_400) == Some(date));
    assert(events_on(events, i64::MIN, date) == day);
    lemma_tokens_total(day);
    lemma_sessions_of(day);
    assert(sessions_of(day) =~= named_sessions(day));
}

/// What is known of one day while events are gathered.
pub struct DayGroup {
    pub tokens: u64,
    pub times: Vec<i64>,
    pub sessions: StringHashSet,
}

impl DayGroup {
    /// The group says of the day what these events say.
    pub open spec fn holds(&self, events: Seq<DayEvent>) -> bool {
        &&& self.tokens == capped(tokens_of(events) as int)
        &&& self.times@ == times_of(events)
        &&& self.sessions@ == sessions_of(events)
    }

    fn empty() -> (r: DayGroup)
        ensures
            r.holds(Seq::empty()),
    {
        let r = DayGroup { tokens: 0, times: Vec::new(), sessions: StringHashSet::new() };
        assert(r.times@ =~= times_of(Seq::empty()));
        r
    }

    fn add_event(&mut self, event: &(i64, u64, Option<String>), Ghost(before): Ghost<Seq<DayEvent>>)
        requires
            old(self).holds(before),
        ensures
            final(self).holds(
                before.push(
                    DayEvent {
                        ts: event.0,
                        tokens: event.1,
                        session: crate::text::text_opt(event.2),
                    },
                ),
            ),
    {
        self.tokens = self.tokens.saturating_add(event.1);
        self.times.push(event.0);
        if let Some(session) = &event.2 {
            self.sessions.insert(session.clone());
        }
        proof {
            let e = DayEvent {
                ts: event.0,
                tokens: event.1,
                session: crate::text::text_opt(event.2),
            };
            assert(before.push(e).drop_last() =~= before);
            assert(self.times@ =~= times_of(before.push(e)));
        }
    }
}

/// The groups say of every date what the events on it say.
pub open spec fn grouped(
    groups: Map<Seq<char>, DayGroup>,
    events: Seq<DayEvent>,
    floor: i64,
) -> bool {
    &&& forall|date: Seq<char>| #[trigger]
        groups.contains_key(date) <==> events_on(events, floor, date).len() > 0
    &&& forall|date: Seq<char>| #[trigger]
        groups.contains_key(date) ==> groups[date].holds(events_on(events, floor, date))
}

/// Gathers events by date, without those before `floor`.
pub(crate) fn gather(events: &[(i64, u64, Option<String>)], floor: i64) -> (r: StrMap<DayGroup>)
    ensures
        r.wf(),
        grouped(r@, day_events(events@), floor),
{
    let mut out: StrMap<DayGroup> = StrMap::new();
    let mut i: usize = 0;
    proof {
        reveal(Seq::filter);
    }
    while i < events.len()
        invariant
            i <= events@.len(),
            out.wf(),
            grouped(out@, day_events(events@.take(i as int)), floor),
        decreases events@.len() - i,
    {
        let event = &events[i];
        let ghost before = day_events(events@.take(i as int));
        let ghost e = DayEvent {
            ts: event.0,
            tokens: event.1,
            session: crate::text::text_opt(event.2),
        };
        proof {
            assert(day_events(events@.take(i + 1)) =~= before.push(e));
            assert forall|date: Seq<char>| #[trigger]
                events_on(before.push(e), floor, date) == if e.ts >= floor && utc_date(e.ts) == Some(
                    date,
                ) {
                    events_on(before, floor, date).push(e)
                } else {
                    events_on(before, floor, date)
                } by {
                before.lemma_filter_push(
                    e,
                    |x: DayEvent| x.ts >= floor && utc_date(x.ts) == Some(date),
                );
            }
        }
        if event.0 >= floor {
            if let Some(day) = day_of(event.0) {
                let ghost known = events_on(before, floor, day@);
                match out.position(day.as_str()) {
                    Some(k) => {
                        out.value_mut(k).add_event(event, Ghost(known));
                    },
                    None => {
                        let mut group = DayGroup::empty();
                        proof {
                            assert(known =~= Seq::empty());
                        }
                        group.add_event(event, Ghost(known));
                        out.insert(day, group);
                    },
                }
            }
        }
        i += 1;
    }
    assert(events@.take(i as int) =~= events@);
    out
}

/// Usage by the day, from events that are not before `floor`; with its hours where they are
/// asked for.
pub(crate) fn bucket_days(events: &[(i64, u64, Option<String>)], floor: i64, timed: bool) -> (r:
    StrMap<DailyBucket>)
    ensures
        r.wf(),
        r@ == bucket_map(day_events(events@), floor, timed),
{
    let groups = gather(events, floor);
    let ghost all = day_events(events@);
    let ghost goal = bucket_map(all, floor, timed);
    let mut buckets: StrMap<DailyBucket> = StrMap::new();
    let mut i: usize = 0;
    proof {
        groups.lemma_shape();
    }
    while i < groups.len()
        invariant
            i <= groups.names().len(),
            groups.wf(),
            buckets.wf(),
            groups.names().no_duplicates(),
            grouped(groups@, all, floor),
            goal == bucket_map(all, floor, timed),
            forall|date: Seq<char>| #[trigger]
                buckets@.contains_key(date) <==> groups.names().take(i as int).contains(date),
            forall|date: Seq<char>| #[trigger]
                buckets@.contains_key(date) ==> buckets@[date] == goal[date],
        decreases groups.names().len() - i,
    {
        let group = groups.value(i);
        let ghost date = groups.names()[i as int];
        let ghost on_day = events_on(all, floor, date);
        proof {
            groups.lemma_shape();
            assert(groups@.contains_key(groups.names()[i as int]));
            assert(group.holds(on_day));
            lemma_sessions_of(on_day);
            assert(groups.names().take(i + 1) =~= groups.names().take(i as int).push(date));
            assert forall|d: Seq<char>| groups.names().take(i + 1).contains(d) <==> (
            groups.names().take(i as int).contains(d) || d == date) by {
                if groups.names().take(i as int).contains(d) {
                    let j = groups.names().take(i as int).index_of(d);
                    assert(groups.names().take(i + 1)[j] == d);
                }
                assert(groups.names().take(i + 1)[i as int] == date);
            }
        }
        let hours = if timed {
            let sorted = sort_times(group.times.as_slice());
            active_hours_from_timestamps(sorted.as_slice(), 1800)
        } else {
            Hours { seconds: 0 }
        };
        let bucket = DailyBucket {
            hours,
            tokens: group.tokens,
            sessions: group.sessions.len() as u64,
            invocations: None,
        };
        assert(bucket == bucket_of(on_day, timed));
        buckets.insert(groups.key(i).clone(), bucket);
        i += 1;
    }
    proof {
        groups.lemma_shape();
        assert(groups.names().take(i as int) =~= groups.names());
        assert forall|date: Seq<char>| buckets@.contains_key(date) <==> goal.contains_key(date) by {
            assert(groups@.contains_key(date) <==> groups.names().contains(date));
        }
        assert(buckets@ =~= goal);
    }
    buckets
}

/// Usage by the day, from events of the form (Unix time, tokens, session).
///
/// * Events fall on the UTC date ("YYYY-MM-DD") of their time; one before 2000-01-01 is left out.
/// * Tokens add up; sessions are the distinct ones that are named.
/// * The hours of a day are its active time with breaks of up to half an hour.
/// * Invocations stay unknown.
pub fn build_daily_buckets(events: &[(i64, u64, Option<String>)]) -> (r: StrMap<DailyBucket>)
    ensures
        r.wf(),
        r@ == buckets_of(day_events(events@)),
{
    bucket_days(events, MIN_REASONABLE_TS, true)
}

} // verus!
