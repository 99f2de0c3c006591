//! Planning of fetch ranges: where synchronization resumes, and how a long
//! range is cut into spans the document source accepts.
use vstd::prelude::*;

use crate::instant::{
    formatted_utc,
    hour_floor,
    instant_from_text,
    interval_text,
    parse_instant,
    valid_instant,
    MAX_INSTANT,
    MINUTE_FORMAT,
    MIN_INSTANT,
    SECS_PER_DAY,
    SECS_PER_HOUR,
};

verus! {

/// The longest range, in seconds, that one request to the document source may
/// cover: 370 days.
pub const MAX_FETCH_SPAN: i64 = 370 * SECS_PER_DAY;

/// The point from which one backend needs data: its watermark, but never
/// before the configured start; a backend without a watermark needs all data
/// from the configured start.
pub open spec fn backend_floor(configured_start: int, watermark: Option<i64>) -> int {
    match watermark {
        Some(t) => if t > configured_start {
            t as int
        } else {
            configured_start
        },
        None => configured_start,
    }
}

/// Where synchronization resumes: the point needed by the least advanced
/// backend, which is `max(configured_start, min(watermarks))`.
pub open spec fn resume_point(configured_start: int, watermarks: Seq<Option<i64>>) -> int
    decreases watermarks.len(),
{
    if watermarks.len() == 0 {
        configured_start
    } else if watermarks.len() == 1 {
        backend_floor(configured_start, watermarks[0])
    } else {
        let rest = resume_point(configured_start, watermarks.drop_last());
        let last = backend_floor(configured_start, watermarks.last());
        if last < rest {
            last
        } else {
            rest
        }
    }
}

/// Synchronization resumes from the least advanced backend: the resume point
/// is never after any backend's need, is the need of one of them, and is never
/// before the configured start.
pub proof fn lemma_resume_from_laggard(configured_start: int, watermarks: Seq<Option<i64>>)
    ensures
        resume_point(configured_start, watermarks) >= configured_start,
        forall|i: int|
            0 <= i < watermarks.len() ==> resume_point(configured_start, watermarks)
                <= backend_floor(configured_start, #[trigger] watermarks[i]),
        watermarks.len() > 0 ==> exists|i: int|
            0 <= i < watermarks.len() && resume_point(configured_start, watermarks)
                == backend_floor(configured_start, #[trigger] watermarks[i]),
    decreases watermarks.len(),
{
    if watermarks.len() > 1 {
        let rest = watermarks.drop_last();
        lemma_resume_from_laggard(configured_start, rest);
        assert forall|i: int| 0 <= i < watermarks.len() implies resume_point(
            configured_start,
            watermarks,
        ) <= backend_floor(configured_start, #[trigger] watermarks[i]) by {
            if i < rest.len() {
                assert(rest[i] == watermarks[i]);
            }
        }
        let r = resume_point(configured_start, watermarks);
        if r == backend_floor(configured_start, watermarks.last()) {
            assert(watermarks[watermarks.len() - 1] == watermarks.last());
        } else {
            let i = choose|i: int|
                0 <= i < rest.len() && resume_point(configured_start, rest) == backend_floor(
                    configured_start,
                    #[trigger] rest[i],
                );
            assert(rest[i] == watermarks[i]);
        }
    } else if watermarks.len() == 1 {
        assert(backend_floor(configured_start, watermarks[0]) >= configured_start);
    }
}

/// The next window to fetch: from the resume point, `interval_days` days long,
/// where both ends are instants the library handles.
pub open spec fn next_window_spec(
    configured_start: int,
    watermarks: Seq<Option<i64>>,
    interval_days: int,
) -> Option<(i64, i64)> {
    let start = resume_point(configured_start, watermarks);
    let end = start + interval_days * SECS_PER_DAY;
    if valid_instant(start) && valid_instant(end) {
        Some((start as i64, end as i64))
    } else {
        None
    }
}

/// Computes the next window to fetch from the configured start and the
/// watermark of each backend (`None` where a backend has none).
pub fn next_window(configured_start: i64, watermarks: &Vec<Option<i64>>, interval_days: i64) -> (r:
    Option<(i64, i64)>)
    requires
        valid_instant(configured_start as int),
    ensures
        r == next_window_spec(configured_start as int, watermarks@, interval_days as int),
{
    let ghost cs = configured_start as int;
    let mut start: i64 = configured_start;
    let mut i: usize = 0;
    while i < watermarks.len()
        invariant
            0 <= i <= watermarks@.len(),
            cs == configured_start,
            i == 0 ==> start == configured_start,
            i > 0 ==> start == resume_point(cs, watermarks@.take(i as int)),
        decreases watermarks@.len() - i,
    {
        let floor = match watermarks[i] {
            Some(t) => if t > configured_start {
                t
            } else {
                configured_start
            },
            None => configured_start,
        };
        assert(floor == backend_floor(cs, watermarks@[i as int]));
        assert(watermarks@.take(i + 1).drop_last() =~= watermarks@.take(i as int));
        assert(watermarks@.take(i + 1).last() == watermarks@[i as int]);
        assert(watermarks@.take(i + 1).len() == i + 1);
        if i == 0 || floor < start {
            start = floor;
        }
        i = i + 1;
    }
    assert(watermarks@.take(watermarks@.len() as int) =~= watermarks@);
    if start < MIN_INSTANT || start > MAX_INSTANT || interval_days < -4000000 || interval_days
        > 4000000 {
        return None;
    }
    let end = start + interval_days * SECS_PER_DAY;
    if end < MIN_INSTANT || end > MAX_INSTANT {
        return None;
    }
    Some((start, end))
}

/// The start of the hour that holds `t`.
pub fn floor_to_hour(t: i64) -> (r: i64)
    requires
        valid_instant(t as int),
    ensures
        r == hour_floor(t as int),
        valid_instant(r as int),
{
    let u = (t - MIN_INSTANT) as u64;
    let f = u - u % (SECS_PER_HOUR as u64);
    assert((t - MIN_INSTANT) % 3600 == t % 3600) by (nonlinear_arith)
        requires
            MIN_INSTANT == -17259888 * 3600,
    ;
    MIN_INSTANT + f as i64
}

/// The fetch interval text, both ends at the start of their hour
/// (`2022-06-30T21:00Z/2022-07-31T21:00Z`), where the next window exists.
pub fn get_fetch_time_interval(
    configured_start: i64,
    watermarks: &Vec<Option<i64>>,
    interval_days: i64,
) -> (r: Option<String>)
    requires
        valid_instant(configured_start as int),
    ensures
        match next_window_spec(configured_start as int, watermarks@, interval_days as int) {
            Some((s, e)) => r matches Some(text) && text@ == formatted_utc(
                hour_floor(s as int) as i64,
                MINUTE_FORMAT@,
            ) + seq!['/'] + formatted_utc(hour_floor(e as int) as i64, MINUTE_FORMAT@),
            None => r is None,
        },
{
    match next_window(configured_start, watermarks, interval_days) {
        Some((s, e)) => Some(interval_text(floor_to_hour(s), floor_to_hour(e))),
        None => None,
    }
}

/// Whether the instant `t` lies in one of the half-open spans of `spans`.
pub open spec fn in_some_span(spans: Seq<(i64, i64)>, t: int) -> bool {
    exists|k: int| 0 <= k < spans.len() && (#[trigger] spans[k]).0 <= t < spans[k].1
}

/// Cuts `[start, stop)` into consecutive spans of at most `max_span` seconds:
/// each span ends `max_span` after its start or at `stop`, whichever comes
/// first, and the next span starts where it ends.
pub fn chunk(start: i64, stop: i64, max_span: i64) -> (r: Vec<(i64, i64)>)
    requires
        valid_instant(start as int),
        valid_instant(stop as int),
        max_span > 0,
    ensures
        start >= stop ==> r@.len() == 0,
        start < stop ==> r@.len() > 0 && r@[0].0 == start && r@.last().1 == stop,
        forall|k: int|
            0 <= k < r@.len() ==> {
                &&& (#[trigger] r@[k]).0 < r@[k].1
                &&& r@[k].1 - r@[k].0 <= max_span
                &&& r@[k].1 == if r@[k].0 + max_span < stop {
                    r@[k].0 + max_span
                } else {
                    stop as int
                }
            },
        forall|k: int| 0 < k < r@.len() ==> (#[trigger] r@[k]).0 == r@[k - 1].1,
        forall|t: int| start <= t < stop ==> #[trigger] in_some_span(r@, t),
{
    let mut out: Vec<(i64, i64)> = Vec::new();
    let mut current: i64 = start;
    while current < stop
        invariant
            valid_instant(start as int),
            valid_instant(stop as int),
            max_span > 0,
            start <= current,
            start < stop ==> current <= stop,
            out@.len() == 0 ==> current == start,
            out@.len() > 0 ==> out@[0].0 == start && out@.last().1 == current,
            forall|k: int|
                0 <= k < out@.len() ==> {
                    &&& (#[trigger] out@[k]).0 < out@[k].1
                    &&& out@[k].1 - out@[k].0 <= max_span
                    &&& out@[k].1 == if out@[k].0 + max_span < stop {
                        out@[k].0 + max_span
                    } else {
                        stop as int
                    }
                },
            forall|k: int| 0 < k < out@.len() ==> (#[trigger] out@[k]).0 == out@[k - 1].1,
            forall|t: int| start <= t < current ==> #[trigger] in_some_span(out@, t),
        decreases stop - current,
    {
        let next = if max_span < stop - current {
            current + max_span
        } else {
            stop
        };
        let ghost before = out@;
        out.push((current, next));
        assert forall|t: int| start <= t < next implies #[trigger] in_some_span(out@, t) by {
            if t < current {
                assert(in_some_span(before, t));
                let k = choose|k: int| 0 <= k < before.len() && (#[trigger] before[k]).0 <= t < before[k].1;
                assert(out@[k] == before[k]);
            } else {
                assert(out@[out@.len() - 1] == (current, next));
            }
        }
        current = next;
    }
    out
}

/// A range requested on demand: start and stop in minute-precision text, and
/// the domains, where they differ from the configured ones.
#[derive(Clone, Debug)]
pub struct TimeParams {
    pub start: String,
    pub stop: String,
    pub in_domain: Option<String>,
    pub out_domain: Option<String>,
}

/// Why a requested range is rejected.
#[derive(Clone, Copy, Debug, PartialEq, Eq, Structural)]
pub enum RangeError {
    /// The start or the stop is not a readable instant.
    InvalidDateFormat,
    /// The start is not before the stop.
    EmptyRange,
}

impl TimeParams {
    /// The spans, of at most 370 days each, to fetch one after another for the
    /// requested range.
    pub fn chunks(&self) -> (r: Result<Vec<(i64, i64)>, RangeError>)
        ensures
            ({
                let start = instant_from_text(self.start@, MINUTE_FORMAT@);
                let stop = instant_from_text(self.stop@, MINUTE_FORMAT@);
                match r {
                    Ok(v) => start matches Some(s) && stop matches Some(e) && s < e && v@.len() > 0
                        && v@[0].0 == s && v@.last().1 == e && (forall|k: int|
                        0 <= k < v@.len() ==> (#[trigger] v@[k]).1 == if v@[k].0 + MAX_FETCH_SPAN
                            < e {
                            v@[k].0 + MAX_FETCH_SPAN
                        } else {
                            e as int
                        }) && (forall|k: int|
                        0 < k < v@.len() ==> (#[trigger] v@[k]).0 == v@[k - 1].1),
                    Err(RangeError::InvalidDateFormat) => start is None || stop is None,
                    Err(RangeError::EmptyRange) => start matches Some(s) && stop matches Some(e)
                        && s >= e,
                }
            }),
    {
        let start = parse_instant(self.start.as_str(), MINUTE_FORMAT);
        let stop = parse_instant(self.stop.as_str(), MINUTE_FORMAT);
        match (start, stop) {
            (Some(s), Some(e)) => if s < e {
                Ok(chunk(s, e, MAX_FETCH_SPAN))
            } else {
                Err(RangeError::EmptyRange)
            },
            _ => Err(RangeError::InvalidDateFormat),
        }
    }
}

} // verus!
