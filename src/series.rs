//! Expansion of a reporting period into a dense, forward-filled series.
use vstd::prelude::*;

use crate::instant::{instant_from_text, valid_instant, MINUTE_FORMAT};
use crate::models::{Amount, Period, Point};

verus! {

/// One sample of an expanded series.
#[derive(Clone, Copy, Debug, PartialEq, Eq, Structural)]
pub struct Sample {
    pub time: i64,
    pub price: Amount,
}

/// Why a reporting period cannot be expanded.
#[derive(Clone, Copy, Debug, PartialEq, Eq, Structural)]
pub enum ExpandError {
    /// The start or the end of the period is not a readable instant.
    InvalidInterval,
    /// The resolution is not a positive duration of whole seconds.
    InvalidResolution,
}

/// The price published at position `pos`, looking from the `i`-th point on;
/// the first point with that position wins.
pub open spec fn explicit_price_from(points: Seq<Point>, pos: int, i: int) -> Option<Amount>
    decreases points.len() - i,
{
    if i < 0 || i >= points.len() {
        None
    } else if points[i].position as int == pos {
        Some(points[i].price)
    } else {
        explicit_price_from(points, pos, i + 1)
    }
}

/// The price published at position `pos`, if any.
pub open spec fn explicit_price(points: Seq<Point>, pos: int) -> Option<Amount> {
    explicit_price_from(points, pos, 0)
}

/// The forward-filled price at position `pos`: the published price there, else
/// the one at the nearest earlier position that has one, else zero.
pub open spec fn filled_price(points: Seq<Point>, pos: int) -> Amount
    decreases pos,
{
    if pos <= 0 {
        Amount { hundredths: 0 }
    } else {
        match explicit_price(points, pos) {
            Some(p) => p,
            None => filled_price(points, pos - 1),
        }
    }
}

/// The number of steps of `res` from `start` that fall before `end`.
pub open spec fn sample_count(start: int, end: int, res: int) -> int {
    if start < end {
        (end - start - 1) / res + 1
    } else {
        0
    }
}

/// The `k`-th sample from `start` in steps of `res`: it lies at
/// `start + k * res` and carries the forward-filled price of position `k + 1`.
pub open spec fn sample_at(start: int, res: int, points: Seq<Point>, k: int) -> Sample {
    Sample { time: (start + k * res) as i64, price: filled_price(points, k + 1) }
}

/// The samples of `[start, end)` in steps of `res`.
pub open spec fn expanded_samples(start: int, end: int, res: int, points: Seq<Point>) -> Seq<Sample> {
    Seq::new(sample_count(start, end, res) as nat, |k: int| sample_at(start, res, points, k))
}

/// Finds the price published at position `pos`.
fn find_price(points: &Vec<Point>, pos: i64) -> (r: Option<Amount>)
    ensures
        r == explicit_price(points@, pos as int),
{
    let mut i: usize = 0;
    while i < points.len()
        invariant
            0 <= i <= points@.len(),
            explicit_price_from(points@, pos as int, 0) == explicit_price_from(
                points@,
                pos as int,
                i as int,
            ),
        decreases points.len() - i,
    {
        if points[i].position as i64 == pos {
            return Some(points[i].price);
        }
        i = i + 1;
    }
    None
}

/// Expands the points of `[start, end)` in steps of `res` seconds, forward-filling
/// positions that have no published price.
pub fn expand_points(start: i64, end: i64, res: i64, points: &Vec<Point>) -> (r: Vec<Sample>)
    requires
        valid_instant(start as int),
        valid_instant(end as int),
        res > 0,
    ensures
        r@ == expanded_samples(start as int, end as int, res as int, points@),
{
    let mut out: Vec<Sample> = Vec::new();
    if start >= end {
        assert(out@ =~= expanded_samples(start as int, end as int, res as int, points@));
        return out;
    }
    let mut t: i64 = start;
    let mut k: i64 = 0;
    let mut last: Amount = Amount::zero();
    loop
        invariant_except_break
            out@.len() == k,
            last == filled_price(points@, k as int),
        invariant
            valid_instant(start as int),
            valid_instant(end as int),
            res > 0,
            start <= t < end,
            0 <= k <= t - start,
            t == start + k * res,
            forall|j: int|
                0 <= j < k ==> #[trigger] out@[j] == sample_at(start as int, res as int, points@, j),
        ensures
            start + (out@.len() - 1) * res < end <= start + out@.len() * res,
            out@.len() >= 1,
            forall|j: int|
                0 <= j < out@.len() ==> #[trigger] out@[j] == sample_at(start as int, res as int, points@, j),
        decreases end - t,
    {
        match find_price(points, k + 1) {
            Some(p) => {
                last = p;
            },
            None => {},
        }
        assert(last == filled_price(points@, k + 1));
        out.push(Sample { time: t, price: last });
        assert((k + 1) * res == k * res + res) by (nonlinear_arith);
        if res >= end - t {
            break;
        }
        t = t + res;
        k = k + 1;
    }
    proof {
        let n = out@.len() as int;
        let d = end - start - 1;
        assert(n * res == (n - 1) * res + res) by (nonlinear_arith);
        assert(0 <= d - (n - 1) * res < res);
        vstd::arithmetic::div_mod::lemma_fundamental_div_mod_converse(d, res as int, n - 1, d - (n - 1) * res);
        assert(out@ =~= expanded_samples(start as int, end as int, res as int, points@));
    }
    out
}

/// A character that may stand in a plain ISO-8601 duration: the designators,
/// digits and a decimal separator.
pub open spec fn duration_char(c: char) -> bool {
    ||| c == 'P'
    ||| c == 'T'
    ||| c == 'Y'
    ||| c == 'M'
    ||| c == 'W'
    ||| c == 'D'
    ||| c == 'H'
    ||| c == 'S'
    ||| c == '.'
    ||| c == ','
    ||| ('0' <= c && c <= '9')
}

/// Text short enough, and free of signs, exponents and spelled-out infinities,
/// that any duration it spells is finite, non-negative and far below the
/// largest `std::time::Duration`.
pub open spec fn plain_duration_text(s: Seq<char>) -> bool {
    &&& s.len() <= 12
    &&& forall|i: int| 0 <= i < s.len() ==> duration_char(#[trigger] s[i])
}

/// The whole seconds of the duration that iso8601_duration reads from `s`, or
/// `None` where it rejects the text or the duration holds years or months.
pub uninterp spec fn iso_duration_secs(s: Seq<char>) -> Option<u64>;

/// Relies on iso8601_duration's `Duration::from_str` and `Duration::to_std`
/// (whole seconds taken with `as_secs`); the result depends on the text alone.
/// On plain duration text `to_std` cannot meet a negative, infinite or
/// overflowing number of seconds, on which it would panic.
#[verifier::external_body]
fn iso_duration_seconds(s: &str) -> (r: Option<u64>)
    requires
        plain_duration_text(s@),
    ensures
        r == iso_duration_secs(s@),
{
    match <iso8601_duration::Duration as std::str::FromStr>::from_str(s) {
        Ok(d) => d.to_std().map(|x| x.as_secs()),
        Err(_) => None,
    }
}

/// The resolution, in seconds, that the text `s` names: a positive number of
/// whole seconds, or `None`.
pub open spec fn resolution_from_text(s: Seq<char>) -> Option<i64> {
    if plain_duration_text(s) {
        match iso_duration_secs(s) {
            Some(n) => if 0 < n && n <= i64::MAX as u64 {
                Some(n as i64)
            } else {
                None
            },
            None => None,
        }
    } else {
        None
    }
}

/// Reads a resolution such as `PT60M` as a positive number of seconds.
pub fn resolution_seconds(s: &str) -> (r: Option<i64>)
    ensures
        r == resolution_from_text(s@),
        r matches Some(n) ==> n > 0,
{
    let len = s.unicode_len();
    if len > 12 {
        return None;
    }
    let mut i: usize = 0;
    while i < len
        invariant
            len == s@.len(),
            0 <= i <= len,
            forall|j: int| 0 <= j < i ==> duration_char(#[trigger] s@[j]),
        decreases len - i,
    {
        let c = s.get_char(i);
        let plain = c == 'P' || c == 'T' || c == 'Y' || c == 'M' || c == 'W' || c == 'D' || c
            == 'H' || c == 'S' || c == '.' || c == ',' || ('0' <= c && c <= '9');
        if !plain {
            return None;
        }
        i = i + 1;
    }
    match iso_duration_seconds(s) {
        Some(n) => if 0 < n && n <= i64::MAX as u64 {
            Some(n as i64)
        } else {
            None
        },
        None => None,
    }
}

/// What expanding the period `p` gives: its samples, or why it has none.
pub open spec fn period_samples(p: Period) -> Result<Seq<Sample>, ExpandError> {
    let start = instant_from_text(p.time_interval.start@, MINUTE_FORMAT@);
    let end = instant_from_text(p.time_interval.end@, MINUTE_FORMAT@);
    if start is None || end is None {
        Err(ExpandError::InvalidInterval)
    } else {
        match resolution_from_text(p.resolution@) {
            Some(res) => Ok(
                expanded_samples(
                    start->Some_0 as int,
                    end->Some_0 as int,
                    res as int,
                    p.point@,
                ),
            ),
            None => Err(ExpandError::InvalidResolution),
        }
    }
}

impl Period {
    /// The dense series of the period: one sample per step of the resolution
    /// over `[start, end)`, each position without a published price carrying
    /// the last published one (zero before the first).
    pub fn expand(&self) -> (r: Result<Vec<Sample>, ExpandError>)
        ensures
            match r {
                Ok(v) => period_samples(*self) == Ok::<Seq<Sample>, ExpandError>(v@),
                Err(e) => period_samples(*self) == Err::<Seq<Sample>, ExpandError>(e),
            },
    {
        let start = self.time_interval.start_as_utc();
        let end = self.time_interval.end_as_utc();
        match (start, end) {
            (Some(s), Some(e)) => match resolution_seconds(self.resolution.as_str()) {
                Some(res) => Ok(expand_points(s, e, res, &self.point)),
                None => Err(ExpandError::InvalidResolution),
            },
            _ => Err(ExpandError::InvalidInterval),
        }
    }
}

} // verus!
