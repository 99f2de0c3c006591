//! The tax schedule: windows of time, each with the tax percentage in force,
//! and the lookup of the percentage at an instant.
use vstd::prelude::*;

use crate::instant::{instant_from_text, parse_instant, LOCAL_SECOND_FORMAT};
use crate::models::Amount;

verus! {

/// The tax percentage, in hundredths, used where the schedule names no single
/// window for an instant.
pub const DEFAULT_TAX_HUNDREDTHS: i64 = 2400;

/// The tax percentage used where the schedule names no single window.
pub open spec fn default_tax() -> Amount {
    Amount { hundredths: DEFAULT_TAX_HUNDREDTHS }
}

/// A window of the schedule: from `start_time` up to and including
/// `end_time`, or open-ended, the tax percentage is `tax_percentage`.
#[derive(Clone, Copy, Debug, PartialEq, Eq, Structural)]
pub struct SettingConfig {
    pub start_time: i64,
    pub end_time: Option<i64>,
    pub tax_percentage: Amount,
}

/// Why a window cannot be read from its text form.
#[derive(Clone, Copy, Debug, PartialEq, Eq, Structural)]
pub enum WindowError {
    InvalidStartTime,
    InvalidEndTime,
}

/// The whole schedule, in the order it was configured.
#[derive(Clone, Debug)]
pub struct SettingsConfig {
    pub settings: Vec<SettingConfig>,
}

/// Whether the window `w` covers the instant `t`.
pub open spec fn window_matches(w: SettingConfig, t: int) -> bool {
    &&& w.start_time <= t
    &&& match w.end_time {
        Some(e) => t <= e,
        None => true,
    }
}

/// How many windows of `ws` cover `t`.
pub open spec fn match_count(ws: Seq<SettingConfig>, t: int) -> nat
    decreases ws.len(),
{
    if ws.len() == 0 {
        0
    } else {
        match_count(ws.drop_last(), t) + if window_matches(ws.last(), t) {
            1nat
        } else {
            0nat
        }
    }
}

/// A window of `ws` that covers `t`, where there is one.
pub open spec fn matching_index(ws: Seq<SettingConfig>, t: int) -> int {
    choose|i: int| 0 <= i < ws.len() && window_matches(ws[i], t)
}

/// The tax percentage in force at `t`: the rate of the one window that covers
/// `t`, or the default rate where none or several do.
pub open spec fn tax_rate_at(ws: Seq<SettingConfig>, t: int) -> Amount {
    if match_count(ws, t) == 1 {
        ws[matching_index(ws, t)].tax_percentage
    } else {
        default_tax()
    }
}

/// Whether window `i` comes before window `j` once the windows are sorted by
/// start time, windows with equal starts keeping their configured order.
pub open spec fn sorted_before(ws: Seq<SettingConfig>, i: int, j: int) -> bool {
    ws[i].start_time < ws[j].start_time || (ws[i].start_time == ws[j].start_time && i < j)
}

/// Whether window `j` immediately follows window `i` once the windows are
/// sorted by start time.
pub open spec fn next_in_order(ws: Seq<SettingConfig>, i: int, j: int) -> bool {
    &&& 0 <= i < ws.len()
    &&& 0 <= j < ws.len()
    &&& sorted_before(ws, i, j)
    &&& forall|k: int|
        0 <= k < ws.len() ==> !(#[trigger] sorted_before(ws, i, k) && sorted_before(ws, k, j))
}

/// Whether the window `w` lasts until `t` or later (an open end lasts forever).
pub open spec fn ends_at_or_after(w: SettingConfig, t: int) -> bool {
    match w.end_time {
        Some(e) => e >= t,
        None => true,
    }
}

/// Whether, sorted by start time, some window ends at or after the start of the
/// window that follows it.
pub open spec fn has_overlap(ws: Seq<SettingConfig>) -> bool {
    exists|i: int, j: int| #[trigger]
        next_in_order(ws, i, j) && ends_at_or_after(ws[i], ws[j].start_time as int)
}

impl SettingConfig {
    /// Reads a window whose bounds are written as `2023-04-30T21:00:00`.
    pub fn from_text(start_time: &str, end_time: Option<&str>, tax_percentage: Amount) -> (r:
        Result<SettingConfig, WindowError>)
        ensures
            match r {
                Ok(w) => {
                    &&& instant_from_text(start_time@, LOCAL_SECOND_FORMAT@) == Some(w.start_time)
                    &&& match end_time {
                        Some(e) => instant_from_text(e@, LOCAL_SECOND_FORMAT@) is Some
                            && w.end_time == instant_from_text(e@, LOCAL_SECOND_FORMAT@),
                        None => w.end_time is None,
                    }
                    &&& w.tax_percentage == tax_percentage
                },
                Err(WindowError::InvalidStartTime) => instant_from_text(
                    start_time@,
                    LOCAL_SECOND_FORMAT@,
                ) is None,
                Err(WindowError::InvalidEndTime) => {
                    &&& instant_from_text(start_time@, LOCAL_SECOND_FORMAT@) is Some
                    &&& end_time matches Some(e) && instant_from_text(
                        e@,
                        LOCAL_SECOND_FORMAT@,
                    ) is None
                },
            },
    {
        let start = match parse_instant(start_time, LOCAL_SECOND_FORMAT) {
            Some(s) => s,
            None => {
                return Err(WindowError::InvalidStartTime);
            },
        };
        let end = match end_time {
            Some(e) => match parse_instant(e, LOCAL_SECOND_FORMAT) {
                Some(t) => Some(t),
                None => {
                    return Err(WindowError::InvalidEndTime);
                },
            },
            None => None,
        };
        Ok(SettingConfig { start_time: start, end_time: end, tax_percentage })
    }

    /// Whether this window covers the instant `time`.
    pub fn is_match(&self, time: i64) -> (r: bool)
        ensures
            r == window_matches(*self, time as int),
    {
        if time < self.start_time {
            return false;
        }
        match self.end_time {
            Some(e) => time <= e,
            None => true,
        }
    }
}

proof fn lemma_count_none(ws: Seq<SettingConfig>, t: int)
    requires
        forall|j: int| 0 <= j < ws.len() ==> !window_matches(#[trigger] ws[j], t),
    ensures
        match_count(ws, t) == 0,
    decreases ws.len(),
{
    if ws.len() > 0 {
        lemma_count_none(ws.drop_last(), t);
    }
}

proof fn lemma_count_positive(ws: Seq<SettingConfig>, t: int, a: int)
    requires
        0 <= a < ws.len(),
        window_matches(ws[a], t),
    ensures
        match_count(ws, t) >= 1,
    decreases ws.len(),
{
    if a < ws.len() - 1 {
        lemma_count_positive(ws.drop_last(), t, a);
    }
}

proof fn lemma_count_single(ws: Seq<SettingConfig>, t: int, a: int)
    requires
        0 <= a < ws.len(),
        window_matches(ws[a], t),
        forall|j: int| 0 <= j < ws.len() && j != a ==> !window_matches(#[trigger] ws[j], t),
    ensures
        match_count(ws, t) == 1,
    decreases ws.len(),
{
    if a == ws.len() - 1 {
        lemma_count_none(ws.drop_last(), t);
    } else {
        lemma_count_single(ws.drop_last(), t, a);
    }
}

proof fn lemma_count_two(ws: Seq<SettingConfig>, t: int, a: int, b: int)
    requires
        0 <= a < ws.len(),
        0 <= b < ws.len(),
        a != b,
        window_matches(ws[a], t),
        window_matches(ws[b], t),
    ensures
        match_count(ws, t) >= 2,
    decreases ws.len(),
{
    let last = ws.len() - 1;
    if a == last {
        lemma_count_positive(ws.drop_last(), t, b);
    } else if b == last {
        lemma_count_positive(ws.drop_last(), t, a);
    } else {
        lemma_count_two(ws.drop_last(), t, a, b);
    }
}

/// Among the windows of index below `n` that sort after window `i`, one that
/// sorts first.
proof fn least_after(ws: Seq<SettingConfig>, i: int, n: int) -> (b: int)
    requires
        0 <= i < ws.len(),
        0 <= n <= ws.len(),
        exists|k: int| 0 <= k < n && #[trigger] sorted_before(ws, i, k),
    ensures
        0 <= b < n,
        sorted_before(ws, i, b),
        forall|k: int| 0 <= k < n && sorted_before(ws, i, k) ==> !#[trigger] sorted_before(ws, k, b),
    decreases n,
{
    if exists|k: int| 0 <= k < n - 1 && #[trigger] sorted_before(ws, i, k) {
        let c = least_after(ws, i, n - 1);
        if sorted_before(ws, i, n - 1) && sorted_before(ws, n - 1, c) {
            assert forall|k: int| 0 <= k < n && sorted_before(ws, i, k) implies !#[trigger] sorted_before(
                ws,
                k,
                n - 1,
            ) by {
                if k < n - 1 {
                    assert(!sorted_before(ws, k, c));
                }
            }
            n - 1
        } else {
            c
        }
    } else {
        n - 1
    }
}

/// A window that sorts after another has an immediate successor.
proof fn successor_of(ws: Seq<SettingConfig>, i: int, j: int) -> (s: int)
    requires
        0 <= i < ws.len(),
        0 <= j < ws.len(),
        sorted_before(ws, i, j),
    ensures
        next_in_order(ws, i, s),
        s == j || sorted_before(ws, s, j),
{
    let s = least_after(ws, i, ws.len() as int);
    assert(!sorted_before(ws, j, s));
    s
}

/// In a schedule where no window overlaps the next one by start time, a window
/// that covers an instant is the only window covering it, and its rate is the
/// rate in force there.
pub proof fn lemma_rate_of_covering_window(ws: Seq<SettingConfig>, i: int, t: int)
    requires
        !has_overlap(ws),
        0 <= i < ws.len(),
        window_matches(ws[i], t),
    ensures
        forall|j: int| 0 <= j < ws.len() && j != i ==> !window_matches(#[trigger] ws[j], t),
        match_count(ws, t) == 1,
        tax_rate_at(ws, t) == ws[i].tax_percentage,
{
    assert forall|j: int| 0 <= j < ws.len() && j != i implies !window_matches(#[trigger] ws[j], t) by {
        if window_matches(ws[j], t) {
            if sorted_before(ws, i, j) {
                let s = successor_of(ws, i, j);
                assert(!ends_at_or_after(ws[i], ws[s].start_time as int));
            } else {
                let s = successor_of(ws, j, i);
                assert(!ends_at_or_after(ws[j], ws[s].start_time as int));
            }
        }
    }
    lemma_count_single(ws, t, i);
    let m = matching_index(ws, t);
    assert(window_matches(ws[m], t));
}

impl SettingsConfig {
    /// A schedule of the given windows, in the given order.
    pub fn new(settings: Vec<SettingConfig>) -> (r: SettingsConfig)
        ensures
            r.settings@ == settings@,
    {
        SettingsConfig { settings }
    }

    /// The one window that covers `time`; `None` where no window or more than
    /// one does.
    pub fn get_setting(&self, time: i64) -> (r: Option<&SettingConfig>)
        ensures
            r is Some <==> match_count(self.settings@, time as int) == 1,
            r matches Some(w) ==> *w == self.settings@[matching_index(self.settings@, time as int)],
    {
        let ghost ws = self.settings@;
        let mut count: usize = 0;
        let mut first: usize = 0;
        let mut i: usize = 0;
        while i < self.settings.len()
            invariant
                ws == self.settings@,
                0 <= i <= ws.len(),
                count <= i,
                count == match_count(ws.take(i as int), time as int),
                count > 0 ==> first < i && window_matches(ws[first as int], time as int),
            decreases ws.len() - i,
        {
            assert(ws.take(i + 1).drop_last() =~= ws.take(i as int));
            if self.settings[i].is_match(time) {
                if count == 0 {
                    first = i;
                }
                count = count + 1;
            }
            i = i + 1;
        }
        assert(ws.take(ws.len() as int) =~= ws);
        if count == 1 {
            proof {
                let m = matching_index(ws, time as int);
                assert(window_matches(ws[first as int], time as int));
                if m != first {
                    lemma_count_two(ws, time as int, m, first as int);
                }
            }
            Some(&self.settings[first])
        } else {
            None
        }
    }

    /// The tax percentage in force at `time`: the rate of the one window that
    /// covers it, else the default rate.
    pub fn get_current_tax_percentage(&self, time: i64) -> (r: Amount)
        ensures
            r == tax_rate_at(self.settings@, time as int),
    {
        match self.get_setting(time) {
            Some(w) => w.tax_percentage,
            None => Amount { hundredths: DEFAULT_TAX_HUNDREDTHS },
        }
    }

    /// Checks that, sorted by start time, no window lasts until the start of
    /// the window that follows it.
    pub fn validate(&self) -> (r: Result<(), &'static str>)
        ensures
            r is Err <==> has_overlap(self.settings@),
    {
        let ghost ws = self.settings@;
        let n = self.settings.len();
        let mut i: usize = 0;
        while i < n
            invariant
                ws == self.settings@,
                n == ws.len(),
                0 <= i <= n,
                forall|a: int, b: int|
                    0 <= a < i && #[trigger] next_in_order(ws, a, b) ==> !ends_at_or_after(
                        ws[a],
                        ws[b].start_time as int,
                    ),
            decreases n - i,
        {
            let mut best: Option<usize> = None;
            let mut k: usize = 0;
            while k < n
                invariant
                    ws == self.settings@,
                    n == ws.len(),
                    0 <= i < n,
                    0 <= k <= n,
                    match best {
                        Some(b) => {
                            &&& b < n
                            &&& sorted_before(ws, i as int, b as int)
                            &&& forall|c: int|
                                0 <= c < k && sorted_before(ws, i as int, c) ==> !#[trigger] sorted_before(
                                    ws,
                                    c,
                                    b as int,
                                )
                        },
                        None => forall|c: int| 0 <= c < k ==> !#[trigger] sorted_before(ws, i as int, c),
                    },
                decreases n - k,
            {
                let wi = &self.settings[i];
                let wk = &self.settings[k];
                let after = wi.start_time < wk.start_time || (wi.start_time == wk.start_time && i
                    < k);
                if after {
                    match best {
                        Some(b) => {
                            let wb = &self.settings[b];
                            if wk.start_time < wb.start_time || (wk.start_time == wb.start_time
                                && k < b) {
                                proof {
                                    assert forall|c: int|
                                        0 <= c < k + 1 && sorted_before(
                                            ws,
                                            i as int,
                                            c,
                                        ) implies !#[trigger] sorted_before(ws, c, k as int) by {
                                        if c < k {
                                            assert(!sorted_before(ws, c, b as int));
                                        }
                                    }
                                }
                                best = Some(k);
                            }
                        },
                        None => {
                            best = Some(k);
                        },
                    }
                }
                k = k + 1;
            }
            match best {
                Some(b) => {
                    assert(next_in_order(ws, i as int, b as int));
                    proof {
                        assert forall|c: int| #[trigger] next_in_order(ws, i as int, c) implies c
                            == b by {
                            if c != b as int {
                                if sorted_before(ws, c, b as int) {
                                } else {
                                    assert(sorted_before(ws, b as int, c));
                                }
                            }
                        }
                    }
                    let overlapping = match self.settings[i].end_time {
                        Some(e) => e >= self.settings[b].start_time,
                        None => true,
                    };
                    if overlapping {
                        return Err("Overlapping contracts detected");
                    }
                },
                None => {},
            }
            i = i + 1;
        }
        Ok(())
    }
}

} // verus!
