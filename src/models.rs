//! The published price document, as the library reads it once it has been
//! deserialized.
use vstd::prelude::*;

use crate::instant::{instant_from_text, parse_instant, MINUTE_FORMAT, SECOND_FORMAT};

verus! {

/// A decimal quantity with two fractional digits, held exactly as a count of
/// hundredths (`151.38` is `15138`). Prices and tax percentages are amounts.
#[derive(Clone, Copy, Debug, PartialEq, Eq, Structural)]
pub struct Amount {
    pub hundredths: i64,
}

impl Amount {
    /// The amount `0.00`.
    pub fn zero() -> (r: Amount)
        ensures
            r.hundredths == 0,
    {
        Amount { hundredths: 0 }
    }
}

/// A day-ahead price document.
#[derive(Clone, Debug, PartialEq)]
pub struct PublicationMarketDocument {
    pub m_rid: String,
    pub revision_number: String,
    pub document_type: String,
    pub sender_market_participant_m_rid: MarketParticipantMRid,
    pub sender_market_participant_market_role_type: String,
    pub receiver_market_participant_m_rid: MarketParticipantMRid,
    pub receiver_market_participant_market_role_type: String,
    pub created_date_time: String,
    pub time_interval: TimeInterval,
    pub time_series: Vec<TimeSeries>,
}

impl PublicationMarketDocument {
    /// The time the document was created, read from `2022-08-31T16:03:26Z`.
    pub fn created_date_time_as_utc(&self) -> (r: Option<i64>)
        ensures
            r == instant_from_text(self.created_date_time@, SECOND_FORMAT@),
    {
        parse_instant(self.created_date_time.as_str(), SECOND_FORMAT)
    }
}

/// The identifier of a market participant and the scheme that codes it.
#[derive(Clone, Debug, PartialEq)]
pub struct MarketParticipantMRid {
    pub value: String,
    pub coding_scheme: String,
}

/// One price curve of a document, for one pair of market domains.
#[derive(Clone, Debug, PartialEq)]
pub struct TimeSeries {
    pub m_rid: String,
    pub business_type: String,
    pub in_domain: Option<Domain>,
    pub out_domain: Option<Domain>,
    pub currency_unit: String,
    pub price_measure_unit: String,
    pub curve_type: String,
    pub period: Vec<Period>,
}

/// A half-open interval `[start, end)` in minute-precision text form.
#[derive(Clone, Debug, PartialEq)]
pub struct TimeInterval {
    pub start: String,
    pub end: String,
}

impl TimeInterval {
    /// The start of the interval, read from `2022-06-29T22:00Z`.
    pub fn start_as_utc(&self) -> (r: Option<i64>)
        ensures
            r == instant_from_text(self.start@, MINUTE_FORMAT@),
    {
        parse_instant(self.start.as_str(), MINUTE_FORMAT)
    }

    /// The end of the interval, read from `2022-06-30T22:00Z`.
    pub fn end_as_utc(&self) -> (r: Option<i64>)
        ensures
            r == instant_from_text(self.end@, MINUTE_FORMAT@),
    {
        parse_instant(self.end.as_str(), MINUTE_FORMAT)
    }
}

/// A market domain and the scheme that codes it.
#[derive(Clone, Debug, PartialEq)]
pub struct Domain {
    pub value: String,
    pub coding_scheme: String,
}

/// A reporting period: an interval, the step between samples (an ISO-8601
/// duration such as `PT60M`), and the published points.
#[derive(Clone, Debug, PartialEq)]
pub struct Period {
    pub time_interval: TimeInterval,
    pub resolution: String,
    pub point: Vec<Point>,
}

/// A published price at a 1-based position of its period.
#[derive(Clone, Copy, Debug, PartialEq, Eq, Structural)]
pub struct Point {
    pub position: i32,
    pub price: Amount,
}

} // verus!
