use entsoe_logger::coordinator::{PassOp, PassOutcome, SyncPass};
use entsoe_logger::models::{
    Amount, MarketParticipantMRid, Period, Point, PublicationMarketDocument, TimeInterval,
    TimeSeries,
};
use entsoe_logger::tax::SettingsConfig;

fn document(resolution: &str) -> PublicationMarketDocument {
    let participant =
        MarketParticipantMRid { value: "changed".to_string(), coding_scheme: "A01".to_string() };
    let interval = TimeInterval {
        start: "2022-06-29T22:00Z".to_string(),
        end: "2022-06-29T23:00Z".to_string(),
    };
    PublicationMarketDocument {
        m_rid: "changed".to_string(),
        revision_number: "1".to_string(),
        document_type: "A44".to_string(),
        sender_market_participant_m_rid: participant.clone(),
        sender_market_participant_market_role_type: "A32".to_string(),
        receiver_market_participant_m_rid: participant,
        receiver_market_participant_market_role_type: "A33".to_string(),
        created_date_time: "2022-08-31T16:03:26Z".to_string(),
        time_interval: interval.clone(),
        time_series: vec![TimeSeries {
            m_rid: "1".to_string(),
            business_type: "A62".to_string(),
            in_domain: None,
            out_domain: None,
            currency_unit: "EUR".to_string(),
            price_measure_unit: "MWH".to_string(),
            curve_type: "A01".to_string(),
            period: vec![Period {
                time_interval: interval,
                resolution: resolution.to_string(),
                point: vec![Point { position: 1, price: Amount { hundredths: 4200 } }],
            }],
        }],
    }
}

fn fetch_ok(pass: &mut SyncPass) -> PassOp {
    pass.fetched(Some(&document("PT60M")), "IN", "OUT", &SettingsConfig::new(vec![]))
}

#[test]
fn one_backend_failing_does_not_hold_back_the_other() {
    let mut pass = SyncPass::new(vec![(0, 10), (10, 20)]);
    assert_eq!(pass.pending, PassOp::Fetch(0));
    assert_eq!(fetch_ok(&mut pass), PassOp::Upsert(0));
    assert_eq!(pass.records.len(), 1);
    assert_eq!(pass.records[0].price, Amount { hundredths: 4200 });
    assert_eq!(pass.records[0].tax_percentage, Amount { hundredths: 2400 });
    assert_eq!(pass.upserted(&vec![false, true]), PassOp::Fetch(1));
    assert_eq!(pass.failures, vec![(0, 0)]);
    assert_eq!(fetch_ok(&mut pass), PassOp::Upsert(1));
    assert_eq!(pass.upserted(&vec![true, true]), PassOp::Finish);
    assert_eq!(pass.failures, vec![(0, 0)]);
    assert_eq!(pass.outcome(), Some(PassOutcome::PartialFailure));
}

#[test]
fn pass_moves_on_even_when_every_backend_fails() {
    let mut pass = SyncPass::new(vec![(0, 10), (10, 20)]);
    fetch_ok(&mut pass);
    assert_eq!(pass.upserted(&vec![false, false]), PassOp::Fetch(1));
    assert_eq!(pass.failures, vec![(0, 0), (0, 1)]);
}

#[test]
fn pass_succeeds_when_every_write_lands() {
    let mut pass = SyncPass::new(vec![(0, 10)]);
    assert_eq!(pass.outcome(), None);
    fetch_ok(&mut pass);
    assert_eq!(pass.upserted(&vec![true, true]), PassOp::Finish);
    assert_eq!(pass.outcome(), Some(PassOutcome::Success));
}

#[test]
fn failed_fetch_stops_the_pass() {
    let mut pass = SyncPass::new(vec![(0, 10), (10, 20), (20, 30)]);
    fetch_ok(&mut pass);
    pass.upserted(&vec![true]);
    assert_eq!(pass.fetched(None, "IN", "OUT", &SettingsConfig::new(vec![])), PassOp::Finish);
    assert_eq!(pass.outcome(), Some(PassOutcome::Fatal(1)));
}

#[test]
fn unreadable_document_stops_the_pass() {
    let mut pass = SyncPass::new(vec![(0, 10)]);
    let op = pass.fetched(Some(&document("P1M")), "IN", "OUT", &SettingsConfig::new(vec![]));
    assert_eq!(op, PassOp::Finish);
    assert_eq!(pass.outcome(), Some(PassOutcome::Fatal(0)));
}

#[test]
fn empty_pass_is_done() {
    let pass = SyncPass::new(vec![]);
    assert_eq!(pass.pending, PassOp::Finish);
    assert_eq!(pass.outcome(), Some(PassOutcome::Success));
}
