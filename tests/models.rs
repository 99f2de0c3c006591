use entsoe_logger::models::{MarketParticipantMRid, PublicationMarketDocument, TimeInterval};

fn participant() -> MarketParticipantMRid {
    MarketParticipantMRid { value: "changed".to_string(), coding_scheme: "A01".to_string() }
}

fn document(created: &str) -> PublicationMarketDocument {
    PublicationMarketDocument {
        m_rid: "changed".to_string(),
        revision_number: "1".to_string(),
        document_type: "A44".to_string(),
        sender_market_participant_m_rid: participant(),
        sender_market_participant_market_role_type: "A32".to_string(),
        receiver_market_participant_m_rid: participant(),
        receiver_market_participant_market_role_type: "A33".to_string(),
        created_date_time: created.to_string(),
        time_interval: TimeInterval {
            start: "2022-06-29T22:00Z".to_string(),
            end: "2022-07-31T22:00Z".to_string(),
        },
        time_series: vec![],
    }
}

#[test]
fn created_time_is_read() {
    assert_eq!(document("2022-08-31T16:03:26Z").created_date_time_as_utc(), Some(1661961806));
    assert_eq!(document("2022-08-31 16:03").created_date_time_as_utc(), None);
}

#[test]
fn interval_bounds_are_read() {
    let doc = document("2022-08-31T16:03:26Z");
    assert_eq!(doc.time_interval.start_as_utc(), Some(1656540000));
    assert_eq!(doc.time_interval.end_as_utc(), Some(1659304800));
    let bad = TimeInterval { start: "2022-06-29T22:00:00Z".to_string(), end: String::new() };
    assert_eq!(bad.start_as_utc(), None);
    assert_eq!(bad.end_as_utc(), None);
}
