use entsoe_logger::models::Amount;
use entsoe_logger::records::PriceRecord;
use entsoe_logger::upsert::{AppendUpsert, StoreOp, StoreReply, TransactionalUpsert, TxOp};

fn record(timestamp: i64, price: i64) -> PriceRecord {
    PriceRecord {
        timestamp,
        in_domain: "IN".to_string(),
        out_domain: "OUT".to_string(),
        document_type: "A44".to_string(),
        currency: "EUR".to_string(),
        price_measure_unit: "MWH".to_string(),
        curve_type: "A01".to_string(),
        price: Amount { hundredths: price },
        tax_percentage: Amount { hundredths: 2400 },
    }
}

fn same_key(a: &PriceRecord, b: &PriceRecord) -> bool {
    a.timestamp == b.timestamp && a.in_domain == b.in_domain && a.out_domain == b.out_domain
}

/// Runs the machine against rows held in memory; `fail_insert_of` makes the
/// append of that record fail.
fn run(rows: &mut Vec<(PriceRecord, bool)>, records: &[PriceRecord], fail_insert_of: Option<usize>) -> Vec<usize> {
    let mut machine = AppendUpsert::new(records.len());
    let mut op = machine.pending;
    let mut steps = 0;
    loop {
        steps += 1;
        assert!(steps <= 3 * records.len() + 1);
        let reply = match op {
            StoreOp::FindDirty(i) => StoreReply::Found(
                rows.iter().any(|(r, dirty)| *dirty && same_key(r, &records[i])),
            ),
            StoreOp::Delete(i) => {
                rows.retain(|(r, _)| !same_key(r, &records[i]));
                StoreReply::Done
            }
            StoreOp::Insert(i) => {
                if fail_insert_of == Some(i) {
                    StoreReply::Failed
                } else {
                    rows.push((records[i].clone(), false));
                    StoreReply::Done
                }
            }
            StoreOp::Finish => break,
        };
        op = machine.step(reply);
    }
    machine.failed
}

fn visible<'a>(rows: &'a [(PriceRecord, bool)], key: &PriceRecord) -> Option<&'a (PriceRecord, bool)> {
    rows.iter().rev().find(|(r, _)| same_key(r, key))
}

#[test]
fn append_upsert_twice_leaves_one_visible_record_per_key() {
    let mut rows = vec![(record(0, 1), true), (record(0, 2), false), (record(3600, 5), false)];
    let records = vec![record(0, 10), record(3600, 11), record(7200, 12)];
    assert!(run(&mut rows, &records, None).is_empty());
    let once: Vec<_> = records.iter().map(|k| visible(&rows, k).cloned()).collect();
    assert_eq!(rows.iter().filter(|(r, _)| same_key(r, &records[0])).count(), 1);
    assert!(run(&mut rows, &records, None).is_empty());
    for (k, first) in records.iter().zip(once) {
        let now = visible(&rows, k).cloned();
        assert_eq!(now, first);
        assert_eq!(now, Some((k.clone(), false)));
    }
}

#[test]
fn append_upsert_without_dirty_rows_only_appends() {
    let mut rows = vec![(record(0, 1), false)];
    let records = vec![record(0, 10)];
    run(&mut rows, &records, None);
    assert_eq!(rows.len(), 2);
    assert_eq!(visible(&rows, &records[0]), Some(&(record(0, 10), false)));
}

#[test]
fn failed_append_is_reported_and_does_not_stop_the_rest() {
    let mut rows = vec![];
    let records = vec![record(0, 10), record(3600, 11), record(7200, 12)];
    assert_eq!(run(&mut rows, &records, Some(1)), vec![1]);
    assert_eq!(rows.len(), 2);
    assert!(visible(&rows, &records[2]).is_some());
}

#[test]
fn append_machine_with_nothing_to_write() {
    let machine = AppendUpsert::new(0);
    assert_eq!(machine.pending, StoreOp::Finish);
}

#[test]
fn failed_dirty_query_still_appends() {
    let mut machine = AppendUpsert::new(1);
    assert_eq!(machine.pending, StoreOp::FindDirty(0));
    assert_eq!(machine.step(StoreReply::Failed), StoreOp::Insert(0));
    assert_eq!(machine.step(StoreReply::Done), StoreOp::Finish);
}

#[test]
fn transaction_commits_after_every_upsert() {
    let mut tx = TransactionalUpsert::new(2);
    assert_eq!(tx.pending, TxOp::Begin);
    assert_eq!(tx.step(true), TxOp::Upsert(0));
    assert_eq!(tx.step(true), TxOp::Upsert(1));
    assert_eq!(tx.outcome(), None);
    assert_eq!(tx.step(true), TxOp::Commit);
    assert_eq!(tx.step(true), TxOp::Finish);
    assert_eq!(tx.outcome(), Some(true));
    assert_eq!(tx.acked, 2);
}

#[test]
fn transaction_rolls_back_on_failure() {
    let mut tx = TransactionalUpsert::new(3);
    tx.step(true);
    tx.step(true);
    assert_eq!(tx.step(false), TxOp::Rollback);
    assert_eq!(tx.step(true), TxOp::Finish);
    assert_eq!(tx.outcome(), Some(false));
    assert_eq!(tx.acked, 1);
}

#[test]
fn transaction_that_cannot_begin_writes_nothing() {
    let mut tx = TransactionalUpsert::new(3);
    assert_eq!(tx.step(false), TxOp::Finish);
    assert_eq!(tx.outcome(), Some(false));
    let mut failed_commit = TransactionalUpsert::new(0);
    assert_eq!(failed_commit.step(true), TxOp::Commit);
    assert_eq!(failed_commit.step(false), TxOp::Finish);
    assert_eq!(failed_commit.outcome(), Some(false));
}
