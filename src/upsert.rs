//! Writing records into the stores.
//!
//! The append store keeps rows and answers a query for a key with the last row
//! written under it; it has no update, only deletes and appends. A row may be
//! flagged dirty, meaning it must be replaced before the next write. Each
//! record is written by asking whether a dirty row holds its key, deleting the
//! key's rows if so, then appending the record.
//!
//! The transactional store writes a whole document in one transaction, one
//! upsert per record keyed on the instant and the domains, committed once.
//!
//! The writes themselves are done by the caller: the machines here say which
//! operation comes next, given the store's reply to the last one.
use vstd::prelude::*;

use crate::records::PriceRecord;

verus! {

/// What identifies a record in a store: its instant and its domains.
pub open spec fn record_key(r: PriceRecord) -> (i64, Seq<char>, Seq<char>) {
    (r.timestamp, r.in_domain@, r.out_domain@)
}

/// Whether some row of `rows` under `key` is flagged dirty.
pub open spec fn has_dirty_row(rows: Seq<(PriceRecord, bool)>, key: (i64, Seq<char>, Seq<char>)) -> bool {
    exists|i: int| 0 <= i < rows.len() && record_key(#[trigger] rows[i].0) == key && rows[i].1
}

/// The rows of `rows` that are not under `key`, in order.
pub open spec fn without_key(rows: Seq<(PriceRecord, bool)>, key: (i64, Seq<char>, Seq<char>)) -> Seq<
    (PriceRecord, bool),
>
    decreases rows.len(),
{
    if rows.len() == 0 {
        rows
    } else {
        let rest = without_key(rows.drop_last(), key);
        if record_key(rows.last().0) == key {
            rest
        } else {
            rest.push(rows.last())
        }
    }
}

/// The row that a query for `key` sees: the last one written under it.
pub open spec fn visible(rows: Seq<(PriceRecord, bool)>, key: (i64, Seq<char>, Seq<char>)) -> Option<
    (PriceRecord, bool),
>
    decreases rows.len(),
{
    if rows.len() == 0 {
        None
    } else if record_key(rows.last().0) == key {
        Some(rows.last())
    } else {
        visible(rows.drop_last(), key)
    }
}

/// The append store after writing one record: a dirty row under its key has
/// all the key's rows deleted first; the record is then appended, clean.
pub open spec fn append_upsert_one(rows: Seq<(PriceRecord, bool)>, r: PriceRecord) -> Seq<
    (PriceRecord, bool),
> {
    if has_dirty_row(rows, record_key(r)) {
        without_key(rows, record_key(r)).push((r, false))
    } else {
        rows.push((r, false))
    }
}

/// The append store after writing the records `rs` in order.
pub open spec fn append_upsert(rows: Seq<(PriceRecord, bool)>, rs: Seq<PriceRecord>) -> Seq<
    (PriceRecord, bool),
>
    decreases rs.len(),
{
    if rs.len() == 0 {
        rows
    } else {
        append_upsert(append_upsert_one(rows, rs[0]), rs.drop_first())
    }
}

/// The last record of `rs` under `key`.
pub open spec fn last_with_key(rs: Seq<PriceRecord>, key: (i64, Seq<char>, Seq<char>)) -> Option<
    PriceRecord,
>
    decreases rs.len(),
{
    if rs.len() == 0 {
        None
    } else {
        match last_with_key(rs.drop_first(), key) {
            Some(r) => Some(r),
            None => if record_key(rs[0]) == key {
                Some(rs[0])
            } else {
                None
            },
        }
    }
}

proof fn lemma_visible_without_key(
    rows: Seq<(PriceRecord, bool)>,
    key: (i64, Seq<char>, Seq<char>),
    other: (i64, Seq<char>, Seq<char>),
)
    requires
        key != other,
    ensures
        visible(without_key(rows, key), other) == visible(rows, other),
    decreases rows.len(),
{
    if rows.len() > 0 {
        lemma_visible_without_key(rows.drop_last(), key, other);
        let rest = without_key(rows.drop_last(), key);
        if record_key(rows.last().0) != key {
            assert(rest.push(rows.last()).drop_last() =~= rest);
        }
    }
}

proof fn lemma_visible_after_one(
    rows: Seq<(PriceRecord, bool)>,
    r: PriceRecord,
    key: (i64, Seq<char>, Seq<char>),
)
    ensures
        visible(append_upsert_one(rows, r), key) == if record_key(r) == key {
            Some((r, false))
        } else {
            visible(rows, key)
        },
{
    if has_dirty_row(rows, record_key(r)) {
        let w = without_key(rows, record_key(r));
        assert(w.push((r, false)).drop_last() =~= w);
        if record_key(r) != key {
            lemma_visible_without_key(rows, record_key(r), key);
        }
    } else {
        assert(rows.push((r, false)).drop_last() =~= rows);
    }
}

/// What a query for `key` sees after the records `rs` are written to the
/// append store: the last of them under `key`, clean, or what it saw before
/// where none of them has that key.
pub proof fn lemma_visible_after_upsert(
    rows: Seq<(PriceRecord, bool)>,
    rs: Seq<PriceRecord>,
    key: (i64, Seq<char>, Seq<char>),
)
    ensures
        visible(append_upsert(rows, rs), key) == match last_with_key(rs, key) {
            Some(r) => Some((r, false)),
            None => visible(rows, key),
        },
    decreases rs.len(),
{
    if rs.len() > 0 {
        lemma_visible_after_upsert(append_upsert_one(rows, rs[0]), rs.drop_first(), key);
        lemma_visible_after_one(rows, rs[0], key);
    }
}

/// Writing the same records twice to the append store leaves every query as
/// after writing them once: each key of the records shows exactly one record,
/// the last written under it, clean.
pub proof fn lemma_append_upsert_idempotent(rows: Seq<(PriceRecord, bool)>, rs: Seq<PriceRecord>)
    ensures
        forall|key: (i64, Seq<char>, Seq<char>)|
            #[trigger] visible(append_upsert(append_upsert(rows, rs), rs), key) == visible(
                append_upsert(rows, rs),
                key,
            ),
        forall|i: int|
            0 <= i < rs.len() ==> last_with_key(rs, record_key(#[trigger] rs[i])) is Some
                && visible(append_upsert(rows, rs), record_key(rs[i])) == Some(
                (last_with_key(rs, record_key(rs[i]))->Some_0, false),
            ),
{
    assert forall|key: (i64, Seq<char>, Seq<char>)|
        #[trigger] visible(append_upsert(append_upsert(rows, rs), rs), key) == visible(
            append_upsert(rows, rs),
            key,
        ) by {
        lemma_visible_after_upsert(rows, rs, key);
        lemma_visible_after_upsert(append_upsert(rows, rs), rs, key);
    }
    assert forall|i: int| 0 <= i < rs.len() implies last_with_key(rs, record_key(#[trigger] rs[i]))
        is Some && visible(append_upsert(rows, rs), record_key(rs[i])) == Some(
        (last_with_key(rs, record_key(rs[i]))->Some_0, false),
    ) by {
        lemma_last_with_key_found(rs, i);
        lemma_visible_after_upsert(rows, rs, record_key(rs[i]));
    }
}

proof fn lemma_last_with_key_found(rs: Seq<PriceRecord>, i: int)
    requires
        0 <= i < rs.len(),
    ensures
        last_with_key(rs, record_key(rs[i])) is Some,
    decreases rs.len(),
{
    if i > 0 {
        lemma_last_with_key_found(rs.drop_first(), i - 1);
    }
}

/// An operation on the append store, for the record at the given index.
#[derive(Clone, Copy, Debug, PartialEq, Eq, Structural)]
pub enum StoreOp {
    /// Ask whether a dirty row holds the record's key.
    FindDirty(usize),
    /// Delete every row under the record's key.
    Delete(usize),
    /// Append the record, clean.
    Insert(usize),
    /// Every record has been handled.
    Finish,
}

/// The store's reply to the last operation.
#[derive(Clone, Copy, Debug, PartialEq, Eq, Structural)]
pub enum StoreReply {
    /// The answer to `FindDirty`.
    Found(bool),
    /// The operation was carried out.
    Done,
    /// The operation failed.
    Failed,
}

/// The operation that follows `op` and its reply, for `total` records. A
/// failed query or delete does not stop the record from being appended, and a
/// failed append does not stop the next record.
pub open spec fn append_after(total: int, op: StoreOp, reply: StoreReply) -> StoreOp {
    match op {
        StoreOp::FindDirty(i) => if reply == StoreReply::Found(true) {
            StoreOp::Delete(i)
        } else {
            StoreOp::Insert(i)
        },
        StoreOp::Delete(i) => StoreOp::Insert(i),
        StoreOp::Insert(i) => if i + 1 < total {
            StoreOp::FindDirty((i + 1) as usize)
        } else {
            StoreOp::Finish
        },
        StoreOp::Finish => StoreOp::Finish,
    }
}

/// The first operation for `total` records.
pub open spec fn append_first(total: int) -> StoreOp {
    if 0 < total {
        StoreOp::FindDirty(0)
    } else {
        StoreOp::Finish
    }
}

/// The writing of `total` records into the append store: the pending
/// operation, and the indices of the records whose append failed.
#[derive(Clone, Debug)]
pub struct AppendUpsert {
    pub total: usize,
    pub pending: StoreOp,
    pub failed: Vec<usize>,
}

impl AppendUpsert {
    /// Whether the pending operation names a record that exists.
    pub open spec fn wf(&self) -> bool {
        match self.pending {
            StoreOp::FindDirty(i) => i < self.total,
            StoreOp::Delete(i) => i < self.total,
            StoreOp::Insert(i) => i < self.total,
            StoreOp::Finish => true,
        }
    }

    /// Starts writing `total` records.
    pub fn new(total: usize) -> (r: AppendUpsert)
        ensures
            r.wf(),
            r.total == total,
            r.pending == append_first(total as int),
            r.failed@.len() == 0,
    {
        let pending = if 0 < total {
            StoreOp::FindDirty(0)
        } else {
            StoreOp::Finish
        };
        AppendUpsert { total, pending, failed: Vec::new() }
    }

    /// Takes the store's reply to the pending operation and returns the next
    /// one; a failed append is recorded.
    pub fn step(&mut self, reply: StoreReply) -> (op: StoreOp)
        requires
            old(self).wf(),
        ensures
            final(self).wf(),
            final(self).total == old(self).total,
            final(self).pending == append_after(old(self).total as int, old(self).pending, reply),
            op == final(self).pending,
            final(self).failed@ == match old(self).pending {
                StoreOp::Insert(i) => if reply == StoreReply::Failed {
                    old(self).failed@.push(i)
                } else {
                    old(self).failed@
                },
                _ => old(self).failed@,
            },
    {
        let next = match self.pending {
            StoreOp::FindDirty(i) => match reply {
                StoreReply::Found(true) => StoreOp::Delete(i),
                _ => StoreOp::Insert(i),
            },
            StoreOp::Delete(i) => StoreOp::Insert(i),
            StoreOp::Insert(i) => {
                if let StoreReply::Failed = reply {
                    self.failed.push(i);
                }
                if i + 1 < self.total {
                    StoreOp::FindDirty(i + 1)
                } else {
                    StoreOp::Finish
                }
            },
            StoreOp::Finish => StoreOp::Finish,
        };
        self.pending = next;
        next
    }
}

/// The reply of an append store holding `rows` that carries out every
/// operation on the records `rs`.
pub open spec fn faithful_reply(rows: Seq<(PriceRecord, bool)>, rs: Seq<PriceRecord>, op: StoreOp) -> StoreReply {
    match op {
        StoreOp::FindDirty(i) => StoreReply::Found(has_dirty_row(rows, record_key(rs[i as int]))),
        _ => StoreReply::Done,
    }
}

/// The rows of an append store holding `rows` once it carries out `op`.
pub open spec fn apply_op(rows: Seq<(PriceRecord, bool)>, rs: Seq<PriceRecord>, op: StoreOp) -> Seq<
    (PriceRecord, bool),
> {
    match op {
        StoreOp::Delete(i) => without_key(rows, record_key(rs[i as int])),
        StoreOp::Insert(i) => rows.push((rs[i as int], false)),
        _ => rows,
    }
}

/// The rows of the store after `fuel` operations of the machine, starting from
/// `op`, each carried out and answered faithfully.
pub open spec fn drive(rows: Seq<(PriceRecord, bool)>, rs: Seq<PriceRecord>, op: StoreOp, fuel: nat) -> Seq<
    (PriceRecord, bool),
>
    decreases fuel,
{
    if fuel == 0 || op == StoreOp::Finish {
        rows
    } else {
        drive(
            apply_op(rows, rs, op),
            rs,
            append_after(rs.len() as int, op, faithful_reply(rows, rs, op)),
            (fuel - 1) as nat,
        )
    }
}

proof fn lemma_drive_from(rows: Seq<(PriceRecord, bool)>, rs: Seq<PriceRecord>, i: int, fuel: nat)
    requires
        0 <= i <= rs.len(),
        rs.len() <= usize::MAX,
        fuel >= 3 * (rs.len() - i),
    ensures
        drive(
            rows,
            rs,
            if i < rs.len() {
                StoreOp::FindDirty(i as usize)
            } else {
                StoreOp::Finish
            },
            fuel,
        ) == append_upsert(rows, rs.subrange(i, rs.len() as int)),
    decreases rs.len() - i,
{
    let n = rs.len() as int;
    let rest = rs.subrange(i, n);
    if i == n {
        if fuel > 0 {
        }
    } else {
        assert(rest[0] == rs[i]);
        assert(rest.drop_first() =~= rs.subrange(i + 1, n));
        let next = if i + 1 < n {
            StoreOp::FindDirty((i + 1) as usize)
        } else {
            StoreOp::Finish
        };
        let key = record_key(rs[i]);
        if has_dirty_row(rows, key) {
            let deleted = without_key(rows, key);
            assert(faithful_reply(rows, rs, StoreOp::FindDirty(i as usize)) == StoreReply::Found(true));
            assert(drive(rows, rs, StoreOp::FindDirty(i as usize), fuel) == drive(
                rows,
                rs,
                StoreOp::Delete(i as usize),
                (fuel - 1) as nat,
            ));
            assert(drive(rows, rs, StoreOp::Delete(i as usize), (fuel - 1) as nat) == drive(
                deleted,
                rs,
                StoreOp::Insert(i as usize),
                (fuel - 2) as nat,
            ));
            assert(drive(deleted, rs, StoreOp::Insert(i as usize), (fuel - 2) as nat) == drive(
                deleted.push((rs[i], false)),
                rs,
                next,
                (fuel - 3) as nat,
            ));
            assert(drive(rows, rs, StoreOp::FindDirty(i as usize), fuel) == drive(
                deleted.push((rs[i], false)),
                rs,
                next,
                (fuel - 3) as nat,
            ));
        } else {
            assert(faithful_reply(rows, rs, StoreOp::FindDirty(i as usize)) == StoreReply::Found(false));
            assert(drive(rows, rs, StoreOp::FindDirty(i as usize), fuel) == drive(
                rows,
                rs,
                StoreOp::Insert(i as usize),
                (fuel - 1) as nat,
            ));
            assert(drive(rows, rs, StoreOp::Insert(i as usize), (fuel - 1) as nat) == drive(
                rows.push((rs[i], false)),
                rs,
                next,
                (fuel - 2) as nat,
            ));
            assert(drive(rows, rs, StoreOp::FindDirty(i as usize), fuel) == drive(
                rows.push((rs[i], false)),
                rs,
                next,
                (fuel - 2) as nat,
            ));
        }
        lemma_drive_from(append_upsert_one(rows, rs[i]), rs, i + 1, (fuel - 3 + if has_dirty_row(rows, key) { 0nat } else { 1nat }) as nat);
    }
}

/// Run against an append store that carries out and answers every operation,
/// the machine leaves the store exactly as writing the records in order does.
pub proof fn lemma_machine_writes_every_record(rows: Seq<(PriceRecord, bool)>, rs: Seq<PriceRecord>)
    requires
        rs.len() <= usize::MAX,
    ensures
        drive(rows, rs, append_first(rs.len() as int), 3 * rs.len()) == append_upsert(rows, rs),
{
    lemma_drive_from(rows, rs, 0, 3 * rs.len());
    assert(rs.subrange(0, rs.len() as int) =~= rs);
}

/// An operation on the transactional store, for one document.
#[derive(Clone, Copy, Debug, PartialEq, Eq, Structural)]
pub enum TxOp {
    /// Open the transaction.
    Begin,
    /// Upsert the record at the given index, updating it on a key conflict.
    Upsert(usize),
    /// Commit the transaction.
    Commit,
    /// Roll the transaction back.
    Rollback,
    /// Nothing more to do.
    Finish,
}

/// The operation that follows `op` for `total` records, given whether `op`
/// succeeded. Any failure inside the transaction rolls it back.
pub open spec fn tx_after(total: int, op: TxOp, ok: bool) -> TxOp {
    match op {
        TxOp::Begin => if !ok {
            TxOp::Finish
        } else if 0 < total {
            TxOp::Upsert(0)
        } else {
            TxOp::Commit
        },
        TxOp::Upsert(i) => if !ok {
            TxOp::Rollback
        } else if i + 1 < total {
            TxOp::Upsert((i + 1) as usize)
        } else {
            TxOp::Commit
        },
        _ => TxOp::Finish,
    }
}

/// The writing of one document of `total` records into the transactional
/// store: the pending operation, how many upserts succeeded, and whether the
/// transaction was committed.
#[derive(Clone, Copy, Debug)]
pub struct TransactionalUpsert {
    pub total: usize,
    pub pending: TxOp,
    pub acked: usize,
    pub committed: bool,
}

impl TransactionalUpsert {
    /// Upserts are acknowledged in order, a commit is asked for only once
    /// every record was upserted, and only a commit that succeeded counts.
    pub open spec fn wf(&self) -> bool {
        &&& self.acked <= self.total
        &&& match self.pending {
            TxOp::Begin => self.acked == 0,
            TxOp::Upsert(i) => i == self.acked && i < self.total,
            TxOp::Commit => self.acked == self.total,
            _ => true,
        }
        &&& self.committed ==> self.acked == self.total && self.pending == TxOp::Finish
    }

    /// Starts writing a document of `total` records.
    pub fn new(total: usize) -> (r: TransactionalUpsert)
        ensures
            r.wf(),
            r.total == total,
            r.pending == TxOp::Begin,
            r.acked == 0,
            !r.committed,
    {
        TransactionalUpsert { total, pending: TxOp::Begin, acked: 0, committed: false }
    }

    /// Takes whether the pending operation succeeded and returns the next one.
    pub fn step(&mut self, ok: bool) -> (op: TxOp)
        requires
            old(self).wf(),
        ensures
            final(self).wf(),
            final(self).total == old(self).total,
            final(self).pending == tx_after(old(self).total as int, old(self).pending, ok),
            op == final(self).pending,
            final(self).acked == if old(self).pending is Upsert && ok {
                old(self).acked + 1
            } else {
                old(self).acked as int
            },
            final(self).committed == (old(self).committed || (old(self).pending == TxOp::Commit
                && ok)),
    {
        let next = match self.pending {
            TxOp::Begin => if !ok {
                TxOp::Finish
            } else if 0 < self.total {
                TxOp::Upsert(0)
            } else {
                TxOp::Commit
            },
            TxOp::Upsert(i) => if !ok {
                TxOp::Rollback
            } else {
                self.acked = self.acked + 1;
                if i + 1 < self.total {
                    TxOp::Upsert(i + 1)
                } else {
                    TxOp::Commit
                }
            },
            TxOp::Commit => {
                if ok {
                    self.committed = true;
                }
                TxOp::Finish
            },
            _ => TxOp::Finish,
        };
        self.pending = next;
        next
    }

    /// Whether the document has landed: `Some(true)` once committed,
    /// `Some(false)` once finished without a commit, `None` while running.
    pub fn outcome(&self) -> (r: Option<bool>)
        ensures
            r == if self.pending == TxOp::Finish {
                Some(self.committed)
            } else {
                None::<bool>
            },
    {
        match self.pending {
            TxOp::Finish => Some(self.committed),
            _ => None,
        }
    }
}

} // verus!
