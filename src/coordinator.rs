//! One synchronization pass over a range cut into chunks: each chunk is
//! fetched, expanded and enriched, then written to every configured store.
//! Chunks are handled strictly one after another. The fetch and the writes are
//! done by the caller; the machine here says what comes next.
use vstd::prelude::*;

use crate::models::PublicationMarketDocument;
use crate::records::{are_records_of, document_records, series_entries, PriceRecord};
use crate::tax::SettingsConfig;

verus! {

/// The next thing a pass asks its caller to do.
#[derive(Clone, Copy, Debug, PartialEq, Eq, Structural)]
pub enum PassOp {
    /// Fetch, expand and enrich the chunk at the given index.
    Fetch(usize),
    /// Write the chunk's records to every configured store, concurrently,
    /// and report each store's result once all have finished.
    Upsert(usize),
    /// The pass is over.
    Finish,
}

/// How a finished pass went.
#[derive(Clone, Copy, Debug, PartialEq, Eq, Structural)]
pub enum PassOutcome {
    /// Every chunk was fetched and every store took every chunk.
    Success,
    /// Every chunk was fetched, and some store failed on some chunk.
    PartialFailure,
    /// The chunk at this index could not be fetched or read; the pass stopped.
    Fatal(usize),
}

/// The indices of the stores whose write failed, in order.
pub open spec fn failed_backends(results: Seq<bool>) -> Seq<usize>
    decreases results.len(),
{
    if results.len() == 0 {
        Seq::empty()
    } else if results.last() {
        failed_backends(results.drop_last())
    } else {
        failed_backends(results.drop_last()).push((results.len() - 1) as usize)
    }
}

/// The operation after chunk `i` has been written, of `total` chunks.
pub open spec fn after_chunk(total: int, i: int) -> PassOp {
    if i + 1 < total {
        PassOp::Fetch((i + 1) as usize)
    } else {
        PassOp::Finish
    }
}

/// A pass over `chunks`: the pending operation, the records of the chunk being
/// written, the `(chunk, store)` pairs whose write failed, and the chunk that
/// stopped the pass, if any.
#[derive(Clone, Debug)]
pub struct SyncPass {
    pub chunks: Vec<(i64, i64)>,
    pub pending: PassOp,
    pub records: Vec<PriceRecord>,
    pub failures: Vec<(usize, usize)>,
    pub fatal: Option<usize>,
}

impl SyncPass {
    /// Whether the pending operation names a chunk that exists, and a stopped
    /// pass is over.
    pub open spec fn wf(&self) -> bool {
        &&& match self.pending {
            PassOp::Fetch(i) => i < self.chunks@.len() && self.fatal is None,
            PassOp::Upsert(i) => i < self.chunks@.len() && self.fatal is None,
            PassOp::Finish => true,
        }
    }

    /// Starts a pass over `chunks`.
    pub fn new(chunks: Vec<(i64, i64)>) -> (r: SyncPass)
        ensures
            r.wf(),
            r.chunks@ == chunks@,
            r.pending == if chunks@.len() > 0 {
                PassOp::Fetch(0)
            } else {
                PassOp::Finish
            },
            r.failures@.len() == 0,
            r.fatal is None,
    {
        let pending = if chunks.len() > 0 {
            PassOp::Fetch(0)
        } else {
            PassOp::Finish
        };
        SyncPass { chunks, pending, records: Vec::new(), failures: Vec::new(), fatal: None }
    }

    /// Takes the document fetched for the pending chunk (`None` where the fetch
    /// failed) and turns it into the records to write. A chunk that could not
    /// be fetched or read stops the pass: later chunks depend on it.
    pub fn fetched(
        &mut self,
        document: Option<&PublicationMarketDocument>,
        in_domain: &str,
        out_domain: &str,
        taxes: &SettingsConfig,
    ) -> (op: PassOp)
        requires
            old(self).wf(),
            old(self).pending is Fetch,
        ensures
            final(self).wf(),
            final(self).chunks@ == old(self).chunks@,
            final(self).failures@ == old(self).failures@,
            ({
                let i = old(self).pending->Fetch_0;
                match document {
                    Some(doc) => match series_entries(doc.time_series@) {
                        Ok(entries) => {
                            &&& final(self).pending == PassOp::Upsert(i)
                            &&& final(self).fatal is None
                            &&& are_records_of(
                                final(self).records@,
                                entries,
                                *doc,
                                in_domain@,
                                out_domain@,
                                taxes.settings@,
                            )
                        },
                        Err(_) => final(self).pending == PassOp::Finish && final(self).fatal
                            == Some(i),
                    },
                    None => final(self).pending == PassOp::Finish && final(self).fatal == Some(i),
                }
            }),
            op == final(self).pending,
    {
        if let PassOp::Fetch(i) = self.pending {
            let read = match document {
                Some(doc) => match document_records(doc, in_domain, out_domain, taxes) {
                    Ok(records) => Some(records),
                    Err(_) => None,
                },
                None => None,
            };
            match read {
                Some(records) => {
                    self.records = records;
                    self.pending = PassOp::Upsert(i);
                },
                None => {
                    self.pending = PassOp::Finish;
                    self.fatal = Some(i);
                },
            }
        }
        self.pending
    }

    /// Takes the result of every store's write of the pending chunk. Each
    /// failed store is recorded against that chunk, and the pass goes on to the
    /// next chunk whatever the stores reported.
    pub fn upserted(&mut self, results: &Vec<bool>) -> (op: PassOp)
        requires
            old(self).wf(),
            old(self).pending is Upsert,
        ensures
            final(self).wf(),
            final(self).chunks@ == old(self).chunks@,
            final(self).records@ == old(self).records@,
            final(self).fatal == old(self).fatal,
            ({
                let i = old(self).pending->Upsert_0;
                &&& final(self).pending == after_chunk(old(self).chunks@.len() as int, i as int)
                &&& final(self).failures@ == old(self).failures@ + failed_backends(results@).map_values(
                    |b: usize| (i, b),
                )
            }),
            op == final(self).pending,
    {
        let ghost start = self.failures@;
        if let PassOp::Upsert(i) = self.pending {
            let mut b: usize = 0;
            while b < results.len()
                invariant
                    0 <= b <= results@.len(),
                    self.pending == old(self).pending,
                    self.pending == PassOp::Upsert(i),
                    self.chunks@ == old(self).chunks@,
                    self.records@ == old(self).records@,
                    self.fatal == old(self).fatal,
                    i < self.chunks@.len(),
                    self.failures@ == start + failed_backends(results@.take(b as int)).map_values(
                        |x: usize| (i, x),
                    ),
                decreases results@.len() - b,
            {
                proof {
                    assert(results@.take(b + 1).drop_last() =~= results@.take(b as int));
                }
                if !results[b] {
                    self.failures.push((i, b));
                }
                proof {
                    let f = failed_backends(results@.take(b as int)).map_values(|x: usize| (i, x));
                    assert(failed_backends(results@.take(b + 1)).map_values(|x: usize| (i, x))
                        =~= if results@[b as int] {
                        f
                    } else {
                        f.push((i, b))
                    });
                    assert(self.failures@ =~= start + failed_backends(results@.take(b + 1)).map_values(
                        |x: usize| (i, x),
                    ));
                }
                b = b + 1;
            }
            assert(results@.take(results@.len() as int) =~= results@);
            assert(i < self.chunks@.len());
            self.pending = if i < self.chunks.len() - 1 {
                PassOp::Fetch(i + 1)
            } else {
                PassOp::Finish
            };
        }
        self.pending
    }

    /// How the pass went, once it is over.
    pub fn outcome(&self) -> (r: Option<PassOutcome>)
        ensures
            r == if self.pending != PassOp::Finish {
                None
            } else if self.fatal is Some {
                Some(PassOutcome::Fatal(self.fatal->Some_0))
            } else if self.failures@.len() == 0 {
                Some(PassOutcome::Success)
            } else {
                Some(PassOutcome::PartialFailure)
            },
    {
        match self.pending {
            PassOp::Finish => match self.fatal {
                Some(c) => Some(PassOutcome::Fatal(c)),
                None => if self.failures.len() == 0 {
                    Some(PassOutcome::Success)
                } else {
                    Some(PassOutcome::PartialFailure)
                },
            },
            _ => None,
        }
    }
}

/// A store's failed write is recorded against that store alone: a store is
/// among the failed ones exactly when its own write failed, whatever the other
/// stores reported.
pub proof fn lemma_failure_is_per_backend(results: Seq<bool>, b: int)
    requires
        0 <= b < results.len(),
        results.len() <= usize::MAX,
    ensures
        failed_backends(results).contains(b as usize) <==> !results[b],
    decreases results.len(),
{
    lemma_failed_backends_below(results);
    let n = results.len() - 1;
    if b < n {
        lemma_failure_is_per_backend(results.drop_last(), b);
        let f = failed_backends(results.drop_last());
        if !results.last() {
            assert(f.push(n as usize).contains(b as usize) <==> f.contains(b as usize)) by {
                let g = f.push(n as usize);
                if g.contains(b as usize) {
                    let k = choose|k: int| 0 <= k < g.len() && #[trigger] g[k] == b as usize;
                    if k < f.len() {
                        assert(f[k] == b as usize);
                    }
                }
                if f.contains(b as usize) {
                    let k = choose|k: int| 0 <= k < f.len() && #[trigger] f[k] == b as usize;
                    assert(g[k] == b as usize);
                }
            }
        }
    } else {
        lemma_failed_backends_below(results.drop_last());
        let f = failed_backends(results.drop_last());
        if !results.last() {
            assert(f.push(n as usize)[f.len() as int] == n as usize);
        }
        assert(!f.contains(n as usize));
    }
}

proof fn lemma_failed_backends_below(results: Seq<bool>)
    requires
        results.len() <= usize::MAX,
    ensures
        forall|k: int|
            0 <= k < failed_backends(results).len() ==> #[trigger] failed_backends(results)[k]
                < results.len(),
    decreases results.len(),
{
    if results.len() > 0 {
        lemma_failed_backends_below(results.drop_last());
        let f = failed_backends(results.drop_last());
        let g = failed_backends(results);
        assert forall|k: int| 0 <= k < g.len() implies #[trigger] g[k] < results.len() by {
            if k < f.len() {
                assert(g[k] == f[k]);
            }
        }
    }
}

} // verus!
