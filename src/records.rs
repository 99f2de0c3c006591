//! Enrichment: the samples of a document, each with the tax percentage in
//! force at its instant, as records ready to be written to a store.
use vstd::prelude::*;

use crate::models::{Amount, Period, PublicationMarketDocument, TimeSeries};
use crate::series::{period_samples, ExpandError, Sample};
use crate::tax::{tax_rate_at, SettingConfig, SettingsConfig};

verus! {

/// One enriched sample. Its identity, for writing, is the instant and the
/// pair of domains.
#[derive(Clone, Debug, PartialEq)]
pub struct PriceRecord {
    pub timestamp: i64,
    pub in_domain: String,
    pub out_domain: String,
    pub document_type: String,
    pub currency: String,
    pub price_measure_unit: String,
    pub curve_type: String,
    pub price: Amount,
    pub tax_percentage: Amount,
}

/// The samples that the periods `ps` of series `s` contribute, tagged with
/// `s`: a period whose interval cannot be read contributes none, and a period
/// whose resolution cannot be read fails the whole.
pub open spec fn periods_entries(ps: Seq<Period>, s: int) -> Result<Seq<(int, Sample)>, ExpandError>
    decreases ps.len(),
{
    if ps.len() == 0 {
        Ok(Seq::empty())
    } else {
        match periods_entries(ps.drop_last(), s) {
            Ok(before) => match period_samples(ps.last()) {
                Ok(v) => Ok(before + v.map_values(|x: Sample| (s, x))),
                Err(ExpandError::InvalidInterval) => Ok(before),
                Err(e) => Err(e),
            },
            Err(e) => Err(e),
        }
    }
}

/// The samples of all series `tss`, in order, each tagged with its series.
pub open spec fn series_entries(tss: Seq<TimeSeries>) -> Result<Seq<(int, Sample)>, ExpandError>
    decreases tss.len(),
{
    if tss.len() == 0 {
        Ok(Seq::empty())
    } else {
        match series_entries(tss.drop_last()) {
            Ok(before) => match periods_entries(tss.last().period@, tss.len() - 1) {
                Ok(v) => Ok(before + v),
                Err(e) => Err(e),
            },
            Err(e) => Err(e),
        }
    }
}

/// Whether `r` is the record of sample `x` of series `ts`, for the given
/// domains, document type and tax schedule.
pub open spec fn is_record_of(
    r: PriceRecord,
    x: Sample,
    ts: TimeSeries,
    document_type: Seq<char>,
    in_domain: Seq<char>,
    out_domain: Seq<char>,
    windows: Seq<SettingConfig>,
) -> bool {
    &&& r.timestamp == x.time
    &&& r.price == x.price
    &&& r.tax_percentage == tax_rate_at(windows, x.time as int)
    &&& r.in_domain@ == in_domain
    &&& r.out_domain@ == out_domain
    &&& r.document_type@ == document_type
    &&& r.currency@ == ts.currency_unit@
    &&& r.price_measure_unit@ == ts.price_measure_unit@
    &&& r.curve_type@ == ts.curve_type@
}

/// Whether `rs` are, one for one, the records of the tagged samples `entries`
/// of document `doc`.
pub open spec fn are_records_of(
    rs: Seq<PriceRecord>,
    entries: Seq<(int, Sample)>,
    doc: PublicationMarketDocument,
    in_domain: Seq<char>,
    out_domain: Seq<char>,
    windows: Seq<SettingConfig>,
) -> bool {
    &&& rs.len() == entries.len()
    &&& forall|k: int|
        0 <= k < rs.len() ==> 0 <= (#[trigger] entries[k]).0 < doc.time_series@.len()
            && is_record_of(
            rs[k],
            entries[k].1,
            doc.time_series@[entries[k].0],
            doc.document_type@,
            in_domain,
            out_domain,
            windows,
        )
}

/// The records of a document: every period expanded, every sample given the
/// tax percentage in force at its instant. Periods whose interval cannot be
/// read are left out; a resolution that cannot be read fails the document.
pub fn document_records(
    doc: &PublicationMarketDocument,
    in_domain: &str,
    out_domain: &str,
    taxes: &SettingsConfig,
) -> (r: Result<Vec<PriceRecord>, ExpandError>)
    ensures
        match r {
            Ok(v) => series_entries(doc.time_series@) matches Ok(entries) && are_records_of(
                v@,
                entries,
                *doc,
                in_domain@,
                out_domain@,
                taxes.settings@,
            ),
            Err(e) => series_entries(doc.time_series@) == Err::<Seq<(int, Sample)>, ExpandError>(
                e,
            ),
        },
{
    let ghost tss = doc.time_series@;
    let ghost ws = taxes.settings@;
    let mut out: Vec<PriceRecord> = Vec::new();
    let ghost mut entries: Seq<(int, Sample)> = Seq::empty();
    let mut i: usize = 0;
    while i < doc.time_series.len()
        invariant
            tss == doc.time_series@,
            ws == taxes.settings@,
            0 <= i <= tss.len(),
            series_entries(tss.take(i as int)) == Ok::<Seq<(int, Sample)>, ExpandError>(entries),
            are_records_of(out@, entries, *doc, in_domain@, out_domain@, ws),
        decreases tss.len() - i,
    {
        let ts = &doc.time_series[i];
        let ghost ps = ts.period@;
        let ghost before = entries;
        let mut j: usize = 0;
        while j < ts.period.len()
            invariant
                tss == doc.time_series@,
                ws == taxes.settings@,
                0 <= i < tss.len(),
                *ts == tss[i as int],
                ps == ts.period@,
                series_entries(tss.take(i as int)) == Ok::<Seq<(int, Sample)>, ExpandError>(before),
                0 <= j <= ps.len(),
                periods_entries(ps.take(j as int), i as int) matches Ok(pe) && entries == before
                    + pe,
                0 <= j <= ps.len(),
                are_records_of(out@, entries, *doc, in_domain@, out_domain@, ws),
            decreases ps.len() - j,
        {
            assert(ps.take(j + 1).drop_last() =~= ps.take(j as int));
            assert(ps.take(j + 1).last() == ps[j as int]);
            let ghost pe = entries.subrange(before.len() as int, entries.len() as int);
            assert(entries == before + pe);
            match ts.period[j].expand() {
                Ok(samples) => {
                    let ghost start = entries;
                    let mut m: usize = 0;
                    while m < samples.len()
                        invariant
                            tss == doc.time_series@,
                            ws == taxes.settings@,
                            0 <= i < tss.len(),
                            *ts == tss[i as int],
                            0 <= m <= samples@.len(),
                            entries == start + samples@.take(m as int).map_values(
                                |x: Sample| (i as int, x),
                            ),
                            are_records_of(out@, entries, *doc, in_domain@, out_domain@, ws),
                        decreases samples@.len() - m,
                    {
                        let x = samples[m];
                        let rate = taxes.get_current_tax_percentage(x.time);
                        let rec = PriceRecord {
                            timestamp: x.time,
                            in_domain: in_domain.to_owned(),
                            out_domain: out_domain.to_owned(),
                            document_type: doc.document_type.clone(),
                            currency: ts.currency_unit.clone(),
                            price_measure_unit: ts.price_measure_unit.clone(),
                            curve_type: ts.curve_type.clone(),
                            price: x.price,
                            tax_percentage: rate,
                        };
                        let ghost old_out = out@;
                        out.push(rec);
                        proof {
                            let old_entries = entries;
                            entries = entries.push((i as int, x));
                            assert(samples@.take(m + 1) =~= samples@.take(m as int).push(x));
                            assert(entries =~= start + samples@.take(m + 1).map_values(
                                |x: Sample| (i as int, x),
                            ));
                            assert forall|k: int| 0 <= k < out@.len() implies 0 <= (
                            #[trigger] entries[k]).0 < doc.time_series@.len() && is_record_of(
                                out@[k],
                                entries[k].1,
                                doc.time_series@[entries[k].0],
                                doc.document_type@,
                                in_domain@,
                                out_domain@,
                                ws,
                            ) by {
                                if k < old_out.len() {
                                    assert(out@[k] == old_out[k]);
                                    assert(entries[k] == old_entries[k]);
                                }
                            }
                        }
                        m = m + 1;
                    }
                    proof {
                        assert(samples@.take(samples@.len() as int) =~= samples@);
                        assert(entries =~= before + (pe + samples@.map_values(
                            |x: Sample| (i as int, x),
                        )));
                    }
                },
                Err(ExpandError::InvalidInterval) => {},
                Err(e) => {
                    proof {
                        assert(periods_entries(ps.take(j + 1), i as int) == Err::<
                            Seq<(int, Sample)>,
                            ExpandError,
                        >(e));
                        lemma_periods_error_persists(ps, i as int, j as int + 1);
                        assert(ps.take(ps.len() as int) =~= ps);
                        assert(tss.take(i + 1).drop_last() =~= tss.take(i as int));
                        assert(tss.take(i + 1).last() == tss[i as int]);
                        assert(periods_entries(ps, i as int) == Err::<Seq<(int, Sample)>, ExpandError>(e));
                        assert(tss.take(i + 1).len() - 1 == i);
                        assert(series_entries(tss.take(i + 1)) == Err::<Seq<(int, Sample)>, ExpandError>(e));
                        lemma_series_error_persists(tss, i as int + 1);
                        assert(tss.take(tss.len() as int) =~= tss);
                    }
                    return Err(e);
                },
            }
            j = j + 1;
        }
        proof {
            assert(ps.take(ps.len() as int) =~= ps);
            assert(tss.take(i + 1).drop_last() =~= tss.take(i as int));
            assert(tss.take(i + 1).last() == tss[i as int]);
        }
        i = i + 1;
    }
    assert(tss.take(tss.len() as int) =~= tss);
    Ok(out)
}

proof fn lemma_periods_error_persists(ps: Seq<Period>, s: int, n: int)
    requires
        0 <= n <= ps.len(),
        periods_entries(ps.take(n), s) is Err,
    ensures
        periods_entries(ps.take(ps.len() as int), s) == periods_entries(ps.take(n), s),
    decreases ps.len() - n,
{
    if n < ps.len() {
        assert(ps.take(n + 1).drop_last() =~= ps.take(n));
        lemma_periods_error_persists(ps, s, n + 1);
    }
}

proof fn lemma_series_error_persists(tss: Seq<TimeSeries>, n: int)
    requires
        0 <= n <= tss.len(),
        series_entries(tss.take(n)) is Err,
    ensures
        series_entries(tss.take(tss.len() as int)) == series_entries(tss.take(n)),
    decreases tss.len() - n,
{
    if n < tss.len() {
        assert(tss.take(n + 1).drop_last() =~= tss.take(n));
        lemma_series_error_persists(tss, n + 1);
    }
}

} // verus!
