//! What every kind of financial statement offers.
//!
//! A kind of statement names the fact tags it asks for and routes the value
//! of each tag to one of its fields. From that, a snapshot can be filled from
//! a document, and the history of a statement can be built.

use crate::clock::current_year;
use crate::common::{
    fiscal_period_of, form_report_of, FiscalPeriod, FormReport, MetaData, MetaDataView,
};
use crate::error::{missing_facts, ParseError, ParseErrorView};
use crate::facts::{
    collect_facts, document_facts, read_record, read_series, record_of, tag_items_of, tags_view,
    taxonomy_of,
};
use crate::history::{
    applied, ascending, facts_view, is_history, is_upsert, keyed, lemma_history_upsert,
    lemma_keys_ascending, locate, models, steps_of, upsert_at, window, Step, TagSeries,
    TagSeriesView,
};
use crate::record::{series_view, FactRecord, FactRecordView};
use crate::select::{
    fill_outcome, filled, latest_record, lemma_filled_stops, newest_record_of_year, FillOutcome,
};
use crate::text::{lex_less, same_text};
use crate::year::parse_year;
use serde_json::Value;
use vstd::prelude::*;
use vstd::slice::slice_to_vec;

verus! {

/// The mathematical content of a statement snapshot: the amount of each fact
/// tag that the statement has a field for, and the metadata.
pub struct SnapshotModel {
    pub amounts: Map<Seq<char>, int>,
    pub meta: MetaDataView,
}

impl SnapshotModel {
    /// The snapshot after `value` was routed to the field of `tag`. A tag
    /// without a field changes nothing.
    pub open spec fn with_amount(self, tag: Seq<char>, value: int) -> SnapshotModel {
        if self.amounts.dom().contains(tag) {
            SnapshotModel { amounts: self.amounts.insert(tag, value), meta: self.meta }
        } else {
            self
        }
    }

    /// The snapshot after the period of `rec` was written over its metadata.
    pub open spec fn with_period(self, rec: FactRecordView) -> SnapshotModel {
        SnapshotModel {
            amounts: self.amounts,
            meta: MetaDataView {
                start_date: rec.start_date,
                end_date: rec.end_date,
                form_report: form_report_of(rec.form),
                fiscal_period: fiscal_period_of(rec.fiscal_period),
                ..self.meta
            },
        }
    }

    /// The snapshot after the record `rec` of the fact `tag` was applied: the
    /// period of the record replaces the one in the metadata, whatever was
    /// there, and the value goes to the field of the tag.
    pub open spec fn apply(self, tag: Seq<char>, rec: FactRecordView) -> SnapshotModel {
        self.with_period(rec).with_amount(tag, rec.value)
    }
}

/// The year that ends what lies too far back: a record counts when the year
/// of its end date is after it.
pub open spec fn cutoff_of(current_year: i32, retention_years: u32) -> int {
    current_year - retention_years
}

/// The year that a filling asks for, as a number.
pub open spec fn year_view(year: Option<i64>) -> Option<int> {
    match year {
        Some(y) => Some(y as int),
        None => None,
    }
}

/// The contents of what building a history returned.
pub open spec fn history_result_view<T: View<V = SnapshotModel>>(
    r: Result<Vec<T>, ParseError>,
) -> Result<Seq<SnapshotModel>, ParseErrorView> {
    match r {
        Ok(out) => Ok(models(out@)),
        Err(e) => Err(e@),
    }
}

/// Whether `r` is what building the history of the document `doc` for the
/// tags `tags` gives: the first missing part where one is missing, else the
/// history of the annual records with a year after `cutoff`.
pub open spec fn is_history_result(
    r: Result<Seq<SnapshotModel>, ParseErrorView>,
    blank: SnapshotModel,
    doc: Value,
    tags: Seq<Seq<char>>,
    cutoff: int,
) -> bool {
    match r {
        Ok(out) => match document_facts(doc, tags) {
            Ok(facts) => is_history(out, blank, applied(facts, cutoff)),
            Err(_) => false,
        },
        Err(e) => document_facts(doc, tags) == Err::<Seq<TagSeriesView>, ParseErrorView>(e),
    }
}

/// Whether `r` is what filling a snapshot gave, `out` being the outcome and
/// `after` the snapshot as it then is.
pub open spec fn is_fill_result(
    r: Result<(), ParseError>,
    after: SnapshotModel,
    out: FillOutcome,
) -> bool {
    &&& after == out.model
    &&& match r {
        Ok(_) => out.error is None,
        Err(e) => out.error == Some(e@),
    }
}

/// A kind of financial statement. The view of a snapshot is its
/// [`SnapshotModel`].
pub trait FinancialStatement: View<V = SnapshotModel> + Sized {
    /// How many years back a history reaches unless told otherwise.
    const MAX_HISTORY_YEARS: u32 = 5;

    /// The fact tags that this snapshot asks for, in order.
    spec fn tag_list(&self) -> Seq<Seq<char>>;

    /// The content of a snapshot that no fact has filled yet.
    spec fn blank_model() -> SnapshotModel;

    /// The fact tags that a new snapshot of this kind asks for, in order.
    spec fn schema() -> Seq<Seq<char>>;

    /// A snapshot that no fact has filled yet.
    fn blank() -> (r: Self)
        ensures
            r@ == Self::blank_model(),
            r.tag_list() == Self::schema(),
    ;

    /// The fact tags that this snapshot asks for.
    fn get_gaap_tags(&self) -> (r: &[&'static str])
        ensures
            tags_view(r@) =~= self.tag_list(),
    ;

    /// The metadata of this snapshot, to read or to change.
    fn get_metadata(&mut self) -> (r: &mut MetaData)
        ensures
            (*r)@ == old(self)@.meta,
            final(self)@.amounts =~= old(self)@.amounts,
            final(self)@.meta == (*final(r))@,
            final(self).tag_list() == old(self).tag_list(),
    ;

    /// Routes `value` to the field that belongs to `gaap_tag`. A tag without
    /// a field changes nothing.
    fn set_gaap_value(&mut self, gaap_tag: &str, value: i64)
        ensures
            final(self)@ == old(self)@.with_amount(gaap_tag@, value as int),
            final(self).tag_list() == old(self).tag_list(),
    ;

    /// Applies one record of the fact `gaap_tag` to this snapshot.
    fn fill_from_record(&mut self, rec: &FactRecord, gaap_tag: &str)
        ensures
            final(self)@ == old(self)@.apply(gaap_tag@, rec@),
            final(self).tag_list() == old(self).tag_list(),
    {
        let meta = self.get_metadata();
        meta.start_date = rec.start_date.clone();
        meta.end_date = rec.end_date.clone();
        meta.form_report = FormReport::from_name(rec.form.as_str());
        meta.fiscal_period = FiscalPeriod::from_token(rec.fiscal_period.as_str());
        self.set_gaap_value(gaap_tag, rec.value);
    }

    /// Applies the record that the JSON value `sec_data` describes, a record
    /// of the fact `gaap_tag`, to this snapshot.
    fn fill_from_sec_json(&mut self, sec_data: &Value, gaap_tag: &str)
        ensures
            final(self)@ == old(self)@.apply(gaap_tag@, record_of(*sec_data)),
            final(self).tag_list() == old(self).tag_list(),
    {
        let rec = read_record(sec_data);
        self.fill_from_record(&rec, gaap_tag);
    }

    /// Finds the taxonomy of a company-facts document.
    fn extract_us_gaap<'a>(json_data: &'a Value) -> (r: Result<
        &'a serde_json::Map<String, Value>,
        ParseError,
    >)
        ensures
            match r {
                Ok(facts) => taxonomy_of(*json_data) == Some(*facts),
                Err(e) => taxonomy_of(*json_data) is None && e@ == missing_facts(),
            },
    {
        crate::facts::extract_us_gaap(json_data)
    }

    /// Finds the values that the taxonomy reports for `gaap_tag` in US
    /// dollars.
    fn extract_gaap_tag_in_unit_usd<'a>(
        facts: &'a serde_json::Map<String, Value>,
        gaap_tag: &str,
    ) -> (r: Result<&'a Vec<Value>, ParseError>)
        ensures
            match r {
                Ok(list) => tag_items_of(*facts, gaap_tag@) == Ok::<Seq<Value>, ParseErrorView>(
                    list@,
                ),
                Err(e) => tag_items_of(*facts, gaap_tag@) == Err::<Seq<Value>, ParseErrorView>(e@),
            },
    {
        crate::facts::extract_gaap_tag_in_unit_usd(facts, gaap_tag)
    }

    /// Fills this snapshot from the chosen record of each of its facts: the
    /// newest record of the fiscal year `year` where one is given, else the
    /// newest record of all. The facts are taken in the order of the tags;
    /// the first one that the document lacks ends the filling with its error.
    fn fill_chosen(&mut self, json_data: &Value, year: Option<i64>) -> (r: Result<(), ParseError>)
        ensures
            is_fill_result(
                r,
                final(self)@,
                fill_outcome(old(self)@, *json_data, old(self).tag_list(), year_view(year)),
            ),
            final(self).tag_list() == old(self).tag_list(),
    {
        let facts = match crate::facts::extract_us_gaap(json_data) {
            Ok(facts) => facts,
            Err(e) => {
                return Err(e);
            },
        };
        let tags = slice_to_vec(self.get_gaap_tags());
        let ghost names = self.tag_list();
        let ghost start = self@;
        let mut i: usize = 0;
        while i < tags.len()
            invariant
                i <= tags.len(),
                tags_view(tags@) == names,
                self.tag_list() == names,
                names == old(self).tag_list(),
                start == old(self)@,
                taxonomy_of(*json_data) == Some(*facts),
                filled(start, *facts, names, year_view(year), i as nat) == (FillOutcome {
                    model: self@,
                    error: None,
                }),
            decreases tags.len() - i,
        {
            let tag: &'static str = tags[i];
            match crate::facts::extract_gaap_tag_in_unit_usd(facts, tag) {
                Err(e) => {
                    proof {
                        lemma_filled_stops(
                            start,
                            *facts,
                            names,
                            year_view(year),
                            (i + 1) as nat,
                            names.len(),
                        );
                    }
                    return Err(e);
                },
                Ok(list) => {
                    let series = read_series(list);
                    let choice = match year {
                        Some(y) => newest_record_of_year(&series, y),
                        None => latest_record(&series),
                    };
                    match choice {
                        Some(rec) => {
                            self.fill_from_record(rec, tag);
                        },
                        None => {},
                    }
                },
            }
            i += 1;
        }
        Ok(())
    }

    /// Fills this snapshot from the newest record of each of its facts,
    /// whatever kind of report it comes from.
    fn parse_quarly_latest(&mut self, json_data: &Value) -> (r: Result<(), ParseError>)
        ensures
            is_fill_result(
                r,
                final(self)@,
                fill_outcome(old(self)@, *json_data, old(self).tag_list(), None),
            ),
            final(self).tag_list() == old(self).tag_list(),
    {
        self.fill_chosen(json_data, None)
    }

    /// Fills this snapshot, for each of its facts, from the newest record
    /// whose fiscal year is `current_year`. A fact without such a record
    /// leaves its field as it was.
    fn parse_annually_latest_at(&mut self, json_data: &Value, current_year: i32) -> (r: Result<
        (),
        ParseError,
    >)
        ensures
            is_fill_result(
                r,
                final(self)@,
                fill_outcome(
                    old(self)@,
                    *json_data,
                    old(self).tag_list(),
                    Some(current_year as int),
                ),
            ),
            final(self).tag_list() == old(self).tag_list(),
    {
        self.fill_chosen(json_data, Some(current_year as i64))
    }

    /// Fills this snapshot, for each of its facts, from the newest record
    /// whose fiscal year is the year of the machine's clock.
    fn parse_annually_latest(&mut self, json_data: &Value) -> (r: Result<(), ParseError>)
        ensures
            exists|year: i32| #[trigger]
                is_fill_result(
                    r,
                    final(self)@,
                    fill_outcome(
                        old(self)@,
                        *json_data,
                        old(self).tag_list(),
                        Some(year as int),
                    ),
                ),
            final(self).tag_list() == old(self).tag_list(),
    {
        let year = current_year();
        self.parse_annually_latest_at(json_data, year)
    }

    /// Applies one record of the fact `gaap_tag` to the snapshot of its end
    /// date among `snaps`, which are in ascending order of their end dates.
    /// Where no snapshot has that date, a new one takes its place in the
    /// order. `keys` holds the end date of each snapshot.
    fn upsert(keys: &mut Vec<String>, snaps: &mut Vec<Self>, rec: &FactRecord, gaap_tag: &str)
        requires
            keyed(old(keys)@, models(old(snaps)@)),
            ascending(models(old(snaps)@)),
        ensures
            keyed(final(keys)@, models(final(snaps)@)),
            is_upsert(
                models(old(snaps)@),
                models(final(snaps)@),
                Self::blank_model(),
                (Step { tag: gaap_tag@, record: rec@ }),
            ),
            (forall|i: int|
                0 <= i < old(snaps).len() ==> (#[trigger] old(snaps)[i]).tag_list()
                    == Self::schema()) ==> (forall|i: int|
                0 <= i < final(snaps).len() ==> (#[trigger] final(snaps)[i]).tag_list()
                    == Self::schema()),
    {
        let ghost step = Step { tag: gaap_tag@, record: rec@ };
        let ghost before = models(snaps@);
        let ghost earlier = snaps@;
        proof {
            lemma_keys_ascending(keys@, before);
        }
        let (at, found) = locate(keys, rec.end_date.as_str());
        proof {
            assert forall|i: int| 0 <= i < at implies lex_less(
                (#[trigger] before[i]).meta.end_date,
                rec.end_date@,
            ) by {
                assert(lex_less(keys@[i]@, rec.end_date@));
            }
        }
        if found {
            snaps[at].fill_from_record(rec, gaap_tag);
            proof {
                assert(models(snaps@) =~= before.update(
                    at as int,
                    before[at as int].apply(step.tag, step.record),
                ));
                assert(upsert_at(before, models(snaps@), Self::blank_model(), step, at as int));
            }
        } else {
            let mut fresh = Self::blank();
            fresh.fill_from_record(rec, gaap_tag);
            proof {
                assert forall|i: int| at <= i < before.len() implies lex_less(
                    rec.end_date@,
                    (#[trigger] before[i]).meta.end_date,
                ) by {
                    assert(lex_less(rec.end_date@, keys@[i]@));
                }
                crate::text::lemma_lex_irreflexive(rec.end_date@);
            }
            keys.insert(at, rec.end_date.clone());
            snaps.insert(at, fresh);
            proof {
                assert(models(snaps@) =~= before.insert(
                    at as int,
                    Self::blank_model().apply(step.tag, step.record),
                ));
                assert(upsert_at(before, models(snaps@), Self::blank_model(), step, at as int));
                assert forall|i: int| 0 <= i < snaps@.len() && i != at implies (
                #[trigger] snaps@[i]) == earlier[if i < at {
                    i
                } else {
                    i - 1
                }] by {}
            }
        }
    }

    /// Builds the history of a statement from the series of its facts.
    ///
    /// `facts` holds one series for each fact tag of the statement, in the
    /// order in which the statement lists them. A record enters when it is
    /// annual and the year of its end date is after `cutoff_year`; reading a
    /// series stops at its newest annual record that is not. The records of
    /// one period end, from whatever fact, fill one snapshot, and the
    /// snapshots come oldest period first.
    fn reconcile(facts: &Vec<TagSeries>, cutoff_year: i64) -> (out: Vec<Self>)
        ensures
            is_history(
                models(out@),
                Self::blank_model(),
                applied(facts_view(facts@), cutoff_year as int),
            ),
            forall|i: int| 0 <= i < out.len() ==> (#[trigger] out[i]).tag_list() == Self::schema(),
    {
        let mut keys: Vec<String> = Vec::new();
        let mut snaps: Vec<Self> = Vec::new();
        let ghost all = facts_view(facts@);
        let ghost cutoff = cutoff_year as int;
        let mut t: usize = 0;
        while t < facts.len()
            invariant
                t <= facts.len(),
                all == facts_view(facts@),
                cutoff == cutoff_year as int,
                keyed(keys@, models(snaps@)),
                forall|i: int|
                    0 <= i < snaps.len() ==> (#[trigger] snaps[i]).tag_list() == Self::schema(),
                is_history(
                    models(snaps@),
                    Self::blank_model(),
                    applied(all.take(t as int), cutoff),
                ),
            decreases facts.len() - t,
        {
            let series = &facts[t];
            let ghost recs = series_view(series.records@);
            let ghost base = applied(all.take(t as int), cutoff);
            let ghost mut done: Seq<FactRecordView> = Seq::empty();
            let mut k: usize = series.records.len();
            let mut reading: bool = true;
            proof {
                assert(recs.take(k as int) =~= recs);
                assert(base + steps_of(series.tag@, done) =~= base);
            }
            while reading && k > 0
                invariant
                    k <= series.records.len(),
                    recs == series_view(series.records@),
                    cutoff == cutoff_year as int,
                    keyed(keys@, models(snaps@)),
                    forall|i: int|
                        0 <= i < snaps.len() ==> (#[trigger] snaps[i]).tag_list() == Self::schema(),
                    is_history(
                        models(snaps@),
                        Self::blank_model(),
                        base + steps_of(series.tag@, done),
                    ),
                    reading ==> window(recs, cutoff) == done + window(recs.take(k as int), cutoff),
                    !reading ==> window(recs, cutoff) == done,
                decreases k,
            {
                k -= 1;
                let rec = &series.records[k];
                proof {
                    assert(recs.take(k + 1).last() == rec@);
                    assert(recs.take(k + 1).drop_last() =~= recs.take(k as int));
                }
                if same_text(rec.form.as_str(), "10-K") {
                    match parse_year(rec.end_date.as_str()) {
                        Some(year) => {
                            if (year as i64) > cutoff_year {
                                let ghost steps = base + steps_of(series.tag@, done);
                                let ghost step = Step { tag: series.tag@, record: rec@ };
                                let ghost before = models(snaps@);
                                Self::upsert(&mut keys, &mut snaps, rec, series.tag.as_str());
                                proof {
                                    lemma_history_upsert(
                                        before,
                                        models(snaps@),
                                        Self::blank_model(),
                                        steps,
                                        step,
                                    );
                                }
                                proof {
                                    assert(steps.push(step) =~= base + steps_of(
                                        series.tag@,
                                        done.push(rec@),
                                    ));
                                    assert(done.push(rec@) + window(recs.take(k as int), cutoff)
                                        =~= done + (seq![rec@] + window(
                                        recs.take(k as int),
                                        cutoff,
                                    )));
                                    done = done.push(rec@);
                                }
                            } else {
                                reading = false;
                                proof {
                                    assert(done + Seq::<FactRecordView>::empty() =~= done);
                                }
                            }
                        },
                        None => {},
                    }
                }
            }
            proof {
                assert(done + Seq::<FactRecordView>::empty() =~= done);
                assert(all.take(t + 1).drop_last() =~= all.take(t as int));
                assert(all.take(t + 1).last() == facts@[t as int]@);
            }
            t += 1;
        }
        proof {
            assert(all.take(t as int) =~= all);
        }
        snaps
    }

    /// Builds the history of this kind of statement from a document: one
    /// snapshot for each period end that an annual record names whose year is
    /// after `current_year - retention_years`, oldest period first.
    fn parse_history_at(
        &mut self,
        json_data: &Value,
        current_year: i32,
        retention_years: u32,
    ) -> (r: Result<Vec<Self>, ParseError>)
        ensures
            is_history_result(
                history_result_view(r),
                Self::blank_model(),
                *json_data,
                old(self).tag_list(),
                cutoff_of(current_year, retention_years),
            ),
            r matches Ok(out) ==> forall|i: int|
                0 <= i < out.len() ==> (#[trigger] out[i]).tag_list() == Self::schema(),
            *final(self) == *old(self),
    {
        let cutoff: i64 = current_year as i64 - retention_years as i64;
        match collect_facts(json_data, self.get_gaap_tags()) {
            Ok(facts) => Ok(Self::reconcile(&facts, cutoff)),
            Err(e) => Err(e),
        }
    }

    /// Builds the history of the last `MAX_HISTORY_YEARS` years, counted from
    /// the year of the machine's clock.
    fn parse_history(&mut self, json_data: &Value) -> (r: Result<Vec<Self>, ParseError>)
        ensures
            exists|year: i32| #[trigger]
                is_history_result(
                    history_result_view(r),
                    Self::blank_model(),
                    *json_data,
                    old(self).tag_list(),
                    cutoff_of(year, Self::MAX_HISTORY_YEARS),
                ),
            r matches Ok(out) ==> forall|i: int|
                0 <= i < out.len() ==> (#[trigger] out[i]).tag_list() == Self::schema(),
            *final(self) == *old(self),
    {
        let year = current_year();
        self.parse_history_at(json_data, year, Self::MAX_HISTORY_YEARS)
    }
}

} // verus!
