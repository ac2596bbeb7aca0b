//! Reconciling the series of many facts into one history of snapshots.
//!
//! Every fact of a statement comes as a series of records of its own, and
//! several facts report the same period. The history holds one snapshot for
//! each period end that an annual record within the retention window names,
//! filled from every such record, oldest period first.

use crate::record::{series_view, FactRecord, FactRecordView};
use crate::statement::SnapshotModel;
use crate::text::{
    lemma_lex_irreflexive, lemma_lex_total, lemma_lex_transitive, lex_less, same_text, text_less,
};
use crate::year::year_of;
use vstd::prelude::*;

verus! {

/// The records that a document holds for one fact tag, oldest first.
#[derive(Debug, Clone, PartialEq, Eq)]
pub struct TagSeries {
    pub tag: String,
    pub records: Vec<FactRecord>,
}

/// The mathematical content of a [`TagSeries`].
pub struct TagSeriesView {
    pub tag: Seq<char>,
    pub records: Seq<FactRecordView>,
}

impl View for TagSeries {
    type V = TagSeriesView;

    open spec fn view(&self) -> TagSeriesView {
        TagSeriesView { tag: self.tag@, records: series_view(self.records@) }
    }
}

/// The contents of a list of series.
pub open spec fn facts_view(facts: Seq<TagSeries>) -> Seq<TagSeriesView> {
    Seq::new(facts.len(), |i: int| facts[i]@)
}

/// One record on its way into the history, with the fact it belongs to.
pub struct Step {
    pub tag: Seq<char>,
    pub record: FactRecordView,
}

/// Whether a record comes from an annual report.
pub open spec fn is_annual(rec: FactRecordView) -> bool {
    rec.form == "10-K"@
}

/// The records of one series that enter the history, newest first.
///
/// The series is read from its newest record, the last one, to its oldest.
/// A record that is not annual, or whose end date has no year, is passed
/// over. An annual record with a year after `cutoff` enters. The first annual
/// record with a year at or before `cutoff` ends the reading: nothing older
/// enters, whatever it holds.
pub open spec fn window(series: Seq<FactRecordView>, cutoff: int) -> Seq<FactRecordView>
    decreases series.len(),
{
    if series.len() == 0 {
        Seq::empty()
    } else {
        let rec = series.last();
        let older = series.drop_last();
        if !is_annual(rec) {
            window(older, cutoff)
        } else {
            match year_of(rec.end_date) {
                None => window(older, cutoff),
                Some(year) => if year > cutoff {
                    seq![rec] + window(older, cutoff)
                } else {
                    Seq::empty()
                },
            }
        }
    }
}

/// The records `recs`, each marked as a record of the fact `tag`.
pub open spec fn steps_of(tag: Seq<char>, recs: Seq<FactRecordView>) -> Seq<Step> {
    Seq::new(recs.len(), |i: int| Step { tag, record: recs[i] })
}

/// Every record that enters the history, in the order in which it is
/// applied: fact by fact, and within a fact newest first.
pub open spec fn applied(facts: Seq<TagSeriesView>, cutoff: int) -> Seq<Step>
    decreases facts.len(),
{
    if facts.len() == 0 {
        Seq::empty()
    } else {
        applied(facts.drop_last(), cutoff) + steps_of(
            facts.last().tag,
            window(facts.last().records, cutoff),
        )
    }
}

/// The snapshot of the period that ends on `date`: `blank` with every step for
/// that date applied, in order.
pub open spec fn merged(blank: SnapshotModel, steps: Seq<Step>, date: Seq<char>) -> SnapshotModel
    decreases steps.len(),
{
    if steps.len() == 0 {
        blank
    } else {
        let before = merged(blank, steps.drop_last(), date);
        let step = steps.last();
        if step.record.end_date == date {
            before.apply(step.tag, step.record)
        } else {
            before
        }
    }
}

/// Whether some step is for the period that ends on `date`.
pub open spec fn has_date(steps: Seq<Step>, date: Seq<char>) -> bool {
    exists|k: int| 0 <= k < steps.len() && (#[trigger] steps[k]).record.end_date == date
}

/// Whether the snapshots are in strictly ascending order of their end dates.
pub open spec fn ascending(history: Seq<SnapshotModel>) -> bool {
    forall|i: int, j: int|
        0 <= i < j < history.len() ==> lex_less(
            (#[trigger] history[i]).meta.end_date,
            (#[trigger] history[j]).meta.end_date,
        )
}

/// Whether `history` is the history that the steps `steps` give: in strictly
/// ascending order of end dates, with a snapshot for each date that a step
/// names and for no other, each snapshot being the merge of the steps for
/// its date.
pub open spec fn is_history(
    history: Seq<SnapshotModel>,
    blank: SnapshotModel,
    steps: Seq<Step>,
) -> bool {
    &&& ascending(history)
    &&& forall|i: int|
        0 <= i < history.len() ==> has_date(steps, (#[trigger] history[i]).meta.end_date)
    &&& forall|k: int|
        0 <= k < steps.len() ==> exists|i: int|
            0 <= i < history.len() && (#[trigger] history[i]).meta.end_date
                == (#[trigger] steps[k]).record.end_date
    &&& forall|i: int|
        0 <= i < history.len() ==> (#[trigger] history[i]) == merged(
            blank,
            steps,
            history[i].meta.end_date,
        )
}

/// The contents of a list of snapshots.
pub open spec fn models<T: View<V = SnapshotModel>>(snaps: Seq<T>) -> Seq<SnapshotModel> {
    Seq::new(snaps.len(), |i: int| snaps[i]@)
}

/// Steps for other dates leave the snapshot of a date blank.
pub proof fn lemma_merged_without_date(blank: SnapshotModel, steps: Seq<Step>, date: Seq<char>)
    requires
        !has_date(steps, date),
    ensures
        merged(blank, steps, date) == blank,
    decreases steps.len(),
{
    if steps.len() > 0 {
        let rest = steps.drop_last();
        assert(steps[steps.len() - 1].record.end_date != date);
        assert forall|k: int| 0 <= k < rest.len() implies (#[trigger] rest[k]).record.end_date
            != date by {
            assert(steps[k].record.end_date != date);
        }
        lemma_merged_without_date(blank, rest, date);
    }
}

/// A step for a date that the history holds changes the snapshot of that
/// date and nothing else.
pub proof fn lemma_history_update(
    history: Seq<SnapshotModel>,
    blank: SnapshotModel,
    steps: Seq<Step>,
    step: Step,
    at: int,
)
    requires
        is_history(history, blank, steps),
        0 <= at < history.len(),
        history[at].meta.end_date == step.record.end_date,
    ensures
        is_history(
            history.update(at, history[at].apply(step.tag, step.record)),
            blank,
            steps.push(step),
        ),
{
    let date = step.record.end_date;
    let after = history.update(at, history[at].apply(step.tag, step.record));
    let more = steps.push(step);
    assert(more.drop_last() =~= steps);
    assert(more.last() == step);
    assert(after[at].meta.end_date == date);
    assert forall|i: int| 0 <= i < after.len() implies (#[trigger] after[i]).meta.end_date
        == history[i].meta.end_date by {}
    assert forall|i: int, j: int| 0 <= i < j < after.len() implies lex_less(
        (#[trigger] after[i]).meta.end_date,
        (#[trigger] after[j]).meta.end_date,
    ) by {
        assert(lex_less(history[i].meta.end_date, history[j].meta.end_date));
    }
    assert forall|i: int| 0 <= i < after.len() implies has_date(
        more,
        (#[trigger] after[i]).meta.end_date,
    ) by {
        assert(has_date(steps, history[i].meta.end_date));
        let k = choose|k: int|
            0 <= k < steps.len() && (#[trigger] steps[k]).record.end_date
                == history[i].meta.end_date;
        assert(more[k] == steps[k]);
    }
    assert forall|k: int| 0 <= k < more.len() implies exists|i: int|
        0 <= i < after.len() && (#[trigger] after[i]).meta.end_date
            == (#[trigger] more[k]).record.end_date by {
        if k < steps.len() {
            assert(more[k] == steps[k]);
            let i = choose|i: int|
                0 <= i < history.len() && (#[trigger] history[i]).meta.end_date
                    == steps[k].record.end_date;
            assert(after[i].meta.end_date == more[k].record.end_date);
        } else {
            assert(after[at].meta.end_date == more[k].record.end_date);
        }
    }
    assert forall|i: int| 0 <= i < after.len() implies (#[trigger] after[i]) == merged(
        blank,
        more,
        after[i].meta.end_date,
    ) by {
        if i == at {
        } else {
            if i < at {
                assert(lex_less(history[i].meta.end_date, history[at].meta.end_date));
            } else {
                assert(lex_less(history[at].meta.end_date, history[i].meta.end_date));
            }
            lemma_lex_irreflexive(date);
        }
    }
}

/// A step for a date that the history does not hold adds the snapshot of that
/// date, at the place that keeps the order.
pub proof fn lemma_history_insert(
    history: Seq<SnapshotModel>,
    blank: SnapshotModel,
    steps: Seq<Step>,
    step: Step,
    at: int,
)
    requires
        is_history(history, blank, steps),
        0 <= at <= history.len(),
        forall|i: int|
            0 <= i < at ==> lex_less((#[trigger] history[i]).meta.end_date, step.record.end_date),
        forall|i: int|
            at <= i < history.len() ==> lex_less(
                step.record.end_date,
                (#[trigger] history[i]).meta.end_date,
            ),
    ensures
        is_history(history.insert(at, blank.apply(step.tag, step.record)), blank, steps.push(step)),
{
    let date = step.record.end_date;
    let fresh = blank.apply(step.tag, step.record);
    let after = history.insert(at, fresh);
    let more = steps.push(step);
    assert(more.drop_last() =~= steps);
    assert(more.last() == step);
    lemma_lex_irreflexive(date);
    assert(fresh.meta.end_date == date);
    if has_date(steps, date) {
        let k = choose|k: int|
            0 <= k < steps.len() && (#[trigger] steps[k]).record.end_date == date;
        let i = choose|i: int|
            0 <= i < history.len() && (#[trigger] history[i]).meta.end_date
                == steps[k].record.end_date;
        assert(false);
    }
    lemma_merged_without_date(blank, steps, date);
    assert forall|i: int, j: int| 0 <= i < j < after.len() implies lex_less(
        (#[trigger] after[i]).meta.end_date,
        (#[trigger] after[j]).meta.end_date,
    ) by {
        if i < at && j > at {
            assert(lex_less(history[i].meta.end_date, history[j - 1].meta.end_date));
        } else if i < at && j < at {
            assert(lex_less(history[i].meta.end_date, history[j].meta.end_date));
        } else if i > at {
            assert(lex_less(history[i - 1].meta.end_date, history[j - 1].meta.end_date));
        } else if i == at {
            assert(after[j] == history[j - 1]);
        } else {
            assert(after[i] == history[i]);
        }
    }
    assert forall|i: int| 0 <= i < after.len() implies has_date(
        more,
        (#[trigger] after[i]).meta.end_date,
    ) by {
        if i == at {
            assert(more[steps.len() as int].record.end_date == date);
        } else {
            let old_i = if i < at { i } else { i - 1 };
            assert(after[i] == history[old_i]);
            assert(has_date(steps, history[old_i].meta.end_date));
            let k = choose|k: int|
                0 <= k < steps.len() && (#[trigger] steps[k]).record.end_date
                    == history[old_i].meta.end_date;
            assert(more[k] == steps[k]);
        }
    }
    assert forall|k: int| 0 <= k < more.len() implies exists|i: int|
        0 <= i < after.len() && (#[trigger] after[i]).meta.end_date
            == (#[trigger] more[k]).record.end_date by {
        if k < steps.len() {
            assert(more[k] == steps[k]);
            let i = choose|i: int|
                0 <= i < history.len() && (#[trigger] history[i]).meta.end_date
                    == steps[k].record.end_date;
            let new_i = if i < at { i } else { i + 1 };
            assert(after[new_i] == history[i]);
        } else {
            assert(after[at].meta.end_date == more[k].record.end_date);
        }
    }
    assert forall|i: int| 0 <= i < after.len() implies (#[trigger] after[i]) == merged(
        blank,
        more,
        after[i].meta.end_date,
    ) by {
        if i == at {
        } else {
            let old_i = if i < at { i } else { i - 1 };
            assert(after[i] == history[old_i]);
            assert(history[old_i] == merged(blank, steps, history[old_i].meta.end_date));
        }
    }
}

/// Whether `after` is `before` with `step` applied at the place `at`: to the
/// snapshot of the step's end date where `at` holds it, else to a new
/// snapshot that goes in at `at`, the place that keeps the order.
pub open spec fn upsert_at(
    before: Seq<SnapshotModel>,
    after: Seq<SnapshotModel>,
    blank: SnapshotModel,
    step: Step,
    at: int,
) -> bool {
    let date = step.record.end_date;
    &&& 0 <= at <= before.len()
    &&& forall|i: int| 0 <= i < at ==> lex_less((#[trigger] before[i]).meta.end_date, date)
    &&& if at < before.len() && before[at].meta.end_date == date {
        after == before.update(at, before[at].apply(step.tag, step.record))
    } else {
        &&& forall|i: int|
            at <= i < before.len() ==> lex_less(date, (#[trigger] before[i]).meta.end_date)
        &&& after == before.insert(at, blank.apply(step.tag, step.record))
    }
}

/// Whether `after` is `before` with `step` applied to the snapshot of its end
/// date, a snapshot that starts as `blank` and takes its place in the order
/// where `before` has none for that date.
pub open spec fn is_upsert(
    before: Seq<SnapshotModel>,
    after: Seq<SnapshotModel>,
    blank: SnapshotModel,
    step: Step,
) -> bool {
    exists|at: int| #[trigger] upsert_at(before, after, blank, step, at)
}

/// Applying one more step to a history gives the history of one more step.
pub proof fn lemma_history_upsert(
    before: Seq<SnapshotModel>,
    after: Seq<SnapshotModel>,
    blank: SnapshotModel,
    steps: Seq<Step>,
    step: Step,
)
    requires
        is_history(before, blank, steps),
        is_upsert(before, after, blank, step),
    ensures
        is_history(after, blank, steps.push(step)),
{
    let at = choose|at: int| #[trigger] upsert_at(before, after, blank, step, at);
    if at < before.len() && before[at].meta.end_date == step.record.end_date {
        lemma_history_update(before, blank, steps, step, at);
    } else {
        lemma_history_insert(before, blank, steps, step, at);
    }
}

/// Whether a record is one that enters a history: annual, with an end date
/// whose year is after `cutoff`.
pub open spec fn in_window(rec: FactRecordView, cutoff: int) -> bool {
    is_annual(rec) && match year_of(rec.end_date) {
        Some(year) => year > cutoff,
        None => false,
    }
}

/// The annual records of a series, in their order.
pub open spec fn annual_only(series: Seq<FactRecordView>) -> Seq<FactRecordView> {
    series.filter(|rec: FactRecordView| is_annual(rec))
}

/// The facts with every record that is not annual taken out.
pub open spec fn annual_facts(facts: Seq<TagSeriesView>) -> Seq<TagSeriesView> {
    Seq::new(
        facts.len(),
        |i: int| TagSeriesView { tag: facts[i].tag, records: annual_only(facts[i].records) },
    )
}

/// The end dates of the snapshots of a history, in order.
pub open spec fn end_dates(history: Seq<SnapshotModel>) -> Seq<Seq<char>> {
    Seq::new(history.len(), |i: int| history[i].meta.end_date)
}

/// No two snapshots of a history have the same end date.
pub proof fn lemma_history_dates_distinct(
    history: Seq<SnapshotModel>,
    blank: SnapshotModel,
    steps: Seq<Step>,
)
    requires
        is_history(history, blank, steps),
    ensures
        forall|i: int, j: int|
            0 <= i < history.len() && 0 <= j < history.len() && i != j ==> (
            #[trigger] history[i]).meta.end_date != (#[trigger] history[j]).meta.end_date,
{
    assert forall|i: int, j: int|
        0 <= i < history.len() && 0 <= j < history.len() && i != j implies (
    #[trigger] history[i]).meta.end_date != (#[trigger] history[j]).meta.end_date by {
        lemma_lex_irreflexive(history[i].meta.end_date);
        if i < j {
            assert(lex_less(history[i].meta.end_date, history[j].meta.end_date));
        } else {
            assert(lex_less(history[j].meta.end_date, history[i].meta.end_date));
        }
    }
}

/// The end dates of a history never descend: no snapshot comes before one
/// with an earlier end date.
pub proof fn lemma_history_never_descends(
    history: Seq<SnapshotModel>,
    blank: SnapshotModel,
    steps: Seq<Step>,
)
    requires
        is_history(history, blank, steps),
    ensures
        forall|i: int, j: int|
            0 <= i <= j < history.len() ==> !lex_less(
                (#[trigger] history[j]).meta.end_date,
                (#[trigger] history[i]).meta.end_date,
            ),
{
    assert forall|i: int, j: int| 0 <= i <= j < history.len() implies !lex_less(
        (#[trigger] history[j]).meta.end_date,
        (#[trigger] history[i]).meta.end_date,
    ) by {
        if i < j {
            assert(lex_less(history[i].meta.end_date, history[j].meta.end_date));
            crate::text::lemma_lex_asymmetric(history[i].meta.end_date, history[j].meta.end_date);
        } else {
            lemma_lex_irreflexive(history[i].meta.end_date);
        }
    }
}

/// Records that are not annual do not change what enters from a series,
/// wherever they stand in it.
pub proof fn lemma_window_ignores_other_filings(series: Seq<FactRecordView>, cutoff: int)
    ensures
        window(annual_only(series), cutoff) == window(series, cutoff),
    decreases series.len(),
{
    reveal(Seq::filter);
    if series.len() > 0 {
        let rec = series.last();
        let older = series.drop_last();
        lemma_window_ignores_other_filings(older, cutoff);
        if is_annual(rec) {
            assert(annual_only(series) == annual_only(older).push(rec));
            assert(annual_only(series).drop_last() =~= annual_only(older));
            assert(annual_only(series).last() == rec);
        } else {
            assert(annual_only(series) == annual_only(older));
        }
    }
}

/// Records that are not annual do not change what enters a history, wherever
/// they stand.
pub proof fn lemma_history_ignores_other_filings(facts: Seq<TagSeriesView>, cutoff: int)
    ensures
        applied(annual_facts(facts), cutoff) == applied(facts, cutoff),
    decreases facts.len(),
{
    if facts.len() > 0 {
        lemma_history_ignores_other_filings(facts.drop_last(), cutoff);
        lemma_window_ignores_other_filings(facts.last().records, cutoff);
        assert(annual_facts(facts).drop_last() =~= annual_facts(facts.drop_last()));
    }
}

/// Whether a record is annual and has an end date with a year.
pub open spec fn is_dated(rec: FactRecordView) -> bool {
    is_annual(rec) && year_of(rec.end_date) is Some
}

/// Whether the annual records of a series stand in the order of their years,
/// oldest first.
pub open spec fn years_ascend(series: Seq<FactRecordView>) -> bool {
    forall|i: int, j: int|
        0 <= i < j < series.len() && is_dated(#[trigger] series[i]) && is_dated(
            #[trigger] series[j],
        ) ==> year_of(series[i].end_date)->0 <= year_of(series[j].end_date)->0
}

/// The records of a series that are annual with a year after the cutoff,
/// newest first.
pub open spec fn all_in_window(series: Seq<FactRecordView>, cutoff: int) -> Seq<FactRecordView> {
    series.filter(|rec: FactRecordView| in_window(rec, cutoff)).reverse()
}

/// In a series whose annual records stand in the order of their years,
/// ending the reading at the first record out of the window loses nothing:
/// every annual record with a year after the cutoff enters.
pub proof fn lemma_window_of_ordered_series(series: Seq<FactRecordView>, cutoff: int)
    requires
        years_ascend(series),
    ensures
        window(series, cutoff) == all_in_window(series, cutoff),
    decreases series.len(),
{
    reveal(Seq::filter);
    let keep = |rec: FactRecordView| in_window(rec, cutoff);
    if series.len() == 0 {
        assert(window(series, cutoff) =~= all_in_window(series, cutoff));
    } else {
        let rec = series.last();
        let older = series.drop_last();
        assert forall|i: int, j: int|
            0 <= i < j < older.len() && is_dated(#[trigger] older[i]) && is_dated(
                #[trigger] older[j],
            ) implies year_of(older[i].end_date)->0 <= year_of(older[j].end_date)->0 by {
            assert(older[i] == series[i] && older[j] == series[j]);
        }
        lemma_window_of_ordered_series(older, cutoff);
        if in_window(rec, cutoff) {
            assert(series.filter(keep) == older.filter(keep).push(rec));
            assert(older.filter(keep).push(rec).reverse() =~= seq![rec] + older.filter(
                keep,
            ).reverse());
        } else if is_dated(rec) {
            assert forall|i: int| 0 <= i < older.len() implies !keep(#[trigger] older[i]) by {
                assert(older[i] == series[i]);
                assert(rec == series[series.len() - 1]);
                if in_window(older[i], cutoff) {
                    assert(is_dated(series[i]));
                    assert(is_dated(series[series.len() - 1]));
                }
            }
            lemma_filter_none(older, keep);
            assert(series.filter(keep) == older.filter(keep));
            assert(Seq::<FactRecordView>::empty().reverse() =~= Seq::<FactRecordView>::empty());
        } else {
            assert(series.filter(keep) == older.filter(keep));
        }
    }
}

/// Nothing is left of a list of which nothing is kept.
pub proof fn lemma_filter_none<A>(s: Seq<A>, keep: spec_fn(A) -> bool)
    requires
        forall|i: int| 0 <= i < s.len() ==> !keep(#[trigger] s[i]),
    ensures
        s.filter(keep) == Seq::<A>::empty(),
    decreases s.len(),
{
    reveal(Seq::filter);
    if s.len() > 0 {
        assert forall|i: int| 0 <= i < s.drop_last().len() implies !keep(
            #[trigger] s.drop_last()[i],
        ) by {
            assert(s.drop_last()[i] == s[i]);
        }
        lemma_filter_none(s.drop_last(), keep);
        assert(!keep(s[s.len() - 1]));
    }
}

/// Every record that enters from a series is annual and has a year after the
/// cutoff; a record of the cutoff year itself does not enter.
pub proof fn lemma_window_is_after_cutoff(series: Seq<FactRecordView>, cutoff: int)
    ensures
        forall|i: int|
            0 <= i < window(series, cutoff).len() ==> in_window(
                #[trigger] window(series, cutoff)[i],
                cutoff,
            ),
        forall|i: int|
            0 <= i < window(series, cutoff).len() ==> year_of(
                (#[trigger] window(series, cutoff)[i]).end_date,
            ) != Some(cutoff),
    decreases series.len(),
{
    if series.len() > 0 {
        lemma_window_is_after_cutoff(series.drop_last(), cutoff);
    }
}

/// Every record that enters a history is annual and has a year after the
/// cutoff; a record of the cutoff year itself does not enter.
pub proof fn lemma_history_is_after_cutoff(facts: Seq<TagSeriesView>, cutoff: int)
    ensures
        forall|k: int|
            0 <= k < applied(facts, cutoff).len() ==> in_window(
                (#[trigger] applied(facts, cutoff)[k]).record,
                cutoff,
            ),
        forall|k: int|
            0 <= k < applied(facts, cutoff).len() ==> year_of(
                (#[trigger] applied(facts, cutoff)[k]).record.end_date,
            ) != Some(cutoff),
    decreases facts.len(),
{
    if facts.len() > 0 {
        let before = applied(facts.drop_last(), cutoff);
        let entering = window(facts.last().records, cutoff);
        lemma_history_is_after_cutoff(facts.drop_last(), cutoff);
        lemma_window_is_after_cutoff(facts.last().records, cutoff);
        assert forall|k: int| 0 <= k < applied(facts, cutoff).len() implies in_window(
            (#[trigger] applied(facts, cutoff)[k]).record,
            cutoff,
        ) by {
            if k >= before.len() {
                assert(applied(facts, cutoff)[k].record == entering[k - before.len()]);
            } else {
                assert(applied(facts, cutoff)[k] == before[k]);
            }
        }
    }
}

/// Every snapshot of a history is for a period that ends in a year after the
/// cutoff.
pub proof fn lemma_history_years_after_cutoff(
    history: Seq<SnapshotModel>,
    blank: SnapshotModel,
    facts: Seq<TagSeriesView>,
    cutoff: int,
)
    requires
        is_history(history, blank, applied(facts, cutoff)),
    ensures
        forall|i: int|
            0 <= i < history.len() ==> match year_of((#[trigger] history[i]).meta.end_date) {
                Some(year) => year > cutoff,
                None => false,
            },
{
    let steps = applied(facts, cutoff);
    lemma_history_is_after_cutoff(facts, cutoff);
    assert forall|i: int| 0 <= i < history.len() implies match year_of(
        (#[trigger] history[i]).meta.end_date,
    ) {
        Some(year) => year > cutoff,
        None => false,
    } by {
        assert(has_date(steps, history[i].meta.end_date));
        let k = choose|k: int|
            0 <= k < steps.len() && (#[trigger] steps[k]).record.end_date
                == history[i].meta.end_date;
        assert(in_window(steps[k].record, cutoff));
    }
}

/// Whether the texts are in strictly ascending order.
pub open spec fn ascending_texts(texts: Seq<Seq<char>>) -> bool {
    forall|i: int, j: int|
        0 <= i < j < texts.len() ==> lex_less(#[trigger] texts[i], #[trigger] texts[j])
}

/// Two strictly ascending lists that hold the same texts are the same list.
pub proof fn lemma_ascending_texts_unique(xs: Seq<Seq<char>>, ys: Seq<Seq<char>>)
    requires
        ascending_texts(xs),
        ascending_texts(ys),
        forall|i: int| 0 <= i < xs.len() ==> ys.contains(#[trigger] xs[i]),
        forall|j: int| 0 <= j < ys.len() ==> xs.contains(#[trigger] ys[j]),
    ensures
        xs == ys,
    decreases xs.len(),
{
    if xs.len() == 0 {
        if ys.len() > 0 {
            assert(xs.contains(ys[0]));
        }
        assert(xs =~= ys);
    } else {
        assert(ys.contains(xs[0]));
        let j0 = choose|j: int| 0 <= j < ys.len() && ys[j] == xs[0];
        assert(xs.contains(ys[0]));
        let i0 = choose|i: int| 0 <= i < xs.len() && xs[i] == ys[0];
        if i0 > 0 && j0 > 0 {
            assert(lex_less(xs[0], xs[i0]));
            assert(lex_less(ys[0], ys[j0]));
            crate::text::lemma_lex_asymmetric(xs[0], ys[0]);
        }
        assert(xs[0] == ys[0]);
        lemma_lex_irreflexive(xs[0]);
        let xt = xs.skip(1);
        let yt = ys.skip(1);
        assert forall|i: int| 0 <= i < xt.len() implies yt.contains(#[trigger] xt[i]) by {
            assert(ys.contains(xs[i + 1]));
            let j = choose|j: int| 0 <= j < ys.len() && ys[j] == xs[i + 1];
            assert(lex_less(xs[0], xs[i + 1]));
            assert(j > 0);
            assert(yt[j - 1] == xt[i]);
        }
        assert forall|j: int| 0 <= j < yt.len() implies xt.contains(#[trigger] yt[j]) by {
            assert(xs.contains(ys[j + 1]));
            let i = choose|i: int| 0 <= i < xs.len() && xs[i] == ys[j + 1];
            assert(lex_less(ys[0], ys[j + 1]));
            assert(i > 0);
            assert(xt[i - 1] == yt[j]);
        }
        assert forall|i: int, j: int| 0 <= i < j < xt.len() implies lex_less(
            #[trigger] xt[i],
            #[trigger] xt[j],
        ) by {
            assert(lex_less(xs[i + 1], xs[j + 1]));
        }
        assert forall|i: int, j: int| 0 <= i < j < yt.len() implies lex_less(
            #[trigger] yt[i],
            #[trigger] yt[j],
        ) by {
            assert(lex_less(ys[i + 1], ys[j + 1]));
        }
        lemma_ascending_texts_unique(xt, yt);
        assert(xs =~= seq![xs[0]] + xt);
        assert(ys =~= seq![ys[0]] + yt);
    }
}

/// The steps decide the history: two histories of the same steps are the
/// same.
pub proof fn lemma_history_unique(
    first: Seq<SnapshotModel>,
    second: Seq<SnapshotModel>,
    blank: SnapshotModel,
    steps: Seq<Step>,
)
    requires
        is_history(first, blank, steps),
        is_history(second, blank, steps),
    ensures
        first == second,
{
    let xs = end_dates(first);
    let ys = end_dates(second);
    assert forall|i: int, j: int| 0 <= i < j < xs.len() implies lex_less(
        #[trigger] xs[i],
        #[trigger] xs[j],
    ) by {
        assert(lex_less(first[i].meta.end_date, first[j].meta.end_date));
    }
    assert forall|i: int, j: int| 0 <= i < j < ys.len() implies lex_less(
        #[trigger] ys[i],
        #[trigger] ys[j],
    ) by {
        assert(lex_less(second[i].meta.end_date, second[j].meta.end_date));
    }
    assert forall|i: int| 0 <= i < xs.len() implies ys.contains(#[trigger] xs[i]) by {
        assert(has_date(steps, first[i].meta.end_date));
        let k = choose|k: int|
            0 <= k < steps.len() && (#[trigger] steps[k]).record.end_date
                == first[i].meta.end_date;
        let j = choose|j: int|
            0 <= j < second.len() && (#[trigger] second[j]).meta.end_date
                == steps[k].record.end_date;
        assert(ys[j] == xs[i]);
    }
    assert forall|j: int| 0 <= j < ys.len() implies xs.contains(#[trigger] ys[j]) by {
        assert(has_date(steps, second[j].meta.end_date));
        let k = choose|k: int|
            0 <= k < steps.len() && (#[trigger] steps[k]).record.end_date
                == second[j].meta.end_date;
        let i = choose|i: int|
            0 <= i < first.len() && (#[trigger] first[i]).meta.end_date
                == steps[k].record.end_date;
        assert(xs[i] == ys[j]);
    }
    lemma_ascending_texts_unique(xs, ys);
    assert(first.len() == second.len());
    assert forall|i: int| 0 <= i < first.len() implies first[i] == second[i] by {
        assert(xs[i] == ys[i]);
    }
    assert(first =~= second);
}

/// Whether `keys` is in strictly ascending order.
pub open spec fn ascending_keys(keys: Seq<String>) -> bool {
    forall|i: int, j: int|
        0 <= i < j < keys.len() ==> lex_less((#[trigger] keys[i])@, (#[trigger] keys[j])@)
}

/// Where the date `date` stands among the ascending dates `keys`: the place
/// that holds it, or else the place where it goes.
pub fn locate(keys: &Vec<String>, date: &str) -> (r: (usize, bool))
    requires
        ascending_keys(keys@),
    ensures
        r.0 <= keys.len(),
        forall|i: int| 0 <= i < r.0 ==> lex_less((#[trigger] keys@[i])@, date@),
        r.1 ==> r.0 < keys.len() && keys@[r.0 as int]@ == date@,
        !r.1 ==> forall|i: int| r.0 <= i < keys.len() ==> lex_less(date@, (#[trigger] keys@[i])@),
{
    let mut at: usize = 0;
    while at < keys.len() && text_less(keys[at].as_str(), date)
        invariant
            at <= keys.len(),
            forall|i: int| 0 <= i < at ==> lex_less((#[trigger] keys@[i])@, date@),
        decreases keys.len() - at,
    {
        at += 1;
    }
    if at < keys.len() && same_text(keys[at].as_str(), date) {
        (at, true)
    } else {
        proof {
            assert forall|i: int| at <= i < keys.len() implies lex_less(
                date@,
                (#[trigger] keys@[i])@,
            ) by {
                lemma_lex_total(keys@[at as int]@, date@);
                if i > at {
                    assert(lex_less(keys@[at as int]@, keys@[i]@));
                    lemma_lex_transitive(date@, keys@[at as int]@, keys@[i]@);
                }
            }
        }
        (at, false)
    }
}

/// Whether `keys` holds, place by place, the end dates of `snaps`.
pub open spec fn keyed(keys: Seq<String>, snaps: Seq<SnapshotModel>) -> bool {
    &&& keys.len() == snaps.len()
    &&& forall|i: int| 0 <= i < keys.len() ==> (#[trigger] keys[i])@ == snaps[i].meta.end_date
}

/// Dates that follow the snapshots of an ascending history are ascending.
pub proof fn lemma_keys_ascending(keys: Seq<String>, snaps: Seq<SnapshotModel>)
    requires
        keyed(keys, snaps),
        ascending(snaps),
    ensures
        ascending_keys(keys),
{
    assert forall|i: int, j: int| 0 <= i < j < keys.len() implies lex_less(
        (#[trigger] keys[i])@,
        (#[trigger] keys[j])@,
    ) by {
        assert(lex_less(snaps[i].meta.end_date, snaps[j].meta.end_date));
    }
}

} // verus!
