//! Choosing the one record of a series that a snapshot is filled from.

use crate::error::{missing_facts, missing_tag, ParseErrorView};
use crate::facts::{
    collected, document_facts, lemma_collected_stops, records_of, tag_items_of, taxonomy_of,
};
use crate::history::TagSeriesView;
use crate::json::entry_of;
use crate::record::{series_view, FactRecord, FactRecordView};
use crate::statement::SnapshotModel;
use serde_json::Value;
use vstd::prelude::*;

verus! {

/// The newest record of a series: its last one.
pub open spec fn latest(series: Seq<FactRecordView>) -> Option<FactRecordView> {
    if series.len() == 0 {
        None
    } else {
        Some(series.last())
    }
}

/// The newest record of a series whose fiscal year is `year`.
pub open spec fn newest_of_year(series: Seq<FactRecordView>, year: int) -> Option<FactRecordView>
    decreases series.len(),
{
    if series.len() == 0 {
        None
    } else if series.last().fiscal_year == year {
        Some(series.last())
    } else {
        newest_of_year(series.drop_last(), year)
    }
}

/// The snapshot after the chosen record of the fact `tag` was applied, or
/// the snapshot as it was when no record was chosen.
pub open spec fn with_choice(
    m: SnapshotModel,
    tag: Seq<char>,
    choice: Option<FactRecordView>,
) -> SnapshotModel {
    match choice {
        Some(rec) => m.apply(tag, rec),
        None => m,
    }
}

/// The record of a series that a snapshot is filled from: the newest of the
/// fiscal year `year` where one is asked for, else the newest of all.
pub open spec fn chosen(series: Seq<FactRecordView>, year: Option<int>) -> Option<FactRecordView> {
    match year {
        Some(y) => newest_of_year(series, y),
        None => latest(series),
    }
}

/// How filling a snapshot ends: the snapshot as it then is, and the part of
/// the document that was missing, if one was.
pub struct FillOutcome {
    pub model: SnapshotModel,
    pub error: Option<ParseErrorView>,
}

/// The outcome of filling the snapshot `m` from the first `n` tags of `tags`
/// in the taxonomy `facts`. The tags are taken in order, and each applies the
/// record chosen from its series. The first tag without a series ends the
/// filling: what the tags before it wrote stays.
pub open spec fn filled(
    m: SnapshotModel,
    facts: serde_json::Map<String, Value>,
    tags: Seq<Seq<char>>,
    year: Option<int>,
    n: nat,
) -> FillOutcome
    decreases n,
{
    if n == 0 {
        FillOutcome { model: m, error: None }
    } else {
        let before = filled(m, facts, tags, year, (n - 1) as nat);
        if before.error is Some {
            before
        } else {
            match tag_items_of(facts, tags[n - 1]) {
                Err(e) => FillOutcome { model: before.model, error: Some(e) },
                Ok(list) => FillOutcome {
                    model: with_choice(before.model, tags[n - 1], chosen(records_of(list), year)),
                    error: None,
                },
            }
        }
    }
}

/// The outcome of filling the snapshot `m` from the document `doc`: without
/// a taxonomy nothing is written.
pub open spec fn fill_outcome(
    m: SnapshotModel,
    doc: Value,
    tags: Seq<Seq<char>>,
    year: Option<int>,
) -> FillOutcome {
    match taxonomy_of(doc) {
        None => FillOutcome { model: m, error: Some(missing_facts()) },
        Some(facts) => filled(m, facts, tags, year, tags.len()),
    }
}

/// Once a tag has no series, the tags after it change nothing.
pub proof fn lemma_filled_stops(
    m: SnapshotModel,
    facts: serde_json::Map<String, Value>,
    tags: Seq<Seq<char>>,
    year: Option<int>,
    n: nat,
    later: nat,
)
    requires
        n <= later,
        filled(m, facts, tags, year, n).error is Some,
    ensures
        filled(m, facts, tags, year, later) == filled(m, facts, tags, year, n),
    decreases later,
{
    if n < later {
        lemma_filled_stops(m, facts, tags, year, n, (later - 1) as nat);
    }
}

/// While every tag has a series, filling goes on without an error.
pub proof fn lemma_filled_while_present(
    m: SnapshotModel,
    facts: serde_json::Map<String, Value>,
    tags: Seq<Seq<char>>,
    year: Option<int>,
    n: nat,
)
    requires
        n <= tags.len(),
        forall|j: int| 0 <= j < n ==> tag_items_of(facts, #[trigger] tags[j]) is Ok,
    ensures
        filled(m, facts, tags, year, n).error is None,
        collected(facts, tags, n) is Ok,
    decreases n,
{
    if n > 0 {
        lemma_filled_while_present(m, facts, tags, year, (n - 1) as nat);
        assert(tag_items_of(facts, tags[n - 1]) is Ok);
    }
}

/// The first tag of a statement that the document does not hold decides how
/// reading the document ends: filling a snapshot and building a history both
/// fail with the error that names this tag.
pub proof fn lemma_first_missing_tag(
    m: SnapshotModel,
    doc: Value,
    facts: serde_json::Map<String, Value>,
    tags: Seq<Seq<char>>,
    year: Option<int>,
    i: int,
)
    requires
        taxonomy_of(doc) == Some(facts),
        0 <= i < tags.len(),
        forall|j: int| 0 <= j < i ==> tag_items_of(facts, #[trigger] tags[j]) is Ok,
        entry_of(facts, tags[i]) is None,
    ensures
        fill_outcome(m, doc, tags, year).error == Some(missing_tag(tags[i])),
        fill_outcome(m, doc, tags, year).model == filled(m, facts, tags, year, i as nat).model,
        document_facts(doc, tags) == Err::<Seq<TagSeriesView>, ParseErrorView>(
            missing_tag(tags[i]),
        ),
{
    lemma_filled_while_present(m, facts, tags, year, i as nat);
    assert(filled(m, facts, tags, year, (i + 1) as nat).error == Some(missing_tag(tags[i])));
    lemma_filled_stops(m, facts, tags, year, (i + 1) as nat, tags.len());
    assert(collected(facts, tags, (i + 1) as nat) == Err::<Seq<TagSeriesView>, ParseErrorView>(
        missing_tag(tags[i]),
    ));
    lemma_collected_stops(facts, tags, (i + 1) as nat, tags.len());
}

/// A document that lacks a tag of the statement is never read with success.
pub proof fn lemma_missing_tag_fails(
    m: SnapshotModel,
    doc: Value,
    tags: Seq<Seq<char>>,
    year: Option<int>,
    i: int,
)
    requires
        0 <= i < tags.len(),
        match taxonomy_of(doc) {
            Some(facts) => entry_of(facts, tags[i]) is None,
            None => true,
        },
    ensures
        fill_outcome(m, doc, tags, year).error is Some,
        document_facts(doc, tags) is Err,
{
    match taxonomy_of(doc) {
        Some(facts) => {
            lemma_fails_from(m, facts, tags, year, (i + 1) as nat);
            lemma_filled_stops(m, facts, tags, year, (i + 1) as nat, tags.len());
            lemma_collected_stops(facts, tags, (i + 1) as nat, tags.len());
        },
        None => {},
    }
}

/// Reading has failed once a tag without a series was among those read.
proof fn lemma_fails_from(
    m: SnapshotModel,
    facts: serde_json::Map<String, Value>,
    tags: Seq<Seq<char>>,
    year: Option<int>,
    n: nat,
)
    requires
        0 < n <= tags.len(),
        tag_items_of(facts, tags[n - 1]) is Err,
    ensures
        filled(m, facts, tags, year, n).error is Some,
        collected(facts, tags, n) is Err,
{
}

/// The newest record of `series`, if it has any.
pub fn latest_record(series: &Vec<FactRecord>) -> (r: Option<&FactRecord>)
    ensures
        match r {
            Some(rec) => latest(series_view(series@)) == Some(rec@),
            None => latest(series_view(series@)) is None,
        },
{
    if series.len() == 0 {
        None
    } else {
        Some(&series[series.len() - 1])
    }
}

/// The newest record of `series` whose fiscal year is `year`, if there is
/// one.
pub fn newest_record_of_year(series: &Vec<FactRecord>, year: i64) -> (r: Option<&FactRecord>)
    ensures
        match r {
            Some(rec) => newest_of_year(series_view(series@), year as int) == Some(rec@),
            None => newest_of_year(series_view(series@), year as int) is None,
        },
{
    let ghost all = series_view(series@);
    let mut k: usize = series.len();
    proof {
        assert(all.take(k as int) =~= all);
    }
    while k > 0
        invariant
            k <= series.len(),
            all == series_view(series@),
            newest_of_year(all, year as int) == newest_of_year(all.take(k as int), year as int),
        decreases k,
    {
        k -= 1;
        proof {
            assert(all.take(k + 1).last() == series@[k as int]@);
            assert(all.take(k + 1).drop_last() =~= all.take(k as int));
        }
        if series[k].fiscal_year == year {
            return Some(&series[k]);
        }
    }
    None
}

} // verus!
