//! Finding the reported values of one fact in a company-facts document.
//!
//! The document has the shape
//! `{ "facts": { "us-gaap": { <tag>: { "units": { "USD": [ record, .. ] } } } } }`.

use crate::error::{missing_facts, missing_tag, missing_unit, ParseError, ParseErrorView};
use crate::json::{
    entry, entry_of, integer, integer_of, items, items_of, member, member_of, object, object_of,
    text, text_of,
};
use crate::history::{facts_view, TagSeries, TagSeriesView};
use crate::record::{series_view, FactRecord, FactRecordView};
use serde_json::Value;
use vstd::prelude::*;
use vstd::string::StringExecFns;

verus! {

/// The taxonomy of `doc`: the object under `facts`, then `us-gaap`.
pub open spec fn taxonomy_of(doc: Value) -> Option<serde_json::Map<String, Value>> {
    match member_of(doc, "facts"@) {
        Some(facts) => match member_of(facts, "us-gaap"@) {
            Some(gaap) => object_of(gaap),
            None => None,
        },
        None => None,
    }
}

/// The list under `units`, then `currency`, of the fact `data`.
pub open spec fn unit_items_of(data: Value, currency: Seq<char>) -> Option<Seq<Value>> {
    match member_of(data, "units"@) {
        Some(units) => match member_of(units, currency) {
            Some(list) => items_of(list),
            None => None,
        },
        None => None,
    }
}

/// The values that the taxonomy `facts` reports for `tag` in the currency
/// `currency`, or the part that is missing: the tag, else the list of that
/// currency.
pub open spec fn tag_items_in(
    facts: serde_json::Map<String, Value>,
    tag: Seq<char>,
    currency: Seq<char>,
) -> Result<Seq<Value>, ParseErrorView> {
    match entry_of(facts, tag) {
        None => Err(missing_tag(tag)),
        Some(data) => match unit_items_of(data, currency) {
            Some(list) => Ok(list),
            None => Err(missing_unit(currency)),
        },
    }
}

/// The values that the taxonomy `facts` reports for `tag` in US dollars, or
/// the part that is missing.
pub open spec fn tag_items_of(facts: serde_json::Map<String, Value>, tag: Seq<char>) -> Result<
    Seq<Value>,
    ParseErrorView,
> {
    tag_items_in(facts, tag, "USD"@)
}

/// The text that `v` holds under `key`; empty when there is none.
pub open spec fn text_member_of(v: Value, key: Seq<char>) -> Seq<char> {
    match member_of(v, key) {
        Some(m) => match text_of(m) {
            Some(s) => s,
            None => Seq::empty(),
        },
        None => Seq::empty(),
    }
}

/// The integer that `v` holds under `key`; zero when there is none.
pub open spec fn integer_member_of(v: Value, key: Seq<char>) -> int {
    match member_of(v, key) {
        Some(m) => match integer_of(m) {
            Some(n) => n as int,
            None => 0,
        },
        None => 0,
    }
}

/// The record that the JSON value `v` describes.
pub open spec fn record_of(v: Value) -> FactRecordView {
    FactRecordView {
        start_date: text_member_of(v, "start"@),
        end_date: text_member_of(v, "end"@),
        form: text_member_of(v, "form"@),
        fiscal_period: text_member_of(v, "fp"@),
        fiscal_year: integer_member_of(v, "fy"@),
        value: integer_member_of(v, "val"@),
    }
}

/// The records that a list of JSON values describes, in the same order.
pub open spec fn records_of(list: Seq<Value>) -> Seq<FactRecordView> {
    Seq::new(list.len(), |i: int| record_of(list[i]))
}

/// Finds the taxonomy of a company-facts document.
pub fn extract_us_gaap<'a>(json_data: &'a Value) -> (r: Result<
    &'a serde_json::Map<String, Value>,
    ParseError,
>)
    ensures
        match r {
            Ok(facts) => taxonomy_of(*json_data) == Some(*facts),
            Err(e) => taxonomy_of(*json_data) is None && e@ == missing_facts(),
        },
{
    let found = match member(json_data, "facts") {
        Some(facts) => match member(facts, "us-gaap") {
            Some(gaap) => object(gaap),
            None => None,
        },
        None => None,
    };
    match found {
        Some(facts) => Ok(facts),
        None => Err(ParseError::MissingField(String::from_str("facts"))),
    }
}

/// Finds the values that the taxonomy reports for `gaap_tag` in the
/// currency `currency`.
pub fn extract_gaap_tag_in_unit<'a>(
    facts: &'a serde_json::Map<String, Value>,
    gaap_tag: &str,
    currency: &str,
) -> (r: Result<&'a Vec<Value>, ParseError>)
    ensures
        match r {
            Ok(list) => tag_items_in(*facts, gaap_tag@, currency@) == Ok::<
                Seq<Value>,
                ParseErrorView,
            >(list@),
            Err(e) => tag_items_in(*facts, gaap_tag@, currency@) == Err::<
                Seq<Value>,
                ParseErrorView,
            >(e@),
        },
{
    let data = match entry(facts, gaap_tag) {
        Some(data) => data,
        None => {
            return Err(ParseError::MissingField(String::from_str(gaap_tag)));
        },
    };
    let found = match member(data, "units") {
        Some(units) => match member(units, currency) {
            Some(list) => items(list),
            None => None,
        },
        None => None,
    };
    match found {
        Some(list) => Ok(list),
        None => Err(ParseError::MissingField(String::from_str(currency))),
    }
}

/// Finds the values that the taxonomy reports for `gaap_tag` in US dollars.
pub fn extract_gaap_tag_in_unit_usd<'a>(
    facts: &'a serde_json::Map<String, Value>,
    gaap_tag: &str,
) -> (r: Result<&'a Vec<Value>, ParseError>)
    ensures
        match r {
            Ok(list) => tag_items_of(*facts, gaap_tag@) == Ok::<Seq<Value>, ParseErrorView>(list@),
            Err(e) => tag_items_of(*facts, gaap_tag@) == Err::<Seq<Value>, ParseErrorView>(e@),
        },
{
    extract_gaap_tag_in_unit(facts, gaap_tag, "USD")
}

/// The text under `key` in `v`, or the empty text.
pub fn text_member(v: &Value, key: &str) -> (r: String)
    ensures
        r@ == text_member_of(*v, key@),
{
    let found = match member(v, key) {
        Some(m) => text(m),
        None => None,
    };
    match found {
        Some(s) => String::from_str(s),
        None => String::new(),
    }
}

/// The integer under `key` in `v`, or zero.
pub fn integer_member(v: &Value, key: &str) -> (r: i64)
    ensures
        r as int == integer_member_of(*v, key@),
{
    let found = match member(v, key) {
        Some(m) => integer(m),
        None => None,
    };
    match found {
        Some(n) => n,
        None => 0,
    }
}

/// Reads one record out of the JSON value that describes it.
pub fn read_record(v: &Value) -> (r: FactRecord)
    ensures
        r@ == record_of(*v),
{
    FactRecord {
        start_date: text_member(v, "start"),
        end_date: text_member(v, "end"),
        form: text_member(v, "form"),
        fiscal_period: text_member(v, "fp"),
        fiscal_year: integer_member(v, "fy"),
        value: integer_member(v, "val"),
    }
}

/// Reads the records of a list of JSON values, in the same order.
pub fn read_series(list: &Vec<Value>) -> (r: Vec<FactRecord>)
    ensures
        series_view(r@) == records_of(list@),
{
    let mut out: Vec<FactRecord> = Vec::new();
    let mut i: usize = 0;
    while i < list.len()
        invariant
            i <= list.len(),
            out.len() == i,
            forall|j: int| 0 <= j < i ==> out@[j]@ == record_of(list@[j]),
        decreases list.len() - i,
    {
        out.push(read_record(&list[i]));
        i += 1;
    }
    assert(series_view(out@) =~= records_of(list@));
    out
}

/// The characters of each tag of a list.
pub open spec fn tags_view(tags: Seq<&'static str>) -> Seq<Seq<char>> {
    Seq::new(tags.len(), |i: int| tags[i]@)
}

/// The series of the first `n` tags of `tags` in the taxonomy `facts`, or
/// the part that the first tag without a series is missing.
pub open spec fn collected(
    facts: serde_json::Map<String, Value>,
    tags: Seq<Seq<char>>,
    n: nat,
) -> Result<Seq<TagSeriesView>, ParseErrorView>
    decreases n,
{
    if n == 0 {
        Ok(Seq::empty())
    } else {
        match collected(facts, tags, (n - 1) as nat) {
            Err(e) => Err(e),
            Ok(before) => match tag_items_of(facts, tags[n - 1]) {
                Err(e) => Err(e),
                Ok(list) => Ok(
                    before.push(TagSeriesView { tag: tags[n - 1], records: records_of(list) }),
                ),
            },
        }
    }
}

/// The series that the document `doc` holds for the tags `tags`, in their
/// order, or the first part that is missing: the taxonomy, else the first tag
/// without a series.
pub open spec fn document_facts(doc: Value, tags: Seq<Seq<char>>) -> Result<
    Seq<TagSeriesView>,
    ParseErrorView,
> {
    match taxonomy_of(doc) {
        None => Err(missing_facts()),
        Some(facts) => collected(facts, tags, tags.len()),
    }
}

/// Reads the series of every tag of `tags` out of a company-facts document.
pub fn collect_facts(json_data: &Value, tags: &[&'static str]) -> (r: Result<
    Vec<TagSeries>,
    ParseError,
>)
    ensures
        match r {
            Ok(facts) => document_facts(*json_data, tags_view(tags@)) == Ok::<
                Seq<TagSeriesView>,
                ParseErrorView,
            >(facts_view(facts@)),
            Err(e) => document_facts(*json_data, tags_view(tags@)) == Err::<
                Seq<TagSeriesView>,
                ParseErrorView,
            >(e@),
        },
{
    let facts = match extract_us_gaap(json_data) {
        Ok(facts) => facts,
        Err(e) => {
            return Err(e);
        },
    };
    let ghost names = tags_view(tags@);
    let mut out: Vec<TagSeries> = Vec::new();
    let mut i: usize = 0;
    proof {
        assert(facts_view(out@) =~= Seq::<TagSeriesView>::empty());
    }
    while i < tags.len()
        invariant
            i <= tags.len(),
            names == tags_view(tags@),
            taxonomy_of(*json_data) == Some(*facts),
            collected(*facts, names, i as nat) == Ok::<Seq<TagSeriesView>, ParseErrorView>(
                facts_view(out@),
            ),
        decreases tags.len() - i,
    {
        let tag: &'static str = tags[i];
        match extract_gaap_tag_in_unit_usd(facts, tag) {
            Err(e) => {
                proof {
                    lemma_collected_stops(*facts, names, (i + 1) as nat, names.len());
                }
                return Err(e);
            },
            Ok(list) => {
                let ghost before = facts_view(out@);
                out.push(TagSeries { tag: String::from_str(tag), records: read_series(list) });
                proof {
                    assert(facts_view(out@) =~= before.push(
                        TagSeriesView { tag: names[i as int], records: records_of(list@) },
                    ));
                }
            },
        }
        i += 1;
    }
    Ok(out)
}

/// Once a tag has no series, the tags after it change nothing.
pub proof fn lemma_collected_stops(
    facts: serde_json::Map<String, Value>,
    tags: Seq<Seq<char>>,
    n: nat,
    m: nat,
)
    requires
        n <= m,
        collected(facts, tags, n) is Err,
    ensures
        collected(facts, tags, m) == collected(facts, tags, n),
    decreases m,
{
    if n < m {
        lemma_collected_stops(facts, tags, n, (m - 1) as nat);
    }
}

} // verus!
