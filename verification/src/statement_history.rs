//! The history of one kind of statement, as a value to keep.

use crate::error::ParseError;
use crate::history::models;
use crate::statement::{
    cutoff_of, history_result_view, is_history_result, FinancialStatement, SnapshotModel,
};
use serde_json::Value;
use vstd::prelude::*;

verus! {

/// The snapshots of one kind of statement, one for each period, oldest
/// period first.
pub struct StatementHistory<T> {
    pub records: Vec<T>,
}

impl<T: FinancialStatement> View for StatementHistory<T> {
    type V = Seq<SnapshotModel>;

    open spec fn view(&self) -> Seq<SnapshotModel> {
        models(self.records@)
    }
}

impl<T: FinancialStatement> StatementHistory<T> {
    /// A history without snapshots.
    pub fn default() -> (r: Self)
        ensures
            r.records@.len() == 0,
            r@ == Seq::<SnapshotModel>::empty(),
    {
        let r = Self { records: Vec::new() };
        assert(r@ =~= Seq::<SnapshotModel>::empty());
        r
    }

    /// What filling the history gave: on success the records are the
    /// history of the document, on failure they are as they were.
    pub open spec fn filled_from(
        before: Self,
        after: Self,
        r: Result<(), ParseError>,
        doc: Value,
        cutoff: int,
    ) -> bool {
        match r {
            Ok(_) => {
                &&& is_history_result(
                    Ok(after@),
                    T::blank_model(),
                    doc,
                    T::schema(),
                    cutoff,
                )
                &&& forall|i: int|
                    0 <= i < after.records.len() ==> (#[trigger] after.records[i]).tag_list()
                        == T::schema()
            },
            Err(e) => {
                &&& is_history_result(Err(e@), T::blank_model(), doc, T::schema(), cutoff)
                &&& after == before
            },
        }
    }

    /// Replaces the records by the history that the document holds for the
    /// years after `current_year - retention_years`.
    pub fn fill_history_at(
        &mut self,
        json_data: &Value,
        current_year: i32,
        retention_years: u32,
    ) -> (r: Result<(), ParseError>)
        ensures
            Self::filled_from(
                *old(self),
                *final(self),
                r,
                *json_data,
                cutoff_of(current_year, retention_years),
            ),
    {
        let mut tmp = T::blank();
        match tmp.parse_history_at(json_data, current_year, retention_years) {
            Ok(records) => {
                self.records = records;
                Ok(())
            },
            Err(e) => Err(e),
        }
    }

    /// Replaces the records by the history that the document holds for the
    /// last `MAX_HISTORY_YEARS` years, counted from the year of the machine's
    /// clock.
    pub fn fill_history(&mut self, json_data: &Value) -> (r: Result<(), ParseError>)
        ensures
            exists|year: i32| #[trigger]
                Self::filled_from(
                    *old(self),
                    *final(self),
                    r,
                    *json_data,
                    cutoff_of(year, T::MAX_HISTORY_YEARS),
                ),
    {
        let mut tmp = T::blank();
        let found = tmp.parse_history(json_data);
        let ghost year = choose|year: i32| #[trigger]
            is_history_result(
                history_result_view(found),
                T::blank_model(),
                *json_data,
                T::schema(),
                cutoff_of(year, T::MAX_HISTORY_YEARS),
            );
        let r = match found {
            Ok(records) => {
                self.records = records;
                Ok(())
            },
            Err(e) => Err(e),
        };
        assert(Self::filled_from(
            *old(self),
            *self,
            r,
            *json_data,
            cutoff_of(year, T::MAX_HISTORY_YEARS),
        ));
        r
    }
}

} // verus!
