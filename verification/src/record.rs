//! One reported observation of a fact, as plain values.

use vstd::prelude::*;

verus! {

/// One reported value of a fact together with the period it was reported
/// for. A field that the document leaves out holds the empty text or zero.
#[derive(Debug, Clone, PartialEq, Eq)]
pub struct FactRecord {
    /// First day of the period.
    pub start_date: String,
    /// Last day of the period, as `YYYY-MM-DD`.
    pub end_date: String,
    /// Name of the form the value was filed in, such as `10-K`.
    pub form: String,
    /// Fiscal period token, such as `FY`.
    pub fiscal_period: String,
    /// Fiscal year of the filing.
    pub fiscal_year: i64,
    /// The reported amount.
    pub value: i64,
}

/// The mathematical content of a [`FactRecord`].
pub struct FactRecordView {
    pub start_date: Seq<char>,
    pub end_date: Seq<char>,
    pub form: Seq<char>,
    pub fiscal_period: Seq<char>,
    pub fiscal_year: int,
    pub value: int,
}

impl View for FactRecord {
    type V = FactRecordView;

    open spec fn view(&self) -> FactRecordView {
        FactRecordView {
            start_date: self.start_date@,
            end_date: self.end_date@,
            form: self.form@,
            fiscal_period: self.fiscal_period@,
            fiscal_year: self.fiscal_year as int,
            value: self.value as int,
        }
    }
}

/// The contents of a series of records, oldest first.
pub open spec fn series_view(series: Seq<FactRecord>) -> Seq<FactRecordView> {
    Seq::new(series.len(), |i: int| series[i]@)
}

} // verus!
