//! Classifications and the metadata that every statement snapshot carries.

use crate::text::same_text;
use vstd::prelude::*;
use vstd::std_specs::convert::FromSpecImpl;

verus! {

/// The kind of filing that a fact was reported in.
#[derive(Debug, Clone, Copy, PartialEq, Eq, Structural)]
pub enum FormReport {
    Invalid,
    Quarly,
    Annually,
}

/// The filing kind that the form name `s` stands for: `10-Q` is a quarterly
/// report, `10-K` an annual one, and every other text is invalid.
pub open spec fn form_report_of(s: Seq<char>) -> FormReport {
    if s == "10-Q"@ {
        FormReport::Quarly
    } else if s == "10-K"@ {
        FormReport::Annually
    } else {
        FormReport::Invalid
    }
}

impl FormReport {
    /// The filing kind that the form name `s` stands for.
    pub fn from_name(s: &str) -> (r: Self)
        ensures
            r == form_report_of(s@),
    {
        if same_text(s, "10-Q") {
            FormReport::Quarly
        } else if same_text(s, "10-K") {
            FormReport::Annually
        } else {
            FormReport::Invalid
        }
    }
}

impl<'a> From<&'a str> for FormReport {
    fn from(s: &'a str) -> (r: Self) {
        FormReport::from_name(s)
    }
}

impl<'a> FromSpecImpl<&'a str> for FormReport {
    open spec fn obeys_from_spec() -> bool {
        true
    }

    open spec fn from_spec(s: &'a str) -> Self {
        form_report_of(s@)
    }
}

/// The fiscal period that a fact covers.
#[derive(Debug, Clone, Copy, PartialEq, Eq, Structural)]
pub enum FiscalPeriod {
    Invalid,
    Q1,
    Q2,
    Q3,
    FY,
}

/// The fiscal period that the token `s` stands for: `Q1`, `Q2`, `Q3` or `FY`;
/// every other text is invalid.
pub open spec fn fiscal_period_of(s: Seq<char>) -> FiscalPeriod {
    if s == "Q1"@ {
        FiscalPeriod::Q1
    } else if s == "Q2"@ {
        FiscalPeriod::Q2
    } else if s == "Q3"@ {
        FiscalPeriod::Q3
    } else if s == "FY"@ {
        FiscalPeriod::FY
    } else {
        FiscalPeriod::Invalid
    }
}

impl FiscalPeriod {
    /// The fiscal period that the token `s` stands for.
    pub fn from_token(s: &str) -> (r: Self)
        ensures
            r == fiscal_period_of(s@),
    {
        if same_text(s, "Q1") {
            FiscalPeriod::Q1
        } else if same_text(s, "Q2") {
            FiscalPeriod::Q2
        } else if same_text(s, "Q3") {
            FiscalPeriod::Q3
        } else if same_text(s, "FY") {
            FiscalPeriod::FY
        } else {
            FiscalPeriod::Invalid
        }
    }
}

impl<'a> From<&'a str> for FiscalPeriod {
    fn from(s: &'a str) -> (r: Self) {
        FiscalPeriod::from_token(s)
    }
}

impl<'a> FromSpecImpl<&'a str> for FiscalPeriod {
    open spec fn obeys_from_spec() -> bool {
        true
    }

    open spec fn from_spec(s: &'a str) -> Self {
        fiscal_period_of(s@)
    }
}

/// What a snapshot records about the report that last filled it.
#[derive(Debug)]
pub struct MetaData {
    pub accn: String,
    pub start_date: String,
    pub end_date: String,
    pub filed_date: String,
    pub frame: String,
    pub form_report: FormReport,
    pub fiscal_period: FiscalPeriod,
}

/// The mathematical content of a [`MetaData`].
pub struct MetaDataView {
    pub accn: Seq<char>,
    pub start_date: Seq<char>,
    pub end_date: Seq<char>,
    pub filed_date: Seq<char>,
    pub frame: Seq<char>,
    pub form_report: FormReport,
    pub fiscal_period: FiscalPeriod,
}

impl View for MetaData {
    type V = MetaDataView;

    open spec fn view(&self) -> MetaDataView {
        MetaDataView {
            accn: self.accn@,
            start_date: self.start_date@,
            end_date: self.end_date@,
            filed_date: self.filed_date@,
            frame: self.frame@,
            form_report: self.form_report,
            fiscal_period: self.fiscal_period,
        }
    }
}

/// The metadata of a snapshot that no fact has filled yet: every text is
/// empty, the filing is quarterly and the period is the first quarter.
pub open spec fn blank_metadata() -> MetaDataView {
    MetaDataView {
        accn: Seq::empty(),
        start_date: Seq::empty(),
        end_date: Seq::empty(),
        filed_date: Seq::empty(),
        frame: Seq::empty(),
        form_report: FormReport::Quarly,
        fiscal_period: FiscalPeriod::Q1,
    }
}

impl Default for MetaData {
    fn default() -> (r: Self)
        ensures
            r@ == blank_metadata(),
    {
        Self {
            accn: String::new(),
            start_date: String::new(),
            end_date: String::new(),
            filed_date: String::new(),
            frame: String::new(),
            form_report: FormReport::Quarly,
            fiscal_period: FiscalPeriod::Q1,
        }
    }
}

} // verus!
