//! The cash-flow statement.

use crate::common::{blank_metadata, MetaData};
use crate::statement::{FinancialStatement, SnapshotModel};
use crate::text::same_text;
use vstd::prelude::*;

verus! {

/// One cash-flow statement: where cash came from and went over a period.
#[derive(Debug)]
pub struct CashFlow {
    pub operating_cash_flow: i64,
    pub investing_cash_flow: i64,
    pub financing_cash_flow: i64,
    pub end_cash_flow_position: i64,
    pub sec_us_gaap: [&'static str; 4],
    pub financial_facts: MetaData,
}

impl CashFlow {
    /// Whether the cash-flow statement has a field for the fact `tag`.
    pub open spec fn routes(tag: Seq<char>) -> bool {
        ||| tag == "NetCashProvidedByUsedInOperatingActivities"@
        ||| tag == "NetCashProvidedByUsedInInvestingActivities"@
        ||| tag == "NetCashProvidedByUsedInFinancingActivities"@
        ||| tag == "CashCashEquivalentsRestrictedCashAndRestrictedCashEquivalents"@
    }

    /// The amount in the field that belongs to the fact `tag`.
    pub open spec fn amount_of(&self, tag: Seq<char>) -> int {
        if tag == "NetCashProvidedByUsedInOperatingActivities"@ {
            self.operating_cash_flow as int
        } else if tag == "NetCashProvidedByUsedInInvestingActivities"@ {
            self.investing_cash_flow as int
        } else if tag == "NetCashProvidedByUsedInFinancingActivities"@ {
            self.financing_cash_flow as int
        } else {
            self.end_cash_flow_position as int
        }
    }

    /// The fact tags of the schema are all different.
    pub proof fn lemma_tags_distinct()
        ensures
            forall|i: int, j: int|
                0 <= i < j < Self::schema().len() ==> Self::schema()[i] != Self::schema()[j],
    {
        reveal_strlit("NetCashProvidedByUsedInOperatingActivities");
        reveal_strlit("NetCashProvidedByUsedInInvestingActivities");
        reveal_strlit("NetCashProvidedByUsedInFinancingActivities");
        reveal_strlit("CashCashEquivalentsRestrictedCashAndRestrictedCashEquivalents");
        assert("NetCashProvidedByUsedInOperatingActivities"@[23] != "NetCashProvidedByUsedInInvestingActivities"@[23]);
        assert("NetCashProvidedByUsedInOperatingActivities"@[23] != "NetCashProvidedByUsedInFinancingActivities"@[23]);
        assert("NetCashProvidedByUsedInOperatingActivities"@[0] != "CashCashEquivalentsRestrictedCashAndRestrictedCashEquivalents"@[0]);
        assert("NetCashProvidedByUsedInInvestingActivities"@[23] != "NetCashProvidedByUsedInFinancingActivities"@[23]);
        assert("NetCashProvidedByUsedInInvestingActivities"@[0] != "CashCashEquivalentsRestrictedCashAndRestrictedCashEquivalents"@[0]);
        assert("NetCashProvidedByUsedInFinancingActivities"@[0] != "CashCashEquivalentsRestrictedCashAndRestrictedCashEquivalents"@[0]);
    }

    /// The view holds, under each tag of the schema, the amount of the field
    /// that belongs to the tag, and holds nothing else.
    pub proof fn lemma_view_fields(&self)
        ensures
            forall|tag: Seq<char>| self@.amounts.dom().contains(tag) <==> Self::schema().contains(tag),
            self@.amounts["NetCashProvidedByUsedInOperatingActivities"@] == self.operating_cash_flow,
            self@.amounts["NetCashProvidedByUsedInInvestingActivities"@] == self.investing_cash_flow,
            self@.amounts["NetCashProvidedByUsedInFinancingActivities"@] == self.financing_cash_flow,
            self@.amounts["CashCashEquivalentsRestrictedCashAndRestrictedCashEquivalents"@] == self.end_cash_flow_position,
            self@.meta == self.financial_facts@,
    {
        Self::lemma_tags_distinct();
        let tags = Self::schema();
        assert(tags[0] == "NetCashProvidedByUsedInOperatingActivities"@);
        assert(tags[1] == "NetCashProvidedByUsedInInvestingActivities"@);
        assert(tags[2] == "NetCashProvidedByUsedInFinancingActivities"@);
        assert(tags[3] == "CashCashEquivalentsRestrictedCashAndRestrictedCashEquivalents"@);
        assert forall|tag: Seq<char>| Self::schema().contains(tag) implies Self::routes(tag) by {
            let i = choose|i: int| 0 <= i < tags.len() && tags[i] == tag;
        }
    }
}

impl Default for CashFlow {
    fn default() -> (r: Self)
        ensures
            r.operating_cash_flow == 0,
            r.investing_cash_flow == 0,
            r.financing_cash_flow == 0,
            r.end_cash_flow_position == 0,
            r.tag_list() == Self::schema(),
            r.financial_facts@ == blank_metadata(),
            r@ == Self::blank_model(),
    {
        let r = Self {
            operating_cash_flow: 0,
            investing_cash_flow: 0,
            financing_cash_flow: 0,
            end_cash_flow_position: 0,
            sec_us_gaap: [
                "NetCashProvidedByUsedInOperatingActivities",
                "NetCashProvidedByUsedInInvestingActivities",
                "NetCashProvidedByUsedInFinancingActivities",
                "CashCashEquivalentsRestrictedCashAndRestrictedCashEquivalents",
            ],
            financial_facts: MetaData::default(),
        };
        assert(r.tag_list() =~= Self::schema());
        assert(r@.amounts =~= Self::blank_model().amounts);
        r
    }
}

impl View for CashFlow {
    type V = SnapshotModel;

    open spec fn view(&self) -> SnapshotModel {
        SnapshotModel {
            amounts: Map::new(|t: Seq<char>| Self::routes(t), |t: Seq<char>| self.amount_of(t)),
            meta: self.financial_facts@,
        }
    }
}

impl FinancialStatement for CashFlow {
    open spec fn tag_list(&self) -> Seq<Seq<char>> {
        Seq::new(4, |i: int| self.sec_us_gaap@[i]@)
    }

    open spec fn schema() -> Seq<Seq<char>> {
        seq![
            "NetCashProvidedByUsedInOperatingActivities"@,
            "NetCashProvidedByUsedInInvestingActivities"@,
            "NetCashProvidedByUsedInFinancingActivities"@,
            "CashCashEquivalentsRestrictedCashAndRestrictedCashEquivalents"@,
        ]
    }

    open spec fn blank_model() -> SnapshotModel {
        SnapshotModel {
            amounts: Map::new(|t: Seq<char>| Self::routes(t), |t: Seq<char>| 0int),
            meta: blank_metadata(),
        }
    }

    fn blank() -> (r: Self) {
        Self::default()
    }

    fn set_gaap_value(&mut self, gaap_tag: &str, value: i64) {
        if same_text(gaap_tag, "NetCashProvidedByUsedInOperatingActivities") {
            self.operating_cash_flow = value;
        } else if same_text(gaap_tag, "NetCashProvidedByUsedInInvestingActivities") {
            self.investing_cash_flow = value;
        } else if same_text(gaap_tag, "NetCashProvidedByUsedInFinancingActivities") {
            self.financing_cash_flow = value;
        } else if same_text(gaap_tag, "CashCashEquivalentsRestrictedCashAndRestrictedCashEquivalents") {
            self.end_cash_flow_position = value;
        }
        assert(self@.amounts =~= old(self)@.with_amount(
            gaap_tag@,
            value as int,
        ).amounts);
    }

    fn get_gaap_tags(&self) -> (r: &[&'static str]) {
        self.sec_us_gaap.as_slice()
    }

    fn get_metadata(&mut self) -> (r: &mut MetaData) {
        &mut self.financial_facts
    }
}

} // verus!
