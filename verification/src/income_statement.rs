//! The income statement.

use crate::common::{blank_metadata, MetaData};
use crate::statement::{FinancialStatement, SnapshotModel};
use crate::text::same_text;
use vstd::prelude::*;

verus! {

/// One income statement: what a company earned and spent over a period.
#[derive(Debug)]
pub struct IncomeStatement {
    pub total_revenue: i64,
    pub cost_of_revenue: i64,
    pub gross_profit: i64,
    pub operating_expense: i64,
    pub operating_income: i64,
    pub net_income: i64,
    pub sec_us_gaap: [&'static str; 6],
    pub financial_facts: MetaData,
}

impl IncomeStatement {
    /// Whether the income statement has a field for the fact `tag`.
    pub open spec fn routes(tag: Seq<char>) -> bool {
        ||| tag == "Revenues"@
        ||| tag == "CostOfRevenue"@
        ||| tag == "GrossProfit"@
        ||| tag == "OperatingExpenses"@
        ||| tag == "NonoperatingIncomeExpense"@
        ||| tag == "NetIncomeLoss"@
    }

    /// The amount in the field that belongs to the fact `tag`.
    pub open spec fn amount_of(&self, tag: Seq<char>) -> int {
        if tag == "Revenues"@ {
            self.total_revenue as int
        } else if tag == "CostOfRevenue"@ {
            self.cost_of_revenue as int
        } else if tag == "GrossProfit"@ {
            self.gross_profit as int
        } else if tag == "OperatingExpenses"@ {
            self.operating_expense as int
        } else if tag == "NonoperatingIncomeExpense"@ {
            self.operating_income as int
        } else {
            self.net_income as int
        }
    }

    /// The fact tags of the schema are all different.
    pub proof fn lemma_tags_distinct()
        ensures
            forall|i: int, j: int|
                0 <= i < j < Self::schema().len() ==> Self::schema()[i] != Self::schema()[j],
    {
        reveal_strlit("Revenues");
        reveal_strlit("CostOfRevenue");
        reveal_strlit("GrossProfit");
        reveal_strlit("OperatingExpenses");
        reveal_strlit("NonoperatingIncomeExpense");
        reveal_strlit("NetIncomeLoss");
        assert("Revenues"@[0] != "CostOfRevenue"@[0]);
        assert("Revenues"@[0] != "GrossProfit"@[0]);
        assert("Revenues"@[0] != "OperatingExpenses"@[0]);
        assert("Revenues"@[0] != "NonoperatingIncomeExpense"@[0]);
        assert("Revenues"@[0] != "NetIncomeLoss"@[0]);
        assert("CostOfRevenue"@[0] != "GrossProfit"@[0]);
        assert("CostOfRevenue"@[0] != "OperatingExpenses"@[0]);
        assert("CostOfRevenue"@[0] != "NonoperatingIncomeExpense"@[0]);
        assert("CostOfRevenue"@[0] != "NetIncomeLoss"@[0]);
        assert("GrossProfit"@[0] != "OperatingExpenses"@[0]);
        assert("GrossProfit"@[0] != "NonoperatingIncomeExpense"@[0]);
        assert("GrossProfit"@[0] != "NetIncomeLoss"@[0]);
        assert("OperatingExpenses"@[0] != "NonoperatingIncomeExpense"@[0]);
        assert("OperatingExpenses"@[0] != "NetIncomeLoss"@[0]);
        assert("NonoperatingIncomeExpense"@[1] != "NetIncomeLoss"@[1]);
    }

    /// The view holds, under each tag of the schema, the amount of the field
    /// that belongs to the tag, and holds nothing else.
    pub proof fn lemma_view_fields(&self)
        ensures
            forall|tag: Seq<char>| self@.amounts.dom().contains(tag) <==> Self::schema().contains(tag),
            self@.amounts["Revenues"@] == self.total_revenue,
            self@.amounts["CostOfRevenue"@] == self.cost_of_revenue,
            self@.amounts["GrossProfit"@] == self.gross_profit,
            self@.amounts["OperatingExpenses"@] == self.operating_expense,
            self@.amounts["NonoperatingIncomeExpense"@] == self.operating_income,
            self@.amounts["NetIncomeLoss"@] == self.net_income,
            self@.meta == self.financial_facts@,
    {
        Self::lemma_tags_distinct();
        let tags = Self::schema();
        assert(tags[0] == "Revenues"@);
        assert(tags[1] == "CostOfRevenue"@);
        assert(tags[2] == "GrossProfit"@);
        assert(tags[3] == "OperatingExpenses"@);
        assert(tags[4] == "NonoperatingIncomeExpense"@);
        assert(tags[5] == "NetIncomeLoss"@);
        assert forall|tag: Seq<char>| Self::schema().contains(tag) implies Self::routes(tag) by {
            let i = choose|i: int| 0 <= i < tags.len() && tags[i] == tag;
        }
    }
}

impl Default for IncomeStatement {
    fn default() -> (r: Self)
        ensures
            r.total_revenue == 0,
            r.cost_of_revenue == 0,
            r.gross_profit == 0,
            r.operating_expense == 0,
            r.operating_income == 0,
            r.net_income == 0,
            r.tag_list() == Self::schema(),
            r.financial_facts@ == blank_metadata(),
            r@ == Self::blank_model(),
    {
        let r = Self {
            total_revenue: 0,
            cost_of_revenue: 0,
            gross_profit: 0,
            operating_expense: 0,
            operating_income: 0,
            net_income: 0,
            sec_us_gaap: [
                "Revenues",
                "CostOfRevenue",
                "GrossProfit",
                "OperatingExpenses",
                "NonoperatingIncomeExpense",
                "NetIncomeLoss",
            ],
            financial_facts: MetaData::default(),
        };
        assert(r.tag_list() =~= Self::schema());
        assert(r@.amounts =~= Self::blank_model().amounts);
        r
    }
}

impl View for IncomeStatement {
    type V = SnapshotModel;

    open spec fn view(&self) -> SnapshotModel {
        SnapshotModel {
            amounts: Map::new(|t: Seq<char>| Self::routes(t), |t: Seq<char>| self.amount_of(t)),
            meta: self.financial_facts@,
        }
    }
}

impl FinancialStatement for IncomeStatement {
    open spec fn tag_list(&self) -> Seq<Seq<char>> {
        Seq::new(6, |i: int| self.sec_us_gaap@[i]@)
    }

    open spec fn schema() -> Seq<Seq<char>> {
        seq![
            "Revenues"@,
            "CostOfRevenue"@,
            "GrossProfit"@,
            "OperatingExpenses"@,
            "NonoperatingIncomeExpense"@,
            "NetIncomeLoss"@,
        ]
    }

    open spec fn blank_model() -> SnapshotModel {
        SnapshotModel {
            amounts: Map::new(|t: Seq<char>| Self::routes(t), |t: Seq<char>| 0int),
            meta: blank_metadata(),
        }
    }

    fn blank() -> (r: Self) {
        Self::default()
    }

    fn set_gaap_value(&mut self, gaap_tag: &str, value: i64) {
        if same_text(gaap_tag, "Revenues") {
            self.total_revenue = value;
        } else if same_text(gaap_tag, "CostOfRevenue") {
            self.cost_of_revenue = value;
        } else if same_text(gaap_tag, "GrossProfit") {
            self.gross_profit = value;
        } else if same_text(gaap_tag, "OperatingExpenses") {
            self.operating_expense = value;
        } else if same_text(gaap_tag, "NonoperatingIncomeExpense") {
            self.operating_income = value;
        } else if same_text(gaap_tag, "NetIncomeLoss") {
            self.net_income = value;
        }
        assert(self@.amounts =~= old(self)@.with_amount(
            gaap_tag@,
            value as int,
        ).amounts);
    }

    fn get_gaap_tags(&self) -> (r: &[&'static str]) {
        self.sec_us_gaap.as_slice()
    }

    fn get_metadata(&mut self) -> (r: &mut MetaData) {
        &mut self.financial_facts
    }
}

} // verus!
