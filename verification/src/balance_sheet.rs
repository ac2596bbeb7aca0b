//! The balance sheet.

use crate::common::{blank_metadata, MetaData};
use crate::statement::{FinancialStatement, SnapshotModel};
use crate::text::same_text;
use vstd::prelude::*;

verus! {

/// One balance sheet: what a company owns and owes at the end of a period.
#[derive(Debug)]
pub struct BalanceSheet {
    pub total_assets: i64,
    pub current_assets: i64,
    pub inventory: i64,
    pub total_liabilities: i64,
    pub current_liabilities: i64,
    pub total_equity: i64,
    pub sec_us_gaap: [&'static str; 6],
    pub financial_facts: MetaData,
}

impl BalanceSheet {
    /// Whether the balance sheet has a field for the fact `tag`.
    pub open spec fn routes(tag: Seq<char>) -> bool {
        ||| tag == "LiabilitiesAndStockholdersEquity"@
        ||| tag == "AssetsCurrent"@
        ||| tag == "InventoryNet"@
        ||| tag == "Liabilities"@
        ||| tag == "LiabilitiesCurrent"@
        ||| tag == "StockholdersEquity"@
    }

    /// The amount in the field that belongs to the fact `tag`.
    pub open spec fn amount_of(&self, tag: Seq<char>) -> int {
        if tag == "LiabilitiesAndStockholdersEquity"@ {
            self.total_assets as int
        } else if tag == "AssetsCurrent"@ {
            self.current_assets as int
        } else if tag == "InventoryNet"@ {
            self.inventory as int
        } else if tag == "Liabilities"@ {
            self.total_liabilities as int
        } else if tag == "LiabilitiesCurrent"@ {
            self.current_liabilities as int
        } else {
            self.total_equity as int
        }
    }

    /// The fact tags of the schema are all different.
    pub proof fn lemma_tags_distinct()
        ensures
            forall|i: int, j: int|
                0 <= i < j < Self::schema().len() ==> Self::schema()[i] != Self::schema()[j],
    {
        reveal_strlit("LiabilitiesAndStockholdersEquity");
        reveal_strlit("AssetsCurrent");
        reveal_strlit("InventoryNet");
        reveal_strlit("Liabilities");
        reveal_strlit("LiabilitiesCurrent");
        reveal_strlit("StockholdersEquity");
        assert("LiabilitiesAndStockholdersEquity"@[0] != "AssetsCurrent"@[0]);
        assert("LiabilitiesAndStockholdersEquity"@[0] != "InventoryNet"@[0]);
        assert("LiabilitiesAndStockholdersEquity"@.len() != "Liabilities"@.len());
        assert("LiabilitiesAndStockholdersEquity"@[11] != "LiabilitiesCurrent"@[11]);
        assert("LiabilitiesAndStockholdersEquity"@[0] != "StockholdersEquity"@[0]);
        assert("AssetsCurrent"@[0] != "InventoryNet"@[0]);
        assert("AssetsCurrent"@[0] != "Liabilities"@[0]);
        assert("AssetsCurrent"@[0] != "LiabilitiesCurrent"@[0]);
        assert("AssetsCurrent"@[0] != "StockholdersEquity"@[0]);
        assert("InventoryNet"@[0] != "Liabilities"@[0]);
        assert("InventoryNet"@[0] != "LiabilitiesCurrent"@[0]);
        assert("InventoryNet"@[0] != "StockholdersEquity"@[0]);
        assert("Liabilities"@.len() != "LiabilitiesCurrent"@.len());
        assert("Liabilities"@[0] != "StockholdersEquity"@[0]);
        assert("LiabilitiesCurrent"@[0] != "StockholdersEquity"@[0]);
    }

    /// The view holds, under each tag of the schema, the amount of the field
    /// that belongs to the tag, and holds nothing else.
    pub proof fn lemma_view_fields(&self)
        ensures
            forall|tag: Seq<char>| self@.amounts.dom().contains(tag) <==> Self::schema().contains(tag),
            self@.amounts["LiabilitiesAndStockholdersEquity"@] == self.total_assets,
            self@.amounts["AssetsCurrent"@] == self.current_assets,
            self@.amounts["InventoryNet"@] == self.inventory,
            self@.amounts["Liabilities"@] == self.total_liabilities,
            self@.amounts["LiabilitiesCurrent"@] == self.current_liabilities,
            self@.amounts["StockholdersEquity"@] == self.total_equity,
            self@.meta == self.financial_facts@,
    {
        Self::lemma_tags_distinct();
        let tags = Self::schema();
        assert(tags[0] == "LiabilitiesAndStockholdersEquity"@);
        assert(tags[1] == "AssetsCurrent"@);
        assert(tags[2] == "InventoryNet"@);
        assert(tags[3] == "Liabilities"@);
        assert(tags[4] == "LiabilitiesCurrent"@);
        assert(tags[5] == "StockholdersEquity"@);
        assert forall|tag: Seq<char>| Self::schema().contains(tag) implies Self::routes(tag) by {
            let i = choose|i: int| 0 <= i < tags.len() && tags[i] == tag;
        }
    }
}

impl Default for BalanceSheet {
    fn default() -> (r: Self)
        ensures
            r.total_assets == 0,
            r.current_assets == 0,
            r.inventory == 0,
            r.total_liabilities == 0,
            r.current_liabilities == 0,
            r.total_equity == 0,
            r.tag_list() == Self::schema(),
            r.financial_facts@ == blank_metadata(),
            r@ == Self::blank_model(),
    {
        let r = Self {
            total_assets: 0,
            current_assets: 0,
            inventory: 0,
            total_liabilities: 0,
            current_liabilities: 0,
            total_equity: 0,
            sec_us_gaap: [
                "LiabilitiesAndStockholdersEquity",
                "AssetsCurrent",
                "InventoryNet",
                "Liabilities",
                "LiabilitiesCurrent",
                "StockholdersEquity",
            ],
            financial_facts: MetaData::default(),
        };
        assert(r.tag_list() =~= Self::schema());
        assert(r@.amounts =~= Self::blank_model().amounts);
        r
    }
}

impl View for BalanceSheet {
    type V = SnapshotModel;

    open spec fn view(&self) -> SnapshotModel {
        SnapshotModel {
            amounts: Map::new(|t: Seq<char>| Self::routes(t), |t: Seq<char>| self.amount_of(t)),
            meta: self.financial_facts@,
        }
    }
}

impl FinancialStatement for BalanceSheet {
    open spec fn tag_list(&self) -> Seq<Seq<char>> {
        Seq::new(6, |i: int| self.sec_us_gaap@[i]@)
    }

    open spec fn schema() -> Seq<Seq<char>> {
        seq![
            "LiabilitiesAndStockholdersEquity"@,
            "AssetsCurrent"@,
            "InventoryNet"@,
            "Liabilities"@,
            "LiabilitiesCurrent"@,
            "StockholdersEquity"@,
        ]
    }

    open spec fn blank_model() -> SnapshotModel {
        SnapshotModel {
            amounts: Map::new(|t: Seq<char>| Self::routes(t), |t: Seq<char>| 0int),
            meta: blank_metadata(),
        }
    }

    fn blank() -> (r: Self) {
        Self::default()
    }

    fn set_gaap_value(&mut self, gaap_tag: &str, value: i64) {
        if same_text(gaap_tag, "LiabilitiesAndStockholdersEquity") {
            self.total_assets = value;
        } else if same_text(gaap_tag, "AssetsCurrent") {
            self.current_assets = value;
        } else if same_text(gaap_tag, "InventoryNet") {
            self.inventory = value;
        } else if same_text(gaap_tag, "Liabilities") {
            self.total_liabilities = value;
        } else if same_text(gaap_tag, "LiabilitiesCurrent") {
            self.current_liabilities = value;
        } else if same_text(gaap_tag, "StockholdersEquity") {
            self.total_equity = value;
        }
        assert(self@.amounts =~= old(self)@.with_amount(
            gaap_tag@,
            value as int,
        ).amounts);
    }

    fn get_gaap_tags(&self) -> (r: &[&'static str]) {
        self.sec_us_gaap.as_slice()
    }

    fn get_metadata(&mut self) -> (r: &mut MetaData) {
        &mut self.financial_facts
    }
}

} // verus!
