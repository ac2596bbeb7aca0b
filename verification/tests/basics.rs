use finstmt::balance_sheet::BalanceSheet;
use finstmt::cash_flow::CashFlow;
use finstmt::common::{FiscalPeriod, FormReport, MetaData};
use finstmt::error::ParseError;
use finstmt::income_statement::IncomeStatement;
use finstmt::statement::FinancialStatement;
use finstmt::text::{same_text, text_less};
use finstmt::year::parse_year;

#[test]
fn form_report_from_its_name() {
    assert_eq!(FormReport::from("10-Q"), FormReport::Quarly);
    assert_eq!(FormReport::from("10-K"), FormReport::Annually);
    assert_eq!(FormReport::from("10-k"), FormReport::Invalid);
    assert_eq!(FormReport::from("10-K/A"), FormReport::Invalid);
    assert_eq!(FormReport::from(""), FormReport::Invalid);
    assert_eq!(FormReport::from_name("10-K"), FormReport::Annually);
    assert_eq!(FormReport::from_name("8-K"), FormReport::Invalid);
}

#[test]
fn fiscal_period_from_its_token() {
    assert_eq!(FiscalPeriod::from("Q1"), FiscalPeriod::Q1);
    assert_eq!(FiscalPeriod::from("Q2"), FiscalPeriod::Q2);
    assert_eq!(FiscalPeriod::from("Q3"), FiscalPeriod::Q3);
    assert_eq!(FiscalPeriod::from("FY"), FiscalPeriod::FY);
    assert_eq!(FiscalPeriod::from("Q4"), FiscalPeriod::Invalid);
    assert_eq!(FiscalPeriod::from("fy"), FiscalPeriod::Invalid);
    assert_eq!(FiscalPeriod::from(""), FiscalPeriod::Invalid);
    assert_eq!(FiscalPeriod::from_token("Q3"), FiscalPeriod::Q3);
}

#[test]
fn metadata_default_is_blank_quarterly_first_quarter() {
    let meta = MetaData::default();
    assert_eq!(meta.accn, "");
    assert_eq!(meta.start_date, "");
    assert_eq!(meta.end_date, "");
    assert_eq!(meta.filed_date, "");
    assert_eq!(meta.frame, "");
    assert_eq!(meta.form_report, FormReport::Quarly);
    assert_eq!(meta.fiscal_period, FiscalPeriod::Q1);
}

#[test]
fn error_messages() {
    assert_eq!(
        ParseError::MissingField(String::from("facts")).to_string(),
        "Parse error: could not find 'facts'"
    );
    assert_eq!(
        ParseError::MissingField(String::from("USD")).to_string(),
        "Parse error: could not find USD unit"
    );
    assert_eq!(
        ParseError::MissingField(String::from("Revenues")).to_string(),
        "Parse error: could not find Revenues"
    );
    assert_eq!(ParseError::MissingField(String::new()).to_string(), "Parse error: could not find ");
    assert_eq!(ParseError::MissingField(String::from("Revenues")).field(), "Revenues");
}

#[test]
fn same_text_compares_characters() {
    assert!(same_text("", ""));
    assert!(same_text("10-K", "10-K"));
    assert!(!same_text("10-K", "10-Q"));
    assert!(!same_text("10-K", "10-"));
    assert!(!same_text("10-", "10-K"));
    assert!(same_text("ünï", "ünï"));
    assert!(!same_text("ünï", "uni"));
}

#[test]
fn text_less_is_the_lexicographic_order() {
    assert!(text_less("2023-12-31", "2024-12-31"));
    assert!(!text_less("2024-12-31", "2023-12-31"));
    assert!(!text_less("2024-12-31", "2024-12-31"));
    assert!(text_less("2024-01-31", "2024-02-01"));
    assert!(text_less("", "a"));
    assert!(!text_less("a", ""));
    assert!(!text_less("", ""));
    assert!(text_less("2024", "2024-"));
    assert!(text_less("10", "9"));
    assert!(text_less("Z", "a"));
    assert!(text_less("z", "é"));
    let mut texts = vec!["b", "", "ab", "a", "B", "é", "aa", "2024-12-31", "2024-02-01"];
    for x in texts.clone() {
        for y in texts.clone() {
            assert_eq!(text_less(x, y), x < y);
        }
    }
    texts.sort();
    for pair in texts.windows(2) {
        assert!(text_less(pair[0], pair[1]));
    }
}

#[test]
fn parse_year_reads_the_text_before_the_first_dash() {
    assert_eq!(parse_year("2024-12-31"), Some(2024));
    assert_eq!(parse_year("2024"), Some(2024));
    assert_eq!(parse_year("2024-"), Some(2024));
    assert_eq!(parse_year("0-1-1"), Some(0));
    assert_eq!(parse_year("0002024-01-01"), Some(2024));
    assert_eq!(parse_year("+2024-01-01"), Some(2024));
    assert_eq!(parse_year("20240101"), Some(20240101));
    assert_eq!(parse_year("2147483647-01-01"), Some(i32::MAX));
}

#[test]
fn parse_year_refuses_what_is_no_year() {
    assert_eq!(parse_year(""), None);
    assert_eq!(parse_year("-"), None);
    assert_eq!(parse_year("-2024-01-01"), None);
    assert_eq!(parse_year("+"), None);
    assert_eq!(parse_year("+-1"), None);
    assert_eq!(parse_year("++1"), None);
    assert_eq!(parse_year("1+1"), None);
    assert_eq!(parse_year("20x4-01-01"), None);
    assert_eq!(parse_year(" 2024-01-01"), None);
    assert_eq!(parse_year("2024 -01-01"), None);
    assert_eq!(parse_year("None"), None);
    assert_eq!(parse_year("２０２４-01-01"), None);
    assert_eq!(parse_year("2147483648-01-01"), None);
    assert_eq!(parse_year("99999999999999999999999-01-01"), None);
}

#[test]
fn parse_year_agrees_with_the_standard_parser() {
    for text in [
        "2024-12-31", "", "-", "+", "+5", "+05-1", "007", "2147483647", "2147483648", "21474836470",
        "12a", "a12", "1 2", "+-3", "1-2-3", "٣-1", "0", "00000000000000000000001",
    ] {
        let expected = text.split('-').next().unwrap_or("").parse::<i32>().ok();
        assert_eq!(parse_year(text), expected, "for {:?}", text);
    }
}

#[test]
fn balance_sheet_routes_each_tag_to_its_field() {
    let mut stmt = BalanceSheet::default();
    assert_eq!(
        stmt.get_gaap_tags(),
        &[
            "LiabilitiesAndStockholdersEquity",
            "AssetsCurrent",
            "InventoryNet",
            "Liabilities",
            "LiabilitiesCurrent",
            "StockholdersEquity",
        ]
    );
    let tags: Vec<&'static str> = stmt.get_gaap_tags().to_vec();
    for (i, tag) in tags.iter().enumerate() {
        stmt.set_gaap_value(tag, i as i64 + 1);
    }
    assert_eq!(
        (
            stmt.total_assets,
            stmt.current_assets,
            stmt.inventory,
            stmt.total_liabilities,
            stmt.current_liabilities,
            stmt.total_equity
        ),
        (1, 2, 3, 4, 5, 6)
    );
    stmt.set_gaap_value("Assets", 100);
    stmt.set_gaap_value("", 100);
    assert_eq!((stmt.total_assets, stmt.total_equity), (1, 6));
    stmt.set_gaap_value("InventoryNet", i64::MIN);
    assert_eq!(stmt.inventory, i64::MIN);
}

#[test]
fn income_statement_routes_each_tag_to_its_field() {
    let mut stmt = IncomeStatement::default();
    assert_eq!(
        stmt.get_gaap_tags(),
        &[
            "Revenues",
            "CostOfRevenue",
            "GrossProfit",
            "OperatingExpenses",
            "NonoperatingIncomeExpense",
            "NetIncomeLoss",
        ]
    );
    let tags: Vec<&'static str> = stmt.get_gaap_tags().to_vec();
    for (i, tag) in tags.iter().enumerate() {
        stmt.set_gaap_value(tag, 10 * (i as i64 + 1));
    }
    assert_eq!(
        (
            stmt.total_revenue,
            stmt.cost_of_revenue,
            stmt.gross_profit,
            stmt.operating_expense,
            stmt.operating_income,
            stmt.net_income
        ),
        (10, 20, 30, 40, 50, 60)
    );
    stmt.set_gaap_value("revenues", 1);
    assert_eq!(stmt.total_revenue, 10);
}

#[test]
fn cash_flow_routes_each_tag_to_its_field() {
    let mut stmt = CashFlow::default();
    assert_eq!(
        stmt.get_gaap_tags(),
        &[
            "NetCashProvidedByUsedInOperatingActivities",
            "NetCashProvidedByUsedInInvestingActivities",
            "NetCashProvidedByUsedInFinancingActivities",
            "CashCashEquivalentsRestrictedCashAndRestrictedCashEquivalents",
        ]
    );
    let tags: Vec<&'static str> = stmt.get_gaap_tags().to_vec();
    for (i, tag) in tags.iter().enumerate() {
        stmt.set_gaap_value(tag, -(i as i64) - 1);
    }
    assert_eq!(
        (
            stmt.operating_cash_flow,
            stmt.investing_cash_flow,
            stmt.financing_cash_flow,
            stmt.end_cash_flow_position
        ),
        (-1, -2, -3, -4)
    );
}

#[test]
fn new_snapshots_are_blank() {
    let bs = BalanceSheet::blank();
    assert_eq!((bs.total_assets, bs.current_assets, bs.inventory), (0, 0, 0));
    assert_eq!((bs.total_liabilities, bs.current_liabilities, bs.total_equity), (0, 0, 0));
    assert_eq!(bs.financial_facts.form_report, FormReport::Quarly);
    let is = IncomeStatement::default();
    assert_eq!((is.total_revenue, is.net_income, is.operating_income), (0, 0, 0));
    let cf = CashFlow::default();
    assert_eq!((cf.operating_cash_flow, cf.end_cash_flow_position), (0, 0));
    assert_eq!(cf.financial_facts.fiscal_period, FiscalPeriod::Q1);
}

#[test]
fn get_metadata_gives_the_metadata_to_change() {
    let mut stmt = CashFlow::default();
    stmt.get_metadata().frame = String::from("CY2024");
    stmt.get_metadata().form_report = FormReport::Annually;
    assert_eq!(stmt.financial_facts.frame, "CY2024");
    assert_eq!(stmt.get_metadata().form_report, FormReport::Annually);
    assert_eq!(stmt.operating_cash_flow, 0);
}
