use chrono::Datelike;
use finstmt::balance_sheet::BalanceSheet;
use finstmt::cash_flow::CashFlow;
use finstmt::common::{FiscalPeriod, FormReport};
use finstmt::error::ParseError;
use finstmt::history::{locate, TagSeries};
use finstmt::income_statement::IncomeStatement;
use finstmt::record::FactRecord;
use finstmt::statement::FinancialStatement;
use finstmt::statement_history::StatementHistory;
use serde_json::Value;

const INCOME_TAGS: [&str; 6] = [
    "Revenues",
    "CostOfRevenue",
    "GrossProfit",
    "OperatingExpenses",
    "NonoperatingIncomeExpense",
    "NetIncomeLoss",
];

fn record(form: &str, end: &str, fy: i64, value: i64) -> FactRecord {
    FactRecord {
        start_date: String::from("s"),
        end_date: String::from(end),
        form: String::from(form),
        fiscal_period: String::from("FY"),
        fiscal_year: fy,
        value,
    }
}

fn series(tag: &str, records: Vec<FactRecord>) -> TagSeries {
    TagSeries { tag: String::from(tag), records }
}

fn record_json(form: &str, end: &str, fy: i64, value: Option<i64>) -> String {
    match value {
        Some(v) => format!(
            r#"{{"val": {v}, "form": "{form}", "fp": "FY", "fy": {fy}, "start": "s", "end": "{end}"}}"#
        ),
        None => format!(r#"{{"form": "{form}", "fp": "FY", "fy": {fy}, "start": "s", "end": "{end}"}}"#),
    }
}

/// An income-statement document: every tag is present, and the tags named in
/// `filled` hold the given records.
fn income_document(filled: &[(&str, Vec<String>)]) -> Value {
    let mut tags: Vec<String> = Vec::new();
    for tag in INCOME_TAGS.iter() {
        let mut list = String::new();
        for (name, records) in filled.iter() {
            if name == tag {
                list = records.join(", ");
            }
        }
        tags.push(format!(r#""{tag}": {{"units": {{"USD": [{list}]}}}}"#));
    }
    let text = format!(r#"{{"facts": {{"us-gaap": {{{}}}}}}}"#, tags.join(", "));
    serde_json::from_str(&text).unwrap()
}

fn end_dates(history: &[IncomeStatement]) -> Vec<String> {
    history.iter().map(|s| s.financial_facts.end_date.clone()).collect()
}

#[test]
fn two_annual_records_give_two_entries_oldest_first() {
    let doc = income_document(&[(
        "NetIncomeLoss",
        vec![
            record_json("10-K", "2023-12-31", 2022, Some(10)),
            record_json("10-K", "2024-12-31", 2023, Some(20)),
        ],
    )]);
    let mut stmt = IncomeStatement::default();
    let history = stmt.parse_history_at(&doc, 2024, 5).unwrap();
    assert_eq!(end_dates(&history), vec!["2023-12-31", "2024-12-31"]);
    assert_eq!(history[0].net_income, 10);
    assert_eq!(history[1].net_income, 20);
}

#[test]
fn quarterly_record_is_left_out() {
    let doc = income_document(&[(
        "NetIncomeLoss",
        vec![
            record_json("10-K", "2024-12-31", 2024, Some(20)),
            record_json("10-Q", "2025-03-31", 2025, Some(5)),
        ],
    )]);
    let mut stmt = IncomeStatement::default();
    let history = stmt.parse_history_at(&doc, 2025, 5).unwrap();
    assert_eq!(end_dates(&history), vec!["2024-12-31"]);
    assert_eq!(history[0].net_income, 20);
    assert_eq!(history[0].financial_facts.form_report, FormReport::Annually);
}

#[test]
fn two_tags_of_one_period_share_a_snapshot() {
    let doc = income_document(&[
        ("Revenues", vec![record_json("10-K", "2024-12-31", 2024, Some(900))]),
        ("NetIncomeLoss", vec![record_json("10-K", "2024-12-31", 2024, Some(70))]),
    ]);
    let mut stmt = IncomeStatement::default();
    let history = stmt.parse_history_at(&doc, 2025, 5).unwrap();
    assert_eq!(history.len(), 1);
    assert_eq!(history[0].financial_facts.end_date, "2024-12-31");
    assert_eq!(history[0].total_revenue, 900);
    assert_eq!(history[0].net_income, 70);
    assert_eq!(history[0].gross_profit, 0);
}

#[test]
fn absent_value_is_zero() {
    let doc = income_document(&[(
        "NetIncomeLoss",
        vec![record_json("10-K", "2024-12-31", 2024, None)],
    )]);
    let mut stmt = IncomeStatement::default();
    let history = stmt.parse_history_at(&doc, 2025, 5).unwrap();
    assert_eq!(history.len(), 1);
    assert_eq!(history[0].net_income, 0);

    let mut latest = IncomeStatement::default();
    latest.net_income = 99;
    assert_eq!(latest.parse_quarly_latest(&doc), Ok(()));
    assert_eq!(latest.net_income, 0);
}

#[test]
fn record_of_the_cutoff_year_is_left_out() {
    let facts = vec![series(
        "NetIncomeLoss",
        vec![
            record("10-K", "2019-12-31", 2019, 1),
            record("10-K", "2020-12-31", 2020, 2),
            record("10-K", "2021-12-31", 2021, 3),
        ],
    )];
    let history: Vec<IncomeStatement> = IncomeStatement::reconcile(&facts, 2020);
    assert_eq!(end_dates(&history), vec!["2021-12-31"]);
    let history: Vec<IncomeStatement> = IncomeStatement::reconcile(&facts, 2019);
    assert_eq!(end_dates(&history), vec!["2020-12-31", "2021-12-31"]);
    let history: Vec<IncomeStatement> = IncomeStatement::reconcile(&facts, 2021);
    assert!(history.is_empty());
}

#[test]
fn cutoff_is_current_year_minus_retention() {
    let doc = income_document(&[(
        "Revenues",
        vec![
            record_json("10-K", "2019-12-31", 2019, Some(1)),
            record_json("10-K", "2020-12-31", 2020, Some(2)),
            record_json("10-K", "2021-12-31", 2021, Some(3)),
        ],
    )]);
    let mut stmt = IncomeStatement::default();
    assert_eq!(end_dates(&stmt.parse_history_at(&doc, 2025, 5).unwrap()), vec!["2021-12-31"]);
    assert_eq!(
        end_dates(&stmt.parse_history_at(&doc, 2025, 6).unwrap()),
        vec!["2020-12-31", "2021-12-31"]
    );
    assert_eq!(end_dates(&stmt.parse_history_at(&doc, 2025, 0).unwrap()), Vec::<String>::new());
    assert_eq!(stmt.parse_history_at(&doc, 2019, 0).unwrap().len(), 2);
    assert_eq!(stmt.parse_history_at(&doc, i32::MIN, u32::MAX).unwrap().len(), 3);
    assert_eq!(stmt.parse_history_at(&doc, i32::MAX, 0).unwrap().len(), 0);
}

#[test]
fn reading_a_series_stops_at_the_first_annual_record_out_of_the_window() {
    // The record of 2024 stands before one of 2010 in the series: read from
    // the newest end, the record of 2010 ends the reading.
    let facts = vec![series(
        "Revenues",
        vec![
            record("10-K", "2024-12-31", 2024, 1),
            record("10-K", "2010-12-31", 2010, 2),
            record("10-K", "2023-12-31", 2023, 3),
        ],
    )];
    let history: Vec<IncomeStatement> = IncomeStatement::reconcile(&facts, 2019);
    assert_eq!(end_dates(&history), vec!["2023-12-31"]);
    assert_eq!(history[0].total_revenue, 3);
}

#[test]
fn records_that_are_not_annual_never_end_the_reading() {
    let facts = vec![series(
        "Revenues",
        vec![
            record("10-K", "2022-12-31", 2022, 1),
            record("10-Q", "2001-03-31", 2001, 2),
            record("8-K", "1999-12-31", 1999, 3),
            record("10-K", "2023-12-31", 2023, 4),
            record("10-Q", "2024-03-31", 2024, 5),
        ],
    )];
    let with_others: Vec<IncomeStatement> = IncomeStatement::reconcile(&facts, 2019);
    let annual_only = vec![series(
        "Revenues",
        vec![record("10-K", "2022-12-31", 2022, 1), record("10-K", "2023-12-31", 2023, 4)],
    )];
    let without: Vec<IncomeStatement> = IncomeStatement::reconcile(&annual_only, 2019);
    assert_eq!(end_dates(&with_others), vec!["2022-12-31", "2023-12-31"]);
    assert_eq!(end_dates(&with_others), end_dates(&without));
    assert_eq!(with_others[0].total_revenue, without[0].total_revenue);
    assert_eq!(with_others[1].total_revenue, without[1].total_revenue);
}

#[test]
fn record_without_a_year_is_passed_over() {
    let facts = vec![series(
        "Revenues",
        vec![
            record("10-K", "2022-12-31", 2022, 1),
            record("10-K", "", 2023, 2),
            record("10-K", "soon", 2023, 3),
            record("10-K", "-2023-12-31", 2023, 4),
            record("10-K", "99999999999-01-01", 2023, 5),
            record("10-K", "2024-12-31", 2024, 6),
        ],
    )];
    let history: Vec<IncomeStatement> = IncomeStatement::reconcile(&facts, 2019);
    assert_eq!(end_dates(&history), vec!["2022-12-31", "2024-12-31"]);
    assert_eq!(history[0].total_revenue, 1);
    assert_eq!(history[1].total_revenue, 6);
}

#[test]
fn the_last_record_applied_for_a_date_wins() {
    // Read from the newest end, the older record of the same date is applied
    // last and stays.
    let mut older = record("10-K", "2024-12-31", 2024, 1);
    older.start_date = String::from("older");
    let mut newer = record("10-K", "2024-12-31", 2024, 2);
    newer.start_date = String::from("newer");
    let facts = vec![series("Revenues", vec![older, newer])];
    let history: Vec<IncomeStatement> = IncomeStatement::reconcile(&facts, 2019);
    assert_eq!(history.len(), 1);
    assert_eq!(history[0].total_revenue, 1);
    assert_eq!(history[0].financial_facts.start_date, "older");
}

#[test]
fn metadata_comes_from_the_last_tag_applied() {
    let mut first = record("10-K", "2024-12-31", 2024, 1);
    first.start_date = String::from("2024-01-01");
    first.fiscal_period = String::from("FY");
    let mut second = record("10-K", "2024-12-31", 2024, 2);
    second.start_date = String::from("2024-02-01");
    second.fiscal_period = String::from("Q3");
    let facts = vec![series("Revenues", vec![first]), series("NetIncomeLoss", vec![second])];
    let history: Vec<IncomeStatement> = IncomeStatement::reconcile(&facts, 2019);
    assert_eq!(history.len(), 1);
    assert_eq!(history[0].total_revenue, 1);
    assert_eq!(history[0].net_income, 2);
    assert_eq!(history[0].financial_facts.start_date, "2024-02-01");
    assert_eq!(history[0].financial_facts.fiscal_period, FiscalPeriod::Q3);
    assert_eq!(history[0].financial_facts.form_report, FormReport::Annually);
    assert_eq!(history[0].financial_facts.accn, "");
    assert_eq!(history[0].financial_facts.filed_date, "");
    assert_eq!(history[0].financial_facts.frame, "");
}

#[test]
fn history_is_strictly_ascending_whatever_the_order_of_arrival() {
    let facts = vec![
        series(
            "Revenues",
            vec![
                record("10-K", "2021-06-30", 2021, 1),
                record("10-K", "2023-06-30", 2023, 2),
                record("10-K", "2022-06-30", 2022, 3),
            ],
        ),
        series(
            "NetIncomeLoss",
            vec![
                record("10-K", "2024-06-30", 2024, 4),
                record("10-K", "2020-06-30", 2020, 5),
                record("10-K", "2022-06-30", 2022, 6),
                record("10-K", "2021-06-30", 2021, 7),
            ],
        ),
    ];
    let history: Vec<IncomeStatement> = IncomeStatement::reconcile(&facts, 2000);
    let dates = end_dates(&history);
    assert_eq!(
        dates,
        vec!["2020-06-30", "2021-06-30", "2022-06-30", "2023-06-30", "2024-06-30"]
    );
    for pair in dates.windows(2) {
        assert!(pair[0] < pair[1]);
    }
    assert_eq!(history[1].total_revenue, 1);
    assert_eq!(history[1].net_income, 7);
    assert_eq!(history[2].total_revenue, 3);
    assert_eq!(history[2].net_income, 6);
    assert_eq!(history[4].total_revenue, 0);
    assert_eq!(history[4].net_income, 4);
}

#[test]
fn a_tag_without_a_field_adds_the_period_but_no_amount() {
    let facts = vec![series("Unknown", vec![record("10-K", "2024-12-31", 2024, 5)])];
    let history: Vec<BalanceSheet> = BalanceSheet::reconcile(&facts, 2019);
    assert_eq!(history.len(), 1);
    assert_eq!(history[0].financial_facts.end_date, "2024-12-31");
    assert_eq!(history[0].total_assets, 0);
    assert_eq!(history[0].total_equity, 0);
}

#[test]
fn no_facts_give_an_empty_history() {
    let history: Vec<CashFlow> = CashFlow::reconcile(&Vec::new(), 2019);
    assert!(history.is_empty());
    let history: Vec<CashFlow> = CashFlow::reconcile(&vec![series("X", Vec::new())], 2019);
    assert!(history.is_empty());
}

#[test]
fn history_fails_on_the_first_missing_tag() {
    let doc: Value = serde_json::from_str(
        r#"{"facts": {"us-gaap": {
            "Revenues": {"units": {"USD": []}},
            "GrossProfit": {"units": {"USD": []}}
        }}}"#,
    )
    .unwrap();
    let mut stmt = IncomeStatement::default();
    assert_eq!(
        stmt.parse_history_at(&doc, 2025, 5).unwrap_err(),
        ParseError::MissingField(String::from("CostOfRevenue"))
    );
    assert_eq!(
        stmt.parse_history(&doc).unwrap_err(),
        ParseError::MissingField(String::from("CostOfRevenue"))
    );
    let empty: Value = serde_json::from_str("{}").unwrap();
    assert_eq!(
        stmt.parse_history_at(&empty, 2025, 5).unwrap_err(),
        ParseError::MissingField(String::from("facts"))
    );
}

#[test]
fn history_fails_on_a_tag_without_usd() {
    let doc: Value = serde_json::from_str(
        r#"{"facts": {"us-gaap": {
            "Revenues": {"units": {"EUR": []}}
        }}}"#,
    )
    .unwrap();
    let mut stmt = IncomeStatement::default();
    assert_eq!(
        stmt.parse_history_at(&doc, 2025, 5).unwrap_err(),
        ParseError::MissingField(String::from("USD"))
    );
}

#[test]
fn parse_history_reaches_five_years_back_from_now() {
    let year = chrono::Utc::now().year() as i64;
    let doc = income_document(&[(
        "Revenues",
        vec![
            record_json("10-K", &format!("{}-12-31", year - 6), year - 6, Some(1)),
            record_json("10-K", &format!("{}-12-31", year - 5), year - 5, Some(2)),
            record_json("10-K", &format!("{}-12-31", year - 4), year - 4, Some(3)),
            record_json("10-K", &format!("{}-12-31", year), year, Some(4)),
        ],
    )]);
    let mut stmt = IncomeStatement::default();
    let history = stmt.parse_history(&doc).unwrap();
    assert_eq!(
        end_dates(&history),
        vec![format!("{}-12-31", year - 4), format!("{}-12-31", year)]
    );
    assert_eq!(IncomeStatement::MAX_HISTORY_YEARS, 5);
}

#[test]
fn statement_history_starts_empty_and_fills() {
    let mut history = StatementHistory::<IncomeStatement>::default();
    assert!(history.records.is_empty());
    let doc = income_document(&[(
        "NetIncomeLoss",
        vec![
            record_json("10-K", "2023-12-31", 2023, Some(10)),
            record_json("10-K", "2024-12-31", 2024, Some(20)),
        ],
    )]);
    assert_eq!(history.fill_history_at(&doc, 2025, 5), Ok(()));
    assert_eq!(end_dates(&history.records), vec!["2023-12-31", "2024-12-31"]);
    assert_eq!(history.fill_history_at(&doc, 2025, 1), Ok(()));
    assert_eq!(end_dates(&history.records), Vec::<String>::new());
}

#[test]
fn statement_history_keeps_its_records_on_failure() {
    let mut history = StatementHistory::<IncomeStatement>::default();
    let doc = income_document(&[(
        "NetIncomeLoss",
        vec![record_json("10-K", "2024-12-31", 2024, Some(20))],
    )]);
    history.fill_history_at(&doc, 2025, 5).unwrap();
    let broken: Value = serde_json::from_str(r#"{"facts": {"us-gaap": {}}}"#).unwrap();
    assert_eq!(
        history.fill_history_at(&broken, 2025, 5),
        Err(ParseError::MissingField(String::from("Revenues")))
    );
    assert_eq!(history.fill_history(&broken), Err(ParseError::MissingField(String::from("Revenues"))));
    assert_eq!(end_dates(&history.records), vec!["2024-12-31"]);
}

#[test]
fn upsert_fills_the_snapshot_of_the_date_or_adds_one_in_order() {
    let mut keys: Vec<String> = Vec::new();
    let mut snaps: Vec<IncomeStatement> = Vec::new();
    IncomeStatement::upsert(&mut keys, &mut snaps, &record("10-K", "2022-12-31", 2022, 1), "Revenues");
    IncomeStatement::upsert(&mut keys, &mut snaps, &record("10-K", "2024-12-31", 2024, 2), "Revenues");
    IncomeStatement::upsert(&mut keys, &mut snaps, &record("10-K", "2023-12-31", 2023, 3), "Revenues");
    IncomeStatement::upsert(&mut keys, &mut snaps, &record("10-K", "2021-12-31", 2021, 4), "Revenues");
    assert_eq!(keys, vec!["2021-12-31", "2022-12-31", "2023-12-31", "2024-12-31"]);
    assert_eq!(end_dates(&snaps), keys);
    let revenues: Vec<i64> = snaps.iter().map(|s| s.total_revenue).collect();
    assert_eq!(revenues, vec![4, 1, 3, 2]);

    IncomeStatement::upsert(&mut keys, &mut snaps, &record("10-Q", "2023-12-31", 2023, 9), "NetIncomeLoss");
    assert_eq!(keys.len(), 4);
    assert_eq!(snaps[2].total_revenue, 3);
    assert_eq!(snaps[2].net_income, 9);
    assert_eq!(snaps[2].financial_facts.form_report, FormReport::Quarly);
    assert_eq!(snaps[1].net_income, 0);
}

#[test]
fn locate_finds_the_place_of_a_date() {
    let keys: Vec<String> =
        ["2020-12-31", "2022-12-31", "2024-12-31"].iter().map(|s| String::from(*s)).collect();
    assert_eq!(locate(&keys, "2019-12-31"), (0, false));
    assert_eq!(locate(&keys, "2020-12-31"), (0, true));
    assert_eq!(locate(&keys, "2021-01-01"), (1, false));
    assert_eq!(locate(&keys, "2022-12-31"), (1, true));
    assert_eq!(locate(&keys, "2024-12-31"), (2, true));
    assert_eq!(locate(&keys, "2025-01-01"), (3, false));
    assert_eq!(locate(&Vec::new(), "2025-01-01"), (0, false));
}
