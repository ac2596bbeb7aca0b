use finstmt::sec::{
    add_cik_padding, company_facts_url, find_cik, sic_url, CompanyTickers, CompanyTickersExchange,
    SICResponse, COMPANY_FACTS_BASE_URL, COMPANY_TICKERS_SIMPLIFIED, SIC_BASE_URL,
    SUBMISSIONS_BASE_URL, TICKER_LOOKUP_URL,
};

fn company(cik: u32, ticker: Option<&str>) -> CompanyTickersExchange {
    CompanyTickersExchange {
        cik,
        name: None,
        ticker: ticker.map(String::from),
        exchange: Some(String::from("Nasdaq")),
    }
}

#[test]
fn cik_is_padded_to_ten_digits() {
    assert_eq!(add_cik_padding(0), "CIK0000000000");
    assert_eq!(add_cik_padding(7), "CIK0000000007");
    assert_eq!(add_cik_padding(1045810), "CIK0001045810");
    assert_eq!(add_cik_padding(320193), "CIK0000320193");
    assert_eq!(add_cik_padding(999999999), "CIK0999999999");
    assert_eq!(add_cik_padding(1000000000), "CIK1000000000");
    assert_eq!(add_cik_padding(u32::MAX), "CIK4294967295");
}

#[test]
fn cik_padding_agrees_with_formatting() {
    for cik in [0u32, 1, 9, 10, 99, 100, 12345, 1045810, 99999999, 1234567890, u32::MAX] {
        assert_eq!(add_cik_padding(cik), format!("CIK{:010}", cik));
    }
}

#[test]
fn find_cik_takes_the_first_company_with_the_ticker() {
    let companies = vec![
        company(1, Some("AAPL")),
        company(2, None),
        company(1045810, Some("NVDA")),
        company(4, Some("NVDA")),
    ];
    assert_eq!(find_cik(&companies, "NVDA"), Some(String::from("CIK0001045810")));
    assert_eq!(find_cik(&companies, "AAPL"), Some(String::from("CIK0000000001")));
    assert_eq!(find_cik(&companies, "nvda"), None);
    assert_eq!(find_cik(&companies, "MSFT"), None);
    assert_eq!(find_cik(&Vec::new(), "NVDA"), None);
}

#[test]
fn find_cik_of_no_ticker_meets_the_company_without_one() {
    let companies = vec![company(1, Some("AAPL")), company(2, None), company(3, Some(""))];
    assert_eq!(find_cik(&companies, ""), Some(String::from("CIK0000000002")));
}

#[test]
fn sic_url_carries_the_number_of_the_identifier() {
    assert_eq!(
        sic_url(&Some(String::from("CIK0001045810"))),
        "https://www.sec.gov/cgi-bin/browse-edgar?action=getcompany&output=atom&CIK=0001045810"
    );
    let bare = "https://www.sec.gov/cgi-bin/browse-edgar?action=getcompany&output=atom&CIK=";
    assert_eq!(sic_url(&None), bare);
    assert_eq!(sic_url(&Some(String::from("0001045810"))), bare);
    assert_eq!(sic_url(&Some(String::from("CI"))), bare);
    assert_eq!(sic_url(&Some(String::from("cik1"))), bare);
    assert_eq!(sic_url(&Some(String::from("CIK"))), bare);
    assert_eq!(sic_url(&Some(String::from("CIKé7"))), format!("{}é7", bare));
}

#[test]
fn company_facts_url_names_the_document() {
    assert_eq!(
        company_facts_url(&Some(String::from("CIK0001045810"))),
        "https://data.sec.gov/api/xbrl/companyfacts/CIK0001045810.json"
    );
    assert_eq!(company_facts_url(&None), "https://data.sec.gov/api/xbrl/companyfacts/.json");
}

#[test]
fn addresses_of_the_service() {
    assert_eq!(TICKER_LOOKUP_URL, "https://www.sec.gov/files/company_tickers_exchange.json");
    assert_eq!(COMPANY_TICKERS_SIMPLIFIED, "https://www.sec.gov/files/company_tickers.json");
    assert_eq!(SUBMISSIONS_BASE_URL, "https://data.sec.gov/submissions");
    assert_eq!(COMPANY_FACTS_BASE_URL, "https://data.sec.gov/api/xbrl/companyfacts");
    assert_eq!(
        SIC_BASE_URL,
        "https://www.sec.gov/cgi-bin/browse-edgar?action=getcompany&output=atom"
    );
}

#[test]
fn service_records_hold_their_fields() {
    let short = CompanyTickers { cik_str: 5, ticker: Some(String::from("X")), title: None };
    assert_eq!(short.cik_str, 5);
    assert_eq!(short.ticker.as_deref(), Some("X"));
    assert!(short.title.is_none());
    let sic = SICResponse { sic: String::from("3674"), sic_description: String::from("Semiconductors") };
    assert_eq!(sic.sic, "3674");
    assert_eq!(sic.sic_description, "Semiconductors");
}
