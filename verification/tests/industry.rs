use finstmt::industry::{extract_sic, is_sic_tag, Processor, SicError, SicScan};

const ANSWER: &str = r#"<?xml version="1.0" encoding="ISO-8859-1" ?>
<feed xmlns="http://www.w3.org/2005/Atom">
  <company-info>
    <assigned-sic>3674</assigned-sic>
    <assigned-sic-desc>SEMICONDUCTORS &amp; RELATED DEVICES</assigned-sic-desc>
    <cik>0001045810</cik>
  </company-info>
</feed>"#;

#[test]
fn sic_is_the_text_of_the_assigned_sic_element() {
    assert_eq!(extract_sic(ANSWER), Ok(Some(String::from("3674"))));
}

#[test]
fn sic_is_absent_where_the_document_has_no_such_element() {
    assert_eq!(extract_sic("<feed><cik>1</cik></feed>"), Ok(None));
    assert_eq!(extract_sic(""), Ok(None));
    assert_eq!(extract_sic("<assigned-sic></assigned-sic>"), Ok(None));
    assert_eq!(extract_sic("<assigned-sic/>"), Ok(None));
    assert_eq!(extract_sic("<assigned-sic>  </assigned-sic>"), Ok(None));
    assert_eq!(extract_sic("3674"), Ok(None));
}

#[test]
fn sic_is_trimmed_and_unescaped() {
    assert_eq!(
        extract_sic("<a><assigned-sic>\n  36 74\t</assigned-sic></a>"),
        Ok(Some(String::from("36 74")))
    );
    assert_eq!(
        extract_sic("<assigned-sic>A&amp;B &lt;1&gt;</assigned-sic>"),
        Ok(Some(String::from("A&B <1>")))
    );
}

#[test]
fn the_last_text_inside_the_element_wins() {
    assert_eq!(
        extract_sic("<r><assigned-sic>1</assigned-sic><assigned-sic>2</assigned-sic></r>"),
        Ok(Some(String::from("2")))
    );
    assert_eq!(
        extract_sic("<assigned-sic>1<b>2</b>3</assigned-sic>"),
        Ok(Some(String::from("3")))
    );
    // Text after the element is closed does not count.
    assert_eq!(
        extract_sic("<r><assigned-sic>1</assigned-sic>2</r>"),
        Ok(Some(String::from("1")))
    );
    // A longer name is another element.
    assert_eq!(extract_sic("<assigned-sic-desc>x</assigned-sic-desc>"), Ok(None));
}

#[test]
fn a_broken_document_is_an_error() {
    assert!(matches!(extract_sic("<a></b>"), Err(SicError::Xml(_))));
    assert!(matches!(
        extract_sic("<assigned-sic>&unknown;</assigned-sic>"),
        Err(SicError::Xml(_))
    ));
    // A bad reference outside the element is never looked at.
    assert_eq!(
        extract_sic("<r><b>&unknown;</b><assigned-sic>7</assigned-sic></r>"),
        Ok(Some(String::from("7")))
    );
    match extract_sic("<a></b>") {
        Err(SicError::Xml(message)) => assert!(!message.is_empty()),
        other => panic!("unexpected: {:?}", other),
    }
}

#[test]
fn long_documents_are_read_to_their_end() {
    let mut xml = String::from("<r>");
    for i in 0..2000 {
        xml.push_str(&format!("<a>{}</a>", i));
    }
    xml.push_str("<assigned-sic>42</assigned-sic></r>");
    assert_eq!(extract_sic(&xml), Ok(Some(String::from("42"))));
    // Every byte an event of its own, as near as a document comes to it.
    let dense = "<a>".repeat(500) + &"</a>".repeat(500);
    assert_eq!(extract_sic(&dense), Ok(None));
}

#[test]
fn is_sic_tag_knows_the_name() {
    assert!(is_sic_tag(&b"assigned-sic".to_vec()));
    assert!(!is_sic_tag(&b"assigned-sic-desc".to_vec()));
    assert!(!is_sic_tag(&b"assigned-siC".to_vec()));
    assert!(!is_sic_tag(&b"Assigned-sic".to_vec()));
    assert!(!is_sic_tag(&b"assigned_sic".to_vec()));
    assert!(!is_sic_tag(&Vec::new()));
}

#[test]
fn scan_follows_the_events() {
    let mut scan = SicScan::new();
    assert_eq!(scan, SicScan { inside: false, sic: None });
    scan.text(String::from("before"));
    assert_eq!(scan.sic, None);
    scan.open(&b"feed".to_vec());
    assert!(!scan.inside);
    scan.open(&b"assigned-sic".to_vec());
    assert!(scan.inside);
    scan.text(String::from("3674"));
    assert_eq!(scan.sic.as_deref(), Some("3674"));
    scan.close(&b"other".to_vec());
    assert!(scan.inside);
    scan.close(&b"assigned-sic".to_vec());
    assert!(!scan.inside);
    scan.text(String::from("after"));
    assert_eq!(scan.sic.as_deref(), Some("3674"));
}

#[test]
fn processor_keeps_the_companies_of_each_industry_together() {
    let mut processor = Processor::new();
    assert!(processor.company_industry_mapping.is_empty());
    assert_eq!(processor.companies_of("3674"), None);
    processor.add_company(String::from("3674"), 1);
    processor.add_company(String::from("7372"), 2);
    processor.add_company(String::from("3674"), 3);
    processor.add_company(String::from("3674"), 1);
    assert_eq!(processor.companies_of("3674"), Some(&vec![1, 3, 1]));
    assert_eq!(processor.companies_of("7372"), Some(&vec![2]));
    assert_eq!(processor.companies_of("0000"), None);
    assert_eq!(processor.company_industry_mapping.len(), 2);
    assert_eq!(processor.company_industry_mapping[0].sic, "3674");
    assert_eq!(processor.company_industry_mapping[1].sic, "7372");
    assert_eq!(Processor::MAX_CONCURRENT_REQUESTS, 8);
}

#[test]
fn note_answer_adds_the_company_to_the_industry_that_was_read() {
    let mut processor = Processor::new();
    assert!(!processor.note_answer(1, Ok(None)));
    assert!(!processor.note_answer(2, Err(SicError::Xml(String::from("broken")))));
    assert!(processor.company_industry_mapping.is_empty());
    assert!(processor.note_answer(3, Ok(Some(String::from("3674")))));
    assert!(processor.note_answer(4, Ok(Some(String::from("7372")))));
    assert!(processor.note_answer(5, Ok(Some(String::from("3674")))));
    assert!(!processor.note_answer(6, Ok(None)));
    assert_eq!(processor.companies_of("3674"), Some(&vec![3, 5]));
    assert_eq!(processor.companies_of("7372"), Some(&vec![4]));
    assert_eq!(processor.company_industry_mapping.len(), 2);
}

#[test]
fn an_error_is_the_first_one_met() {
    // The bad reference inside the element stands before the bad closing tag.
    match extract_sic("<assigned-sic>&unknown;</assigned-sic></b>") {
        Err(SicError::Xml(message)) => assert!(message.contains("unknown")),
        other => panic!("unexpected: {:?}", other),
    }
    // Nothing after the end of a broken document is read.
    assert!(matches!(
        extract_sic("<a></b><assigned-sic>7</assigned-sic>"),
        Err(SicError::Xml(_))
    ));
}

#[test]
fn note_company_adds_only_where_a_code_was_read() {
    let mut processor = Processor::new();
    assert!(processor.note_company(1045810, ANSWER));
    assert!(!processor.note_company(5, "<feed></feed>"));
    assert!(!processor.note_company(6, "<a></b>"));
    assert!(processor.note_company(7, "<assigned-sic>3674</assigned-sic>"));
    assert_eq!(processor.companies_of("3674"), Some(&vec![1045810, 7]));
    assert_eq!(processor.company_industry_mapping.len(), 1);
}
