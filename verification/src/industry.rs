//! Companies by industry.
//!
//! The filings service answers a question about a company with an XML
//! document that holds the company's industry code in an `assigned-sic`
//! element. This module finds the code in such a document and keeps the
//! companies of each industry together.

use crate::xml::{
    classify, error_message, events_of, next_event, pending_of, trimming_reader, unescaped_text,
    Given, Reading, XmlEvent,
};
use vstd::prelude::*;

verus! {

/// Why no industry code could be read from a document.
#[derive(Debug, Clone, PartialEq, Eq)]
pub enum SicError {
    /// The document is not well formed; holds the reader's message.
    Xml(String),
}

/// The mathematical content of a [`SicError`].
pub enum SicErrorView {
    Xml(Seq<char>),
}

impl View for SicError {
    type V = SicErrorView;

    open spec fn view(&self) -> SicErrorView {
        match self {
            SicError::Xml(message) => SicErrorView::Xml(message@),
        }
    }
}

/// The name of the element that holds the industry code.
pub open spec fn sic_tag() -> Seq<u8> {
    seq![97u8, 115, 115, 105, 103, 110, 101, 100, 45, 115, 105, 99]
}

/// Whether `name` is `assigned-sic`.
pub fn is_sic_tag(name: &Vec<u8>) -> (r: bool)
    ensures
        r == (name@ == sic_tag()),
{
    let tag: [u8; 12] = [97, 115, 115, 105, 103, 110, 101, 100, 45, 115, 105, 99];
    if name.len() != 12 {
        return false;
    }
    let mut i: usize = 0;
    while i < 12
        invariant
            i <= 12,
            name.len() == 12,
            tag@ == sic_tag(),
            forall|j: int| 0 <= j < i ==> name@[j] == sic_tag()[j],
        decreases 12 - i,
    {
        if name[i] != tag[i] {
            return false;
        }
        i += 1;
    }
    assert(name@ =~= sic_tag());
    true
}

/// What of a document has been seen so far while looking for the industry
/// code.
#[derive(Debug, Clone, PartialEq, Eq)]
pub struct SicScan {
    /// Whether the reader stands inside an `assigned-sic` element.
    pub inside: bool,
    /// The last text met inside such an element.
    pub sic: Option<String>,
}

/// The mathematical content of a [`SicScan`].
pub struct SicScanView {
    pub inside: bool,
    pub sic: Option<Seq<char>>,
}

/// One event of a document, as far as the industry code depends on it.
pub enum SicEvent {
    Start(Seq<u8>),
    End(Seq<u8>),
    Text(Seq<char>),
    Other,
}

impl SicScanView {
    /// The scan after one more event: an opening `assigned-sic` tag enters
    /// the element, a closing one leaves it, and a text inside the element
    /// becomes the code.
    pub open spec fn step(self, event: SicEvent) -> SicScanView {
        match event {
            SicEvent::Start(name) => if name == sic_tag() {
                SicScanView { inside: true, sic: self.sic }
            } else {
                self
            },
            SicEvent::End(name) => if name == sic_tag() {
                SicScanView { inside: false, sic: self.sic }
            } else {
                self
            },
            SicEvent::Text(text) => if self.inside {
                SicScanView { inside: self.inside, sic: Some(text) }
            } else {
                self
            },
            SicEvent::Other => self,
        }
    }
}

impl View for SicScan {
    type V = SicScanView;

    open spec fn view(&self) -> SicScanView {
        SicScanView {
            inside: self.inside,
            sic: match self.sic {
                Some(s) => Some(s@),
                None => None,
            },
        }
    }
}

impl SicScan {
    /// The scan of a document of which nothing has been read.
    pub fn new() -> (r: Self)
        ensures
            r@ == (SicScanView { inside: false, sic: None }),
    {
        SicScan { inside: false, sic: None }
    }

    /// Takes note of an opening tag.
    pub fn open(&mut self, name: &Vec<u8>)
        ensures
            final(self)@ == old(self)@.step(SicEvent::Start(name@)),
    {
        if is_sic_tag(name) {
            self.inside = true;
        }
    }

    /// Takes note of a closing tag.
    pub fn close(&mut self, name: &Vec<u8>)
        ensures
            final(self)@ == old(self)@.step(SicEvent::End(name@)),
    {
        if is_sic_tag(name) {
            self.inside = false;
        }
    }

    /// Takes note of a text.
    pub fn text(&mut self, text: String)
        ensures
            final(self)@ == old(self)@.step(SicEvent::Text(text@)),
    {
        if self.inside {
            self.sic = Some(text);
        }
    }
}

/// What looking for the industry code ends with, once the scan `scan` of
/// what came before is followed through the readings `given`: the code that
/// the scan holds at the end of the document, or the first error met. A text
/// outside an `assigned-sic` element is not looked at, so an error in it is
/// not met.
pub open spec fn scan_outcome(scan: SicScanView, given: Seq<Given>) -> Result<
    Option<Seq<char>>,
    SicErrorView,
>
    decreases given.len(),
{
    if given.len() == 0 {
        Ok(scan.sic)
    } else {
        let rest = given.skip(1);
        match given[0] {
            Given::Failure(message) => Err(SicErrorView::Xml(message)),
            Given::Event(Reading::Start(name)) => scan_outcome(
                scan.step(SicEvent::Start(name)),
                rest,
            ),
            Given::Event(Reading::End(name)) => scan_outcome(scan.step(SicEvent::End(name)), rest),
            Given::Event(Reading::Text(text)) => if scan.inside {
                match text {
                    Ok(code) => scan_outcome(scan.step(SicEvent::Text(code)), rest),
                    Err(message) => Err(SicErrorView::Xml(message)),
                }
            } else {
                scan_outcome(scan, rest)
            },
            Given::Event(Reading::Eof) => Ok(scan.sic),
            Given::Event(Reading::Other) => scan_outcome(scan, rest),
        }
    }
}

/// The industry code of the document `xml`: the last text inside an
/// `assigned-sic` element, or the first error met on the way to the end of
/// the document.
pub open spec fn sic_of(xml: Seq<char>) -> Result<Option<Seq<char>>, SicErrorView> {
    scan_outcome(SicScanView { inside: false, sic: None }, events_of(xml))
}

/// The contents of what looking for the industry code returned.
pub open spec fn sic_result_view(r: Result<Option<String>, SicError>) -> Result<
    Option<Seq<char>>,
    SicErrorView,
> {
    match r {
        Ok(Some(code)) => Ok(Some(code@)),
        Ok(None) => Ok(None),
        Err(e) => Err(e@),
    }
}

/// Finds the industry code in the document `xml`: the last text inside an
/// `assigned-sic` element, with the white space off its ends. `None` when
/// the document holds no such text.
pub fn extract_sic(xml: &str) -> (r: Result<Option<String>, SicError>)
    ensures
        sic_result_view(r) == sic_of(xml@),
{
    let mut reader = trimming_reader(xml);
    let mut buf: Vec<u8> = Vec::new();
    let mut scan = SicScan::new();
    loop
        invariant
            sic_of(xml@) == scan_outcome(scan@, pending_of(reader)),
        decreases pending_of(reader).len(),
    {
        let event = match next_event(&mut reader, &mut buf) {
            Ok(event) => event,
            Err(error) => {
                return Err(SicError::Xml(error_message(&error)));
            },
        };
        match classify(&event) {
            XmlEvent::Start(name) => {
                scan.open(&name);
            },
            XmlEvent::End(name) => {
                scan.close(&name);
            },
            XmlEvent::Text => {
                if scan.inside {
                    match unescaped_text(&event) {
                        Some(Ok(text)) => {
                            scan.text(text);
                        },
                        Some(Err(error)) => {
                            return Err(SicError::Xml(error_message(&error)));
                        },
                        None => {},
                    }
                }
            },
            XmlEvent::Eof => {
                return Ok(scan.sic);
            },
            XmlEvent::Other => {},
        }
        buf.clear();
    }
}

/// The companies of one industry.
#[derive(Debug, Clone, PartialEq, Eq)]
pub struct IndustryGroup {
    /// The industry code.
    pub sic: String,
    /// The index keys of the companies, in the order in which they came.
    pub ciks: Vec<u32>,
}

/// The companies of each industry.
#[derive(Debug, Clone, PartialEq, Eq)]
pub struct Processor {
    /// One group for each industry code, in the order in which the codes
    /// first came.
    pub company_industry_mapping: Vec<IndustryGroup>,
}

/// The place of the first of the first `n` groups with the code `sic`, if
/// there is one.
pub open spec fn group_of(groups: Seq<IndustryGroup>, sic: Seq<char>, n: nat) -> Option<int>
    decreases n,
{
    if n == 0 {
        None
    } else {
        match group_of(groups, sic, (n - 1) as nat) {
            Some(i) => Some(i),
            None => if groups[n - 1].sic@ == sic {
                Some(n - 1)
            } else {
                None
            },
        }
    }
}

/// `group_of` finds a group with the code, the first one, or there is none.
pub proof fn lemma_group_of(groups: Seq<IndustryGroup>, sic: Seq<char>, n: nat)
    requires
        n <= groups.len(),
    ensures
        match group_of(groups, sic, n) {
            Some(i) => 0 <= i < n && groups[i].sic@ == sic && forall|j: int|
                0 <= j < i ==> (#[trigger] groups[j]).sic@ != sic,
            None => forall|j: int| 0 <= j < n ==> (#[trigger] groups[j]).sic@ != sic,
        },
    decreases n,
{
    if n > 0 {
        lemma_group_of(groups, sic, (n - 1) as nat);
    }
}

/// The companies by industry after the company `cik` joined the industry
/// `sic`, behind the companies that the industry had.
pub open spec fn with_company(
    industries: Map<Seq<char>, Seq<u32>>,
    sic: Seq<char>,
    cik: u32,
) -> Map<Seq<char>, Seq<u32>> {
    industries.insert(
        sic,
        if industries.dom().contains(sic) {
            industries[sic].push(cik)
        } else {
            seq![cik]
        },
    )
}

/// The companies by industry after the answer `answer` about the company
/// `cik` was taken note of.
pub open spec fn noted(
    industries: Map<Seq<char>, Seq<u32>>,
    cik: u32,
    answer: Result<Option<Seq<char>>, SicErrorView>,
) -> Map<Seq<char>, Seq<u32>> {
    match answer {
        Ok(Some(sic)) => with_company(industries, sic, cik),
        _ => industries,
    }
}

impl View for Processor {
    type V = Map<Seq<char>, Seq<u32>>;

    /// The companies under each industry code that has a group.
    open spec fn view(&self) -> Map<Seq<char>, Seq<u32>> {
        let groups = self.company_industry_mapping@;
        Map::new(
            |sic: Seq<char>| group_of(groups, sic, groups.len()) is Some,
            |sic: Seq<char>| groups[group_of(groups, sic, groups.len())->0].ciks@,
        )
    }
}

impl Processor {
    /// How many companies are asked about at the same time.
    pub const MAX_CONCURRENT_REQUESTS: usize = 8;

    /// A processor that knows no company.
    pub fn new() -> (r: Self)
        ensures
            r@ == Map::<Seq<char>, Seq<u32>>::empty(),
    {
        let r = Processor { company_industry_mapping: Vec::new() };
        assert(r@ =~= Map::<Seq<char>, Seq<u32>>::empty());
        r
    }

    /// The companies of the industry `sic`, if any is known.
    pub fn companies_of(&self, sic: &str) -> (r: Option<&Vec<u32>>)
        ensures
            match r {
                Some(ciks) => self@.dom().contains(sic@) && self@[sic@] == ciks@,
                None => !self@.dom().contains(sic@),
            },
    {
        match self.find(sic) {
            Some(i) => Some(&self.company_industry_mapping[i].ciks),
            None => None,
        }
    }

    /// The place of the first group with the code `sic`.
    fn find(&self, sic: &str) -> (r: Option<usize>)
        ensures
            match r {
                Some(i) => group_of(
                    self.company_industry_mapping@,
                    sic@,
                    self.company_industry_mapping@.len(),
                ) == Some(i as int) && i < self.company_industry_mapping.len(),
                None => group_of(
                    self.company_industry_mapping@,
                    sic@,
                    self.company_industry_mapping@.len(),
                ) is None,
            },
    {
        let mut i: usize = 0;
        while i < self.company_industry_mapping.len()
            invariant
                i <= self.company_industry_mapping.len(),
                group_of(self.company_industry_mapping@, sic@, i as nat) is None,
            decreases self.company_industry_mapping.len() - i,
        {
            if crate::text::same_text(self.company_industry_mapping[i].sic.as_str(), sic) {
                proof {
                    lemma_group_of_stays(
                        self.company_industry_mapping@,
                        sic@,
                        (i + 1) as nat,
                        self.company_industry_mapping@.len(),
                    );
                }
                return Some(i);
            }
            i += 1;
        }
        None
    }

    /// Adds the company `cik` to the industry `sic`, after the companies that
    /// the industry has already.
    pub fn add_company(&mut self, sic: String, cik: u32)
        ensures
            final(self)@ == with_company(old(self)@, sic@, cik),
    {
        let ghost before = self.company_industry_mapping@;
        match self.find(sic.as_str()) {
            Some(i) => {
                self.company_industry_mapping[i].ciks.push(cik);
                proof {
                    let after = self.company_industry_mapping@;
                    assert forall|s: Seq<char>|
                        group_of(after, s, after.len()) == group_of(
                            before,
                            s,
                            before.len(),
                        ) by {
                        assert forall|j: int| 0 <= j < before.len() implies (
                        #[trigger] before[j]).sic@ == after[j].sic@ by {
                            if j != i {
                                assert(after[j] == before[j]);
                            }
                        }
                        lemma_group_of_same_codes(before, after, s, before.len());
                    }
                    lemma_group_of(before, sic@, before.len());
                    assert(after.len() == before.len());
                    assert(after[i as int].sic == before[i as int].sic);
                    assert(after[i as int].ciks@ == before[i as int].ciks@.push(cik));
                    assert forall|s: Seq<char>| #[trigger]
                        self@.dom().contains(s) && s != sic@ implies self@[s] == old(self)@[s] by {
                        lemma_group_of(before, s, before.len());
                        let j = group_of(before, s, before.len())->0;
                        assert(j != i);
                        assert(after[j] == before[j]);
                    }
                    assert(self@ =~= old(self)@.insert(sic@, old(self)@[sic@].push(cik)));
                }
            },
            None => {
                let mut ciks: Vec<u32> = Vec::new();
                ciks.push(cik);
                let ghost code = sic@;
                self.company_industry_mapping.push(IndustryGroup { sic, ciks });
                proof {
                    let after = self.company_industry_mapping@;
                    assert forall|s: Seq<char>|
                        group_of(after, s, after.len()) == (if s == code {
                            Some(before.len() as int)
                        } else {
                            group_of(before, s, before.len())
                        }) by {
                        lemma_group_of_same_codes(before, after, s, before.len());
                        lemma_group_of(before, s, before.len());
                    }
                    assert(after =~= before.push(after[before.len() as int]));
                    assert(after[before.len() as int].ciks@ =~= seq![cik]);
                    assert forall|s: Seq<char>| #[trigger]
                        self@.dom().contains(s) && s != code implies self@[s] == old(self)@[s] by {
                        lemma_group_of(before, s, before.len());
                        let j = group_of(before, s, before.len())->0;
                        assert(after[j] == before[j]);
                    }
                    assert(self@ =~= old(self)@.insert(code, seq![cik]));
                }
            },
        }
    }

    /// Takes note of what was read from the service's answer about the
    /// company `cik`: where a code was read, the company joins the industry
    /// of that code. An answer that could not be read, or that holds no code,
    /// changes nothing.
    pub fn note_answer(&mut self, cik: u32, answer: Result<Option<String>, SicError>) -> (added:
        bool)
        ensures
            final(self)@ == noted(old(self)@, cik, sic_result_view(answer)),
            added == (sic_result_view(answer) matches Ok(Some(_))),
    {
        match answer {
            Ok(Some(sic)) => {
                self.add_company(sic, cik);
                true
            },
            _ => false,
        }
    }

    /// Takes note of what the service answered about the company `cik`: the
    /// company joins the industry whose code the document `xml` holds. A
    /// document that cannot be read, or that holds no code, changes nothing.
    pub fn note_company(&mut self, cik: u32, xml: &str) -> (added: bool)
        ensures
            final(self)@ == noted(old(self)@, cik, sic_of(xml@)),
            added == (sic_of(xml@) matches Ok(Some(_))),
    {
        self.note_answer(cik, extract_sic(xml))
    }
}

/// A group that was found among the first groups is found among more.
pub proof fn lemma_group_of_stays(groups: Seq<IndustryGroup>, sic: Seq<char>, n: nat, more: nat)
    requires
        n <= more,
        group_of(groups, sic, n) is Some,
    ensures
        group_of(groups, sic, more) == group_of(groups, sic, n),
    decreases more,
{
    if n < more {
        lemma_group_of_stays(groups, sic, n, (more - 1) as nat);
    }
}

/// Lists whose first groups have the same codes find the same group.
pub proof fn lemma_group_of_same_codes(
    first: Seq<IndustryGroup>,
    second: Seq<IndustryGroup>,
    sic: Seq<char>,
    n: nat,
)
    requires
        n <= first.len(),
        n <= second.len(),
        forall|j: int| 0 <= j < n ==> (#[trigger] first[j]).sic@ == second[j].sic@,
    ensures
        group_of(first, sic, n) == group_of(second, sic, n),
    decreases n,
{
    if n > 0 {
        lemma_group_of_same_codes(first, second, sic, (n - 1) as nat);
        assert(first[n - 1].sic@ == second[n - 1].sic@);
    }
}

} // verus!
