//! What the filings service is asked for: the identifiers of companies and
//! the addresses of their documents.

use crate::text::same_text;
use crate::year::{all_digits, digits_value, is_digit};
use vstd::prelude::*;
use vstd::string::{StrSliceExecFns, StringExecFns};

verus! {

/// One line of the service's list of tickers by exchange.
#[derive(Debug, Clone)]
pub struct CompanyTickersExchange {
    pub cik: u32,
    pub name: Option<String>,
    pub ticker: Option<String>,
    pub exchange: Option<String>,
}

/// One entry of the service's short list of tickers.
#[derive(Debug, Clone)]
pub struct CompanyTickers {
    pub cik_str: u32,
    pub ticker: Option<String>,
    pub title: Option<String>,
}

/// The industry code of a company and what it stands for.
#[derive(Debug, Clone)]
pub struct SICResponse {
    pub sic: String,
    pub sic_description: String,
}

/// The decimal digit `d` as a character.
pub open spec fn digit_char(d: int) -> char {
    seq!['0', '1', '2', '3', '4', '5', '6', '7', '8', '9'][d]
}

/// The last `width` decimal digits of `n`, with leading zeros.
pub open spec fn fixed_decimal(n: nat, width: nat) -> Seq<char>
    decreases width,
{
    if width == 0 {
        Seq::empty()
    } else {
        fixed_decimal(n / 10, (width - 1) as nat).push(digit_char((n % 10) as int))
    }
}

/// The identifier of the company with the index key `cik`: `CIK` and the key
/// in ten digits.
pub open spec fn cik_text(cik: u32) -> Seq<char> {
    "CIK"@ + fixed_decimal(cik as nat, 10)
}

/// Ten to the power `e`.
pub open spec fn pow10(e: nat) -> nat
    decreases e,
{
    if e == 0 {
        1
    } else {
        10 * pow10((e - 1) as nat)
    }
}

/// A number written in `width` digits is made of digits and reads back as
/// the number, as far as it fits in that many digits.
pub proof fn lemma_fixed_decimal_reads_back(n: nat, width: nat)
    ensures
        fixed_decimal(n, width).len() == width,
        all_digits(fixed_decimal(n, width)),
        digits_value(fixed_decimal(n, width)) == n % pow10(width),
    decreases width,
{
    if width > 0 {
        let shorter = fixed_decimal(n / 10, (width - 1) as nat);
        let whole = fixed_decimal(n, width);
        lemma_fixed_decimal_reads_back(n / 10, (width - 1) as nat);
        assert(whole.drop_last() =~= shorter);
        assert(is_digit(digit_char((n % 10) as int)));
        assert(whole.last() as int - '0' as int == n % 10);
        assert forall|j: int| 0 <= j < whole.len() implies is_digit(#[trigger] whole[j]) by {
            if j < width - 1 {
                assert(whole[j] == shorter[j]);
            }
        }
        let p = pow10((width - 1) as nat);
        lemma_pow10_positive((width - 1) as nat);
        vstd::arithmetic::div_mod::lemma_breakdown(n as int, 10, p as int);
    }
}

/// Powers of ten are positive.
pub proof fn lemma_pow10_positive(e: nat)
    ensures
        pow10(e) > 0,
    decreases e,
{
    if e > 0 {
        lemma_pow10_positive((e - 1) as nat);
    }
}

/// The text of one decimal digit.
fn digit_text(d: u32) -> (r: &'static str)
    requires
        d < 10,
    ensures
        r@ == seq![digit_char(d as int)],
{
    proof {
        reveal_strlit("0");
        reveal_strlit("1");
        reveal_strlit("2");
        reveal_strlit("3");
        reveal_strlit("4");
        reveal_strlit("5");
        reveal_strlit("6");
        reveal_strlit("7");
        reveal_strlit("8");
        reveal_strlit("9");
    }
    let r = if d == 0 {
        "0"
    } else if d == 1 {
        "1"
    } else if d == 2 {
        "2"
    } else if d == 3 {
        "3"
    } else if d == 4 {
        "4"
    } else if d == 5 {
        "5"
    } else if d == 6 {
        "6"
    } else if d == 7 {
        "7"
    } else if d == 8 {
        "8"
    } else {
        "9"
    };
    assert(r@ =~= seq![digit_char(d as int)]);
    r
}

/// Appends the last `width` decimal digits of `n`, with leading zeros.
fn push_decimal(out: &mut String, n: u32, width: u32)
    ensures
        final(out)@ == old(out)@ + fixed_decimal(n as nat, width as nat),
    decreases width,
{
    if width > 0 {
        push_decimal(out, n / 10, width - 1);
        out.append(digit_text(n % 10));
        proof {
            let shorter = fixed_decimal((n / 10) as nat, (width - 1) as nat);
            assert((old(out)@ + shorter) + seq![digit_char((n % 10) as int)] =~= old(out)@
                + fixed_decimal(n as nat, width as nat));
        }
    } else {
        proof {
            assert(old(out)@ + Seq::<char>::empty() =~= old(out)@);
        }
    }
}

/// Writes the identifier of the company with the index key `cik`: `CIK`, then
/// the key with as many leading zeros as make ten digits.
pub fn add_cik_padding(cik: u32) -> (r: String)
    ensures
        r@ == cik_text(cik),
{
    let mut out = String::from_str("CIK");
    push_decimal(&mut out, cik, 10);
    out
}

/// The ticker of a listed company; empty where the list gives none.
pub open spec fn ticker_of(company: CompanyTickersExchange) -> Seq<char> {
    match company.ticker {
        Some(t) => t@,
        None => Seq::empty(),
    }
}

/// Finds the identifier of the first company in `companies` whose ticker is
/// `ticker`.
pub fn find_cik(companies: &Vec<CompanyTickersExchange>, ticker: &str) -> (r: Option<String>)
    ensures
        match r {
            Some(id) => exists|i: int|
                0 <= i < companies.len() && ticker_of(#[trigger] companies[i]) == ticker@
                    && id@ == cik_text(companies[i].cik) && forall|j: int|
                    0 <= j < i ==> ticker_of(#[trigger] companies[j]) != ticker@,
            None => forall|j: int|
                0 <= j < companies.len() ==> ticker_of(#[trigger] companies[j]) != ticker@,
        },
{
    let mut i: usize = 0;
    while i < companies.len()
        invariant
            i <= companies.len(),
            forall|j: int| 0 <= j < i ==> ticker_of(#[trigger] companies[j]) != ticker@,
        decreases companies.len() - i,
    {
        let found = match &companies[i].ticker {
            Some(t) => same_text(t.as_str(), ticker),
            None => same_text("", ticker),
        };
        if found {
            proof {
                reveal_strlit("");
                assert(""@ =~= Seq::<char>::empty());
            }
            return Some(add_cik_padding(companies[i].cik));
        }
        proof {
            reveal_strlit("");
            assert(""@ =~= Seq::<char>::empty());
        }
        i += 1;
    }
    None
}

/// Where the list of tickers by exchange is found.
pub const TICKER_LOOKUP_URL: &'static str =
    "https://www.sec.gov/files/company_tickers_exchange.json";

/// Where the short list of tickers is found.
pub const COMPANY_TICKERS_SIMPLIFIED: &'static str =
    "https://www.sec.gov/files/company_tickers.json";

/// Under which address the submissions of a company are found.
pub const SUBMISSIONS_BASE_URL: &'static str = "https://data.sec.gov/submissions";

/// Under which address the facts of a company are found.
pub const COMPANY_FACTS_BASE_URL: &'static str = "https://data.sec.gov/api/xbrl/companyfacts";

/// Where a company's industry code is asked for.
pub const SIC_BASE_URL: &'static str =
    "https://www.sec.gov/cgi-bin/browse-edgar?action=getcompany&output=atom";

/// The identifier `id` without its leading `CIK`; empty when it does not
/// begin with `CIK`.
pub open spec fn cik_number(id: Seq<char>) -> Seq<char> {
    if id.len() >= 3 && id.take(3) == "CIK"@ {
        id.skip(3)
    } else {
        Seq::empty()
    }
}

/// The identifier that is sent where the company was not found: none.
pub open spec fn id_or_empty(id: Option<String>) -> Seq<char> {
    match id {
        Some(s) => s@,
        None => Seq::empty(),
    }
}

/// The address that answers with the industry code of the company `id`.
pub fn sic_url(id: &Option<String>) -> (r: String)
    ensures
        r@ == SIC_BASE_URL@ + "&CIK="@ + cik_number(id_or_empty(*id)),
{
    let head = String::from_str(SIC_BASE_URL).concat("&CIK=");
    proof {
        reveal_strlit("CIK");
    }
    match id {
        Some(s) => {
            let text = s.as_str();
            let n = text.unicode_len();
            if n >= 3 && text.get_char(0) == 'C' && text.get_char(1) == 'I' && text.get_char(2)
                == 'K' {
                proof {
                    assert(text@.take(3) =~= "CIK"@);
                    assert(text@.subrange(3, n as int) =~= text@.skip(3));
                }
                head.concat(text.substring_char(3, n))
            } else {
                proof {
                    if text@.len() >= 3 && text@.take(3) == "CIK"@ {
                        assert(text@.take(3)[0] == 'C');
                        assert(text@.take(3)[1] == 'I');
                        assert(text@.take(3)[2] == 'K');
                    }
                    assert(head@ + Seq::<char>::empty() =~= head@);
                }
                head
            }
        },
        None => {
            proof {
                assert(head@ + Seq::<char>::empty() =~= head@);
            }
            head
        },
    }
}

/// The address of the facts of the company `id`.
pub fn company_facts_url(id: &Option<String>) -> (r: String)
    ensures
        r@ == COMPANY_FACTS_BASE_URL@ + "/"@ + id_or_empty(*id) + ".json"@,
{
    let head = String::from_str(COMPANY_FACTS_BASE_URL).concat("/");
    match id {
        Some(s) => head.concat(s.as_str()).concat(".json"),
        None => {
            proof {
                assert(head@ + Seq::<char>::empty() =~= head@);
            }
            head.concat(".json")
        },
    }
}

} // verus!
