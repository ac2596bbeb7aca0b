//! The one way in which reading a document fails.

use crate::text::same_text;
use vstd::prelude::*;
use vstd::string::StringExecFns;

verus! {

/// A required part of the document is absent or has the wrong shape.
#[derive(Debug, Clone, PartialEq, Eq)]
pub enum ParseError {
    /// Names the part: `facts` for the taxonomy, a tag's name for a tag, `USD`
    /// for the list of values in that currency.
    MissingField(String),
}

/// The mathematical content of a [`ParseError`].
pub enum ParseErrorView {
    MissingField(Seq<char>),
}

impl View for ParseError {
    type V = ParseErrorView;

    open spec fn view(&self) -> ParseErrorView {
        match self {
            ParseError::MissingField(name) => ParseErrorView::MissingField(name@),
        }
    }
}

/// The error for a document without a taxonomy.
pub open spec fn missing_facts() -> ParseErrorView {
    ParseErrorView::MissingField("facts"@)
}

/// The error for a tag that the taxonomy does not hold.
pub open spec fn missing_tag(tag: Seq<char>) -> ParseErrorView {
    ParseErrorView::MissingField(tag)
}

/// The error for a tag without a list of values in the currency `currency`.
pub open spec fn missing_unit(currency: Seq<char>) -> ParseErrorView {
    ParseErrorView::MissingField(currency)
}

/// How the missing part `name` is called in a message: the taxonomy in
/// quotes, the currency as a unit, a tag by its name.
pub open spec fn described(name: Seq<char>) -> Seq<char> {
    if name == "facts"@ {
        "'facts'"@
    } else if name == "USD"@ {
        "USD unit"@
    } else {
        name
    }
}

/// The message of an error.
pub open spec fn message_of(e: ParseErrorView) -> Seq<char> {
    match e {
        ParseErrorView::MissingField(name) => "Parse error: could not find "@ + described(name),
    }
}

impl ParseError {
    /// The name of the missing part.
    pub fn field(&self) -> (r: &str)
        ensures
            self@ == ParseErrorView::MissingField(r@),
    {
        match self {
            ParseError::MissingField(name) => name.as_str(),
        }
    }

    /// The message of this error, such as
    /// `Parse error: could not find 'facts'`.
    pub fn to_string(&self) -> (r: String)
        ensures
            r@ == message_of(self@),
    {
        let name = self.field();
        let head = String::from_str("Parse error: could not find ");
        if same_text(name, "facts") {
            head.concat("'facts'")
        } else if same_text(name, "USD") {
            head.concat("USD unit")
        } else {
            head.concat(name)
        }
    }
}

} // verus!
