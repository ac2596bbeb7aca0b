//! Reading an XML document event by event.
//!
//! The reading itself is the work of `quick_xml`. Its reader and its events
//! are opaque here; what the library looks at is the kind of an event, the
//! name of a tag and the text between tags. What a reader has yet to give is
//! a list of readings, and every contract that speaks of a document speaks
//! of it through that list.

use quick_xml::events::Event;
use quick_xml::Reader;
use vstd::prelude::*;

verus! {

/// `quick_xml::Reader`, the reader of a document.
#[verifier::external_type_specification]
#[verifier::external_body]
#[verifier::reject_recursive_types(R)]
pub struct ExReader<R>(Reader<R>);

/// `quick_xml::events::Event`, one event of a document.
#[verifier::external_type_specification]
#[verifier::external_body]
pub struct ExEvent<'a>(Event<'a>);

/// `quick_xml::Error`, what the reader fails with.
#[verifier::external_type_specification]
#[verifier::external_body]
pub struct ExXmlError(quick_xml::Error);

/// What an event is, as far as the library tells events apart.
#[derive(Debug, Clone, PartialEq, Eq)]
pub enum XmlEvent {
    /// An opening tag, with its name as it stands in the document.
    Start(Vec<u8>),
    /// A closing tag, with its name as it stands in the document.
    End(Vec<u8>),
    /// Text between tags.
    Text,
    /// The end of the document.
    Eof,
    /// Anything else: an empty element, a comment, a declaration and so on.
    Other,
}

/// The mathematical content of an [`XmlEvent`].
pub enum XmlEventView {
    Start(Seq<u8>),
    End(Seq<u8>),
    Text,
    Eof,
    Other,
}

impl View for XmlEvent {
    type V = XmlEventView;

    open spec fn view(&self) -> XmlEventView {
        match self {
            XmlEvent::Start(name) => XmlEventView::Start(name@),
            XmlEvent::End(name) => XmlEventView::End(name@),
            XmlEvent::Text => XmlEventView::Text,
            XmlEvent::Eof => XmlEventView::Eof,
            XmlEvent::Other => XmlEventView::Other,
        }
    }
}

/// What an event of a document reads as.
pub enum Reading {
    /// An opening tag, with its name.
    Start(Seq<u8>),
    /// A closing tag, with its name.
    End(Seq<u8>),
    /// Text between tags: the text with its character references resolved,
    /// or the message of the error where one of them cannot be.
    Text(Result<Seq<char>, Seq<char>>),
    /// The end of the document.
    Eof,
    /// Anything else.
    Other,
}

/// One thing that a reader gives when it is asked for the next event: what
/// the event reads as, or the message of the error that the reader met.
pub enum Given {
    Event(Reading),
    Failure(Seq<char>),
}

/// The kind of event that a reading is read from.
pub open spec fn shape_of(reading: Reading) -> XmlEventView {
    match reading {
        Reading::Start(name) => XmlEventView::Start(name),
        Reading::End(name) => XmlEventView::End(name),
        Reading::Text(_) => XmlEventView::Text,
        Reading::Eof => XmlEventView::Eof,
        Reading::Other => XmlEventView::Other,
    }
}

/// What a reader made by `Reader::from_str` over the document `xml` gives
/// before the end of the document, in order, once `Reader::trim_text` has
/// told it to take the white space off the ends of every text.
pub uninterp spec fn events_of(xml: Seq<char>) -> Seq<Given>;

/// What `reader` has yet to give to `Reader::read_event_into` before the end
/// of its document, in order.
pub uninterp spec fn pending_of(reader: Reader<&[u8]>) -> Seq<Given>;

/// What `event` holds: its kind, the name of a tag, and for a text what
/// `BytesText::unescape` makes of it.
pub uninterp spec fn reading_of(event: Event) -> Reading;

/// The message of `error`, as its `Display` writes it.
pub uninterp spec fn message_of(error: quick_xml::Error) -> Seq<char>;

/// `Reader::from_str`, then `Reader::trim_text(true)`: a reader that stands
/// at the start of `xml` and takes the white space off both ends of every
/// text, passing over a text that is then empty. It has all of the document
/// yet to give.
#[verifier::external_body]
pub(crate) fn trimming_reader<'a>(xml: &'a str) -> (reader: Reader<&'a [u8]>)
    ensures
        pending_of(reader) == events_of(xml@),
{
    let mut reader = Reader::from_str(xml);
    reader.trim_text(true);
    reader
}

/// `Reader::read_event_into`: the reader gives the first of what it had yet
/// to give and keeps the rest. With nothing left it gives the end of the
/// document, and does so again whenever it is asked. An error is the last
/// thing that a reader gives before the end.
#[verifier::external_body]
pub(crate) fn next_event<'a, 'b>(reader: &mut Reader<&'a [u8]>, buf: &'b mut Vec<u8>) -> (r: Result<
    Event<'b>,
    quick_xml::Error,
>)
    ensures
        match r {
            Ok(event) => if pending_of(*old(reader)).len() == 0 {
                reading_of(event) == Reading::Eof && pending_of(*final(reader)).len() == 0
            } else {
                pending_of(*old(reader))[0] == Given::Event(reading_of(event)) && pending_of(
                    *final(reader),
                ) == pending_of(*old(reader)).skip(1)
            },
            Err(error) => pending_of(*old(reader)).len() > 0 && pending_of(*old(reader))[0]
                == Given::Failure(message_of(error)) && pending_of(*final(reader))
                == pending_of(*old(reader)).skip(1),
        },
{
    reader.read_event_into(buf)
}

/// Tells the variants of `Event` apart; for a tag, `BytesStart::name` or
/// `BytesEnd::name` gives the name. The result is the kind that the event
/// reads as.
#[verifier::external_body]
pub(crate) fn classify<'b>(event: &Event<'b>) -> (r: XmlEvent)
    ensures
        r@ == shape_of(reading_of(*event)),
{
    match event {
        Event::Start(e) => XmlEvent::Start(e.name().as_ref().to_vec()),
        Event::End(e) => XmlEvent::End(e.name().as_ref().to_vec()),
        Event::Text(_) => XmlEvent::Text,
        Event::Eof => XmlEvent::Eof,
        _ => XmlEvent::Other,
    }
}

/// `BytesText::unescape` on a text event: the text with its character
/// references resolved, or the error of a reference that cannot be. `None`
/// for an event that is no text. The result is what the event reads as.
#[verifier::external_body]
pub(crate) fn unescaped_text<'b>(event: &Event<'b>) -> (r: Option<
    Result<String, quick_xml::Error>,
>)
    ensures
        match r {
            Some(Ok(text)) => reading_of(*event) == Reading::Text(Ok(text@)),
            Some(Err(error)) => reading_of(*event) == Reading::Text(Err(message_of(error))),
            None => !(reading_of(*event) is Text),
        },
{
    match event {
        Event::Text(e) => match e.unescape() {
            Ok(text) => Some(Ok(text.into_owned())),
            Err(error) => Some(Err(error)),
        },
        _ => None,
    }
}

/// The message of an error of the reader, as its `Display` writes it.
#[verifier::external_body]
pub(crate) fn error_message(error: &quick_xml::Error) -> (r: String)
    ensures
        r@ == message_of(*error),
{
    format!("{}", error)
}

} // verus!
