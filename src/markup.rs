//! Markup as a stream of element events.
use vstd::prelude::*;
use xml::reader::{EventReader, XmlEvent};

verus! {

/// One attribute of a start tag.
#[derive(Debug, PartialEq)]
pub struct Attribute {
    pub name: String,
    pub value: String,
}

/// An event of a markup stream.
#[derive(Debug, PartialEq)]
pub enum MarkupEvent {
    StartElement { name: String, attributes: Vec<Attribute> },
    EndElement { name: String },
    /// The tokenizer found the markup malformed.
    Error { message: String },
    /// Anything else (text, comments, the document's start and end).
    Other,
}

/// The model of a markup event: attributes as (name, value) pairs.
pub enum EventModel {
    StartElement { name: Seq<char>, attributes: Seq<(Seq<char>, Seq<char>)> },
    EndElement { name: Seq<char> },
    Error { message: Seq<char> },
    Other,
}

/// The model of a list of attributes.
pub open spec fn attributes_model(a: Seq<Attribute>) -> Seq<(Seq<char>, Seq<char>)> {
    Seq::new(a.len(), |i: int| (a[i].name@, a[i].value@))
}

/// The model of an event.
pub open spec fn event_model(e: &MarkupEvent) -> EventModel {
    match e {
        MarkupEvent::StartElement { name, attributes } => EventModel::StartElement {
            name: name@,
            attributes: attributes_model(attributes@),
        },
        MarkupEvent::EndElement { name } => EventModel::EndElement { name: name@ },
        MarkupEvent::Error { message } => EventModel::Error { message: message@ },
        MarkupEvent::Other => EventModel::Other,
    }
}

/// The model of a list of events.
pub open spec fn events_model(s: Seq<MarkupEvent>) -> Seq<EventModel> {
    Seq::new(s.len(), |i: int| event_model(&s[i]))
}

/// The events that the markup tokenizer reads from a text, up to and
/// including the first error or the end of the document.
pub uninterp spec fn markup_events(text: Seq<char>) -> Seq<EventModel>;

/// Relies on xml's `EventReader` (read through its event iterator, which stops
/// after the first error or the end of the document): the events of a text
/// depend on the text alone.
#[verifier::external_body]
pub(crate) fn read_events(text: &str) -> (r: Vec<MarkupEvent>)
    ensures
        events_model(r@) == markup_events(text@),
{
    EventReader::from_str(text).into_iter().map(|e| match e {
        Ok(XmlEvent::StartElement { name, attributes, .. }) => MarkupEvent::StartElement {
            name: name.local_name,
            attributes: attributes.into_iter().map(|a| Attribute { name: a.name.local_name, value: a.value }).collect(),
        },
        Ok(XmlEvent::EndElement { name }) => MarkupEvent::EndElement { name: name.local_name },
        Ok(_) => MarkupEvent::Other,
        Err(err) => MarkupEvent::Error { message: err.to_string() },
    }).collect()
}

} // verus!
