//! The events of a markup source, as the XML reader tells them.

use crate::string_map::{pairs_view, Pairs};
use vstd::prelude::*;

verus! {

/// One event of a markup source.
#[derive(Debug)]
pub enum MarkupEvent {
    /// An element starts, with its local name and its attributes (local
    /// name and value) in the order of the source.
    Start { name: String, attributes: Vec<(String, String)> },
    /// Text other than white space inside an element.
    Text(String),
    /// The open element ends.
    End,
    /// A declaration, a comment, white space and the like.
    Other,
    /// The source is malformed; no event follows.
    Error(String),
}

/// The mathematical value of an event.
pub enum EventView {
    Start { name: Seq<char>, attributes: Pairs },
    Text(Seq<char>),
    End,
    Other,
    Error(Seq<char>),
}

impl View for MarkupEvent {
    type V = EventView;

    open spec fn view(&self) -> EventView {
        match self {
            MarkupEvent::Start { name, attributes } => EventView::Start {
                name: name@,
                attributes: pairs_view(attributes@),
            },
            MarkupEvent::Text(text) => EventView::Text(text@),
            MarkupEvent::End => EventView::End,
            MarkupEvent::Other => EventView::Other,
            MarkupEvent::Error(message) => EventView::Error(message@),
        }
    }
}

/// The values of a list of events, in order.
pub open spec fn events_view(v: Seq<MarkupEvent>) -> Seq<EventView> {
    v.map_values(|e: MarkupEvent| e@)
}

/// The events that the XML reader tells of a source, up to the end of the
/// document or to the first error.
pub uninterp spec fn markup_events(source: Seq<u8>) -> Seq<EventView>;

/// Reads a source with `xml::reader::EventReader` in its default
/// configuration and hands out every event it tells, in order: the start of
/// an element with its local name and its attributes, character data, the
/// end of an element, an error with its message, and `Other` for every
/// other event. The contract only names the result: the reader works on
/// the bytes alone.
#[verifier::external_body]
pub(crate) fn read_events(source: &[u8]) -> (events: Vec<MarkupEvent>)
    ensures
        events_view(events@) == markup_events(source@),
{
    xml::reader::EventReader::new(source).into_iter().map(|e| match e {
        Ok(xml::reader::XmlEvent::StartElement { name, attributes, .. }) => MarkupEvent::Start {
            name: name.local_name,
            attributes: attributes.into_iter().map(|a| (a.name.local_name, a.value)).collect(),
        },
        Ok(xml::reader::XmlEvent::Characters(text)) => MarkupEvent::Text(text),
        Ok(xml::reader::XmlEvent::EndElement { .. }) => MarkupEvent::End,
        Ok(_) => MarkupEvent::Other,
        Err(e) => MarkupEvent::Error(e.msg().to_string()),
    }).collect()
}

} // verus!
