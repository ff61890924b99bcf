//! The event stream the parse builder consumes: ordered, namespace-stripped,
//! with character data already decoded and unescaped.

use vstd::prelude::*;

verus! {

/// Ghost model of an `XmlEvent`.
#[verifier::ext_equal]
pub enum GEvent {
    Open(Seq<char>, Seq<(Seq<char>, Seq<char>)>),
    SelfClosed(Seq<char>, Seq<(Seq<char>, Seq<char>)>),
    Close,
    Text(Seq<char>),
}

/// One low-level event of a document, in document order.
///
/// `Open` and `SelfClosed` carry the local element name and the attributes
/// as `(name, value)` pairs with values already unescaped; `Text` carries
/// one fragment of character data, already unescaped; `Close` ends the
/// innermost open element.
#[derive(Debug, PartialEq)]
pub enum XmlEvent {
    Open(String, Vec<(String, String)>),
    SelfClosed(String, Vec<(String, String)>),
    Close,
    Text(String),
}

/// View of an attribute list.
pub open spec fn g_of_attrs(a: Seq<(String, String)>) -> Seq<(Seq<char>, Seq<char>)> {
    a.map_values(|p: (String, String)| (p.0@, p.1@))
}

impl View for XmlEvent {
    type V = GEvent;

    open spec fn view(&self) -> GEvent {
        match self {
            XmlEvent::Open(n, a) => GEvent::Open(n@, g_of_attrs(a@)),
            XmlEvent::SelfClosed(n, a) => GEvent::SelfClosed(n@, g_of_attrs(a@)),
            XmlEvent::Close => GEvent::Close,
            XmlEvent::Text(s) => GEvent::Text(s@),
        }
    }
}

/// View of an event list.
pub open spec fn g_of_events(evs: Seq<XmlEvent>) -> Seq<GEvent> {
    evs.map_values(|e: XmlEvent| e@)
}

} // verus!
