//! The trusted boundary to the streaming XML reader, and the parse entry
//! point.
//!
//! Everything structural is verified elsewhere: this module only turns the
//! reader's borrowed events into the plain events of `crate::events`, one
//! small trusted item per outside call, and drives the bounded read loop.

use vstd::prelude::*;

use crate::builder::build_document;
use crate::builder::g_build;
use crate::chars::str_to_chars;
use crate::chars::chars_to_string;
use crate::err::GErr;
use crate::err::XmlError;
use crate::events::XmlEvent;
use crate::events::GEvent;
use crate::value::GValue;
use crate::value::Value;

verus! {

#[verifier::external_type_specification]
#[verifier::external_body]
#[verifier::reject_recursive_types(R)]
pub struct ExReader<R>(quick_xml::reader::Reader<R>);

#[verifier::external_type_specification]
#[verifier::external_body]
pub struct ExEvent<'a>(quick_xml::events::Event<'a>);

#[verifier::external_type_specification]
#[verifier::external_body]
pub struct ExBytesStart<'a>(quick_xml::events::BytesStart<'a>);

#[verifier::external_type_specification]
#[verifier::external_body]
pub struct ExBytesText<'a>(quick_xml::events::BytesText<'a>);

#[verifier::external_type_specification]
#[verifier::external_body]
pub struct ExBytesCData<'a>(quick_xml::events::BytesCData<'a>);

#[verifier::external_type_specification]
#[verifier::external_body]
pub struct ExBytesRef<'a>(quick_xml::events::BytesRef<'a>);

/// One reader event, told apart by kind: the payloads of the kinds the
/// builder consumes, `Eof`, and `Skip` for the kinds it ignores
/// (declaration, comment, processing instruction, doctype).
pub enum RawEvent<'a> {
    Start(quick_xml::events::BytesStart<'a>),
    Empty(quick_xml::events::BytesStart<'a>),
    End,
    Text(quick_xml::events::BytesText<'a>),
    CData(quick_xml::events::BytesCData<'a>),
    GeneralRef(quick_xml::events::BytesRef<'a>),
    Eof,
    Skip,
}

/// Relies on `quick_xml::reader::Reader::from_reader`: a reader over the
/// given bytes.
#[verifier::external_body]
fn reader_from_bytes(xml: &[u8]) -> quick_xml::reader::Reader<&[u8]> {
    quick_xml::reader::Reader::from_reader(xml)
}

/// Relies on `quick_xml::reader::Reader::read_event`: the next event of the
/// document, or the reader's error — an encoding error becomes
/// `DecodeError`, every other one `MalformedXml`.
#[verifier::external_body]
fn read_event<'a>(r: &mut quick_xml::reader::Reader<&'a [u8]>) -> Result<
    quick_xml::events::Event<'a>,
    XmlError,
> {
    match r.read_event() {
        Ok(ev) => Ok(ev),
        Err(quick_xml::Error::Encoding(_)) => Err(XmlError::DecodeError),
        Err(_) => Err(XmlError::MalformedXml),
    }
}

/// Relies on `quick_xml::events::Event` only for its shape: one arm per
/// variant, moving the payload; the kinds the builder ignores become
/// `Skip`.
#[verifier::external_body]
fn split_event<'a>(ev: quick_xml::events::Event<'a>) -> RawEvent<'a> {
    match ev {
        quick_xml::events::Event::Start(e) => RawEvent::Start(e),
        quick_xml::events::Event::Empty(e) => RawEvent::Empty(e),
        quick_xml::events::Event::End(_) => RawEvent::End,
        quick_xml::events::Event::Text(e) => RawEvent::Text(e),
        quick_xml::events::Event::CData(e) => RawEvent::CData(e),
        quick_xml::events::Event::GeneralRef(e) => RawEvent::GeneralRef(e),
        quick_xml::events::Event::Eof => RawEvent::Eof,
        quick_xml::events::Event::Decl(_) => RawEvent::Skip,
        quick_xml::events::Event::Comment(_) => RawEvent::Skip,
        quick_xml::events::Event::PI(_) => RawEvent::Skip,
        quick_xml::events::Event::DocType(_) => RawEvent::Skip,
    }
}

/// Relies on `quick_xml::events::BytesStart::local_name`: the element's
/// name with any namespace prefix stripped.
#[verifier::external_body]
fn start_name(e: &quick_xml::events::BytesStart<'_>) -> String {
    e.local_name().as_ref().to_string()
}

/// Relies on `quick_xml::events::BytesStart::attributes`: the tag's
/// attributes in order, each as its full key and its raw (still escaped)
/// value; an attribute syntax error becomes `MalformedXml`.
#[verifier::external_body]
fn start_attrs_raw(e: &quick_xml::events::BytesStart<'_>) -> Result<
    Vec<(String, String)>,
    XmlError,
> {
    let mut out: Vec<(String, String)> = Vec::new();
    for a in e.attributes() {
        match a {
            Ok(at) => out.push((at.key.as_ref().to_string(), at.value.into_owned())),
            Err(_) => return Err(XmlError::MalformedXml),
        }
    }
    Ok(out)
}

/// Relies on `quick_xml::events::BytesText::into_inner`: the raw (still
/// escaped) character data of a text event.
#[verifier::external_body]
fn text_content(t: quick_xml::events::BytesText<'_>) -> String {
    t.into_inner().into_owned()
}

/// Relies on `quick_xml::events::BytesCData::into_inner`: the literal
/// content of a CDATA section.
#[verifier::external_body]
fn cdata_content(c: quick_xml::events::BytesCData<'_>) -> String {
    c.into_inner().into_owned()
}

/// Relies on `quick_xml::events::BytesRef::into_inner`: the content of a
/// general reference between its `&` and `;`.
#[verifier::external_body]
fn ref_content(r: quick_xml::events::BytesRef<'_>) -> String {
    r.into_inner().into_owned()
}

/// Relies on `quick_xml::escape::unescape`: the text with character and
/// entity references resolved; an unresolvable reference becomes
/// `MalformedXml`.
#[verifier::external_body]
fn unescape_text(s: &str) -> Result<String, XmlError> {
    match quick_xml::escape::unescape(s) {
        Ok(t) => Ok(t.into_owned()),
        Err(_) => Err(XmlError::MalformedXml),
    }
}

/// Unescapes every attribute value, in place of the raw one.
fn unescape_attrs(raw: Vec<(String, String)>) -> (r: Result<Vec<(String, String)>, XmlError>) {
    let mut raw = raw;
    let mut out: Vec<(String, String)> = Vec::new();
    while raw.len() > 0
        decreases raw@.len(),
    {
        let p = raw.remove(0);
        match unescape_text(p.1.as_str()) {
            Ok(v) => out.push((p.0, v)),
            Err(e) => {
                return Err(e);
            },
        }
    }
    Ok(out)
}

/// The reference's text restored to its source form `&...;`.
fn restore_reference(c: &str) -> (r: String)
    ensures
        r@ == seq!['&'] + c@ + seq![';'],
{
    let mut cs: Vec<char> = Vec::new();
    cs.push('&');
    let mut inner = str_to_chars(c);
    cs.append(&mut inner);
    cs.push(';');
    let out = chars_to_string(&cs);
    proof {
        assert(out@ =~= seq!['&'] + c@ + seq![';']);
    }
    out
}

/// Reads the whole document into plain events: names namespace-stripped,
/// text and attribute values unescaped, CDATA taken literally, and a
/// general reference resolved exactly as the same reference inside a text
/// event. The reader yields at most one event per input byte before `Eof`,
/// so the loop is bounded by the input length.
fn tokenize(xml: &[u8]) -> (r: Result<Vec<XmlEvent>, XmlError>) {
    let mut reader = reader_from_bytes(xml);
    let mut events: Vec<XmlEvent> = Vec::new();
    let mut fuel = xml.len();
    while fuel > 0
        decreases fuel,
    {
        match read_event(&mut reader) {
            Err(e) => {
                return Err(e);
            },
            Ok(ev) => match split_event(ev) {
                RawEvent::Start(e) => {
                    let name = start_name(&e);
                    match start_attrs_raw(&e) {
                        Err(e2) => {
                            return Err(e2);
                        },
                        Ok(raw) => match unescape_attrs(raw) {
                            Err(e2) => {
                                return Err(e2);
                            },
                            Ok(attrs) => events.push(XmlEvent::Open(name, attrs)),
                        },
                    }
                },
                RawEvent::Empty(e) => {
                    let name = start_name(&e);
                    match start_attrs_raw(&e) {
                        Err(e2) => {
                            return Err(e2);
                        },
                        Ok(raw) => match unescape_attrs(raw) {
                            Err(e2) => {
                                return Err(e2);
                            },
                            Ok(attrs) => events.push(XmlEvent::SelfClosed(name, attrs)),
                        },
                    }
                },
                RawEvent::End => events.push(XmlEvent::Close),
                RawEvent::Text(t) => {
                    let raw = text_content(t);
                    match unescape_text(raw.as_str()) {
                        Err(e2) => {
                            return Err(e2);
                        },
                        Ok(s) => events.push(XmlEvent::Text(s)),
                    }
                },
                RawEvent::CData(c) => events.push(XmlEvent::Text(cdata_content(c))),
                RawEvent::GeneralRef(rf) => {
                    let c = ref_content(rf);
                    let full = restore_reference(c.as_str());
                    match unescape_text(full.as_str()) {
                        Err(e2) => {
                            return Err(e2);
                        },
                        Ok(s) => events.push(XmlEvent::Text(s)),
                    }
                },
                RawEvent::Eof => {
                    return Ok(events);
                },
                RawEvent::Skip => {},
            },
        }
        fuel = fuel - 1;
    }
    match read_event(&mut reader) {
        Err(e) => Err(e),
        Ok(ev) => match split_event(ev) {
            RawEvent::Eof => Ok(events),
            _ => Err(XmlError::MalformedXml),
        },
    }
}

/// A built document is a mapping with exactly one entry.
pub proof fn lemma_build_root_shape(evs: Seq<GEvent>, v: GValue)
    ensures
        g_build(evs) == Ok::<GValue, GErr>(v) ==> v is Mapping && v->Mapping_0.len() == 1,
{
}

/// Parses one complete XML document into its structured value.
///
/// The reader supplies the event stream; the verified builder folds it, so
/// any document value returned here is `g_build` of some event stream — in
/// particular, a well-formed mapping with exactly the root's one entry.
pub fn xml_parse(xml: &[u8]) -> (r: Result<Value, XmlError>)
    ensures
        r matches Ok(v) ==> exists|evs: Seq<GEvent>| g_build(evs) == Ok::<GValue, GErr>(v@),
        r matches Ok(v) ==> v@ is Mapping && v@->Mapping_0.len() == 1,
        r matches Ok(v) ==> crate::value::g_wf(v@),
{
    match tokenize(xml) {
        Err(e) => Err(e),
        Ok(events) => {
            let out = build_document(&events);
            proof {
                if out is Ok {
                    let v = out->Ok_0;
                    assert(g_build(crate::events::g_of_events(events@)) == Ok::<GValue, GErr>(
                        v@,
                    ));
                    lemma_build_root_shape(crate::events::g_of_events(events@), v@);
                    crate::laws::lemma_build_wf(crate::events::g_of_events(events@));
                }
            }
            out
        },
    }
}

} // verus!
