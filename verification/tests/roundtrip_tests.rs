//! Parsing the serialization of a parsed document restores it exactly, for
//! documents whose values need no external date parsing and for several that
//! do.

use xmldoc::tokenize::xml_parse;
use xmldoc::unparse::xml_unparse;
use xmldoc::value::Value;

fn roundtrip(xml: &[u8]) -> (Value, Value) {
    let first = xml_parse(xml).unwrap();
    let text = xml_unparse(&first).unwrap();
    let second = xml_parse(text.as_bytes()).unwrap();
    (first, second)
}

#[test]
fn roundtrip_attributes_and_text() {
    let (a, b) = roundtrip(b"<r k=\"a&amp;b\" id=\"5\"><name>x&lt;y</name></r>");
    assert_eq!(a, b);
}

#[test]
fn roundtrip_duplicate_siblings() {
    let (a, b) = roundtrip(b"<r><a>1</a><a>2</a><a>3</a></r>");
    assert_eq!(a, b);
}

#[test]
fn roundtrip_force_list() {
    let (a, b) = roundtrip(b"<r><tag k=\"x\" v=\"y\"/></r>");
    assert_eq!(a, b);
}

#[test]
fn roundtrip_force_items_interleave() {
    let (a, b) = roundtrip(
        b"<osmChange version=\"0.6\"><create><node id=\"1\" lat=\"1.5\" lon=\"2.5\"/></create><modify><way id=\"2\"/></modify></osmChange>",
    );
    assert_eq!(a, b);
}

#[test]
fn roundtrip_booleans_and_numbers() {
    let (a, b) = roundtrip(b"<r visible=\"true\" id=\"-7\" lat=\"51.5\" version=\"0.6\"/>");
    assert_eq!(a, b);
}

#[test]
fn roundtrip_timestamps() {
    let (a, b) = roundtrip(
        b"<r created_at=\"2021-01-02T03:04:05Z\" closed_at=\"2021-01-02T03:04:05.500000Z\"/>",
    );
    assert_eq!(a, b);
}

#[test]
fn roundtrip_nested_structure() {
    let (a, b) = roundtrip(
        b"<osm version=\"0.6\"><node id=\"1\" lat=\"0.5\" lon=\"0.25\"><tag k=\"name\" v=\"x\"/><tag k=\"ref\" v=\"y\"/></node></osm>",
    );
    assert_eq!(a, b);
}
