use xmldoc::err::XmlError;
use xmldoc::tokenize::xml_parse;
use xmldoc::value::Entry;
use xmldoc::value::Timestamp;
use xmldoc::value::Value;
use xmldoc::value::Zone;

fn doc(name: &str, v: Value) -> Value {
    Value::Mapping(vec![(name.to_string(), v)])
}

fn mapping(entries: Vec<(&str, Value)>) -> Value {
    Value::Mapping(entries.into_iter().map(|(k, v)| (k.to_string(), v)).collect())
}

#[test]
fn bare_empty_element_contributes_nothing() {
    // An element with no attributes, text or children reduces to no child
    // value at all, so even a lone root leaves the document empty.
    assert_eq!(xml_parse(b"<r/>").unwrap_err(), XmlError::EmptyDocument);
}

#[test]
fn empty_input_is_empty_document() {
    assert_eq!(xml_parse(b"").unwrap_err(), XmlError::EmptyDocument);
}

#[test]
fn blank_element_is_empty_document() {
    // A root with nothing inside contributes no child value.
    assert_eq!(xml_parse(b"<r></r>").unwrap_err(), XmlError::EmptyDocument);
}

#[test]
fn text_collapses_to_scalar() {
    let got = xml_parse(b"<r><name>hello</name></r>").unwrap();
    assert_eq!(
        got,
        doc("r", mapping(vec![("name", Value::Str("hello".to_string()))]))
    );
}

#[test]
fn duplicate_siblings_fold_into_list() {
    let got = xml_parse(b"<r><a>1</a><a>2</a></r>").unwrap();
    assert_eq!(
        got,
        doc(
            "r",
            mapping(vec![(
                "a",
                Value::List(vec![
                    Entry::Item(Value::Str("1".to_string())),
                    Entry::Item(Value::Str("2".to_string())),
                ])
            )])
        )
    );
}

#[test]
fn force_list_wraps_first_occurrence() {
    let got = xml_parse(b"<r><tag>x</tag></r>").unwrap();
    assert_eq!(
        got,
        doc(
            "r",
            mapping(vec![(
                "tag",
                Value::List(vec![Entry::Item(Value::Str("x".to_string()))])
            )])
        )
    );
}

#[test]
fn force_items_preserves_interleave_order() {
    let got = xml_parse(b"<r><node id=\"1\"/><way id=\"2\"/></r>").unwrap();
    assert_eq!(
        got,
        doc(
            "r",
            Value::List(vec![
                Entry::Pair("node".to_string(), mapping(vec![("@id", Value::Int(1))])),
                Entry::Pair("way".to_string(), mapping(vec![("@id", Value::Int(2))])),
            ])
        )
    );
}

#[test]
fn force_items_flattens_parent_attributes() {
    let got = xml_parse(b"<osm version=\"0.6\"><node id=\"1\"/></osm>").unwrap();
    assert_eq!(
        got,
        doc(
            "osm",
            Value::List(vec![
                Entry::Pair("@version".to_string(), Value::Float("0.6".to_string())),
                Entry::Pair("node".to_string(), mapping(vec![("@id", Value::Int(1))])),
            ])
        )
    );
}

#[test]
fn boolean_attribute_true() {
    let got = xml_parse(b"<r visible=\"true\"/>").unwrap();
    assert_eq!(got, doc("r", mapping(vec![("@visible", Value::Bool(true))])));
}

#[test]
fn boolean_attribute_false() {
    let got = xml_parse(b"<r open=\"false\"/>").unwrap();
    assert_eq!(got, doc("r", mapping(vec![("@open", Value::Bool(false))])));
}

#[test]
fn boolean_attribute_rejects_other_text() {
    assert_eq!(
        xml_parse(b"<r visible=\"maybe\"/>").unwrap_err(),
        XmlError::InvalidFormat("visible".to_string(), "maybe".to_string())
    );
}

#[test]
fn integer_keys_coerce() {
    let got = xml_parse(b"<r id=\"-42\" uid=\"7\"/>").unwrap();
    assert_eq!(
        got,
        doc(
            "r",
            mapping(vec![("@id", Value::Int(-42)), ("@uid", Value::Int(7))])
        )
    );
}

#[test]
fn integer_key_rejects_junk() {
    assert_eq!(
        xml_parse(b"<r id=\"x1\"/>").unwrap_err(),
        XmlError::InvalidFormat("id".to_string(), "x1".to_string())
    );
}

#[test]
fn integer_key_rejects_overflow() {
    assert_eq!(
        xml_parse(b"<r id=\"9223372036854775808\"/>").unwrap_err(),
        XmlError::InvalidFormat("id".to_string(), "9223372036854775808".to_string())
    );
}

#[test]
fn integer_key_accepts_i64_min() {
    let got = xml_parse(b"<r id=\"-9223372036854775808\"/>").unwrap();
    assert_eq!(got, doc("r", mapping(vec![("@id", Value::Int(i64::MIN))])));
}

#[test]
fn float_keys_keep_text() {
    let got = xml_parse(b"<r lat=\"51.5\" lon=\"-0.1e1\"/>").unwrap();
    assert_eq!(
        got,
        doc(
            "r",
            mapping(vec![
                ("@lat", Value::Float("51.5".to_string())),
                ("@lon", Value::Float("-0.1e1".to_string())),
            ])
        )
    );
}

#[test]
fn float_key_rejects_junk() {
    assert_eq!(
        xml_parse(b"<r lat=\"north\"/>").unwrap_err(),
        XmlError::InvalidFormat("lat".to_string(), "north".to_string())
    );
}

#[test]
fn version_is_float_with_point_else_integer() {
    let got = xml_parse(b"<r version=\"0.6\"/>").unwrap();
    assert_eq!(
        got,
        doc("r", mapping(vec![("@version", Value::Float("0.6".to_string()))]))
    );
    let got = xml_parse(b"<r version=\"2\"/>").unwrap();
    assert_eq!(got, doc("r", mapping(vec![("@version", Value::Int(2))])));
}

#[test]
fn iso_timestamp_coerces() {
    let got = xml_parse(b"<r timestamp=\"2021-01-02T03:04:05Z\"/>").unwrap();
    assert_eq!(
        got,
        doc(
            "r",
            mapping(vec![(
                "@timestamp",
                Value::Ts(Timestamp {
                    year: 2021,
                    month: 1,
                    day: 2,
                    hour: 3,
                    minute: 4,
                    second: 5,
                    micro: 0,
                    zone: Zone::Offset(0),
                })
            )])
        )
    );
}

#[test]
fn iso_timestamp_with_micro_coerces() {
    let got = xml_parse(b"<r created_at=\"2021-01-02T03:04:05.123456Z\"/>").unwrap();
    assert_eq!(
        got,
        doc(
            "r",
            mapping(vec![(
                "@created_at",
                Value::Ts(Timestamp {
                    year: 2021,
                    month: 1,
                    day: 2,
                    hour: 3,
                    minute: 4,
                    second: 5,
                    micro: 123456,
                    zone: Zone::Offset(0),
                })
            )])
        )
    );
}

#[test]
fn spaced_timestamp_coerces() {
    let got = xml_parse(b"<r date=\"2021-01-02 03:04:05 UTC\"/>").unwrap();
    assert_eq!(
        got,
        doc(
            "r",
            mapping(vec![(
                "@date",
                Value::Ts(Timestamp {
                    year: 2021,
                    month: 1,
                    day: 2,
                    hour: 3,
                    minute: 4,
                    second: 5,
                    micro: 0,
                    zone: Zone::Offset(0),
                })
            )])
        )
    );
}

#[test]
fn date_key_rejects_bad_calendar_day() {
    assert_eq!(
        xml_parse(b"<r date=\"2021-02-29T00:00:00Z\"/>").unwrap_err(),
        XmlError::InvalidFormat("date".to_string(), "2021-02-29T00:00:00Z".to_string())
    );
}

#[test]
fn leap_day_is_accepted() {
    let got = xml_parse(b"<r date=\"2020-02-29\"/>").unwrap();
    assert_eq!(
        got,
        doc(
            "r",
            mapping(vec![(
                "@date",
                Value::Ts(Timestamp {
                    year: 2020,
                    month: 2,
                    day: 29,
                    hour: 0,
                    minute: 0,
                    second: 0,
                    micro: 0,
                    zone: Zone::Naive,
                })
            )])
        )
    );
}

#[test]
fn unknown_keys_stay_strings() {
    let got = xml_parse(b"<r k=\"highway\" v=\"1.5\"/>").unwrap();
    assert_eq!(
        got,
        doc(
            "r",
            mapping(vec![
                ("@k", Value::Str("highway".to_string())),
                ("@v", Value::Str("1.5".to_string())),
            ])
        )
    );
}

#[test]
fn entity_references_resolve_in_text() {
    let got = xml_parse(b"<r><name>a&amp;b &lt;c&gt;</name></r>").unwrap();
    assert_eq!(
        got,
        doc("r", mapping(vec![("name", Value::Str("a&b <c>".to_string()))]))
    );
}

#[test]
fn numeric_character_reference_resolves() {
    let got = xml_parse(b"<r><name>x&#65;y</name></r>").unwrap();
    assert_eq!(
        got,
        doc("r", mapping(vec![("name", Value::Str("xAy".to_string()))]))
    );
}

#[test]
fn attribute_values_are_unescaped() {
    let got = xml_parse(b"<r k=\"a&amp;b\"/>").unwrap();
    assert_eq!(
        got,
        doc("r", mapping(vec![("@k", Value::Str("a&b".to_string()))]))
    );
}

#[test]
fn cdata_text_is_taken_literally() {
    let got = xml_parse(b"<r><name><![CDATA[a<&b]]></name></r>").unwrap();
    assert_eq!(
        got,
        doc("r", mapping(vec![("name", Value::Str("a<&b".to_string()))]))
    );
}

#[test]
fn split_text_fragments_concatenate() {
    // The CDATA boundary splits the character data into two events; the
    // builder reassembles them into one string.
    let got = xml_parse(b"<r><name>ab<![CDATA[cd]]></name></r>").unwrap();
    assert_eq!(
        got,
        doc("r", mapping(vec![("name", Value::Str("abcd".to_string()))]))
    );
}

#[test]
fn whitespace_only_text_is_ignored() {
    let got = xml_parse(b"<r>\n  <name>x</name>\n</r>").unwrap();
    assert_eq!(
        got,
        doc("r", mapping(vec![("name", Value::Str("x".to_string()))]))
    );
}

#[test]
fn text_beside_children_keeps_text_key() {
    let got = xml_parse(b"<r>hi<name>x</name></r>").unwrap();
    assert_eq!(
        got,
        doc(
            "r",
            mapping(vec![
                ("#text", Value::Str("hi".to_string())),
                ("name", Value::Str("x".to_string())),
            ])
        )
    );
}

#[test]
fn nesting_at_bound_succeeds() {
    // Ten suspended frames is the bound, so eleven open elements — ten
    // suspended below the active one — still succeed.
    let mut xml = String::new();
    for i in 0..11 {
        xml.push_str(&format!("<e{}>", i));
    }
    xml.push_str("x");
    for i in (0..11).rev() {
        xml.push_str(&format!("</e{}>", i));
    }
    let got = xml_parse(xml.as_bytes());
    assert!(got.is_ok());
}

#[test]
fn nesting_beyond_bound_fails() {
    let mut xml = String::new();
    for i in 0..12 {
        xml.push_str(&format!("<e{}>", i));
    }
    xml.push_str("x");
    for i in (0..12).rev() {
        xml.push_str(&format!("</e{}>", i));
    }
    assert_eq!(xml_parse(xml.as_bytes()).unwrap_err(), XmlError::NestingTooDeep);
}

#[test]
fn malformed_xml_is_reported() {
    assert_eq!(xml_parse(b"<r><a></r>").unwrap_err(), XmlError::MalformedXml);
}

#[test]
fn namespace_prefix_is_stripped_from_element_names() {
    let got = xml_parse(b"<ns:r xmlns:ns=\"urn:x\"><ns:name>v</ns:name></ns:r>").unwrap();
    assert_eq!(
        got,
        doc(
            "r",
            mapping(vec![
                ("@xmlns:ns", Value::Str("urn:x".to_string())),
                ("name", Value::Str("v".to_string())),
            ])
        )
    );
}

#[test]
fn invalid_bytes_are_a_decode_error() {
    assert_eq!(
        xml_parse(b"<r><name>\xff\xfe</name></r>").unwrap_err(),
        XmlError::DecodeError
    );
}

#[test]
fn unknown_entity_is_malformed() {
    assert_eq!(
        xml_parse(b"<r><name>&nosuch;</name></r>").unwrap_err(),
        XmlError::MalformedXml
    );
}

#[test]
fn broken_attribute_syntax_is_malformed() {
    assert_eq!(xml_parse(b"<r id></r>").unwrap_err(), XmlError::MalformedXml);
}

#[test]
fn second_root_replaces_the_first() {
    // The stream may hold several top-level elements; the last one with a
    // child value wins, as the machine overwrites its result.
    let got = xml_parse(b"<a k=\"1\"/><b k=\"2\"/>").unwrap();
    assert_eq!(got, doc("b", mapping(vec![("@k", Value::Str("2".to_string()))])));
}

#[test]
fn text_outside_any_element_is_ignored() {
    let got = xml_parse(b"<r k=\"v\"/>junk").unwrap();
    assert_eq!(got, doc("r", mapping(vec![("@k", Value::Str("v".to_string()))])));
}

#[test]
fn element_text_coerces_by_element_name() {
    let got = xml_parse(b"<r><id>12</id></r>").unwrap();
    assert_eq!(got, doc("r", mapping(vec![("id", Value::Int(12))])));
}

#[test]
fn split_coercible_fragments_join_as_text() {
    // Each fragment coerces on its own; the second one converts what is
    // stored to its text form and re-stores the concatenation as a string.
    let got = xml_parse(b"<r><id>1<![CDATA[2]]></id></r>").unwrap();
    assert_eq!(got, doc("r", mapping(vec![("id", Value::Str("12".to_string()))])));
}

#[test]
fn text_in_list_mode_appends_a_pair() {
    let got = xml_parse(b"<r><node id=\"1\"/>hi</r>").unwrap();
    assert_eq!(
        got,
        doc(
            "r",
            Value::List(vec![
                Entry::Pair("node".to_string(), mapping(vec![("@id", Value::Int(1))])),
                Entry::Pair("#text".to_string(), Value::Str("hi".to_string())),
            ])
        )
    );
}

#[test]
fn boolean_element_text_joins_in_lowercase() {
    // Both fragments coerce to booleans on their own; the reassembly
    // re-stores the library's lower-case text forms, concatenated.
    let got = xml_parse(b"<r><visible>true<![CDATA[false]]></visible></r>").unwrap();
    assert_eq!(
        got,
        doc("r", mapping(vec![("visible", Value::Str("truefalse".to_string()))]))
    );
}

#[test]
fn split_fragment_that_does_not_coerce_fails() {
    // Every fragment coerces under the element's name before joining, so a
    // stray tail under a boolean key is rejected.
    assert_eq!(
        xml_parse(b"<r><visible>true<![CDATA[!]]></visible></r>").unwrap_err(),
        XmlError::InvalidFormat("visible".to_string(), "!".to_string())
    );
}
