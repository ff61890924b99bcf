use xmldoc::err::XmlError;
use xmldoc::unparse::xml_unparse;
use xmldoc::value::Entry;
use xmldoc::value::Timestamp;
use xmldoc::value::Value;
use xmldoc::value::Zone;

const DECL: &str = "<?xml version='1.0' encoding='UTF-8'?>\n";

fn doc(name: &str, v: Value) -> Value {
    Value::Mapping(vec![(name.to_string(), v)])
}

fn mapping(entries: Vec<(&str, Value)>) -> Value {
    Value::Mapping(entries.into_iter().map(|(k, v)| (k.to_string(), v)).collect())
}

fn ts(micro: u32, zone: Zone) -> Timestamp {
    Timestamp { year: 2021, month: 1, day: 2, hour: 3, minute: 4, second: 5, micro, zone }
}

#[test]
fn scalar_element_with_text() {
    let out = xml_unparse(&doc("r", Value::Str("hello".to_string()))).unwrap();
    assert_eq!(out, format!("{}<r>hello</r>\n", DECL));
}

#[test]
fn empty_string_self_closes() {
    let out = xml_unparse(&doc("r", Value::Str(String::new()))).unwrap();
    assert_eq!(out, format!("{}<r/>\n", DECL));
}

#[test]
fn absent_self_closes() {
    let out = xml_unparse(&doc("r", Value::Absent)).unwrap();
    assert_eq!(out, format!("{}<r/>\n", DECL));
}

#[test]
fn booleans_print_lowercase() {
    let out = xml_unparse(&doc("r", Value::Bool(true))).unwrap();
    assert_eq!(out, format!("{}<r>true</r>\n", DECL));
    let out = xml_unparse(&doc("r", Value::Bool(false))).unwrap();
    assert_eq!(out, format!("{}<r>false</r>\n", DECL));
}

#[test]
fn integers_print_in_decimal() {
    let out = xml_unparse(&doc("r", Value::Int(-42))).unwrap();
    assert_eq!(out, format!("{}<r>-42</r>\n", DECL));
}

#[test]
fn attributes_and_text_route_by_key() {
    let out = xml_unparse(&doc(
        "node",
        mapping(vec![
            ("@id", Value::Int(5)),
            ("@user", Value::Str("ann".to_string())),
            ("#text", Value::Str("hi".to_string())),
        ]),
    ))
    .unwrap();
    assert_eq!(out, format!("{}<node id=\"5\" user=\"ann\">hi</node>\n", DECL));
}

#[test]
fn attributes_only_self_close() {
    let out = xml_unparse(&doc("node", mapping(vec![("@id", Value::Int(5))]))).unwrap();
    assert_eq!(out, format!("{}<node id=\"5\"/>\n", DECL));
}

#[test]
fn nested_mappings_become_elements() {
    let out = xml_unparse(&doc(
        "osm",
        mapping(vec![("bounds", mapping(vec![("@min_lat", Value::Float("1.5".to_string()))]))]),
    ))
    .unwrap();
    assert_eq!(out, format!("{}<osm><bounds min_lat=\"1.5\"/></osm>\n", DECL));
}

#[test]
fn text_is_escaped_attribute_also_quotes() {
    let out = xml_unparse(&doc(
        "r",
        mapping(vec![
            ("@k", Value::Str("a\"b<c".to_string())),
            ("#text", Value::Str("x<y&z>\"w".to_string())),
        ]),
    ))
    .unwrap();
    assert_eq!(
        out,
        format!("{}<r k=\"a&quot;b&lt;c\">x&lt;y&amp;z&gt;\"w</r>\n", DECL)
    );
}

#[test]
fn raw_text_serializes_unescaped_in_cdata() {
    let out = xml_unparse(&doc("r", Value::Raw("a<&b".to_string()))).unwrap();
    assert_eq!(out, format!("{}<r><![CDATA[a<&b]]></r>\n", DECL));
}

#[test]
fn plain_scalar_with_same_text_is_escaped() {
    let out = xml_unparse(&doc("r", Value::Str("a<&b".to_string()))).unwrap();
    assert_eq!(out, format!("{}<r>a&lt;&amp;b</r>\n", DECL));
}

#[test]
fn empty_raw_text_keeps_its_cdata() {
    let out = xml_unparse(&doc("r", Value::Raw(String::new()))).unwrap();
    assert_eq!(out, format!("{}<r><![CDATA[]]></r>\n", DECL));
}

#[test]
fn raw_text_under_text_key_is_unescaped() {
    let out = xml_unparse(&doc(
        "r",
        mapping(vec![("#text", Value::Raw("a<&b".to_string()))]),
    ))
    .unwrap();
    assert_eq!(out, format!("{}<r><![CDATA[a<&b]]></r>\n", DECL));
}

#[test]
fn utc_timestamp_without_fraction() {
    let out = xml_unparse(&doc("r", Value::Ts(ts(0, Zone::Offset(0))))).unwrap();
    assert_eq!(out, format!("{}<r>2021-01-02T03:04:05Z</r>\n", DECL));
}

#[test]
fn timestamp_with_microseconds_gets_fraction() {
    let out = xml_unparse(&doc("r", Value::Ts(ts(123456, Zone::Offset(0))))).unwrap();
    assert_eq!(out, format!("{}<r>2021-01-02T03:04:05.123456Z</r>\n", DECL));
}

#[test]
fn naive_timestamp_also_prints_z() {
    let out = xml_unparse(&doc("r", Value::Ts(ts(0, Zone::Naive)))).unwrap();
    assert_eq!(out, format!("{}<r>2021-01-02T03:04:05Z</r>\n", DECL));
}

#[test]
fn non_utc_timestamp_fails() {
    assert_eq!(
        xml_unparse(&doc("r", Value::Ts(ts(0, Zone::Offset(120))))).unwrap_err(),
        XmlError::InvalidTimezone
    );
}

#[test]
fn two_entry_root_mapping_fails() {
    let root = mapping(vec![("a", Value::Int(1)), ("b", Value::Int(2))]);
    assert_eq!(xml_unparse(&root).unwrap_err(), XmlError::InvalidRoot);
}

#[test]
fn empty_root_mapping_fails() {
    assert_eq!(
        xml_unparse(&Value::Mapping(Vec::new())).unwrap_err(),
        XmlError::InvalidRoot
    );
}

#[test]
fn non_mapping_root_fails() {
    assert_eq!(xml_unparse(&Value::Int(1)).unwrap_err(), XmlError::InvalidRoot);
}

#[test]
fn root_sequence_with_two_mappings_fails() {
    let root = doc(
        "r",
        Value::List(vec![
            Entry::Item(mapping(vec![("@id", Value::Int(1))])),
            Entry::Item(mapping(vec![("@id", Value::Int(2))])),
        ]),
    );
    assert_eq!(xml_unparse(&root).unwrap_err(), XmlError::RootMultiValue);
}

#[test]
fn nested_sequence_entry_fails() {
    let root = doc(
        "r",
        mapping(vec![(
            "a",
            Value::List(vec![Entry::Item(Value::List(vec![Entry::Item(Value::Int(1))]))]),
        )]),
    );
    assert_eq!(
        xml_unparse(&root).unwrap_err(),
        XmlError::NestedSequenceNotAllowed
    );
}

#[test]
fn container_as_attribute_value_fails() {
    let root = doc("r", mapping(vec![("@k", mapping(vec![("x", Value::Int(1))]))]));
    assert_eq!(xml_unparse(&root).unwrap_err(), XmlError::TypeMismatch);
}

#[test]
fn sequence_items_become_siblings() {
    let out = xml_unparse(&doc(
        "r",
        mapping(vec![(
            "a",
            Value::List(vec![
                Entry::Item(Value::Str("1".to_string())),
                Entry::Item(Value::Str("2".to_string())),
            ]),
        )]),
    ))
    .unwrap();
    assert_eq!(out, format!("{}<r><a>1</a><a>2</a></r>\n", DECL));
}

#[test]
fn pair_entries_aggregate_at_first_pair_position() {
    let out = xml_unparse(&doc(
        "r",
        Value::List(vec![
            Entry::Pair("node".to_string(), mapping(vec![("@id", Value::Int(1))])),
            Entry::Pair("way".to_string(), mapping(vec![("@id", Value::Int(2))])),
        ]),
    ))
    .unwrap();
    assert_eq!(
        out,
        format!("{}<r><node id=\"1\"/><way id=\"2\"/></r>\n", DECL)
    );
}

#[test]
fn empty_sequence_serializes_nothing() {
    let out = xml_unparse(&doc("r", Value::List(Vec::new()))).unwrap();
    // The root element serialized to nothing, so no trailing newline either.
    assert_eq!(out, DECL);
}

#[test]
fn declaration_line_is_fixed() {
    let out = xml_unparse(&doc("r", Value::Int(1))).unwrap();
    assert!(out.starts_with("<?xml version='1.0' encoding='UTF-8'?>\n"));
    assert!(out.ends_with("\n"));
}
