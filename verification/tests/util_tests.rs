use xmldoc::chars::str_eq;
use xmldoc::coerce::coerce;
use xmldoc::elemid::element_id_from_typed_id;
use xmldoc::elemid::split_typed_element_id;
use xmldoc::elemid::split_typed_element_ids;
use xmldoc::elemid::type_num_from_typed_id;
use xmldoc::elemid::typed_element_id;
use xmldoc::elemid::versioned_typed_element_id;
use xmldoc::elemid::ElemIdError;
use xmldoc::err::XmlError;
use xmldoc::escape::escape_attr;
use xmldoc::escape::escape_text;
use xmldoc::num::is_float_literal;
use xmldoc::num::parse_i64;
use xmldoc::num::u64_digits;
use xmldoc::randbuf::encode_base64url;
use xmldoc::randbuf::BufferedRand;
use xmldoc::randbuf::RandError;
use xmldoc::dates::parse_iso;
use xmldoc::dates::parse_spaced;
use xmldoc::value::Timestamp;
use xmldoc::value::Value;
use xmldoc::value::Zone;
use xmldoc::xattr::xattr_json;
use xmldoc::xattr::xattr_xml;

fn chars(s: &str) -> Vec<char> {
    s.chars().collect()
}

#[test]
fn escape_text_handles_specials() {
    assert_eq!(escape_text("a&b<c>d\"e"), "a&amp;b&lt;c&gt;d\"e");
}

#[test]
fn escape_attr_also_handles_quote() {
    assert_eq!(escape_attr("a&b<c>d\"e"), "a&amp;b&lt;c&gt;d&quot;e");
}

#[test]
fn escape_is_noop_without_specials() {
    assert_eq!(escape_text("plain text 123"), "plain text 123");
    assert_eq!(escape_attr("plain text 123"), "plain text 123");
}

#[test]
fn escape_is_idempotent_without_specials() {
    let once = escape_text("plain");
    let twice = escape_text(&once);
    assert_eq!(once, twice);
}

#[test]
fn parse_i64_accepts_signs_and_leading_zeros() {
    assert_eq!(parse_i64(&chars("0042")), Some(42));
    assert_eq!(parse_i64(&chars("+7")), Some(7));
    assert_eq!(parse_i64(&chars("-9223372036854775808")), Some(i64::MIN));
    assert_eq!(parse_i64(&chars("9223372036854775807")), Some(i64::MAX));
}

#[test]
fn parse_i64_rejects_junk_and_overflow() {
    assert_eq!(parse_i64(&chars("")), None);
    assert_eq!(parse_i64(&chars("-")), None);
    assert_eq!(parse_i64(&chars("1 2")), None);
    assert_eq!(parse_i64(&chars("9223372036854775808")), None);
    assert_eq!(parse_i64(&chars("-9223372036854775809")), None);
}

#[test]
fn float_literal_grammar_matches_from_str() {
    for good in ["1", "1.5", ".5", "5.", "-1e9", "+2.5E-3", "inf", "-Infinity", "NaN"] {
        assert!(is_float_literal(&chars(good)), "{}", good);
        assert!(good.parse::<f64>().is_ok(), "{}", good);
    }
    for bad in ["", ".", "e5", "1e", "1.5.2", "0x1", " 1", "1 "] {
        assert!(!is_float_literal(&chars(bad)), "{}", bad);
        assert!(bad.parse::<f64>().is_err(), "{}", bad);
    }
}

#[test]
fn u64_digits_prints_decimal() {
    let ds: String = u64_digits(120450).into_iter().collect();
    assert_eq!(ds, "120450");
}

#[test]
fn parse_iso_variants() {
    assert_eq!(
        parse_iso(&chars("2021-01-02")),
        Some(Timestamp {
            year: 2021,
            month: 1,
            day: 2,
            hour: 0,
            minute: 0,
            second: 0,
            micro: 0,
            zone: Zone::Naive,
        })
    );
    assert_eq!(
        parse_iso(&chars("2021-01-02T03:04:05+02:30")),
        Some(Timestamp {
            year: 2021,
            month: 1,
            day: 2,
            hour: 3,
            minute: 4,
            second: 5,
            micro: 0,
            zone: Zone::Offset(150),
        })
    );
    assert_eq!(
        parse_iso(&chars("2021-01-02T03:04:05.5Z")).map(|t| t.micro),
        Some(500000)
    );
    assert_eq!(parse_iso(&chars("2021-13-02")), None);
    assert_eq!(parse_iso(&chars("2021-01-02T25:00:00Z")), None);
    assert_eq!(parse_iso(&chars("2021-01-02 03:04:05")), None);
}

#[test]
fn parse_spaced_variants() {
    assert_eq!(
        parse_spaced(&chars("2021-01-02 03:04:05")).map(|t| t.zone),
        Some(Zone::Naive)
    );
    assert_eq!(
        parse_spaced(&chars("2021-01-02 03:04:05 UTC")).map(|t| t.zone),
        Some(Zone::Offset(0))
    );
    assert_eq!(parse_spaced(&chars("2021-01-02T03:04:05")), None);
}

#[test]
fn coercion_table_spot_checks() {
    assert_eq!(coerce("ref", "17"), Ok(Value::Int(17)));
    assert_eq!(coerce("ele", "12.5"), Ok(Value::Float("12.5".to_string())));
    assert_eq!(coerce("anything", "12.5"), Ok(Value::Str("12.5".to_string())));
    assert_eq!(
        coerce("pending", "yes"),
        Err(XmlError::InvalidFormat("pending".to_string(), "yes".to_string()))
    );
}

#[test]
fn typed_element_id_packs_and_unpacks() {
    let node = typed_element_id("node", 42).unwrap();
    assert_eq!(type_num_from_typed_id(node), 0);
    assert_eq!(element_id_from_typed_id(node), 42);

    let way = typed_element_id("way", -7).unwrap();
    assert_eq!(type_num_from_typed_id(way), 1);
    assert_eq!(element_id_from_typed_id(way), -7);

    let rel = typed_element_id("relation", 1).unwrap();
    let (name, id) = split_typed_element_id(rel as i64).unwrap();
    assert_eq!(name, "relation");
    assert_eq!(id, 1);
}

#[test]
fn typed_element_id_rejects_wide_ids() {
    assert_eq!(
        typed_element_id("node", i64::MAX),
        Err(ElemIdError::IdOutOfRange)
    );
    assert_eq!(typed_element_id("", 1), Err(ElemIdError::EmptyType));
    assert_eq!(typed_element_id("area", 1), Err(ElemIdError::UnsupportedType));
}

#[test]
fn split_typed_element_ids_maps_each() {
    let a = typed_element_id("node", 3).unwrap() as i64;
    let b = typed_element_id("way", -4).unwrap() as i64;
    let got = split_typed_element_ids(&vec![a, b]).unwrap();
    assert_eq!(got, vec![("node".to_string(), 3), ("way".to_string(), -4)]);
}

#[test]
fn versioned_reference_parses() {
    let tn = typed_element_id("node", 12).unwrap();
    assert_eq!(versioned_typed_element_id("node", " 12v3 "), Ok((tn, 3)));
}

#[test]
fn versioned_reference_rejections() {
    assert_eq!(
        versioned_typed_element_id("node", ""),
        Err(ElemIdError::InvalidReference)
    );
    assert_eq!(
        versioned_typed_element_id("node", "12"),
        Err(ElemIdError::InvalidReference)
    );
    assert_eq!(
        versioned_typed_element_id("node", "0v1"),
        Err(ElemIdError::ZeroId)
    );
    assert_eq!(
        versioned_typed_element_id("node", "1v0"),
        Err(ElemIdError::NonPositiveVersion)
    );
}

#[test]
fn base64url_known_vectors() {
    assert_eq!(encode_base64url(&vec![], None), "");
    assert_eq!(encode_base64url(&vec![0, 0, 0], None), "AAAA");
    assert_eq!(encode_base64url(&b"Man".to_vec(), None), "TWFu");
    assert_eq!(encode_base64url(&b"Ma".to_vec(), None), "TWE");
    assert_eq!(encode_base64url(&b"M".to_vec(), None), "TQ");
    assert_eq!(encode_base64url(&vec![251, 255], None), "-_8");
    assert_eq!(encode_base64url(&b"Man".to_vec(), Some(".key")), "TWFu.key");
}

#[test]
fn buffered_rand_hands_out_requested_sizes() {
    let mut r = BufferedRand::new();
    let a = r.take(16).unwrap();
    assert_eq!(a.len(), 16);
    let b = r.take(8192).unwrap();
    assert_eq!(b.len(), 8192);
    assert_eq!(r.take(8193), Err(RandError::TooManyBytes));
    let tok = r.rand_urlsafe(6).unwrap();
    assert_eq!(tok.len(), 8);
    let key = r.rand_storage_key(".k").unwrap();
    assert_eq!(key.len(), 22 + 2);
    assert!(key.ends_with(".k"));
}

#[test]
fn xattr_shapes() {
    assert_eq!(xattr_json("name".to_string(), None), "name");
    assert_eq!(xattr_json("name".to_string(), Some("other")), "name");
    assert_eq!(xattr_xml("name", None), "@name");
    assert_eq!(xattr_xml("name", Some("other")), "@other");
}

#[test]
fn str_eq_compares_by_characters() {
    assert!(str_eq("abc", "abc"));
    assert!(!str_eq("abc", "abd"));
    assert!(!str_eq("abc", "ab"));
}
