use unidpp_projector::decimal::{Decimal, DecimalError};
use unidpp_projector::json::{Json, JsonObject};
use unidpp_projector::model::{
    CapabilityClass, DataPointRef, Interval, TrustMarker,
};
use unidpp_projector::strmap::StrMap;
use unidpp_projector::text;
use unidpp_projector::time::Timestamp;
use unidpp_projector::units::{Unit, UnitRegistry};

fn d(s: &str) -> Decimal {
    Decimal::parse(s).unwrap()
}

#[test]
fn decimals_are_exact_and_canonical() {
    assert_eq!(d("0.1").add(&d("0.2")).unwrap().to_text(), "0.3");
    assert_eq!(d("1.5").sub(&d("2")).unwrap().to_text(), "-0.5");
    assert_eq!(d("-1.5").mul(&d("0.2")).unwrap().to_text(), "-0.3");
    assert_eq!(d("85.00"), d("85"));
    assert!(d("85.00").equal(&d("85")));
    assert!(d("-1").less(&d("-0.5")));
    assert!(!d("2").less(&d("2.0")));
    assert!(d("0").is_zero());
    assert!(d("-0.5").is_negative());
    assert_eq!(Decimal::zero().to_text(), "0");
}

#[test]
fn decimal_texts_read_back() {
    for s in ["0", "0.072", "-84.45", "1000", "96.4"] {
        assert_eq!(d(s).to_text(), s);
        assert_eq!(d(&d(s).to_text()), d(s));
    }
}

#[test]
fn what_is_no_decimal_is_refused() {
    for s in ["", "-", ".", "a", "1.2.3", "1 2", "--1", "∅"] {
        assert_eq!(Decimal::parse(s), Err(DecimalError::Malformed), "{s}");
    }
    let nines = "9".repeat(60);
    assert_eq!(Decimal::parse(&nines), Err(DecimalError::OutOfDomain));
    let big = d("123456789012345678901234567890");
    assert_eq!(big.mul(&big), Err(DecimalError::OutOfDomain));
    assert_eq!(Decimal::new(1, 1_000_000), Err(DecimalError::OutOfDomain));
    assert_eq!(Decimal::new(1500, -3).unwrap().to_text(), "1.5");
}

#[test]
fn instants_are_rfc_3339_in_utc() {
    let t = Timestamp::parse("2027-02-11T11:00:00Z").unwrap();
    assert_eq!(t.secs, 1_802_343_600);
    assert_eq!(t.to_text(), "2027-02-11T11:00:00Z");
    assert_eq!(Timestamp::from_secs(0).to_text(), "1970-01-01T00:00:00Z");
    assert_eq!(
        Timestamp::parse("2024-02-29T23:59:59Z").unwrap().to_text(),
        "2024-02-29T23:59:59Z"
    );
    // Any zone, any fraction: the whole second in UTC.
    for same in [
        "2027-02-11T12:00:00+01:00",
        "2027-02-11T05:30:00-05:30",
        "2027-02-11T11:00:00.0Z",
        "2027-02-11T11:00:00.999999999Z",
        "2027-02-11t11:00:00z",
        "2027-02-11T11:00:00-00:00",
        "2027-02-12T00:00:00.25+13:00",
    ] {
        assert_eq!(Timestamp::parse(same), Some(t), "{same}");
    }
    // A leap second stands before the first of a month, in UTC.
    assert_eq!(
        Timestamp::parse("2016-12-31T23:59:60Z"),
        Timestamp::parse("2017-01-01T00:00:00Z")
    );
    assert_eq!(
        Timestamp::parse("2017-01-01T08:59:60+09:00"),
        Timestamp::parse("2017-01-01T00:00:00Z")
    );
    for bad in [
        "2023-02-29T00:00:00Z",
        "2027-13-01T00:00:00Z",
        "2027-02-11T11:00:00",
        "2027-02-11T11:00:00.Z",
        "2027-02-11T11:00:00+24:00",
        "2027-02-11T11:00:00+01:60",
        "2027-02-11T11:00:00+0100",
        "2027-02-11T11:00:60Z",
        "2027-02-11T11:00:00Zx",
        "2027-02-11 11:00:00Z",
        "soon",
        "",
    ] {
        assert_eq!(Timestamp::parse(bad), None, "{bad}");
    }
    assert!(Timestamp::from_secs(1).at_or_before(&Timestamp::from_secs(1)));
}

#[test]
fn intervals_are_half_open() {
    let closed = Interval {
        from: Timestamp::from_secs(10),
        to: Some(Timestamp::from_secs(20)),
    };
    assert!(closed.contains(Timestamp::from_secs(10)));
    assert!(!closed.contains(Timestamp::from_secs(20)));
    assert!(!closed.contains(Timestamp::from_secs(9)));
    assert!(Interval::starting(Timestamp::from_secs(10)).contains(Timestamp::from_secs(1 << 40)));
}

#[test]
fn grades_and_classes_are_ordered() {
    assert!(TrustMarker::MultiSigned.meets(TrustMarker::Attested));
    assert!(TrustMarker::Attested.meets(TrustMarker::Attested));
    assert!(!TrustMarker::Unsigned.meets(TrustMarker::SelfDeclared));
    assert!(CapabilityClass::Silent.rank() < CapabilityClass::PassiveAuth.rank());
    assert!(CapabilityClass::PassiveAuth.rank() < CapabilityClass::Connected.rank());
    assert_eq!(
        DataPointRef::new("ferin:eu", "a", Some("1")).text(),
        "ferin:eu/a@1"
    );
    assert_eq!(DataPointRef::new("ferin:eu", "a", None).text(), "ferin:eu/a");
}

#[test]
fn maps_keep_their_keys_in_order() {
    let mut m = StrMap::new();
    for (k, v) in [("b", 2), ("a", 1), ("ab", 3), ("b", 4)] {
        m.insert(k.to_string(), v);
    }
    let keys: Vec<&str> = (0..m.len()).map(|i| m.key(i).as_str()).collect();
    assert_eq!(keys, vec!["a", "ab", "b"]);
    assert_eq!(m.get("b"), Some(&4));
    m.remove("ab");
    assert_eq!(m.get("ab"), None);
    assert_eq!(m.len(), 2);
}

#[test]
fn documents_hold_the_last_value_of_a_key() {
    let mut m = JsonObject::new();
    m.put("a", "x");
    m.put_num("a", 3);
    m.put_bool("b", true);
    m.put_opt("c", &None);
    m.put_opt("d", &Some("y".to_string()));
    assert_eq!(m.get("a"), Some(&Json::Num(3)));
    assert_eq!(m.get("c"), Some(&Json::Null));
    assert_eq!(m.get("d"), Some(&Json::text("y")));
    let mut inner = JsonObject::new();
    inner.put("k", "old");
    m.put_obj("inner", inner);
    m.put_into("inner", "k", "new");
    m.put_into("absent", "k", "v");
    assert_eq!(m.get("inner").unwrap().get_str("k"), Some("new"));
    assert_eq!(m.get("absent"), None);
    // Walking the members in order, the last under a key counting, gives the
    // object.
    let mut walked = std::collections::BTreeMap::new();
    for i in 0..m.written() {
        let (k, v) = m.member(i);
        walked.insert(k.clone(), v.copy());
    }
    assert_eq!(walked.len(), 5);
    assert_eq!(walked["a"], Json::Num(3));
    assert_eq!(walked["inner"].get_str("k"), Some("new"));
}

#[test]
fn documents_parse_with_their_types() {
    let doc = Json::parse(r#"{"s": "tü", "n": 18446744073709551615, "f": 1e2, "l": [true, null]}"#);
    let doc = doc.unwrap();
    assert_eq!(doc.get_str("s"), Some("tü"));
    assert_eq!(doc.get("n").unwrap().as_u64(), Some(u64::MAX));
    assert_eq!(doc.get("f").unwrap().as_u64(), None);
    let l = doc.get("l").unwrap().as_array().unwrap();
    assert_eq!(l[0].as_bool(), Some(true));
    assert_eq!(l[1], Json::Null);
    assert_eq!(doc.field(0, "s").unwrap().as_str(), Some("tü"));
    assert_eq!(doc.field(0, "missing"), None);
    assert_eq!(doc.get("l").unwrap().field(1, "s"), Some(&Json::Null));
    assert_eq!(doc.get("l").unwrap().copy(), *doc.get("l").unwrap());
}

#[test]
fn texts_trim_fold_and_join() {
    assert_eq!(text::trim(" \u{a0}a b\u{3000}\n"), "a b");
    assert_eq!(text::lowercase("AbÇ"), "abÇ");
    assert!(text::blank(" \t"));
    assert!(text::starts_with("urn:x", "urn:"));
    assert!(text::before("a", "ab"));
    assert!(!text::before("b", "ab"));
    assert_eq!(
        text::join(&vec!["a".to_string(), "b".to_string()], ", "),
        "a, b"
    );
    assert_eq!(text::number_text(0), "0");
    assert_eq!(text::number_text(1_000_203), "1000203");
}

#[test]
fn conversions_are_exact_or_refused() {
    let unit = |symbol: &str, dimension: &str, factor: &str| Unit {
        symbol: symbol.into(),
        dimension: dimension.into(),
        factor: d(factor),
    };
    let registry = UnitRegistry {
        units: vec![unit("h", "time", "3600"), unit("s", "time", "1"), unit("m", "length", "1")],
    };
    assert_eq!(registry.convert(&d("1.5"), "h", "s").unwrap().to_text(), "5400");
    assert_eq!(registry.convert(&d("900"), "s", "h").unwrap().to_text(), "0.25");
    assert!(registry.convert(&d("1"), "s", "h").is_none());
    assert!(registry.convert(&d("1"), "s", "m").is_none());
    assert!(registry.unit("min").is_none());
}
