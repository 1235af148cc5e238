use unidpp_projector::json::Json;
use unidpp_projector::registry::{subregister, FetchOutcome, RegistryClient, Reply};

#[test]
fn outcome_tokens_and_fallback() {
    assert_eq!(FetchOutcome::Fixtures.as_str(), "fixtures");
    assert!(FetchOutcome::Fixtures.is_fixture_fallback());
    let down = FetchOutcome::Unreachable("boom".into());
    assert!(down.is_fixture_fallback());
    assert_eq!(down.to_text(), "unreachable: boom");
    assert_eq!(FetchOutcome::Missing.as_str(), "missing");
    assert!(!FetchOutcome::Missing.is_fixture_fallback());
    assert!(!FetchOutcome::Registry(Json::Null).is_fixture_fallback());
}

#[test]
fn no_base_means_fixtures() {
    let client = RegistryClient::new(None, None);
    assert_eq!(client.base(), None);
    assert_eq!(
        client.item_url(subregister::PROFILES, "urn:unidpp:profile:x", None),
        None
    );
    let out = client
        .outcome("urn:unidpp:profile:x", &Reply::Failed("not asked".into()))
        .unwrap();
    assert_eq!(out, FetchOutcome::Fixtures);
}

#[test]
fn unreachable_registry_degrades() {
    let client = RegistryClient::new(Some("http://127.0.0.1:1".into()), None);
    let out = client
        .outcome("unit-kwh", &Reply::Failed("connection refused".into()))
        .unwrap();
    assert_eq!(
        out,
        FetchOutcome::Unreachable("registry not reachable: connection refused".into())
    );
}

fn answered(status: u16, body: &str) -> Result<FetchOutcome, String> {
    let client = RegistryClient::new(Some("http://registry".into()), Some("t".into()));
    assert_eq!(client.bearer(), Some("t"));
    client.outcome(
        "item-1",
        &Reply::Answered {
            status,
            body: body.into(),
        },
    )
}

#[test]
fn live_answers_stand() {
    let item = answered(200, r#"{"identifier": "item-1", "n": 3, "ok": true, "x": [null, 1.5, -2]}"#);
    match item.unwrap() {
        FetchOutcome::Registry(doc) => {
            assert_eq!(doc.get_str("identifier"), Some("item-1"));
            assert_eq!(doc.get("n").unwrap().as_u64(), Some(3));
            assert_eq!(doc.get("ok").unwrap().as_bool(), Some(true));
            let x = doc.get("x").unwrap().as_array().unwrap();
            assert_eq!(x[0], Json::Null);
            assert_eq!(x[1], Json::Real("1.5".into()));
            assert_eq!(x[2], Json::Real("-2".into()));
        }
        other => panic!("expected the item, got {other:?}"),
    }
    assert_eq!(answered(404, "gone").unwrap(), FetchOutcome::Missing);
    assert_eq!(
        answered(500, "boom").unwrap_err(),
        "registry rejected the read of `item-1` (500): boom"
    );
    let err = answered(200, "{").unwrap_err();
    assert!(
        err.starts_with("registry item `item-1` is not valid JSON: "),
        "{err}"
    );
}

#[test]
fn item_urls_are_point_in_time() {
    let client = RegistryClient::new(Some("http://registry:8090//".into()), None);
    assert_eq!(
        client.item_url(subregister::UNITS, "unit-kwh", None).unwrap(),
        format!("http://registry:8090/{}/unit-kwh", subregister::UNITS)
    );
    assert_eq!(
        client
            .item_url(subregister::PROFILES, "urn:p/ü", Some("2027-02-11T11:00:00Z"))
            .unwrap(),
        format!(
            "http://registry:8090/{}/urn%3Ap%2F%C3%BC?at=2027-02-11T11%3A00%3A00Z",
            subregister::PROFILES
        )
    );
}

#[test]
fn bad_registry_url_is_an_error() {
    let client = RegistryClient::new(Some("not a url".into()), None);
    let err = client
        .item_request(subregister::PROFILES, "x", None)
        .unwrap_err();
    assert!(err.starts_with("bad registry URL `not a url/profiles/x`: "), "{err}");
    let none = RegistryClient::new(None, None);
    assert_eq!(none.item_request(subregister::PROFILES, "x", None), Ok(None));
    let good = RegistryClient::new(Some("http://registry:8090".into()), None);
    let url = good
        .item_request(subregister::PROFILES, "x", None)
        .unwrap()
        .unwrap();
    assert_eq!(url.authority, "registry:8090");
    assert_eq!(url.target, "/profiles/x");
}
