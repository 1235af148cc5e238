use unidpp_projector::decimal::Decimal;
use unidpp_projector::fixtures::{self, consumer_lens, eu_lens, fixture_lens, jp_lens, pack_lens};
use unidpp_projector::json::{Json, JsonObject};
use unidpp_projector::lens::{
    no_capability_gate, no_trust_floor, ClassBand, DataPointBinding, FormattingRules, LensManifest,
    PresentationElement, TransformBinding, UnitPosition,
};
use unidpp_projector::aggregate::AggregationOperation;
use unidpp_projector::model::{
    CapabilityClass, DataPointRef, Interval, ProfileManifest, TrustMarker,
};
use unidpp_projector::strmap::StrMap;
use unidpp_projector::time::Timestamp;

fn binding(element: &str, source: &str) -> DataPointBinding {
    DataPointBinding {
        element: element.into(),
        source: source.into(),
        min_trust: TrustMarker::Unsigned,
        min_capability: CapabilityClass::Silent,
        declared_unit: None,
    }
}

fn minimal_lens() -> LensManifest {
    LensManifest {
        version: "1.0.0".into(),
        profile: ProfileManifest {
            id: "urn:unidpp:profile:test-min".into(),
            axes: "EU".into(),
            trigger: "any".into(),
            min_capability: CapabilityClass::Silent,
            freshness: "static".into(),
            effective: Interval::starting(Timestamp::from_secs(0)),
            data_points: vec![DataPointRef::new("ferin:eu", "a", Some("1"))],
            resolution: "public".into(),
            refusal: None,
        },
        bindings: vec![binding("ferin:eu/a@1", "fact.a")],
        transforms: vec![],
        presentation: None,
    }
}

fn classification(id: &str, bands: Vec<ClassBand>) -> TransformBinding {
    TransformBinding::Classification {
        id: id.into(),
        source: "fact.a".into(),
        bands,
    }
}

fn band(label: &str, min: &str) -> ClassBand {
    ClassBand {
        label: label.into(),
        min: Decimal::parse(min).unwrap(),
    }
}

#[test]
fn bindings_default_to_no_floor_and_no_gate() {
    assert_eq!(no_trust_floor(), TrustMarker::Unsigned);
    assert_eq!(no_capability_gate(), CapabilityClass::Silent);
    assert_eq!(no_trust_floor().text(), "unsigned");
    let rules = FormattingRules::default();
    assert_eq!(rules.unit_position, UnitPosition::Suffix);
    assert_eq!(rules.fallback_lang, "en");
}

#[test]
fn transform_tagging_and_unit_items() {
    let jp = jp_lens();
    let conv = jp
        .transforms
        .iter()
        .find(|t| t.id() == "capacity-mj")
        .unwrap();
    match conv {
        TransformBinding::UnitConversion { .. } => {}
        other => panic!("expected unit conversion, got {other:?}"),
    }
    assert_eq!(conv.unit_items(), vec!["unit-kwh", "unit-mj"]);
    let class = jp
        .transforms
        .iter()
        .find(|t| t.id() == "jp-reparability-class")
        .unwrap();
    assert!(class.unit_items().is_empty());
}

#[test]
fn validate_rejects_unbound_data_point() {
    let mut lens = minimal_lens();
    lens.bindings.clear();
    let err = lens.validate().unwrap_err();
    assert!(err.contains("has no binding"), "{err}");
}

#[test]
fn validate_rejects_orphan_and_duplicate_bindings() {
    let mut lens = minimal_lens();
    lens.bindings.push(binding("ferin:eu/ghost@9", "fact.ghost"));
    let err = lens.validate().unwrap_err();
    assert!(err.contains("not a data point"), "{err}");

    let mut lens = minimal_lens();
    lens.bindings.push(binding("ferin:eu/a@1", "fact.a"));
    let err = lens.validate().unwrap_err();
    assert!(err.contains("bound more than once"), "{err}");
}

#[test]
fn validate_rejects_duplicate_transform_ids_and_bad_tables() {
    let mut lens = minimal_lens();
    lens.transforms = vec![
        classification("dup", vec![band("A", "1")]),
        classification("dup", vec![]),
    ];
    let err = lens.validate().unwrap_err();
    assert!(err.contains("duplicate transform id"), "{err}");

    lens.transforms.truncate(1);
    lens.transforms[0] = classification("ok-id", vec![]);
    let err = lens.validate().unwrap_err();
    assert!(err.contains("no bands"), "{err}");
}

fn item(class: &str, manifest: bool) -> Json {
    let mut m = JsonObject::new();
    m.put("identifier", "urn:unidpp:profile:eu-espr-electronics");
    m.put("item_class", class);
    if manifest {
        m.put_obj("manifest", JsonObject::new());
    }
    Json::Obj(m)
}

#[test]
fn from_item_requires_manifest_and_profile_class() {
    assert!(LensManifest::from_item(&item("profile", true), Ok(eu_lens())).is_ok());

    let err = LensManifest::from_item(&item("profile", false), Ok(eu_lens())).unwrap_err();
    assert!(err.contains("carries no manifest"), "{err}");

    let unit_item = Json::parse(r#"{"identifier": "unit-kwh", "item_class": "unit"}"#).unwrap();
    let err = LensManifest::from_item(&unit_item, Ok(eu_lens())).unwrap_err();
    assert!(err.contains("not a profile item"), "{err}");
}

#[test]
fn from_item_refuses_what_does_not_read_or_does_not_validate() {
    let err =
        LensManifest::from_item(&item("profile", true), Err("missing field".into())).unwrap_err();
    assert_eq!(err, "lens manifest does not parse: missing field");
    let mut lens = minimal_lens();
    lens.bindings.clear();
    let err = LensManifest::from_item(&item("profile", true), Ok(lens)).unwrap_err();
    assert!(err.contains("has no binding"), "{err}");
}

#[test]
fn registration_body_pins_the_manifest_version() {
    let lens = jp_lens();
    let mut manifest = JsonObject::new();
    manifest.put("version", &lens.version);
    let body = Json::Obj(lens.registration_body(
        "ferin:jp",
        "JP METI PSE lens",
        Json::Obj(manifest),
    ));
    assert_eq!(
        body.get_str("item_id"),
        Some("urn:unidpp:profile:jp-meti-pse")
    );
    assert_eq!(body.get_str("version"), Some("1.0.0"));
    let manifest = body.get("manifest").unwrap();
    assert_eq!(manifest.get_str("version"), Some("1.0.0"));
    assert_eq!(
        body.get_str("effective_from"),
        Some(lens.profile.effective.from.to_text().as_str())
    );
}

#[test]
fn fixture_lenses_validate() {
    eu_lens().validate().unwrap();
    jp_lens().validate().unwrap();
    assert_eq!(
        fixtures::eu_lens().id(),
        "urn:unidpp:profile:eu-espr-electronics"
    );
    assert!(fixture_lens("urn:unidpp:profile:nope").is_none());
    assert!(fixture_lens("urn:unidpp:profile:eu-espr-electronics").is_some());
}

#[test]
fn validated_lenses_bind_each_element_once() {
    for lens in [eu_lens(), jp_lens(), consumer_lens(), pack_lens()] {
        for point in &lens.profile.data_points {
            let element = point.text();
            let binding = lens.binding_for(&element).unwrap();
            assert_eq!(binding.element, element);
            assert_eq!(
                lens.bindings.iter().filter(|b| b.element == element).count(),
                1
            );
        }
    }
    assert!(eu_lens().binding_for("ferin:eu/ghost@9").is_none());
}

#[test]
fn validate_rejects_a_presented_element_that_is_not_required() {
    let mut lens = consumer_lens();
    lens.presentation.as_mut().unwrap().sections[0]
        .elements
        .push(PresentationElement {
            element: "ferin:eu/ghost@9".into(),
            labels: StrMap::new(),
        });
    assert!(lens.validate().unwrap_err().contains("ferin:eu/ghost@9"));
}

#[test]
fn validate_rejects_rollups_without_method_weight_or_bound_input() {
    let rollup = |operation, input: &str, weight: Option<&str>, method: &str| {
        let mut lens = minimal_lens();
        lens.transforms = vec![TransformBinding::Aggregation {
            id: "sum".into(),
            operation,
            input_element: input.into(),
            weight_element: weight.map(str::to_string),
            method_citation: method.into(),
        }];
        lens.validate()
    };
    assert!(rollup(AggregationOperation::Sum, "ferin:eu/a@1", None, "ISO 14067").is_ok());
    assert!(rollup(AggregationOperation::Sum, "ferin:eu/a@1", None, " ").is_err());
    assert!(rollup(AggregationOperation::Sum, "ferin:eu/b@1", None, "ISO 14067").is_err());
    assert!(
        rollup(AggregationOperation::WeightedAverage, "ferin:eu/a@1", None, "ISO 14067").is_err()
    );
}

#[test]
fn validate_requires_a_version_pin() {
    let mut lens = minimal_lens();
    lens.version = " ".into();
    assert!(lens.validate().unwrap_err().contains("lacks a version pin"));
}
