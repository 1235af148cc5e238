use unidpp_projector::aggregate::{AggregationOperation, ChildDocuments};
use unidpp_projector::codelist::MappingSet;
use unidpp_projector::decimal::Decimal;
use unidpp_projector::fixtures::{
    facts, fixture_mappings, fixture_primmel, fixture_unit_registry, fixture_units, pack_children,
    pack_lens, pack_system, EU_CLASS_TO_JP_STAR_ID, JP_STAR_TO_EU_CLASS_ID, PACK_CHILD_IDS,
};
use unidpp_projector::json::{Json, JsonObject};
use unidpp_projector::lens::{ClassBand, DataPointBinding, LensManifest, TransformBinding};
use unidpp_projector::model::{
    CapabilityClass, DataPointRef, EventPayload, Interval, Passport, ProfileManifest, SealedEvent,
    TrustMarker, TypedEvent,
};
use unidpp_projector::primmel::PackageSet;
use unidpp_projector::project::{
    classify, project, CoreFindings, MissingReason, ProfileSource, ViewError,
};
use unidpp_projector::strmap::StrMap;
use unidpp_projector::time::Timestamp;

fn at() -> Timestamp {
    Timestamp::from_secs(1_800_000_000)
}

fn d(s: &str) -> Decimal {
    Decimal::parse(s).unwrap()
}

fn counters(pairs: &[(&str, &str)]) -> EventPayload {
    let mut counters = StrMap::new();
    for (k, v) in pairs {
        counters.insert(k.to_string(), d(v));
    }
    EventPayload::MilestoneRecord { counters }
}

fn correction(field: &str, new_value: &str) -> EventPayload {
    EventPayload::Correction {
        field: field.into(),
        prior_value: String::new(),
        new_value: new_value.into(),
        reason: "test".into(),
    }
}

fn event_at(seq: u64, secs: i64, payload: EventPayload, trust: TrustMarker) -> SealedEvent {
    SealedEvent {
        event: TypedEvent {
            seq,
            occurred_at: Timestamp::from_secs(secs),
            actor_role: "economic operator".into(),
            actor_id: "urn:unidpp:actor:test".into(),
            payload,
            trust,
        },
        state_hash: format!("{seq:04x}").repeat(16),
    }
}

fn event(seq: u64, payload: EventPayload, trust: TrustMarker) -> SealedEvent {
    event_at(seq, 1_700_000_000 + seq as i64, payload, trust)
}

fn passport_with(capability: CapabilityClass, log: Vec<SealedEvent>) -> Passport {
    Passport {
        passport_id: "urn:unidpp:passport:test-subject".into(),
        product_id: "gtin:4006381333931".into(),
        capability,
        validity: Interval::starting(Timestamp::from_secs(0)),
        log,
    }
}

/// A rich passport: an attested milestone (score, capacity), an unsigned
/// correction (weak fact).
fn rich_passport() -> Passport {
    passport_with(
        CapabilityClass::PassiveAuth,
        vec![
            event(
                0,
                counters(&[("score", "8.1"), ("capacity-kwh", "5"), ("low-grade", "3.9")]),
                TrustMarker::Attested,
            ),
            event(1, correction("weak", "weak-value"), TrustMarker::Unsigned),
        ],
    )
}

fn lens_with(bindings: Vec<DataPointBinding>, transforms: Vec<TransformBinding>) -> LensManifest {
    LensManifest {
        version: "1.0.0".into(),
        profile: ProfileManifest {
            id: "urn:unidpp:profile:test".into(),
            axes: "EU".into(),
            trigger: "any".into(),
            min_capability: CapabilityClass::Silent,
            freshness: "static".into(),
            effective: Interval::starting(Timestamp::from_secs(0)),
            data_points: bindings.iter().map(|b| data_point_of(&b.element)).collect(),
            resolution: "public".into(),
            refusal: None,
        },
        bindings,
        transforms,
        presentation: None,
    }
}

/// The data-point reference whose canonical string is `element`
/// (`register/item@version`).
fn data_point_of(element: &str) -> DataPointRef {
    let (reg_item, version) = element.rsplit_once('@').expect("element carries @version");
    let (register, item) = reg_item.split_once('/').expect("element carries register/");
    DataPointRef {
        register: register.to_string(),
        item: item.to_string(),
        version: Some(version.to_string()),
    }
}

fn binding(element: &str, source: &str) -> DataPointBinding {
    DataPointBinding {
        element: element.into(),
        source: source.into(),
        min_trust: TrustMarker::Unsigned,
        min_capability: CapabilityClass::Silent,
        declared_unit: None,
    }
}

fn root() -> String {
    "5e".repeat(32)
}

fn project_with(
    passport: &Passport,
    lens: &LensManifest,
    at: Timestamp,
    actor: &str,
    packages: &PackageSet,
    mappings: &MappingSet,
    children: &ChildDocuments,
) -> Result<JsonObject, ViewError> {
    project(
        passport,
        lens,
        at,
        actor,
        &StrMap::new(),
        &ProfileSource::registry(),
        packages,
        mappings,
        children,
        &fixture_unit_registry(),
        &CoreFindings {
            trigger_holds: true,
            input_set_root: root(),
            attestations: StrMap::new(),
        },
    )
}

fn render(passport: &Passport, lens: &LensManifest) -> Json {
    Json::Obj(
        project_with(
            passport,
            lens,
            at(),
            "market-surveillance-authority",
            &fixture_primmel(),
            &MappingSet::empty(),
            &ChildDocuments::empty(),
        )
        .unwrap(),
    )
}

fn get<'a>(doc: &'a Json, pointer: &str) -> &'a Json {
    let mut v = doc;
    for key in pointer.split('.') {
        v = match v.as_array() {
            Some(items) => &items[key.parse::<usize>().unwrap()],
            None => v.get(key).unwrap_or_else(|| panic!("no `{key}` on {pointer}")),
        };
    }
    v
}

fn text<'a>(doc: &'a Json, pointer: &str) -> &'a str {
    get(doc, pointer).as_str().unwrap()
}

fn number(doc: &Json, pointer: &str) -> u64 {
    get(doc, pointer).as_u64().unwrap()
}

fn truth(doc: &Json, pointer: &str) -> bool {
    get(doc, pointer).as_bool().unwrap()
}

fn list<'a>(doc: &'a Json, pointer: &str) -> &'a Vec<Json> {
    get(doc, pointer).as_array().unwrap()
}

/// A one-binding lens with the fixture Primmel package available (the
/// guard-band rule of the demo corpus).
fn primmel_lens(package_ref: &str, rule_id: &str, pairs: Vec<(&str, &str)>) -> LensManifest {
    let mut inputs = StrMap::new();
    for (k, v) in pairs {
        inputs.insert(k.to_string(), v.to_string());
    }
    lens_with(
        vec![binding("ferin:eu/score@1", "score")],
        vec![TransformBinding::Primmel {
            id: "rule".into(),
            package_ref: package_ref.into(),
            rule_id: rule_id.into(),
            inputs,
        }],
    )
}

#[test]
fn primmel_rule_evaluates_with_clause_urn_provenance() {
    let lens = primmel_lens(
        "urn:primmel:pkg:battery-rules",
        "soh-guard-band",
        vec![("soh", "score"), ("U", "capacity-kwh")],
    );
    // score 8.1 - capacity 5 = 3.1 < 85: the else arm — the decision, its
    // arm, and the paragraph it implements.
    let view = render(&rich_passport(), &lens);
    let t = get(&view, "transformed.0");
    assert_eq!(text(t, "kind"), "primmel");
    assert_eq!(text(t, "status"), "computed");
    assert_eq!(text(t, "output"), "not-demonstrably-conforming");
    assert_eq!(number(t, "matched_arm"), 1);
    assert_eq!(text(t, "clause_urn"), "urn:oiml:pub:r:91-2:2025#clause-6.1");
    assert_eq!(text(t, "package.id"), "urn:primmel:pkg:battery-rules");
    assert_eq!(text(t, "package.version"), "1.0.0");
    assert_eq!(text(t, "package.source"), "fixtures");
    assert_eq!(text(t, "rule_id"), "soh-guard-band");
    assert_eq!(text(t, "inputs.soh.value"), "8.1");
    assert_eq!(text(t, "inputs.soh.trust"), "attested");
    // Both inputs are attested: the decision inherits that marker.
    assert_eq!(text(t, "trust"), "attested");
}

#[test]
fn primmel_decision_carries_the_weakest_input_trust() {
    // A passport whose SoH comes from an attested milestone and whose
    // uncertainty from a self-declared correction: the decision is never
    // more trustworthy than its weakest input.
    let passport = passport_with(
        CapabilityClass::PassiveAuth,
        vec![
            event(0, counters(&[("soh", "90.5")]), TrustMarker::Attested),
            event(1, correction("soh-u", "0.5"), TrustMarker::SelfDeclared),
        ],
    );
    let lens = primmel_lens(
        "urn:primmel:pkg:battery-rules",
        "soh-guard-band",
        vec![("soh", "soh"), ("U", "soh-u")],
    );
    let view = render(&passport, &lens);
    let t = get(&view, "transformed.0");
    // 90.5 - 0.5 = 90 >= 85: conforming, but graded self-declared.
    assert_eq!(text(t, "output"), "conforming");
    assert_eq!(text(t, "inputs.soh.trust"), "attested");
    assert_eq!(text(t, "inputs.U.trust"), "self-declared");
    assert_eq!(text(t, "trust"), "self-declared");
}

#[test]
fn primmel_with_absent_input_reports_missing_coverage_not_error() {
    // The rule's inputs do not exist as-of the instant (and one resolves to
    // a string fact): a coverage gap with per-input reasons, never a crash
    // and never a guessed label.
    let lens = primmel_lens(
        "urn:primmel:pkg:battery-rules",
        "soh-guard-band",
        vec![("soh", "ghost"), ("U", "weak")],
    );
    let view = render(&rich_passport(), &lens);
    let t = get(&view, "transformed.0");
    assert_eq!(text(t, "status"), "missing-inputs");
    assert_eq!(text(t, "clause_urn"), "urn:oiml:pub:r:91-2:2025#clause-6.1");
    let missing = list(t, "missing_inputs");
    assert_eq!(missing.len(), 2);
    // Input names resolve by identity; one gap per reason.
    let soh = missing.iter().find(|m| m.get_str("input") == Some("soh")).unwrap();
    assert_eq!(text(soh, "reason"), "absent-as-of");
    assert!(text(soh, "detail").contains("ghost"));
    let u = missing.iter().find(|m| m.get_str("input") == Some("U")).unwrap();
    assert_eq!(text(u, "reason"), "not-numeric");
    assert!(text(u, "detail").contains("numeric measurand"));
    assert_eq!(text(t, "inputs.soh.path"), "ghost");
    assert!(t.get("output").is_none());
}

#[test]
fn primmel_with_unmapped_rule_input_reports_the_binding_gap() {
    // The binding maps `U` but the rule also wants `soh`: the gap names the
    // unmapped input.
    let lens = primmel_lens(
        "urn:primmel:pkg:battery-rules",
        "soh-guard-band",
        vec![("U", "capacity-kwh")],
    );
    let view = render(&rich_passport(), &lens);
    let t = get(&view, "transformed.0");
    assert_eq!(text(t, "status"), "missing-inputs");
    assert_eq!(text(t, "missing_inputs.0.input"), "soh");
    assert_eq!(text(t, "missing_inputs.0.reason"), "not-bound");
}

#[test]
fn primmel_with_non_numeric_input_fails_with_reason() {
    let lens = primmel_lens(
        "urn:primmel:pkg:battery-rules",
        "efficiency-class",
        vec![("eff", "weak")],
    );
    let view = render(&rich_passport(), &lens);
    let t = get(&view, "transformed.0");
    // A string fact is a type gap on the input, reported per input like any
    // other missing measurand.
    assert_eq!(text(t, "status"), "missing-inputs");
    assert_eq!(text(t, "missing_inputs.0.reason"), "not-numeric");
    assert!(text(t, "missing_inputs.0.detail").contains("numeric measurand"));
}

#[test]
fn primmel_without_the_package_or_rule_fails_honestly() {
    // Package the projector does not hold.
    let lens = primmel_lens(
        "urn:primmel:pkg:nowhere",
        "soh-guard-band",
        vec![("soh", "score")],
    );
    let view = render(&rich_passport(), &lens);
    assert_eq!(text(&view, "transformed.0.status"), "failed");
    assert!(text(&view, "transformed.0.error").contains("not available"));

    // Package held, rule id not in it.
    let lens = primmel_lens(
        "urn:primmel:pkg:battery-rules",
        "no-such-rule",
        vec![("soh", "score")],
    );
    let view = render(&rich_passport(), &lens);
    assert_eq!(text(&view, "transformed.0.status"), "failed");
    let error = text(&view, "transformed.0.error");
    assert!(
        error.contains("no rule") && error.contains("soh-guard-band"),
        "{error}"
    );
}

#[test]
fn primmel_evaluation_is_deterministic() {
    let lens = primmel_lens(
        "urn:primmel:pkg:battery-rules",
        "soh-guard-band",
        vec![("soh", "score"), ("U", "capacity-kwh")],
    );
    let first = render(&rich_passport(), &lens);
    let second = render(&rich_passport(), &lens);
    assert_eq!(get(&first, "transformed"), get(&second, "transformed"));
}

#[test]
fn selection_binds_elements_to_facts_with_provenance() {
    let lens = lens_with(vec![binding("ferin:eu/score@1", "score")], vec![]);
    let view = render(&rich_passport(), &lens);
    let selected = list(&view, "selected");
    assert_eq!(selected.len(), 1);
    assert_eq!(text(&selected[0], "element"), "ferin:eu/score@1");
    assert_eq!(text(&selected[0], "value"), "8.1");
    assert_eq!(text(&selected[0], "kind"), "num");
    assert_eq!(number(&selected[0], "sourced.seq"), 0);
    assert_eq!(text(&selected[0], "trust"), "attested");
    // The trust map carries the marker per element.
    assert_eq!(
        get(&view, "trust").get_str("ferin:eu/score@1"),
        Some("attested")
    );
    assert_eq!(text(&view, "actor"), "market-surveillance-authority");
}

#[test]
fn absent_elements_are_missing_with_reason() {
    let lens = lens_with(
        vec![
            binding("ferin:eu/score@1", "score"),
            binding("ferin:eu/ghost@1", "ghost"),
        ],
        vec![],
    );
    let view = render(&rich_passport(), &lens);
    assert_eq!(number(&view, "coverage.elements_required"), 2);
    assert_eq!(number(&view, "coverage.elements_present"), 1);
    let missing = list(&view, "coverage.missing");
    assert_eq!(missing.len(), 1);
    assert_eq!(text(&missing[0], "element"), "ferin:eu/ghost@1");
    assert_eq!(text(&missing[0], "reason"), "absent-as-of");
    assert!(!truth(&view, "coverage.complete"));
    // 1 of 2.
    assert_eq!(get(&view, "coverage.ratio"), &Json::Ratio(1, 2));
}

#[test]
fn provenance_floor_blocks_below_grade_facts() {
    let mut b = binding("ferin:eu/weak@1", "weak");
    b.min_trust = TrustMarker::SelfDeclared;
    let lens = lens_with(vec![b], vec![]);
    let view = render(&rich_passport(), &lens);
    assert_eq!(text(&view, "coverage.missing.0.reason"), "below-trust-floor");
    assert_eq!(text(&view, "coverage.missing.0.floor"), "self-declared");
    assert_eq!(list(&view, "selected").len(), 0);
}

#[test]
fn capability_gate_blocks_below_class_subjects() {
    let mut b = binding("ferin:eu/score@1", "score");
    b.min_capability = CapabilityClass::Connected;
    let lens = lens_with(vec![b], vec![]);
    // The rich passport is passive; the element asks for a connected one.
    let view = render(&rich_passport(), &lens);
    assert_eq!(text(&view, "coverage.missing.0.reason"), "capability-gate");
    assert_eq!(text(&view, "coverage.missing.0.floor"), "connected");
}

fn conversion(to_unit: &str, from_item: Option<&str>) -> LensManifest {
    lens_with(
        vec![binding("ferin:eu/score@1", "score")],
        vec![TransformBinding::UnitConversion {
            id: "mj".into(),
            source: "capacity-kwh".into(),
            from_unit: "kWh".into(),
            to_unit: to_unit.into(),
            from_item: from_item.map(str::to_string),
            to_item: None,
        }],
    )
}

#[test]
fn unit_conversion_is_exact_kwh_to_mj() {
    let view = render(&rich_passport(), &conversion("MJ", None));
    let t = get(&view, "transformed.0");
    assert_eq!(text(t, "status"), "computed");
    assert_eq!(text(t, "output.amount"), "18"); // 5 kWh = 18 MJ exactly
    assert_eq!(text(t, "output.unit"), "MJ");
    assert_eq!(text(t, "input.amount"), "5");
    assert!(truth(t, "exact"));
    assert_eq!(text(t, "trust"), "attested");
}

#[test]
fn unit_conversion_dimension_mismatch_fails_visibly() {
    let view = render(&rich_passport(), &conversion("kg", None));
    let t = get(&view, "transformed.0");
    assert_eq!(text(t, "status"), "failed");
    assert!(text(t, "error").contains("dimension mismatch"));
}

fn band(label: &str, min: &str) -> ClassBand {
    ClassBand {
        label: label.into(),
        min: d(min),
    }
}

fn classification(source: &str, bands: Vec<ClassBand>) -> LensManifest {
    lens_with(
        vec![binding("ferin:eu/score@1", "score")],
        vec![TransformBinding::Classification {
            id: "cl".into(),
            source: source.into(),
            bands,
        }],
    )
}

#[test]
fn classification_bands_and_unclassified() {
    let class_of = |source: &str, bands: Vec<ClassBand>| -> String {
        let view = render(&rich_passport(), &classification(source, bands));
        text(&view, "transformed.0.output").to_string()
    };
    // 8.1 >= 8.0 -> pass.
    assert_eq!(class_of("score", vec![band("pass", "8.0")]), "pass");
    // 3.9 < 4.0 -> unclassified (explicit, never silent).
    assert_eq!(
        class_of("low-grade", vec![band("pass", "4.0")]),
        "unclassified"
    );
    // The highest matching band wins regardless of declaration order.
    assert_eq!(
        class_of("score", vec![band("pass", "6.0"), band("pass", "8.0")]),
        "pass"
    );
}

#[test]
fn below_all_bands_the_lowest_band_is_named_as_a_number() {
    for bands in [
        vec![band("A", "10"), band("B", "9")],
        vec![band("B", "9"), band("A", "10")],
        vec![band("C", "100.5"), band("A", "10"), band("B", "9.0")],
    ] {
        let view = render(&rich_passport(), &classification("capacity-kwh", bands));
        let t = get(&view, "transformed.0");
        assert_eq!(text(t, "status"), "computed");
        assert_eq!(text(t, "output"), "unclassified");
        assert_eq!(text(t, "below_lowest_band"), "9");
        assert!(t.get("band").is_none());
    }
    let negative = vec![band("A", "-1"), band("B", "-10")];
    let passport = passport_with(
        CapabilityClass::Silent,
        vec![event(0, counters(&[("t", "-20")]), TrustMarker::Attested)],
    );
    let mut lens = classification("t", negative);
    lens.bindings[0].source = "t".into();
    let view = render(&passport, &lens);
    assert_eq!(text(&view, "transformed.0.below_lowest_band"), "-10");
}

#[test]
fn the_highest_band_met_wins() {
    let bands = vec![band("C", "0"), band("A", "8.0"), band("B", "6.0")];
    assert_eq!(classify(&bands, &d("8.1")).unwrap().label, "A");
    assert_eq!(classify(&bands, &d("7.9")).unwrap().label, "B");
    assert_eq!(classify(&bands, &d("6")).unwrap().label, "B");
    assert!(classify(&bands, &d("-0.1")).is_none());
}

#[test]
fn classification_of_non_numeric_fact_fails() {
    let view = render(&rich_passport(), &classification("weak", vec![band("x", "1")]));
    assert_eq!(text(&view, "transformed.0.status"), "failed");
}

#[test]
fn transform_with_absent_source_fails_and_states_the_instant() {
    let view = render(&rich_passport(), &classification("ghost", vec![band("x", "0")]));
    let t = get(&view, "transformed.0");
    assert_eq!(text(t, "status"), "failed");
    let error = text(t, "error");
    assert!(
        error.contains("ghost") && error.contains("absent as-of"),
        "{error}"
    );
}

#[test]
fn unresolvable_unit_items_are_reported_not_invented() {
    let view = render(&rich_passport(), &conversion("MJ", Some("unit-kwh")));
    let units = get(&view, "transformed.0.units");
    assert!(!truth(units, "kWh.uom_registered"));
    assert_eq!(text(units, "kWh.item"), "unit-kwh");
    // The conversion is still exact (local seed).
    assert_eq!(text(&view, "transformed.0.output.amount"), "18");
}

#[test]
fn resolved_unit_items_carry_their_citation() {
    let view = Json::Obj(
        project(
            &rich_passport(),
            &conversion("MJ", Some("unit-kwh")),
            at(),
            "customs",
            &fixture_units(),
            &ProfileSource::registry(),
            &PackageSet::empty(),
            &MappingSet::empty(),
            &ChildDocuments::empty(),
            &fixture_unit_registry(),
            &CoreFindings {
                trigger_holds: false,
                input_set_root: root(),
                attestations: StrMap::new(),
            },
        )
        .unwrap(),
    );
    assert!(truth(&view, "transformed.0.units.kWh.uom_registered"));
    assert!(!truth(&view, "profile.applies"));
}

#[test]
fn declared_unit_travels_with_selected_elements() {
    let mut b = binding("ferin:eu/cap@1", "capacity-kwh");
    b.declared_unit = Some("kWh".into());
    let lens = lens_with(vec![b], vec![]);
    let view = render(&rich_passport(), &lens);
    assert_eq!(text(&view, "selected.0.declared_unit"), "kWh");
}

#[test]
fn passport_block_carries_status_and_validity() {
    let lens = lens_with(vec![binding("ferin:eu/score@1", "score")], vec![]);
    let view = render(&rich_passport(), &lens);
    assert_eq!(text(&view, "passport.capability"), "passive-auth");
    assert_eq!(text(&view, "passport.status"), "issued");
    assert_eq!(number(&view, "passport.events"), 2);
    assert!(truth(&view, "passport.validity.contains_as_of"));
    assert!(text(&view, "passport.log_head").len() >= 16);
    assert_eq!(text(&view, "as_of"), at().to_text());
    assert_eq!(text(&view, "profile.source"), "registry");
}

#[test]
fn fact_values_render_as_plain_json() {
    let passport = passport_with(
        CapabilityClass::Silent,
        vec![
            event(0, correction("flag", "true"), TrustMarker::Attested),
            event(1, correction("list", "a,b"), TrustMarker::Attested),
        ],
    );
    let lens = lens_with(
        vec![
            binding("ferin:eu/flag@1", "flag"),
            binding("ferin:eu/list@1", "list"),
        ],
        vec![],
    );
    let view = render(&passport, &lens);
    assert!(truth(&view, "selected.0.value"));
    assert_eq!(text(&view, "selected.0.kind"), "bool");
    assert_eq!(text(&view, "selected.1.value"), "a,b");
}

// --- aggregation ---------------------------------------------------------

fn two_heads(seed: usize) -> Vec<String> {
    vec![format!("{seed}a").repeat(32), format!("{seed}b").repeat(32)]
}

fn packs() -> Vec<Passport> {
    pack_children(&vec![two_heads(0), two_heads(1), two_heads(2)])
}

fn system() -> Passport {
    pack_system(&two_heads(9))
}

fn pack_view_of(children: ChildDocuments, mappings: &MappingSet) -> Json {
    Json::Obj(
        project_with(
            &system(),
            &pack_lens(),
            at(),
            "customs",
            &PackageSet::empty(),
            mappings,
            &children,
        )
        .unwrap(),
    )
}

/// The pack roll-up scenario: the fixture pack system over its three
/// children, rendered through the fixture lens.
fn pack_view() -> Json {
    pack_view_of(ChildDocuments::of(packs()), &MappingSet::empty())
}

fn pack_transform<'a>(view: &'a Json, id: &str) -> &'a Json {
    list(view, "transformed")
        .iter()
        .find(|t| t.get_str("id") == Some(id))
        .unwrap()
}

#[test]
fn aggregation_sum_over_three_children_with_method_citation() {
    let view = pack_view();
    let rollup = pack_transform(&view, "carbon-rollup");
    assert_eq!(text(rollup, "kind"), "aggregation");
    assert_eq!(text(rollup, "operation"), "sum");
    assert_eq!(text(rollup, "method_citation"), "ISO 14067:2018");
    assert_eq!(text(rollup, "status"), "computed");
    // 31.5 + 33.0 + 25.5 = 90 kgCO2e exactly.
    assert_eq!(text(rollup, "output.amount"), "90");
    assert_eq!(text(rollup, "output.unit"), "kgCO2e");
    assert_eq!(number(rollup, "children_required"), 3);
    assert_eq!(number(rollup, "children_provided"), 3);
    // The committed input set's root hash travels with the output.
    assert_eq!(text(rollup, "input_set_root").len(), 64);
    // Every input states its passport, value, trust and log head.
    let inputs = list(rollup, "inputs");
    assert_eq!(inputs.len(), 3);
    assert_eq!(text(&inputs[0], "value"), "31.5");
    assert_eq!(text(&inputs[0], "trust"), "attested");
    assert!(text(&inputs[0], "log_head").len() >= 16);
    // The roll-up inherits the weakest input trust.
    assert_eq!(text(rollup, "trust"), "attested");
}

#[test]
fn aggregation_weighted_average_is_exact() {
    let view = pack_view();
    let average = pack_transform(&view, "soh-weighted-average");
    assert_eq!(text(average, "operation"), "weighted-average");
    assert_eq!(text(average, "method_citation"), "IEC 62660-1:2018");
    // (91.2*12.5 + 88.4*15.5 + 86.9*12.0) / (12.5+15.5+12.0)
    // = 3553 / 40 = 88.825 exactly.
    assert_eq!(text(average, "output.amount"), "88.825");
    assert_eq!(text(average, "output.unit"), "%");
    assert_eq!(text(average, "weight_element"), "ferin:eu/pack.mass-kg@1.0.0");
    assert_eq!(text(average, "status"), "computed");
}

fn rollup_lens(operation: AggregationOperation) -> LensManifest {
    lens_with(
        vec![binding("ferin:eu/score@1", "score")],
        vec![TransformBinding::Aggregation {
            id: "rollup".into(),
            operation,
            input_element: "ferin:eu/score@1".into(),
            weight_element: None,
            method_citation: "ISO 14067:2018".into(),
        }],
    )
}

#[test]
fn aggregation_count_counts_the_providing_children() {
    let lens = rollup_lens(AggregationOperation::Count);
    // Build a subject over two children providing `score`, and one that
    // does not: the count is 2, the missing child a gap.
    let mut children: Vec<Passport> = Vec::new();
    for (i, provides) in [(0, true), (1, true), (2, false)] {
        let payload = if provides {
            counters(&[("score", "1")])
        } else {
            counters(&[])
        };
        let mut child = passport_with(
            CapabilityClass::PassiveAuth,
            vec![event(0, payload, TrustMarker::Attested)],
        );
        child.passport_id = format!("urn:unidpp:passport:child-{i}");
        children.push(child);
    }
    let mut subject = rich_passport();
    subject.passport_id = "urn:unidpp:passport:parent".into();
    subject.log = vec![event_at(
        0,
        1_600_000_000,
        EventPayload::Issuance {
            derived: true,
            inputs: children.iter().map(|c| c.passport_id.clone()).collect(),
        },
        TrustMarker::Attested,
    )];
    let view = Json::Obj(
        project_with(
            &subject,
            &lens,
            at(),
            "customs",
            &PackageSet::empty(),
            &MappingSet::empty(),
            &ChildDocuments::of(children),
        )
        .unwrap(),
    );
    let count = get(&view, "transformed.0");
    assert_eq!(text(count, "status"), "missing-children");
    assert_eq!(text(count, "output.amount"), "2");
    let missing = list(count, "missing_children");
    assert_eq!(missing.len(), 1);
    assert_eq!(text(&missing[0], "passport"), "urn:unidpp:passport:child-2");
    assert_eq!(text(&missing[0], "reason"), "absent-as-of");
}

#[test]
fn aggregation_missing_child_is_a_coverage_gap_not_an_error() {
    // Drop one child document: the roll-up computes over the two provided
    // children and reports the third as a gap — the method citation and
    // committed set root still travel.
    let two: Vec<Passport> = packs().into_iter().take(2).collect();
    let view = pack_view_of(ChildDocuments::of(two), &MappingSet::empty());
    let rollup = pack_transform(&view, "carbon-rollup");
    assert_eq!(text(rollup, "status"), "missing-children");
    // 31.5 + 33.0 over the two provided children.
    assert_eq!(text(rollup, "output.amount"), "64.5");
    let missing = list(rollup, "missing_children");
    assert_eq!(missing.len(), 1);
    assert_eq!(text(&missing[0], "passport"), PACK_CHILD_IDS[2]);
    assert_eq!(text(&missing[0], "reason"), "document-unavailable");
    assert_eq!(text(rollup, "method_citation"), "ISO 14067:2018");
    assert_eq!(text(rollup, "input_set_root"), root());
}

#[test]
fn aggregation_without_a_traversal_set_fails_visibly() {
    let lens = rollup_lens(AggregationOperation::Sum);
    // A passport with no edges at all.
    let mut subject = rich_passport();
    subject.log = vec![];
    let view = Json::Obj(
        project_with(
            &subject,
            &lens,
            at(),
            "customs",
            &PackageSet::empty(),
            &MappingSet::empty(),
            &ChildDocuments::empty(),
        )
        .unwrap(),
    );
    let rollup = get(&view, "transformed.0");
    assert_eq!(text(rollup, "status"), "failed");
    let error = text(rollup, "error");
    assert!(
        error.contains("no active child edges") && error.contains("traversal set"),
        "{error}"
    );
}

#[test]
fn aggregation_is_deterministic() {
    assert_eq!(pack_view(), pack_view());
}

// --- localization mapping ------------------------------------------------

#[test]
fn localization_mapping_translates_the_code_value() {
    let view = pack_view_of(ChildDocuments::of(packs()), &fixture_mappings());
    let stars = pack_transform(&view, "jp-star-display");
    assert_eq!(text(stars, "kind"), "localization-mapping");
    assert_eq!(text(stars, "status"), "computed");
    assert_eq!(text(stars, "input"), "B");
    assert_eq!(text(stars, "output"), "★★★★");
    assert_eq!(text(stars, "trust"), "attested");
    // The registered item's identity, version, schemes and citation travel
    // with the mapped value.
    let mapping = get(stars, "mapping");
    assert_eq!(text(mapping, "id"), EU_CLASS_TO_JP_STAR_ID);
    assert_eq!(text(mapping, "version"), "1.0.0");
    assert_eq!(text(mapping, "source"), "fixtures");
    assert_eq!(
        text(mapping, "source_scheme"),
        "urn:eu:reg:2017:1369#annex-ii-class"
    );
    assert_eq!(text(mapping, "target_scheme"), "urn:jp:meti:star-rating");
    assert_eq!(number(mapping, "entries"), 5);
    assert!(text(mapping, "citation").contains("2017/1369"));
}

fn regraded(class: &str) -> Passport {
    let mut subject = system();
    let seq = subject.log.len() as u64;
    subject.log.push(event_at(
        seq,
        at().secs,
        correction(facts::ENERGY_LABEL, class),
        TrustMarker::Attested,
    ));
    subject
}

#[test]
fn localization_mapping_of_an_unmapped_value_is_explicit() {
    // The subject's class is changed to one outside the registered table:
    // the output is the explicit `unmapped`, never a silent pass of the
    // source value.
    let view = Json::Obj(
        project_with(
            &regraded("G"),
            &pack_lens(),
            at(),
            "customs",
            &PackageSet::empty(),
            &fixture_mappings(),
            &ChildDocuments::of(packs()),
        )
        .unwrap(),
    );
    let stars = pack_transform(&view, "jp-star-display");
    assert_eq!(text(stars, "status"), "unmapped");
    assert_eq!(text(stars, "output"), "unmapped");
    assert_eq!(text(stars, "input"), "G");
    assert!(text(stars, "detail").contains("`G`"));
}

#[test]
fn localization_mapping_round_trips_through_the_reverse_item() {
    // EU B -> JP four stars (forward item), then the four-star value back
    // to EU B through the reverse item: the projector evaluates both
    // registered correspondences.
    let mappings = fixture_mappings();
    let view = pack_view_of(ChildDocuments::of(packs()), &mappings);
    let stars = text(pack_transform(&view, "jp-star-display"), "output").to_string();
    let mut lens = pack_lens();
    lens.transforms = vec![TransformBinding::LocalizationMapping {
        id: "reverse".into(),
        source: facts::ENERGY_LABEL.into(),
        mapping_ref: JP_STAR_TO_EU_CLASS_ID.into(),
    }];
    // Re-key the lens to the star value: a corrected class fact holding the
    // star string.
    let view = Json::Obj(
        project_with(
            &regraded(&stars),
            &lens,
            at(),
            "customs",
            &PackageSet::empty(),
            &mappings,
            &ChildDocuments::empty(),
        )
        .unwrap(),
    );
    let back = get(&view, "transformed.0");
    assert_eq!(text(back, "status"), "computed");
    assert_eq!(text(back, "input"), stars);
    assert_eq!(text(back, "output"), "B");

    // The acceptance round trip itself: EU A -> JP five stars through the
    // forward item, back to A through the reverse.
    let forward = mappings.get(EU_CLASS_TO_JP_STAR_ID).unwrap().0;
    let reverse = mappings.get(JP_STAR_TO_EU_CLASS_ID).unwrap().0;
    let five = forward.lookup("A").unwrap().target_value.clone();
    assert_eq!(five, "★★★★★");
    assert_eq!(reverse.lookup(&five).unwrap().target_value, "A");
}

#[test]
fn localization_mapping_without_the_item_or_fact_fails_honestly() {
    // The projector holds no mapping: the binding says so.
    let view = pack_view_of(ChildDocuments::of(packs()), &MappingSet::empty());
    let stars = pack_transform(&view, "jp-star-display");
    assert_eq!(text(stars, "status"), "failed");
    assert!(text(stars, "error").contains("not available"));

    // Before the grading correction, the fact does not exist as-of: absent
    // source, stated.
    let early = Timestamp::from_secs(1_760_000_000); // 2025-10-09ish
    let view = Json::Obj(
        project_with(
            &system(),
            &pack_lens(),
            early,
            "customs",
            &PackageSet::empty(),
            &fixture_mappings(),
            &ChildDocuments::empty(),
        )
        .unwrap(),
    );
    let stars = pack_transform(&view, "jp-star-display");
    assert_eq!(text(stars, "status"), "failed");
    assert!(text(stars, "error").contains("absent as-of"));
}

#[test]
fn invalid_lens_is_refused() {
    let mut lens = lens_with(vec![binding("ferin:eu/score@1", "score")], vec![]);
    lens.bindings.clear();
    let refused = project_with(
        &rich_passport(),
        &lens,
        at(),
        "customs",
        &PackageSet::empty(),
        &MappingSet::empty(),
        &ChildDocuments::empty(),
    );
    assert!(matches!(refused, Err(ViewError::Invalid(_))));
    assert!(refused.unwrap_err().to_text().starts_with("invalid lens: "));
}

// --- laws on concrete values ----------------------------------------------

#[test]
fn an_inexact_average_is_refused() {
    // Two children of equal weight one and weights two and one: 1/3 of the
    // total does not terminate.
    let mut lens = rollup_lens(AggregationOperation::WeightedAverage);
    lens.bindings.push(binding("ferin:eu/mass@1", "mass"));
    lens.profile.data_points.push(data_point_of("ferin:eu/mass@1"));
    lens.transforms = vec![TransformBinding::Aggregation {
        id: "avg".into(),
        operation: AggregationOperation::WeightedAverage,
        input_element: "ferin:eu/score@1".into(),
        weight_element: Some("ferin:eu/mass@1".into()),
        method_citation: "ISO 14067:2018".into(),
    }];
    let child = |i: usize, score: &str, mass: &str| {
        let mut c = passport_with(
            CapabilityClass::PassiveAuth,
            vec![event(
                0,
                counters(&[("score", score), ("mass", mass)]),
                TrustMarker::Attested,
            )],
        );
        c.passport_id = format!("urn:unidpp:passport:child-{i}");
        c
    };
    let mut subject = rich_passport();
    subject.log = vec![event(
        0,
        EventPayload::Issuance {
            derived: true,
            inputs: vec![
                "urn:unidpp:passport:child-0".into(),
                "urn:unidpp:passport:child-1".into(),
            ],
        },
        TrustMarker::Attested,
    )];
    let view = Json::Obj(
        project_with(
            &subject,
            &lens,
            at(),
            "customs",
            &PackageSet::empty(),
            &MappingSet::empty(),
            &ChildDocuments::of(vec![child(0, "1", "2"), child(1, "2", "1")]),
        )
        .unwrap(),
    );
    assert_eq!(text(&view, "transformed.0.status"), "failed");
}

#[test]
fn coverage_adds_up() {
    let mut gated = binding("ferin:eu/low@1", "low-grade");
    gated.min_capability = CapabilityClass::Connected;
    let lens = lens_with(
        vec![
            binding("ferin:eu/score@1", "score"),
            gated,
            binding("ferin:eu/ghost@1", "ghost"),
        ],
        vec![],
    );
    let view = render(&rich_passport(), &lens);
    let selected = list(&view, "selected").len();
    let missing = list(&view, "coverage.missing").len();
    assert_eq!(selected + missing, 3);
    assert_eq!((selected, missing), (1, 2));
}

#[test]
fn later_events_leave_an_earlier_view_unchanged() {
    let lens = lens_with(vec![binding("ferin:eu/score@1", "score")], vec![]);
    let early = Timestamp::from_secs(1_750_000_000);
    let view = |p: &Passport| {
        project_with(
            p,
            &lens,
            early,
            "customs",
            &PackageSet::empty(),
            &MappingSet::empty(),
            &ChildDocuments::empty(),
        )
        .unwrap()
    };
    let before = view(&rich_passport());
    let mut later = rich_passport();
    later.log.push(event_at(
        2,
        1_790_000_000,
        correction("score", "1"),
        TrustMarker::MultiSigned,
    ));
    assert_eq!(view(&later), before);
}

#[test]
fn missing_reasons_have_their_names_and_details() {
    assert_eq!(MissingReason::AbsentAsOf.name(), "absent-as-of");
    let floor = MissingReason::BelowTrustFloor {
        floor: TrustMarker::Attested,
    };
    assert_eq!(floor.name(), "below-trust-floor");
    assert!(floor.detail().contains("`attested`"));
    let gate = MissingReason::CapabilityGate {
        floor: CapabilityClass::Connected,
    };
    assert_eq!(gate.name(), "capability-gate");
    assert!(gate.detail().contains("`connected`"));
}

#[test]
fn other_capability_classes_stand_on_the_ladder() {
    let between = || CapabilityClass::Graded {
        rank: 2,
        name: "active-auth".into(),
    };
    let gated = |floor: CapabilityClass| {
        let mut b = binding("ferin:eu/score@1", "score");
        b.min_capability = floor;
        lens_with(vec![b], vec![])
    };
    let mut passport = rich_passport();
    let view = render(&passport, &gated(between()));
    assert_eq!(text(&view, "coverage.missing.0.reason"), "capability-gate");
    assert_eq!(text(&view, "coverage.missing.0.floor"), "active-auth");
    passport.capability = between();
    let view = render(&passport, &gated(between()));
    assert_eq!(list(&view, "selected").len(), 1);
    assert_eq!(text(&view, "passport.capability"), "active-auth");
    let view = render(&passport, &gated(CapabilityClass::Connected));
    assert_eq!(list(&view, "selected").len(), 0);
    assert_eq!(between().copy(), between());
}

#[test]
fn attestations_travel_under_rollup_or_are_absent() {
    let mut attestation = JsonObject::new();
    attestation.put("subject", "urn:unidpp:passport:packsystem");
    attestation.put("method_ref", "ISO 14067:2018");
    let mut attestations = StrMap::new();
    attestations.insert("carbon-rollup".to_string(), Json::Obj(attestation));
    let view = Json::Obj(
        project(
            &system(),
            &pack_lens(),
            at(),
            "customs",
            &StrMap::new(),
            &ProfileSource::registry(),
            &PackageSet::empty(),
            &MappingSet::empty(),
            &ChildDocuments::of(packs()),
            &fixture_unit_registry(),
            &CoreFindings {
                trigger_holds: true,
                input_set_root: root(),
                attestations,
            },
        )
        .unwrap(),
    );
    let rollup = pack_transform(&view, "carbon-rollup");
    assert_eq!(text(rollup, "rollup.method_ref"), "ISO 14067:2018");
    assert_eq!(text(rollup, "status"), "computed");
    let average = pack_transform(&view, "soh-weighted-average");
    assert!(average.get("rollup").is_none());
    let plain = pack_view();
    assert!(pack_transform(&plain, "carbon-rollup").get("rollup").is_none());
}

#[test]
fn elements_and_children_stand_in_order_exactly_once() {
    let lens = lens_with(
        vec![
            binding("ferin:eu/ghost@1", "ghost"),
            binding("ferin:eu/score@1", "score"),
            binding("ferin:eu/none@1", "none"),
            binding("ferin:eu/low@1", "low-grade"),
        ],
        vec![],
    );
    let view = render(&rich_passport(), &lens);
    let names = |pointer: &str| -> Vec<String> {
        list(&view, pointer)
            .iter()
            .map(|d| text(d, "element").to_string())
            .collect()
    };
    assert_eq!(names("selected"), vec!["ferin:eu/score@1", "ferin:eu/low@1"]);
    assert_eq!(names("coverage.missing"), vec!["ferin:eu/ghost@1", "ferin:eu/none@1"]);
    let two: Vec<Passport> = packs().into_iter().skip(1).collect();
    let view = pack_view_of(ChildDocuments::of(two), &MappingSet::empty());
    let rollup = pack_transform(&view, "carbon-rollup");
    assert_eq!(text(rollup, "inputs.0.passport"), PACK_CHILD_IDS[1]);
    assert_eq!(text(rollup, "inputs.1.passport"), PACK_CHILD_IDS[2]);
    assert_eq!(text(rollup, "missing_children.0.passport"), PACK_CHILD_IDS[0]);
}
