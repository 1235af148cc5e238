use unidpp_projector::fixtures::{
    battery_rules_package, cn_protocol_lens, consumer_lens, demo_as_of, demo_passport,
    eu_class_to_jp_star_mapping, eu_lens, facts, fixture_child, fixture_children_of,
    fixture_mappings, fixture_primmel, fixture_unit_registry, fixture_units, jp_lens,
    jp_star_to_eu_class_mapping, pack_child, pack_children, pack_lens, pack_system,
    BATTERY_RULES_PACKAGE_ID, DEMO_AS_OF, DEMO_PASSPORT_ID, EFFICIENCY_CLASS_RULE,
    EU_CLASS_TO_JP_STAR_ID, JP_STAR_TO_EU_CLASS_ID, PACK_CHILD_IDS, PACK_SYSTEM_ID,
    BATTERY_RULES_PRML, EU_CLASS_TO_JP_STAR_MAPPING, SOH_GUARD_BAND_RULE,
};
use unidpp_projector::codelist::CodeListMapping;
use unidpp_projector::decimal::Decimal;
use unidpp_projector::html;
use unidpp_projector::json::Json;
use unidpp_projector::lens::TransformBinding;
use unidpp_projector::model::{FactValue, Passport, TrustMarker};
use unidpp_projector::primmel::PrimmelPackage;
use unidpp_projector::project::ProfileSource;
use unidpp_projector::render::render;
use unidpp_projector::time::Timestamp;
use unidpp_projector::twin::fold;

fn demo_heads() -> Vec<String> {
    (0..11).map(|i| format!("{i:02x}").repeat(32)).collect()
}

fn two_heads(seed: usize) -> Vec<String> {
    vec![format!("{seed}a").repeat(32), format!("{seed}b").repeat(32)]
}

fn pack_heads() -> Vec<Vec<String>> {
    vec![two_heads(0), two_heads(1), two_heads(2)]
}

fn demo() -> Passport {
    demo_passport(&demo_heads())
}

fn at<'a>(doc: &'a Json, pointer: &str) -> &'a Json {
    let mut v = doc;
    for key in pointer.split('/').skip(1) {
        v = match v.as_array() {
            Some(items) => &items[key.parse::<usize>().unwrap()],
            None => v.get(key).unwrap_or_else(|| panic!("no {key} in {pointer}")),
        };
    }
    v
}

#[test]
fn demo_passport_log_is_consistent() {
    let p = demo();
    // 8 core lifecycle events + the 3 CN protocol-check corrections.
    assert_eq!(p.log.len(), 11);
    for (i, sealed) in p.log.iter().enumerate() {
        assert_eq!(sealed.event.seq, i as u64);
        assert_eq!(sealed.state_hash, demo_heads()[i]);
    }
    for pair in p.log.windows(2) {
        assert!(pair[0].event.occurred_at <= pair[1].event.occurred_at);
    }
    assert_eq!(p.passport_id, DEMO_PASSPORT_ID);
}

#[test]
fn fixture_lenses_are_deterministic() {
    assert_eq!(eu_lens(), eu_lens());
    assert_eq!(jp_lens(), jp_lens());
    assert_ne!(eu_lens().id(), jp_lens().id());
    assert_eq!(demo(), demo());
}

#[test]
fn demo_timestamps_parse() {
    assert_eq!(demo_as_of().to_text(), DEMO_AS_OF);
}

#[test]
fn fixture_primmel_package_parses_with_clause_urns() {
    let pkg = battery_rules_package();
    assert_eq!(pkg.id, BATTERY_RULES_PACKAGE_ID);
    assert_eq!(pkg.version, "1.0.0");
    let guard = pkg.rule(SOH_GUARD_BAND_RULE).unwrap();
    assert_eq!(guard.clause_urn, "urn:oiml:pub:r:91-2:2025#clause-6.1");
    let class = pkg.rule(EFFICIENCY_CLASS_RULE).unwrap();
    assert_eq!(class.clause_urn, "urn:eu:reg:2017:1369#annex-ii");
    for rule in &pkg.rules {
        assert!(rule.clause_urn.starts_with("urn:"), "{}", rule.clause_urn);
    }
    let set = fixture_primmel();
    let (got, source) = set.get(BATTERY_RULES_PACKAGE_ID).unwrap();
    assert_eq!(got.id, BATTERY_RULES_PACKAGE_ID);
    assert_eq!(source, "fixtures");
}

#[test]
fn demo_passport_carries_the_battery_measurands() {
    // The guard-band and efficiency-class rules run on facts the demo
    // passport provides, from the attested milestone.
    let state = fold(&demo(), demo_as_of());
    for path in [
        facts::SOH,
        facts::SOH_UNCERTAINTY,
        facts::ROUND_TRIP_EFFICIENCY,
    ] {
        let fact = state.get(path).unwrap();
        assert!(matches!(fact.value, FactValue::Num(_)));
        assert_eq!(fact.origin.trust, TrustMarker::Attested);
    }
}

#[test]
fn pack_corpus_is_deterministic_and_consistent() {
    // Structural determinism (the documents are built, never minted
    // against the wall clock).
    assert_eq!(pack_system(&two_heads(9)), pack_system(&two_heads(9)));
    for i in 0..3 {
        assert_eq!(pack_child(i, &two_heads(i)), pack_child(i, &two_heads(i)));
    }
    let system = pack_system(&two_heads(9));
    for (i, child) in pack_children(&pack_heads()).iter().enumerate() {
        assert_eq!(child.passport_id, PACK_CHILD_IDS[i]);
        assert_eq!(child, &pack_child(i, &two_heads(i)));
    }

    // The system's derived issuance names the three packs — the traversal
    // set the aggregation consumes.
    let state = fold(&system, demo_as_of());
    assert_eq!(state.active(), PACK_CHILD_IDS.to_vec());
    // Before the composition, no children.
    let before = Timestamp::parse("2027-01-05T12:00:00Z").unwrap();
    assert!(fold(&system, before).active().is_empty());
    // The system's own fact: the EU energy-label class.
    assert_eq!(
        state.get(facts::ENERGY_LABEL).unwrap().value,
        FactValue::Str("B".into())
    );
}

#[test]
fn fixture_children_resolve_by_id() {
    assert_eq!(
        fixture_child(PACK_CHILD_IDS[1], &pack_heads()).unwrap(),
        pack_child(1, &two_heads(1))
    );
    assert!(fixture_child("urn:unidpp:passport:none", &pack_heads()).is_none());
    assert_eq!(
        fixture_children_of(PACK_SYSTEM_ID, &pack_heads()),
        pack_children(&pack_heads())
    );
    assert!(fixture_children_of(DEMO_PASSPORT_ID, &pack_heads()).is_empty());
}

#[test]
fn code_list_fixture_round_trips_and_is_bijective() {
    let forward = eu_class_to_jp_star_mapping();
    assert_eq!(forward.id, EU_CLASS_TO_JP_STAR_ID);
    assert_eq!(forward.table.len(), 5);
    // B -> four stars.
    assert_eq!(forward.lookup("B").unwrap().target_value, "★★★★");
    // The A-E band maps onto the five-star display; values outside the
    // band are unmapped.
    assert!(forward.lookup("F").is_none());
    assert!(forward.lookup("G").is_none());
    // The reverse item is its own registered identity and round trips the
    // correspondence.
    let reverse = jp_star_to_eu_class_mapping();
    assert_eq!(reverse.id, JP_STAR_TO_EU_CLASS_ID);
    assert_eq!(reverse.lookup("★★★★").unwrap().target_value, "B");
    assert_eq!(reverse.lookup("★★★★★").unwrap().target_value, "A");
    // The fixture set holds both, sourced fixtures.
    let set = fixture_mappings();
    let (got, source) = set.get(EU_CLASS_TO_JP_STAR_ID).unwrap();
    assert_eq!(got.id, EU_CLASS_TO_JP_STAR_ID);
    assert_eq!(source, "fixtures");
    assert!(set.get(JP_STAR_TO_EU_CLASS_ID).is_some());
}

#[test]
fn consumer_lens_presents_localized_sections() {
    let consumer = consumer_lens();
    let presentation = consumer.presentation.as_ref().unwrap();
    assert_eq!(presentation.template_ref, "urn:unidpp:template:consumer-v1");
    for section in &presentation.sections {
        assert!(section.labels.get("en").is_some());
        assert!(section.labels.get("ja").is_some());
        for element in &section.elements {
            assert!(element.labels.get("en").is_some());
            assert!(element.labels.get("ja").is_some());
        }
    }
    // The demo passport provides every presented element except the
    // recycling instruction — the render's coverage gap.
    let state = fold(&demo(), demo_as_of());
    assert!(state.get(facts::RECYCLING_INSTRUCTION).is_none());
}

#[test]
fn fixture_lenses_bind_primmel_rules() {
    // Both fixture lenses carry a Primmel binding; the two-lens demo shows
    // both rules live with clause-URN provenance.
    for lens in [eu_lens(), jp_lens()] {
        assert!(
            lens.transforms.iter().any(|t| !t.package_refs().is_empty()),
            "{} carries a primmel transform",
            lens.id()
        );
    }
    lens_primmel_evaluates();
}

/// The fixture package and lens bindings agree end to end: every bound rule
/// exists and every rule input is bound.
fn lens_primmel_evaluates() {
    let pkg = battery_rules_package();
    for lens in [eu_lens(), jp_lens()] {
        for t in &lens.transforms {
            let refs = t.package_refs();
            let Some(p) = refs.first() else {
                continue;
            };
            assert_eq!(p, BATTERY_RULES_PACKAGE_ID);
            if let TransformBinding::Primmel {
                rule_id, inputs, ..
            } = t
            {
                let rule = pkg
                    .rule(rule_id)
                    .unwrap_or_else(|| panic!("rule {rule_id} exists in the package"));
                for input in rule.inputs() {
                    assert!(inputs.get(&input).is_some(), "input {input} is bound");
                }
            }
        }
    }
}

#[test]
fn the_cn_protocol_lens_renders_the_regime_checks_in_chinese() {
    // Regulatory protocol conformance as named data points — rendered
    // through the same presentation machinery, labels served in the
    // requested language, the false check stated not omitted.
    let passport = demo();
    let lens = cn_protocol_lens();
    let source = ProfileSource::fallback("fixtures", None);
    let doc = Json::Obj(
        render(&passport, &lens, demo_as_of(), "zh", &source)
            .expect("the CN protocol lens renders"),
    );
    let sections = at(&doc, "/sections").as_array().unwrap();
    assert_eq!(sections.len(), 1);
    let section = &sections[0];
    assert_eq!(section.get_str("label"), Some("监管协议核查"));
    let items = section.get("items").unwrap().as_array().unwrap();
    assert_eq!(items.len(), 3);
    assert_eq!(items[0].get_str("label"), Some("强制性产品认证（CCC）"));
    assert_eq!(items[0].get_str("label_lang"), Some("zh"));
    assert_eq!(items[0].get_str("formatted"), Some("true"));
    assert_eq!(items[1].get_str("label"), Some("生产者法规"));
    assert_eq!(items[1].get_str("formatted"), Some("true"));
    // The not-obtained licence: a stated false, never an omission.
    assert_eq!(items[2].get_str("label"), Some("工业产品生产许可证"));
    assert_eq!(items[2].get_str("formatted"), Some("false"));
    assert_eq!(at(&doc, "/coverage/complete").as_bool(), Some(true));
    assert_eq!(at(&doc, "/coverage/elements_present").as_u64(), Some(3));
    // Every serialization carries the regime: the HTML page names the
    // section, the text form speaks it.
    let page = html::document(&doc);
    assert!(page.contains("监管协议核查"));
    assert!(page.contains("工业产品生产许可证"));
    let spoken = html::text(&doc);
    assert!(spoken.contains("强制性产品认证（CCC）: true."));
    assert!(spoken.contains("工业产品生产许可证: false."));
}

#[test]
fn the_unit_fixtures_agree_with_the_unit_registry() {
    let units = fixture_units();
    assert_eq!(units.len(), 2);
    assert_eq!(units.get("unit-kwh").unwrap().name, "kilowatt hour");
    assert_eq!(units.get("unit-mj").unwrap().name, "megajoule");
    let registry = fixture_unit_registry();
    let one = Decimal::parse("1").unwrap();
    assert_eq!(registry.convert(&one, "kWh", "MJ").unwrap().to_text(), "3.6");
    assert_eq!(registry.convert(&one, "MJ", "kJ").unwrap().to_text(), "1000");
    assert_eq!(registry.convert(&one, "kg", "g").unwrap().to_text(), "1000");
    assert!(registry.convert(&one, "kWh", "kg").is_none());
    assert!(registry.convert(&one, "furlong", "MJ").is_none());
    // A third of a kilowatt hour: refused where no decimal is exact.
    assert!(registry.convert(&one, "MJ", "kWh").is_none());
}

#[test]
fn built_in_lenses_are_well_formed() {
    for lens in [eu_lens(), jp_lens(), consumer_lens(), cn_protocol_lens(), pack_lens()] {
        assert!(lens.validate().is_ok(), "{}", lens.id());
    }
}

#[test]
fn the_built_in_documents_read_as_the_built_in_values() {
    let doc = Json::parse(BATTERY_RULES_PRML).unwrap();
    assert_eq!(
        PrimmelPackage::from_json(&doc).unwrap(),
        battery_rules_package()
    );
    let doc = Json::parse(EU_CLASS_TO_JP_STAR_MAPPING).unwrap();
    assert_eq!(
        CodeListMapping::from_json(&doc).unwrap(),
        eu_class_to_jp_star_mapping()
    );
}
