use unidpp_projector::aggregate::ChildDocuments;
use unidpp_projector::codelist::MappingSet;
use unidpp_projector::decimal::Decimal;
use unidpp_projector::fixtures::{
    consumer_lens, demo_as_of, demo_passport, eu_lens, fixture_unit_registry, CAPACITY_ELEMENT,
    CARBON_ELEMENT, DEMO_AS_OF, INSTRUCTION_ELEMENT, OPERATOR_ELEMENT, REPARABILITY_ELEMENT,
};
use unidpp_projector::json::Json;
use unidpp_projector::lens::{FormattingRules, UnitPosition};
use unidpp_projector::model::FactValue;
use unidpp_projector::primmel::PackageSet;
use unidpp_projector::project::{project, CoreFindings, ProfileSource};
use unidpp_projector::render::{formatted, label_for, render};
use unidpp_projector::strmap::StrMap;

const LANG_EN: &str = "en";
const LANG_JA: &str = "ja";

fn heads() -> Vec<String> {
    (0..11).map(|i| format!("{i:02x}").repeat(32)).collect()
}

fn rendered(lang: &str) -> Json {
    Json::Obj(
        render(
            &demo_passport(&heads()),
            &consumer_lens(),
            demo_as_of(),
            lang,
            &ProfileSource::fallback("fixtures", None),
        )
        .unwrap(),
    )
}

fn section<'a>(doc: &'a Json, id: &str) -> &'a Json {
    doc.get("sections")
        .unwrap()
        .as_array()
        .unwrap()
        .iter()
        .find(|s| s.get_str("id") == Some(id))
        .unwrap()
}

fn item<'a>(doc: &'a Json, section_id: &str, element: &str) -> &'a Json {
    section(doc, section_id)
        .get("items")
        .unwrap()
        .as_array()
        .unwrap()
        .iter()
        .find(|i| i.get_str("element") == Some(element))
        .unwrap()
}

fn get<'a>(doc: &'a Json, pointer: &str) -> &'a Json {
    let mut v = doc;
    for key in pointer.split('.') {
        v = match v.as_array() {
            Some(items) => &items[key.parse::<usize>().unwrap()],
            None => v.get(key).unwrap_or_else(|| panic!("no `{key}` on {pointer}")),
        };
    }
    v
}

fn text<'a>(doc: &'a Json, pointer: &str) -> &'a str {
    get(doc, pointer).as_str().unwrap()
}

#[test]
fn renders_two_languages_from_one_profile() {
    // Same profile, same passport, two languages: the sections and values
    // are identical, the labels are not.
    let en = rendered(LANG_EN);
    let ja = rendered(LANG_JA);
    assert_eq!(
        text(&en, "render_metadata.template_ref"),
        "urn:unidpp:template:consumer-v1"
    );
    assert_eq!(text(&en, "render_metadata.lang"), "en");
    assert_eq!(text(&ja, "render_metadata.lang"), "ja");

    // The sections, in binding order.
    let ids: Vec<&str> = get(&en, "sections")
        .as_array()
        .unwrap()
        .iter()
        .filter_map(|s| s.get_str("id"))
        .collect();
    assert_eq!(ids, vec!["product", "repair", "recycling"]);

    // Localized section labels.
    assert_eq!(text(section(&en, "product"), "label"), "Product");
    assert_eq!(text(section(&ja, "product"), "label"), "製品情報");
    assert_eq!(text(section(&en, "product"), "label_lang"), "en");
    assert_eq!(text(section(&ja, "product"), "label_lang"), "ja");

    // Localized element labels with formatted values and units.
    let carbon_en = item(&en, "recycling", CARBON_ELEMENT);
    assert_eq!(text(carbon_en, "label"), "Carbon footprint");
    assert_eq!(text(carbon_en, "formatted"), "96.4 kgCO2e");
    assert_eq!(text(carbon_en, "value"), "96.4");
    assert_eq!(text(carbon_en, "unit"), "kgCO2e");
    assert_eq!(text(carbon_en, "status"), "present");
    let carbon_ja = item(&ja, "recycling", CARBON_ELEMENT);
    assert_eq!(text(carbon_ja, "label"), "炭素フットプリント");
    assert_eq!(text(carbon_ja, "formatted"), "96.4 kgCO2e");
    // The exact value and provenance are language-independent.
    assert_eq!(get(carbon_ja, "value"), get(carbon_en, "value"));
    assert_eq!(get(carbon_ja, "sourced"), get(carbon_en, "sourced"));
    assert_eq!(text(carbon_ja, "trust"), "attested");
}

#[test]
fn formatting_rounds_display_only_with_explicit_digits() {
    // 0.072 kWh at one decimal renders as 0.1; the exact value stays exact.
    let en = rendered(LANG_EN);
    let capacity = item(&en, "product", CAPACITY_ELEMENT);
    assert_eq!(text(capacity, "formatted"), "0.1 kWh");
    assert_eq!(text(capacity, "value"), "0.072");
    // A string fact renders unformatted and unitless.
    let operator = item(&en, "product", OPERATOR_ELEMENT);
    assert_eq!(text(operator, "formatted"), "urn:unidpp:actor:oem-nordwave");
    assert!(operator.get("unit").is_none());
}

#[test]
fn items_link_to_the_authoritative_view() {
    let en = rendered(LANG_EN);
    let repair = item(&en, "repair", REPARABILITY_ELEMENT);
    let view = text(repair, "source.view");
    assert!(view.starts_with("/view?passport="), "{view}");
    assert!(
        view.contains("profile=urn:unidpp:profile:consumer-dpp"),
        "{view}"
    );
    assert!(view.ends_with(&format!("&at={DEMO_AS_OF}")), "{view}");
    assert_eq!(get(repair, "sourced.seq").as_u64(), Some(6));
    assert_eq!(text(repair, "trust"), "attested");
}

#[test]
fn missing_label_falls_back_to_the_declared_language() {
    // French is requested; no label carries it — every label falls back to
    // the binding's fallback language (en), and the render states which
    // language served.
    let fr = rendered("fr");
    assert_eq!(text(&fr, "render_metadata.lang"), "fr");
    assert_eq!(text(&fr, "render_metadata.fallback_lang"), "en");
    assert_eq!(text(section(&fr, "product"), "label"), "Product");
    assert_eq!(text(section(&fr, "product"), "label_lang"), "en");
    let carbon = item(&fr, "recycling", CARBON_ELEMENT);
    assert_eq!(text(carbon, "label"), "Carbon footprint");
    assert_eq!(text(carbon, "label_lang"), "en");
}

#[test]
fn coverage_report_travels_with_the_render() {
    let en = rendered(LANG_EN);
    // The consumer lens binds an element the demo passport does not provide
    // on purpose (the recycling instruction): the gap is explicit, in the
    // section and in the coverage report.
    let instruction = item(&en, "recycling", INSTRUCTION_ELEMENT);
    assert_eq!(text(instruction, "status"), "missing");
    assert_eq!(text(instruction, "reason"), "absent-as-of");
    assert_eq!(get(&en, "coverage.elements_required").as_u64(), Some(5));
    assert_eq!(get(&en, "coverage.elements_present").as_u64(), Some(4));
    assert_eq!(get(&en, "coverage.complete").as_bool(), Some(false));
    assert_eq!(text(&en, "coverage.missing.0.element"), INSTRUCTION_ELEMENT);
    assert_eq!(text(&en, "coverage.missing.0.reason"), "absent-as-of");
}

#[test]
fn lens_without_presentation_is_refused() {
    let err = render(
        &demo_passport(&heads()),
        &eu_lens(),
        demo_as_of(),
        LANG_EN,
        &ProfileSource::registry(),
    )
    .unwrap_err();
    let text = err.to_text();
    assert!(text.contains("no presentation binding"), "{text}");
}

#[test]
fn render_is_deterministic() {
    let first = rendered(LANG_JA);
    let second = rendered(LANG_JA);
    assert_eq!(first, second);
}

#[test]
fn the_render_covers_what_the_view_covers() {
    let view = Json::Obj(
        project(
            &demo_passport(&heads()),
            &consumer_lens(),
            demo_as_of(),
            "consumer",
            &StrMap::new(),
            &ProfileSource::fallback("fixtures", None),
            &PackageSet::empty(),
            &MappingSet::empty(),
            &ChildDocuments::empty(),
            &fixture_unit_registry(),
            &CoreFindings {
                trigger_holds: true,
                input_set_root: String::new(),
                attestations: StrMap::new(),
            },
        )
        .unwrap(),
    );
    let en = rendered(LANG_EN);
    assert_eq!(get(&en, "coverage"), get(&view, "coverage"));
    assert_eq!(get(&en, "trust"), get(&view, "trust"));
}

#[test]
fn labels_fall_back_in_order() {
    let rules = FormattingRules::default();
    let mut labels = StrMap::new();
    let none = label_for(&labels, "fr", &rules, "the element");
    assert_eq!(none, ("the element".to_string(), None));
    labels.insert("ja".to_string(), "製品".to_string());
    let any = label_for(&labels, "fr", &rules, "the element");
    assert_eq!(any, ("製品".to_string(), Some("ja".to_string())));
    labels.insert("en".to_string(), "Product".to_string());
    let fallback = label_for(&labels, "fr", &rules, "the element");
    assert_eq!(fallback, ("Product".to_string(), Some("en".to_string())));
    labels.insert("fr".to_string(), "Produit".to_string());
    let asked = label_for(&labels, "fr", &rules, "the element");
    assert_eq!(asked, ("Produit".to_string(), Some("fr".to_string())));
}

#[test]
fn units_are_shown_or_hidden() {
    let value = FactValue::Num(Decimal::parse("2.25").unwrap());
    let unit = Some("kg".to_string());
    let mut rules = FormattingRules::default();
    rules.decimal_digits = 1;
    assert_eq!(formatted(&value, &unit, &rules), "2.3 kg");
    rules.unit_position = UnitPosition::Hidden;
    assert_eq!(formatted(&value, &unit, &rules), "2.3");
    assert_eq!(formatted(&FactValue::Bool(true), &None, &rules), "true");
    let list = FactValue::List(vec!["EU".into(), "JP".into()]);
    assert_eq!(formatted(&list, &None, &rules), "EU, JP");
}

#[test]
fn languages_share_everything_but_labels() {
    let (en, ja) = (rendered(LANG_EN), rendered(LANG_JA));
    for shared in ["coverage", "trust", "passport", "service"] {
        assert_eq!(get(&en, shared), get(&ja, shared));
    }
    for id in ["product", "repair", "recycling"] {
        let items = |doc| get(section(doc, id), "items").as_array().unwrap();
        for (a, b) in items(&en).iter().zip(items(&ja)) {
            for shared in ["element", "status", "source"] {
                assert_eq!(a.get(shared), b.get(shared));
            }
            for shared in ["value", "formatted", "unit", "sourced", "trust", "reason"] {
                assert_eq!(a.get(shared), b.get(shared));
            }
        }
    }
    assert_ne!(get(&en, "render_metadata.lang"), get(&ja, "render_metadata.lang"));
}
