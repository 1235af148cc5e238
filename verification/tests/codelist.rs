use unidpp_projector::codelist::{CodeListMapping, MappingEntry, MappingSet, UNMAPPED};
use unidpp_projector::json::{Json, JsonObject};

const ROWS: &str = r#"
    { "source_value": "A", "target_value": "★★★★★", "note": "best class ↔ five stars" },
    { "source_value": "B", "target_value": "★★★★" },
    { "source_value": "C", "target_value": "★★★" }"#;

fn wire_text(version: &str, target: &str, rows: &str) -> String {
    format!(
        r#"{{
            "id": "urn:unidpp:mapping:test",
            {version}
            "title": "EU class ↔ JP stars",
            "citation": "Regulation (EU) 2017/1369 Annex II ↔ METI star display",
            "source_scheme": "urn:eu:reg:2017:1369#annex-ii-class",
            {target}
            "table": [{rows}]
        }}"#
    )
}

fn doc(version: &str, target: &str, rows: &str) -> Json {
    Json::parse(&wire_text(version, target, rows)).unwrap()
}

const VERSION: &str = r#""version": "1.0.0","#;
const TARGET: &str = r#""target_scheme": "urn:jp:meti:star-rating","#;

fn wire() -> Json {
    doc(VERSION, TARGET, ROWS)
}

fn wire_with_row(row: &str) -> Json {
    doc(VERSION, TARGET, &format!("{ROWS}, {row}"))
}

#[test]
fn parses_validates_and_looks_up() {
    let mapping = CodeListMapping::from_json(&wire()).unwrap();
    assert_eq!(mapping.id, "urn:unidpp:mapping:test");
    assert_eq!(mapping.table.len(), 3);
    let hit = mapping.lookup("B").unwrap();
    assert_eq!(hit.target_value, "★★★★");
    assert!(hit.note.is_none());
    assert_eq!(
        mapping.lookup("A").unwrap().note.as_deref(),
        Some("best class ↔ five stars")
    );
    // A value outside the table: nothing found — the projector emits the
    // explicit `unmapped` output.
    assert!(mapping.lookup("G").is_none());
    assert_eq!(UNMAPPED, "unmapped");
}

fn written(mapping: &CodeListMapping) -> Json {
    let mut m = JsonObject::new();
    m.put("id", &mapping.id);
    m.put("version", &mapping.version);
    m.put_opt("title", &mapping.title);
    m.put_opt("citation", &mapping.citation);
    m.put("source_scheme", &mapping.source_scheme);
    m.put("target_scheme", &mapping.target_scheme);
    let rows = mapping
        .table
        .iter()
        .map(|e| {
            let mut row = JsonObject::new();
            row.put("source_value", &e.source_value);
            row.put("target_value", &e.target_value);
            row.put_opt("note", &e.note);
            Json::Obj(row)
        })
        .collect();
    m.put_arr("table", rows);
    Json::Obj(m)
}

#[test]
fn round_trips_through_the_typed_model() {
    let mapping = CodeListMapping::from_json(&wire()).unwrap();
    let back = written(&mapping);
    let again = CodeListMapping::from_json(&back).unwrap();
    assert_eq!(again, mapping);
}

#[test]
fn reversed_round_trips_bijective_tables() {
    let mapping = CodeListMapping::from_json(&wire()).unwrap();
    let reverse = mapping.reversed().unwrap();
    assert_eq!(reverse.source_scheme, mapping.target_scheme);
    assert_eq!(reverse.lookup("★★★★★").unwrap().target_value, "A");
    assert_eq!(reverse.lookup("★").map(|e| e.target_value.clone()), None);
    // Round trip: A → ★★★★★ → A.
    let stars = mapping.lookup("A").unwrap().target_value.clone();
    assert_eq!(
        reverse.lookup(&stars).unwrap().target_value,
        "A",
        "A → {stars} → A"
    );
}

#[test]
fn validation_refuses_degenerate_shapes() {
    assert!(CodeListMapping::from_json(&doc(VERSION, TARGET, ""))
        .unwrap_err()
        .contains("empty table"));

    assert!(
        CodeListMapping::from_json(&wire_with_row(r#"{ "source_value": "A", "target_value": "★" }"#))
            .unwrap_err()
            .contains("twice")
    );

    assert!(
        CodeListMapping::from_json(&wire_with_row(r#"{ "source_value": "", "target_value": "★" }"#))
            .unwrap_err()
            .contains("empty value")
    );

    assert!(CodeListMapping::from_json(&doc("", TARGET, ROWS))
        .unwrap_err()
        .contains("version"));

    // A missing scheme is caught at parse (the field is required on the
    // wire); an empty one by validation.
    assert!(CodeListMapping::from_json(&doc(VERSION, "", ROWS))
        .unwrap_err()
        .contains("target_scheme"));
    assert!(
        CodeListMapping::from_json(&doc(VERSION, r#""target_scheme": " ","#, ROWS))
            .unwrap_err()
            .contains("schemes")
    );
}

#[test]
fn reversal_refuses_non_functions() {
    let doc = wire_with_row(r#"{ "source_value": "D", "target_value": "★★★" }"#);
    let mapping = CodeListMapping::from_json(&doc).unwrap();
    let err = mapping.reversed().unwrap_err();
    assert!(err.contains("not bijective"), "{err}");
}

fn item(identifier: &str, class: &str, manifest: Option<Json>) -> Json {
    let mut m = JsonObject::new();
    m.put("identifier", identifier);
    m.put("item_class", class);
    if let Some(manifest) = manifest {
        m.insert("manifest", manifest);
    }
    Json::Obj(m)
}

#[test]
fn from_item_checks_the_class_and_identifier() {
    assert!(
        CodeListMapping::from_item(&item("urn:unidpp:mapping:test", "transform", Some(wire()))).is_ok()
    );

    assert!(
        CodeListMapping::from_item(&item("urn:unidpp:mapping:test", "unit", Some(wire())))
            .unwrap_err()
            .contains("not a transform item")
    );

    assert!(
        CodeListMapping::from_item(&item("urn:unidpp:mapping:other", "transform", Some(wire())))
            .unwrap_err()
            .contains("manifest for")
    );

    assert!(
        CodeListMapping::from_item(&item("urn:unidpp:mapping:other", "transform", None))
            .unwrap_err()
            .contains("no manifest")
    );
}

#[test]
fn mapping_set_records_sourcing() {
    let mapping = CodeListMapping::from_json(&wire()).unwrap();
    let set = MappingSet::of(mapping.copy(), "registry");
    let (got, source) = set.get("urn:unidpp:mapping:test").unwrap();
    assert_eq!(got, &mapping);
    assert_eq!(source, "registry");
    assert!(set.get("urn:unidpp:mapping:none").is_none());
    assert!(MappingSet::empty().get("urn:unidpp:mapping:test").is_none());
}

#[test]
fn later_inserts_of_an_id_replace_earlier_ones() {
    let mapping = CodeListMapping::from_json(&wire()).unwrap();
    let mut newer = mapping.copy();
    newer.version = "2.0.0".to_string();
    let mut set = MappingSet::of(mapping, "fixtures");
    set.insert(newer, "registry");
    let (got, source) = set.get("urn:unidpp:mapping:test").unwrap();
    assert_eq!(got.version, "2.0.0");
    assert_eq!(source, "registry");
}

#[test]
fn reversal_twice_gives_the_table_back() {
    let mapping = CodeListMapping::from_json(&wire()).unwrap();
    let twice = mapping.reversed().unwrap().reversed().unwrap();
    let pairs = |m: &CodeListMapping| -> Vec<(String, String)> {
        m.table
            .iter()
            .map(|e: &MappingEntry| (e.source_value.clone(), e.target_value.clone()))
            .collect()
    };
    assert_eq!(pairs(&twice), pairs(&mapping));
    assert_eq!(twice.source_scheme, mapping.source_scheme);
    assert!(mapping.reversed().unwrap().validate().is_ok());
}

#[test]
fn a_blank_version_is_refused() {
    let err = CodeListMapping::from_json(&doc(r#""version": "  ","#, TARGET, ROWS)).unwrap_err();
    assert!(err.contains("version"), "{err}");
    let err = Json::parse("{ not json").unwrap_err();
    assert!(!err.is_empty());
}

#[test]
fn records_are_read_from_lists_too() {
    let doc = Json::parse(
        r#"["urn:m", "1", null, null, "s", "t", [["A", "five"], ["B", "four", "note"]]]"#,
    )
    .unwrap();
    let mapping = CodeListMapping::from_json(&doc).unwrap();
    assert_eq!(mapping.id, "urn:m");
    assert_eq!(mapping.title, None);
    assert_eq!(mapping.lookup("A").unwrap().target_value, "five");
    assert_eq!(mapping.lookup("B").unwrap().note.as_deref(), Some("note"));
    let long = Json::parse(r#"["urn:m", "1", null, null, "s", "t", [["A", "five"]], 8]"#).unwrap();
    assert_eq!(
        CodeListMapping::from_json(&long).unwrap_err(),
        "code-list mapping does not parse: invalid length 8, expected fewer elements in array"
    );
    let short = Json::parse(r#"["urn:m", "1"]"#).unwrap();
    assert_eq!(
        CodeListMapping::from_json(&short).unwrap_err(),
        "code-list mapping does not parse: invalid length 4, \
         expected struct CodeListMapping with 7 elements"
    );
}
