use std::collections::HashMap;

use unidpp_projector::aggregate::ChildDocuments;
use unidpp_projector::api::{
    check_format, check_presentable, check_servable, fixture_children, load_fixture, load_passport,
    packages_to_fetch, parse_render_query, parse_view_query, referenced_mappings,
    referenced_packages, referenced_units, registered_unit_from_item, render_reply, resolve_lens,
    resolve_mappings, resolve_packages, resolve_units, sealer_plan, stored_children, view_reply,
    Body, Config, LoadError, Refusal, ResolvedLens, SealerPlan, StoredDocument,
};
use unidpp_projector::codelist::MappingSet;
use unidpp_projector::fixtures::{
    battery_rules_package, consumer_lens, demo_as_of, demo_passport, eu_lens, fixture_primmel,
    fixture_unit_registry, fixture_units, jp_lens, pack_children, pack_lens, pack_system,
    BATTERY_RULES_PACKAGE_ID, DEMO_PASSPORT_ID, EU_CLASS_TO_JP_STAR_ID, EU_LENS_ID, JP_LENS_ID,
    PACK_CHILD_IDS,
};
use unidpp_projector::html::Format;
use unidpp_projector::json::{Json, JsonObject};
use unidpp_projector::lens::LensManifest;
use unidpp_projector::model::Passport;
use unidpp_projector::primmel::PackageSet;
use unidpp_projector::project::{project, CoreFindings, ProfileSource};
use unidpp_projector::registry::{FetchOutcome, RegistryClient};
use unidpp_projector::strmap::StrMap;
use unidpp_projector::twin::fold;

fn params(pairs: &[(&str, &str)]) -> HashMap<String, String> {
    pairs
        .iter()
        .map(|(k, v)| (k.to_string(), v.to_string()))
        .collect()
}

fn demo_heads() -> Vec<String> {
    (0..11).map(|i| format!("{i:02x}").repeat(32)).collect()
}

fn demo() -> Passport {
    demo_passport(&demo_heads())
}

fn two_heads(seed: usize) -> Vec<String> {
    vec![format!("{seed}a").repeat(32), format!("{seed}b").repeat(32)]
}

fn pack_heads() -> Vec<Vec<String>> {
    vec![two_heads(0), two_heads(1), two_heads(2)]
}

fn get<'a>(doc: &'a Json, pointer: &str) -> &'a Json {
    let mut v = doc;
    for key in pointer.split('.') {
        v = match v.as_array() {
            Some(items) => &items[key.parse::<usize>().unwrap()],
            None => v.get(key).unwrap_or_else(|| panic!("no `{key}` on {pointer}")),
        };
    }
    v
}

fn text<'a>(doc: &'a Json, pointer: &str) -> &'a str {
    get(doc, pointer).as_str().unwrap()
}

fn findings() -> CoreFindings {
    CoreFindings {
        trigger_holds: true,
        input_set_root: "5e".repeat(32),
        attestations: StrMap::new(),
    }
}

fn reads(pairs: Vec<(&str, Result<FetchOutcome, String>)>) -> StrMap<Result<FetchOutcome, String>> {
    let mut out = StrMap::new();
    for (k, v) in pairs {
        out.insert(k.to_string(), v);
    }
    out
}

#[test]
fn view_query_requires_all_three_parameters() {
    let err = parse_view_query(&params(&[("passport", "p"), ("profile", "l")])).unwrap_err();
    assert_eq!(err.status, 400);

    let ok = parse_view_query(&params(&[
        ("passport", " p "),
        ("profile", "l"),
        ("actor", " market-surveillance-authority "),
    ]))
    .unwrap();
    assert_eq!(ok.passport, "p");
    assert_eq!(ok.actor, "market-surveillance-authority");
    assert_eq!(ok.at, None);
}

#[test]
fn view_query_parses_and_rejects_at() {
    let ok = parse_view_query(&params(&[
        ("passport", "p"),
        ("profile", "l"),
        ("actor", "customs"),
        ("at", "2027-02-11T11:00:00Z"),
    ]))
    .unwrap();
    assert_eq!(ok.at, Some(demo_as_of()));

    let err = parse_view_query(&params(&[
        ("passport", "p"),
        ("profile", "l"),
        ("actor", "customs"),
        ("at", "not-a-time"),
    ]))
    .unwrap_err();
    assert_eq!(err.status, 400);
}

#[test]
fn render_query_requires_lang_and_parses_at() {
    // lang is required — the render is per-language by definition.
    let err = parse_render_query(&params(&[
        ("passport", "p"),
        ("profile", "l"),
        ("lang", " "),
    ]))
    .unwrap_err();
    assert_eq!(err.status, 400);

    let err = parse_render_query(&params(&[("passport", "p"), ("profile", "l")])).unwrap_err();
    assert_eq!(err.status, 400);

    let ok = parse_render_query(&params(&[
        ("passport", " p "),
        ("profile", "l"),
        ("lang", " ja "),
        ("at", "2027-02-11T11:00:00Z"),
    ]))
    .unwrap();
    assert_eq!(ok.passport, "p");
    assert_eq!(ok.lang, "ja");
    assert_eq!(ok.at, Some(demo_as_of()));

    let err = parse_render_query(&params(&[
        ("passport", "p"),
        ("profile", "l"),
        ("lang", "ja"),
        ("at", "soon"),
    ]))
    .unwrap_err();
    assert_eq!(err.status, 400);
}

#[test]
fn queries_name_the_missing_parameter() {
    let err = parse_view_query(&params(&[("profile", "l"), ("actor", "a")])).unwrap_err();
    assert_eq!(err.message, "`passport` query parameter is required");
    let err = parse_view_query(&params(&[("passport", "p"), ("actor", "a")])).unwrap_err();
    assert_eq!(err.message, "`profile` query parameter is required");
    let blank_at = parse_view_query(&params(&[
        ("passport", "p"),
        ("profile", "l"),
        ("actor", "a"),
        ("at", "  "),
    ]))
    .unwrap();
    assert_eq!(blank_at.at, None);
    assert_eq!(Json::Obj(err.body()).get_str("error"), Some(err.message.as_str()));
}

fn stored(file: &str, read: Result<Passport, String>) -> StoredDocument {
    StoredDocument {
        file: file.into(),
        read,
    }
}

#[test]
fn children_load_from_fixtures_and_the_store() {
    let system = pack_system(&two_heads(9));
    let at = demo_as_of();
    // Fixture mode: the pack system's three children resolve; the laptop
    // (whose child edge names a sodimm with no fixture document) resolves
    // nothing — the aggregation would report the gap.
    let children = fixture_children(&system, at, &pack_heads());
    assert_eq!(children.documents.len(), 3);
    assert!(children.get(PACK_CHILD_IDS[0]).is_some());
    let laptop_children = fixture_children(&demo(), at, &pack_heads());
    assert_eq!(laptop_children.documents.len(), 0);

    // Store mode: the children load from the store's documents.
    let documents: Vec<StoredDocument> = pack_children(&pack_heads())
        .into_iter()
        .rev()
        .enumerate()
        .map(|(i, child)| stored(&format!("pack-{i}.json"), Ok(child)))
        .collect();
    assert_eq!(stored_children(&documents, &system, at), vec![2, 1, 0]);
}

#[test]
fn mapping_resolution_without_a_registry_uses_fixtures() {
    // No registry configured: the built-in fixtures serve and say so; a
    // lens without localization bindings resolves nothing.
    let set = resolve_mappings(&pack_lens(), &StrMap::new()).unwrap();
    let (mapping, source) = set.get(EU_CLASS_TO_JP_STAR_ID).unwrap();
    assert_eq!(source, "fixtures");
    assert_eq!(mapping.version, "1.0.0");
    assert_eq!(
        resolve_mappings(&eu_lens(), &StrMap::new()).unwrap(),
        MappingSet::empty()
    );
}

#[test]
fn fixture_mode_loads_only_the_demo_passport() {
    let (passport, source) = load_fixture(DEMO_PASSPORT_ID, &demo_heads()).unwrap();
    assert_eq!(source, "fixture");
    assert_eq!(passport.passport_id, DEMO_PASSPORT_ID);
    assert!(matches!(
        load_fixture("urn:unidpp:passport:other", &demo_heads()),
        Err(LoadError::NotFound(_))
    ));
}

#[test]
fn store_mode_scans_sorted_documents() {
    let documents = vec![stored("laptop.json", Ok(demo()))];
    let (loaded, source) = load_passport(&documents, DEMO_PASSPORT_ID).unwrap();
    assert_eq!(source, "store");
    assert_eq!(loaded, &demo());
    assert!(matches!(
        load_passport(&documents, "urn:unidpp:passport:none"),
        Err(LoadError::NotFound(_))
    ));
}

#[test]
fn store_mode_reports_corrupt_documents() {
    let documents = vec![
        stored("broken.json", Err("no schema".into())),
        stored("laptop.json", Ok(demo())),
    ];
    match load_passport(&documents, DEMO_PASSPORT_ID) {
        Err(LoadError::Corrupt(file, _)) => assert_eq!(file, "broken.json"),
        other => panic!("expected corrupt, got {other:?}"),
    }
    // A document before the corrupt one still serves.
    let documents: Vec<StoredDocument> = documents.into_iter().rev().collect();
    assert!(load_passport(&documents, DEMO_PASSPORT_ID).is_ok());
    // A child behind a corrupt document is left to the gap report.
    let mut torn: Vec<StoredDocument> = vec![stored("a.json", Err("torn".into()))];
    for child in pack_children(&pack_heads()) {
        torn.push(stored("b.json", Ok(child)));
    }
    assert!(stored_children(&torn, &pack_system(&two_heads(9)), demo_as_of()).is_empty());
}

#[test]
fn load_errors_are_refused() {
    assert_eq!(
        LoadError::NotFound("p".into()).refusal(),
        Refusal {
            status: 404,
            message: "no passport `p`".into()
        }
    );
    assert_eq!(
        LoadError::Corrupt("f.json".into(), "torn".into()).refusal(),
        Refusal {
            status: 500,
            message: "corrupt passport document `f.json`: torn".into()
        }
    );
}

#[test]
fn registry_base_is_visible_for_mode_dispatch() {
    let client = |config: Config| RegistryClient::new(config.registry_url, config.registry_token);
    assert!(client(Config::default()).base().is_none());
    let configured = client(Config {
        registry_url: Some("http://127.0.0.1:8090".into()),
        ..Config::default()
    });
    assert_eq!(configured.base(), Some("http://127.0.0.1:8090"));
}

#[test]
fn the_sealer_arms_only_from_a_seed_and_an_attester() {
    let plan = |seed: Option<&str>, attester: Option<&str>| {
        sealer_plan(&seed.map(str::to_string), &attester.map(str::to_string))
    };
    // Seed + attester: armed.
    assert_eq!(
        plan(Some("operator-seed"), Some("urn:unidpp:eo:projector")),
        SealerPlan::Armed {
            seed: "operator-seed".into(),
            attester: "urn:unidpp:eo:projector".into()
        }
    );
    // A seed without an attester is refused loudly, not armed half-way.
    assert!(matches!(
        plan(Some("operator-seed"), None),
        SealerPlan::Refused(_)
    ));
    // The default projector is keyless.
    let config = Config::default();
    assert_eq!(
        sealer_plan(&config.rollup_seed, &config.rollup_attester),
        SealerPlan::Off
    );
    assert_eq!(
        plan(Some("seed"), Some("  ")),
        SealerPlan::Refused("validation error: a roll-up sealer names its attester".into())
    );
}

#[test]
fn unit_identity_parses_from_a_registry_item() {
    let doc = Json::parse(
        r#"{
        "identifier": "unit-kwh",
        "title": "kilowatt hour",
        "manifest": {
            "version": "1.0.0",
            "name": "kilowatt hour",
            "iso_80000_citation": "ISO 80000-4:2006 (energy); 1 kWh = 3.6 MJ exactly"
        }
    }"#,
    )
    .unwrap();
    let unit = registered_unit_from_item(&doc).unwrap();
    assert_eq!(unit.item, "unit-kwh");
    assert_eq!(unit.name, "kilowatt hour");
    assert!(unit.citation.as_deref().unwrap().contains("3.6 MJ"));
    assert!(registered_unit_from_item(&Json::parse(r#"{"title": "x"}"#).unwrap()).is_none());
    // Without a manifest, title and notes stand in.
    let bare = Json::parse(r#"{"identifier": "u", "title": "t", "notes": "n"}"#).unwrap();
    let unit = registered_unit_from_item(&bare).unwrap();
    assert_eq!(unit.name, "t");
    assert_eq!(unit.citation.as_deref(), Some("n"));
}

fn view(lens: &LensManifest) -> Json {
    Json::Obj(
        project(
            &demo(),
            lens,
            demo_as_of(),
            "customs",
            &fixture_units(),
            &ProfileSource::fallback("fixtures", None),
            &fixture_primmel(),
            &MappingSet::empty(),
            &ChildDocuments::empty(),
            &fixture_unit_registry(),
            &findings(),
        )
        .unwrap(),
    )
}

fn transform<'a>(view: &'a Json, id: &str) -> &'a Json {
    get(view, "transformed")
        .as_array()
        .unwrap()
        .iter()
        .find(|t| t.get_str("id") == Some(id))
        .unwrap()
}

#[test]
fn two_fixture_views_disagree_the_b4_moment() {
    // The pure-engine two-lens check (the HTTP surface adds only sourcing):
    // same passport, same instant, two lenses.
    let eu = view(&eu_lens());
    let jp = view(&jp_lens());

    // EU: complete coverage, class A.
    assert_eq!(text(&eu, "profile.id"), EU_LENS_ID);
    assert_eq!(get(&eu, "coverage.elements_required").as_u64(), Some(3));
    assert_eq!(get(&eu, "coverage.elements_present").as_u64(), Some(3));
    assert_eq!(get(&eu, "coverage.complete").as_bool(), Some(true));
    assert_eq!(text(&eu, "transformed.0.output"), "A");

    // JP: missing the top-runner element, class-2 on the same score,
    // capacity converted kWh -> MJ.
    assert_eq!(text(&jp, "profile.id"), JP_LENS_ID);
    assert_eq!(get(&jp, "coverage.elements_present").as_u64(), Some(2));
    assert_eq!(get(&jp, "coverage.complete").as_bool(), Some(false));
    let missing = get(&jp, "coverage.missing").as_array().unwrap();
    assert_eq!(missing.len(), 1);
    assert!(text(&missing[0], "element").contains("de.jp.top-runner-class"));
    assert_eq!(text(&missing[0], "reason"), "absent-as-of");
    assert_eq!(text(transform(&jp, "jp-reparability-class"), "output"), "class-2");
    let capacity = transform(&jp, "capacity-mj");
    assert_eq!(text(capacity, "output.amount"), "0.2592");
    assert_eq!(text(capacity, "output.unit"), "MJ");
    assert_eq!(
        get(capacity, "units.kWh.uom_registered").as_bool(),
        Some(true)
    );

    // The Primmel rules: the JP guard band decides on the
    // uncertainty-narrowed limit with its clause URN; the EU lens
    // classifies efficiency through the same package. 86.3 >= 85 but
    // 86.3 - 1.8 = 84.5 < 85: not demonstrably conforming.
    let guard = transform(&jp, "jp-soh-guard-band");
    assert_eq!(text(guard, "kind"), "primmel");
    assert_eq!(text(guard, "status"), "computed");
    assert_eq!(text(guard, "output"), "not-demonstrably-conforming");
    assert_eq!(
        text(guard, "clause_urn"),
        "urn:oiml:pub:r:91-2:2025#clause-6.1"
    );
    assert_eq!(text(guard, "inputs.soh.value"), "86.3");
    assert_eq!(text(guard, "inputs.U.value"), "1.8");
    assert_eq!(text(guard, "package.source"), "fixtures");

    let eff = transform(&eu, "eu-efficiency-class");
    assert_eq!(text(eff, "output"), "B"); // 88.5 >= 85, < 92
    assert_eq!(text(eff, "clause_urn"), "urn:eu:reg:2017:1369#annex-ii");
    assert_eq!(text(eff, "package.id"), BATTERY_RULES_PACKAGE_ID);
}

#[test]
fn both_fixture_views_share_the_same_twin_facts() {
    // The same three facts feed both lenses (single definition, many
    // constraints).
    let state = fold(&demo(), demo_as_of());
    for path in [
        "de.dpp.operator-id",
        "de.dpp.reparability-score",
        "de.dpp.carbon-footprint",
        "de.jp.pse-mark",
        "battery.capacity-kwh",
    ] {
        assert!(state.get(path).is_some(), "missing fact {path}");
    }
    assert!(state.get("de.jp.top-runner-class").is_none());
}

#[test]
fn package_resolution_without_primmel_bindings_is_empty() {
    // A lens with only unit/classification transforms resolves no packages
    // (no registry round-trip for them).
    let mut lens = eu_lens();
    lens.transforms.retain(|t| t.package_refs().is_empty());
    assert!(packages_to_fetch(&lens, &PackageSet::empty()).is_empty());
    let set = resolve_packages(&lens, &PackageSet::empty(), &StrMap::new()).unwrap();
    assert_eq!(set, PackageSet::empty());
}

fn down() -> Result<FetchOutcome, String> {
    Ok(FetchOutcome::Unreachable("registry not reachable: refused".into()))
}

#[test]
fn package_resolution_prefers_the_pinned_dir_then_fixtures() {
    // A pinned directory package wins over everything.
    let mut package = battery_rules_package();
    package.version = "9.9.9-pinned".to_string();
    let pinned = PackageSet::of(package, "dir");
    let lens = jp_lens();
    assert!(packages_to_fetch(&lens, &pinned).is_empty());
    let set = resolve_packages(
        &lens,
        &pinned,
        &reads(vec![(BATTERY_RULES_PACKAGE_ID, down())]),
    )
    .unwrap();
    let (pkg, source) = set.get(BATTERY_RULES_PACKAGE_ID).unwrap();
    assert_eq!(source, "dir");
    assert_eq!(pkg.version, "9.9.9-pinned");

    // Without a pin, with an unreachable registry or none, the built-in
    // fixtures serve and say so.
    let none = PackageSet::empty();
    assert_eq!(packages_to_fetch(&lens, &none), vec![BATTERY_RULES_PACKAGE_ID]);
    for fetched in [
        reads(vec![]),
        reads(vec![(BATTERY_RULES_PACKAGE_ID, down())]),
    ] {
        let set = resolve_packages(&lens, &none, &fetched).unwrap();
        let (pkg, source) = set.get(BATTERY_RULES_PACKAGE_ID).unwrap();
        assert_eq!(source, "fixtures");
        assert_eq!(pkg.version, "1.0.0");
    }

    // A corrupt pinned file is an operator error, surfaced.
    let mut torn = PackageSet::empty();
    let err = torn.add_file("broken.prml", "{ not json").unwrap_err();
    assert_eq!(Refusal::internal_error(err).status, 500);
}

const REGISTERED_PACKAGE: &str = r#"{
    "identifier": "urn:primmel:pkg:battery-rules",
    "manifest": {
        "id": "urn:primmel:pkg:battery-rules",
        "version": "2.0.0",
        "rules": [
            { "id": "soh-guard-band", "clause_urn": "urn:x#clause-1",
              "arms": [ { "label": "ok" } ] }
        ]
    }
}"#;

fn read_package(outcome: Result<FetchOutcome, String>) -> Result<PackageSet, Refusal> {
    resolve_packages(
        &jp_lens(),
        &PackageSet::empty(),
        &reads(vec![(BATTERY_RULES_PACKAGE_ID, outcome)]),
    )
}

#[test]
fn registered_packages_serve_and_live_negatives_stand() {
    let item = |text: &str| Ok(FetchOutcome::Registry(Json::parse(text).unwrap()));
    let set = read_package(item(REGISTERED_PACKAGE)).unwrap();
    let (pkg, source) = set.get(BATTERY_RULES_PACKAGE_ID).unwrap();
    assert_eq!(source, "registry");
    assert_eq!(pkg.version, "2.0.0");
    assert!(read_package(Ok(FetchOutcome::Missing))
        .unwrap()
        .get(BATTERY_RULES_PACKAGE_ID)
        .is_none());
    let refused = |outcome| read_package(outcome).unwrap_err();
    let err = refused(Err("boom".into()));
    assert_eq!(err.status, 502);
    assert_eq!(
        err.message,
        format!("registry read of primmel package `{BATTERY_RULES_PACKAGE_ID}` failed: boom")
    );
    let err = refused(item("{}"));
    assert_eq!(
        err.message,
        format!("primmel package item `{BATTERY_RULES_PACKAGE_ID}` carries no manifest")
    );
    let err = refused(item(r#"{"manifest": {"id": "x", "rules": []}}"#));
    assert_eq!(err.status, 502);
    assert!(err.message.contains("version"), "{}", err.message);
}

#[test]
fn mappings_serve_as_their_reads_say() {
    let resolve = |outcome| {
        resolve_mappings(&pack_lens(), &reads(vec![(EU_CLASS_TO_JP_STAR_ID, outcome)]))
    };
    assert!(resolve(Ok(FetchOutcome::Missing))
        .unwrap()
        .get(EU_CLASS_TO_JP_STAR_ID)
        .is_none());
    let set = resolve(down()).unwrap();
    assert_eq!(set.get(EU_CLASS_TO_JP_STAR_ID).unwrap().1, "fixtures");
    let err = resolve(Err("boom".into())).unwrap_err();
    assert_eq!(
        err.message,
        format!("registry read of code-list mapping `{EU_CLASS_TO_JP_STAR_ID}` failed: boom")
    );
    let err = resolve(Ok(FetchOutcome::Registry(Json::Null))).unwrap_err();
    assert_eq!(err.status, 502);
    let item = format!(
        r#"{{"identifier": "{EU_CLASS_TO_JP_STAR_ID}", "item_class": "transform", "manifest": {{
            "id": "{EU_CLASS_TO_JP_STAR_ID}", "version": "3.0.0",
            "source_scheme": "s", "target_scheme": "t",
            "table": [{{"source_value": "B", "target_value": "four"}}]}}}}"#
    );
    let set = resolve(Ok(FetchOutcome::Registry(Json::parse(&item).unwrap()))).unwrap();
    let (mapping, source) = set.get(EU_CLASS_TO_JP_STAR_ID).unwrap();
    assert_eq!(source, "registry");
    assert_eq!(mapping.lookup("B").unwrap().target_value, "four");
}

#[test]
fn units_serve_as_their_reads_say() {
    let lens = jp_lens();
    assert_eq!(referenced_units(&lens), vec!["unit-kwh", "unit-mj"]);
    let units = resolve_units(&lens, &StrMap::new());
    assert_eq!(units.get("unit-kwh").unwrap().name, "kilowatt hour");
    assert_eq!(units.get("unit-mj").unwrap().name, "megajoule");
    let fetched = reads(vec![
        (
            "unit-kwh",
            Ok(FetchOutcome::Registry(
                Json::parse(r#"{"identifier": "unit-kwh", "title": "kWh, registered"}"#).unwrap(),
            )),
        ),
        ("unit-mj", Ok(FetchOutcome::Missing)),
    ]);
    let units = resolve_units(&lens, &fetched);
    assert_eq!(units.len(), 1);
    assert_eq!(units.get("unit-kwh").unwrap().name, "kWh, registered");
    let units = resolve_units(&lens, &reads(vec![("unit-kwh", Err("boom".into()))]));
    assert!(units.get("unit-kwh").is_none());
    assert!(units.get("unit-mj").is_some());
}

#[test]
fn references_are_noted_once_in_order() {
    let mut lens = jp_lens();
    let more = jp_lens().transforms;
    lens.transforms.extend(more);
    assert_eq!(referenced_units(&lens), vec!["unit-kwh", "unit-mj"]);
    assert_eq!(referenced_packages(&lens), vec![BATTERY_RULES_PACKAGE_ID]);
    assert!(referenced_mappings(&lens).is_empty());
    assert_eq!(referenced_mappings(&pack_lens()), vec![EU_CLASS_TO_JP_STAR_ID]);
}

fn profile_item() -> FetchOutcome {
    let mut m = JsonObject::new();
    m.put("identifier", EU_LENS_ID);
    m.put("item_class", "profile");
    m.put_obj("manifest", JsonObject::new());
    FetchOutcome::Registry(Json::Obj(m))
}

#[test]
fn lenses_serve_as_their_reads_say() {
    let not_read = || Err("not read".to_string());
    let served = resolve_lens(EU_LENS_ID, Ok(profile_item()), Ok(eu_lens())).unwrap();
    assert_eq!(served.source, ProfileSource::registry());
    let served = resolve_lens(EU_LENS_ID, Ok(FetchOutcome::Fixtures), not_read()).unwrap();
    assert_eq!(served.lens, eu_lens());
    assert_eq!(
        served.source,
        ProfileSource::fallback("fixtures", Some("no registry URL configured".into()))
    );
    let served = resolve_lens(JP_LENS_ID, down(), not_read()).unwrap();
    assert_eq!(served.lens, jp_lens());
    assert_eq!(served.source.mode, "unreachable");

    let refused =
        |id: &str, fetched, read| resolve_lens(id, fetched, read).map(|_| ()).unwrap_err();
    let err = refused("x", Err("boom".into()), not_read());
    assert_eq!(err, Refusal::bad_gateway("registry read of profile `x` failed: boom".into()));
    let err = refused("x", Ok(profile_item()), not_read());
    assert_eq!(
        err,
        Refusal::bad_gateway("profile item `x`: lens manifest does not parse: not read".into())
    );
    let err = refused("x", Ok(FetchOutcome::Missing), not_read());
    assert_eq!(err, Refusal::not_found("no profile item `x` in the registry".into()));
    let err = refused("x", Ok(FetchOutcome::Fixtures), not_read());
    assert_eq!(
        err,
        Refusal::not_found("no profile item `x` and no registry configured".into())
    );
    let err = refused("x", down(), not_read());
    assert_eq!(
        err,
        Refusal::service_unavailable(
            "registry unreachable and `x` is not a built-in fixture: registry not reachable: refused"
                .into()
        )
    );
}

#[test]
fn closed_lenses_bad_formats_and_bare_lenses_are_refused() {
    let mut closed = consumer_lens();
    closed.profile.resolution = "none".into();
    let err = check_servable(&closed, "p").unwrap_err();
    assert_eq!(
        err,
        Refusal::forbidden("profile `p` is not servable (resolution `none`)".into())
    );
    assert!(check_servable(&consumer_lens(), "p").is_ok());
    let err = check_presentable(&eu_lens(), "p").unwrap_err();
    assert_eq!(err.status, 400);
    assert!(err.message.contains("carries no presentation binding"));
    assert!(check_presentable(&consumer_lens(), "p").is_ok());
    let err = check_format(&Format::Invalid("xml".into())).unwrap_err();
    assert_eq!(
        err,
        Refusal::bad_request("unknown `format` `xml` — `html`, `text` or `json`".into())
    );
    assert!(check_format(&Format::Html).is_ok());
}

fn resolved(lens: LensManifest) -> ResolvedLens {
    ResolvedLens {
        lens,
        source: ProfileSource::fallback("fixtures", None),
    }
}

#[test]
fn view_replies_state_the_passport_source() {
    let reply = |lens: LensManifest| {
        view_reply(
            &demo(),
            "fixture",
            &resolved(lens),
            demo_as_of(),
            "customs",
            &StrMap::new(),
            &PackageSet::empty(),
            &MappingSet::empty(),
            &ChildDocuments::empty(),
            &fixture_unit_registry(),
            &findings(),
        )
    };
    let doc = Json::Obj(reply(eu_lens()).unwrap());
    assert_eq!(text(&doc, "passport.source"), "fixture");
    assert_eq!(text(&doc, "passport.id"), DEMO_PASSPORT_ID);
    let mut bad = eu_lens();
    bad.bindings.clear();
    let err = reply(bad).unwrap_err();
    assert_eq!(err.status, 500);
    assert!(err.message.starts_with("invalid lens: "));
}

#[test]
fn render_replies_come_in_the_requested_format() {
    let reply = |lens: LensManifest, format: &Format| {
        render_reply(
            &demo(),
            "fixture",
            &resolved(lens),
            "p",
            demo_as_of(),
            "en",
            format,
        )
    };
    match reply(consumer_lens(), &Format::Json).unwrap() {
        Body::Document(doc) => assert_eq!(text(&doc, "passport.source"), "fixture"),
        other => panic!("expected the document, got {other:?}"),
    }
    match reply(consumer_lens(), &Format::Html).unwrap() {
        Body::Text(kind, page) => {
            assert_eq!(kind, "text/html; charset=utf-8");
            assert!(page.contains("<h2>Product</h2>"));
        }
        other => panic!("expected a page, got {other:?}"),
    }
    match reply(consumer_lens(), &Format::Text).unwrap() {
        Body::Text(kind, spoken) => {
            assert_eq!(kind, "text/plain; charset=utf-8");
            assert!(spoken.contains("Battery capacity: "));
        }
        other => panic!("expected text, got {other:?}"),
    }
    assert_eq!(reply(eu_lens(), &Format::Json).unwrap_err().status, 400);
    let mut closed = consumer_lens();
    closed.profile.resolution = "none".into();
    assert_eq!(reply(closed, &Format::Json).unwrap_err().status, 403);
    let mut bad = consumer_lens();
    bad.version = "".into();
    assert_eq!(reply(bad, &Format::Json).unwrap_err().status, 500);
}

#[test]
fn configuration_ignores_empty_and_bad_variables() {
    let config = Config::from_vars(&params(&[]), true);
    assert_eq!(config, Config::default());
    assert_eq!(config.bind, "127.0.0.1:8092");
    let vars = params(&[
        ("UNIDPP_PROJECTOR_BIND", "0.0.0.0:9000"),
        ("UNIDPP_REGISTRY_URL", "http://registry"),
        ("UNIDPP_PROJECTOR_REGISTRY_TOKEN", ""),
        ("UNIDPP_PROJECTOR_PASSPORTS_DIR", "/srv/passports"),
    ]);
    let config = Config::from_vars(&vars, true);
    assert_eq!(config.bind, "0.0.0.0:9000");
    assert_eq!(config.registry_url.as_deref(), Some("http://registry"));
    assert_eq!(config.registry_token, None);
    assert_eq!(config.passports_dir.as_deref(), Some("/srv/passports"));
    assert_eq!(Config::from_vars(&vars, false).bind, "127.0.0.1:8092");
    assert_eq!(Config::ENV_KEYS.len(), 7);
    assert_eq!(Config::ENV_KEYS[1], "UNIDPP_REGISTRY_URL");
}
