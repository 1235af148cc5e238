//! The two-lens demonstration corpus: one laptop passport, the EU/JP lens
//! manifests, the consumer and CN protocol lenses, and the battery-pack
//! roll-up corpus.
//!
//! One neutral core, several jurisdiction lenses: no region is the universal
//! envelope — the lenses constrain and transform the same twin state and
//! disagree auditably. Every timestamp is fixed; the log heads, which the
//! event log's hash chain determines, are handed in.
use vstd::prelude::*;
use vstd::string::*;

use crate::codelist::{mapping_fault, reversal, swapped, CodeListMapping, EntryView, MappingEntry, MappingSet, MappingView};
use crate::decimal::{made_facts, Decimal};
use crate::aggregate::AggregationOperation;
use crate::lens::{lens_fault, requires_element, well_formed_lens_validates, ClassBand, DataPointBinding, FormattingRules, LensManifest, PresentationBinding, PresentationElement, PresentationSection, TransformBinding, UnitPosition};
use crate::model::{data_point_text, CapabilityClass, DataPointRef, EventPayload, Interval, Passport, ProfileManifest, SealedEvent, TrustMarker, TypedEvent};
use crate::primmel::{package_fault, Arm, ArmView, CmpOp, Expr, ExprView, PackageSet, PackageView, Predicate, PredicateView, PrimmelPackage, PrimmelRule, RuleView};
use crate::project::RegisteredUnit;
use crate::strmap::{ascending, ascending_unique, StrMap};
use crate::text::{is_blank, is_white, opt_str, opt_text, same, sorts_before, texts, trimmed};
use crate::time::Timestamp;
use crate::units::{Unit, UnitRegistry};

pub mod facts;

verus! {

/// The demo passport id (one laptop instance, ISO/IEC 15459).
pub const DEMO_PASSPORT_ID: &'static str = "urn:iso:std:iso-iec:15459:unidpp:passport:84120099012345";

/// The EU lens item id.
pub const EU_LENS_ID: &'static str = "urn:unidpp:profile:eu-espr-electronics";

/// The JP lens item id.
pub const JP_LENS_ID: &'static str = "urn:unidpp:profile:jp-meti-pse";

/// The consumer presentation lens item id.
pub const CONSUMER_LENS_ID: &'static str = "urn:unidpp:profile:consumer-dpp";

/// The CN regulatory protocol lens item id.
pub const CN_PROTOCOL_LENS_ID: &'static str = "urn:unidpp:profile:cn-protocol-checks";

/// The EU battery-pack-system roll-up lens item id.
pub const PACK_LENS_ID: &'static str = "urn:unidpp:profile:eu-battery-packs";

/// The battery-pack-system passport id (the aggregation subject).
pub const PACK_SYSTEM_ID: &'static str = "urn:iso:std:iso-iec:15459:unidpp:passport:packsystem-84120099077701";

/// The canonical demonstration instant (after every demo event).
pub const DEMO_AS_OF: &'static str = "2027-02-11T11:00:00Z";

/// Canonical element refs of the consumer lens's data points.
pub const OPERATOR_ELEMENT: &'static str = "ferin:eu/de.dpp.operator-id@1.0.0";

pub const CAPACITY_ELEMENT: &'static str = "ferin:eu/battery.capacity-kwh@1.0.0";

pub const REPARABILITY_ELEMENT: &'static str = "ferin:eu/de.dpp.reparability-score@1.1.0";

pub const CARBON_ELEMENT: &'static str = "ferin:eu/de.dpp.carbon-footprint@1.2.0";

pub const INSTRUCTION_ELEMENT: &'static str = "ferin:eu/de.dpp.recycling-instruction@1.0.0";

/// Canonical element refs of the pack lens's data points.
pub const ENERGY_LABEL_ELEMENT: &'static str = "ferin:eu/eu.energy-label-class@1.0.0";

pub const PACK_CARBON_ELEMENT: &'static str = "ferin:eu/pack.carbon-footprint@1.0.0";

pub const PACK_MASS_ELEMENT: &'static str = "ferin:eu/pack.mass-kg@1.0.0";

pub const PACK_SOH_ELEMENT: &'static str = "ferin:eu/pack.soh-pct@1.0.0";

/// Canonical element refs of the CN protocol-check lens's data points.
pub const CN_3C_ELEMENT: &'static str = "ferin:cn/cn.protocol.3c@1.0.0";

pub const CN_PRODUCER_ELEMENT: &'static str = "ferin:cn/cn.protocol.producer-regulation@1.0.0";

pub const CN_LICENSE_ELEMENT: &'static str = "ferin:cn/cn.protocol.industrial-license@1.0.0";

/// The built-in Primmel package id.
pub const BATTERY_RULES_PACKAGE_ID: &'static str = "urn:primmel:pkg:battery-rules";

/// The guard-band rule id within the package.
pub const SOH_GUARD_BAND_RULE: &'static str = "soh-guard-band";

/// The efficiency class rule id within the package.
pub const EFFICIENCY_CLASS_RULE: &'static str = "efficiency-class";

/// The EU-class-to-JP-star code-list mapping item id.
pub const EU_CLASS_TO_JP_STAR_ID: &'static str = "urn:unidpp:mapping:eu-class-to-jp-star";

/// The reverse correspondence item id (JP stars back to EU classes).
pub const JP_STAR_TO_EU_CLASS_ID: &'static str = "urn:unidpp:mapping:jp-star-to-eu-class";

/// The three battery-pack child passport ids (the traversal set), in
/// passport-id order.
pub const PACK_CHILD_IDS: [&'static str; 3] = [
    "urn:iso:std:iso-iec:15459:unidpp:passport:pack-84120099088001",
    "urn:iso:std:iso-iec:15459:unidpp:passport:pack-84120099088002",
    "urn:iso:std:iso-iec:15459:unidpp:passport:pack-84120099088003",
];

/// A decimal constant.
fn dec(mant: i128, exp: i32) -> (r: Decimal)
    requires
        mant != 0 ==> mant % 10 != 0,
        mant == 0 ==> exp == 0,
        -1_000_000 < mant < 1_000_000,
        -10 < exp < 10,
    ensures
        r == Decimal::of_parts(mant as int, exp as int),
        r.mant() == mant,
        r.exp() == exp,
{
    proof {
        made_facts(mant as int, exp as int);
    }
    match Decimal::new(mant, exp) {
        Ok(d) => d,
        Err(_) => Decimal::zero(),
    }
}

/// A row of the star correspondence.
pub open spec fn star_row(class: Seq<char>, stars: Seq<char>, note: Option<Seq<char>>) -> EntryView {
    EntryView { source: class, target: stars, note }
}

/// The EU energy-label class to JP star-display correspondence: bijective on
/// the A–E band; values outside the band are not mapped.
pub open spec fn eu_class_to_jp_star() -> MappingView {
    MappingView {
        id: EU_CLASS_TO_JP_STAR_ID@,
        version: "1.0.0"@,
        title: Some("EU energy-label class to JP star display (A-E band)"@),
        citation: Some("Regulation (EU) 2017/1369 Annex II <-> JP METI star display"@),
        source_scheme: "urn:eu:reg:2017:1369#annex-ii-class"@,
        target_scheme: "urn:jp:meti:star-rating"@,
        table: seq![
            star_row(
                "A"@,
                "★★★★★"@,
                Some("the A-E band of the EU scale maps onto the five-star display"@),
            ),
            star_row("B"@, "★★★★"@, None),
            star_row("C"@, "★★★"@, None),
            star_row("D"@, "★★"@, None),
            star_row("E"@, "★"@, None),
        ],
    }
}

fn row(class: &str, stars: &str, note: Option<&str>) -> (r: MappingEntry)
    ensures
        r@ == star_row(class@, stars@, crate::text::opt_str(note)),
{
    MappingEntry {
        source_value: class.to_string(),
        target_value: stars.to_string(),
        note: match note {
            Some(n) => Some(n.to_string()),
            None => None,
        },
    }
}

/// The built-in EU class to JP star mapping.
pub fn eu_class_to_jp_star_mapping() -> (r: CodeListMapping)
    ensures
        r@ == eu_class_to_jp_star(),
{
    let mut table: Vec<MappingEntry> = Vec::new();
    table.push(
        row(
            "A",
            "★★★★★",
            Some("the A-E band of the EU scale maps onto the five-star display"),
        ),
    );
    table.push(row("B", "★★★★", None));
    table.push(row("C", "★★★", None));
    table.push(row("D", "★★", None));
    table.push(row("E", "★", None));
    assert(crate::codelist::rows(table@) =~= eu_class_to_jp_star().table);
    CodeListMapping {
        id: EU_CLASS_TO_JP_STAR_ID.to_string(),
        version: "1.0.0".to_string(),
        title: Some("EU energy-label class to JP star display (A-E band)".to_string()),
        citation: Some("Regulation (EU) 2017/1369 Annex II <-> JP METI star display".to_string()),
        source_scheme: "urn:eu:reg:2017:1369#annex-ii-class".to_string(),
        target_scheme: "urn:jp:meti:star-rating".to_string(),
        table,
    }
}

/// The fixture correspondence is a valid, bijective mapping.
pub proof fn star_mapping_is_valid_and_bijective()
    ensures
        mapping_fault(eu_class_to_jp_star()) is None,
        reversal(eu_class_to_jp_star()) is Ok,
{
    reveal_strlit("A");
    reveal_strlit("B");
    reveal_strlit("C");
    reveal_strlit("D");
    reveal_strlit("E");
    reveal_strlit("★★★★★");
    reveal_strlit("★★★★");
    reveal_strlit("★★★");
    reveal_strlit("★★");
    reveal_strlit("★");
    reveal_strlit("urn:unidpp:mapping:eu-class-to-jp-star");
    reveal_strlit("1.0.0");
    reveal_strlit("urn:eu:reg:2017:1369#annex-ii-class");
    reveal_strlit("urn:jp:meti:star-rating");
    reveal_with_fuel(crate::codelist::rows_fault, 7);
    reveal_with_fuel(crate::codelist::collision, 7);
    let m = eu_class_to_jp_star();
    assert(!crate::text::is_white(m.id[0]));
    assert(!crate::text::is_white(m.version[0]));
    assert(!crate::text::is_white(m.source_scheme[0]));
    assert(!crate::text::is_white(m.target_scheme[0]));
    assert forall|i: int| 0 <= i < 5 implies !crate::text::is_blank((#[trigger] m.table[i]).source)
        && !crate::text::is_blank(m.table[i].target) by {
        assert(!crate::text::is_white(m.table[i].source[0]));
        assert(!crate::text::is_white(m.table[i].target[0]));
    }
    assert forall|i: int, j: int| 0 <= i < j < 5 implies (#[trigger] m.table[i]).source != (
    #[trigger] m.table[j]).source && m.table[i].target.len() != m.table[j].target.len() by {
        assert(m.table[i].source[0] != m.table[j].source[0]);
    }
}

/// The data point has these parts.
pub open spec fn point_is(p: DataPointRef, register: Seq<char>, item: Seq<char>, version: Seq<char>) -> bool {
    p.register@ == register && p.item@ == item && opt_text(p.version) == Some(version)
}

fn point(register: &str, item: &str, version: &str) -> (r: DataPointRef)
    ensures
        point_is(r, register@, item@, version@),
{
    DataPointRef::new(register, item, Some(version))
}

/// The binding has these parts, and no capability gate.
pub open spec fn binding_is(
    b: DataPointBinding,
    element: Seq<char>,
    source: Seq<char>,
    trust: TrustMarker,
    unit: Option<Seq<char>>,
) -> bool {
    &&& b.element@ == element
    &&& b.source@ == source
    &&& b.min_trust == trust
    &&& b.min_capability == CapabilityClass::Silent
    &&& opt_text(b.declared_unit) == unit
}

fn binding(element: &str, source: &str, trust: TrustMarker, unit: Option<&str>) -> (r:
    DataPointBinding)
    ensures
        binding_is(r, element@, source@, trust, opt_str(unit)),
{
    DataPointBinding {
        element: element.to_string(),
        source: source.to_string(),
        min_trust: trust,
        min_capability: CapabilityClass::Silent,
        declared_unit: match unit {
            Some(u) => Some(u.to_string()),
            None => None,
        },
    }
}

/// The profile has these parts; it is public, static, without capability
/// floor, and in force from the instant on.
pub open spec fn profile_is(
    p: ProfileManifest,
    id: Seq<char>,
    axes: Seq<char>,
    trigger: Seq<char>,
    from: int,
) -> bool {
    &&& p.id@ == id
    &&& p.axes@ == axes
    &&& p.trigger@ == trigger
    &&& p.freshness@ == "static"@
    &&& p.min_capability == CapabilityClass::Silent
    &&& p.effective.from.secs == from
    &&& p.effective.to is None
    &&& p.resolution@ == "public"@
    &&& p.refusal is None
}

fn profile(id: &str, axes: &str, trigger: &str, from: i64, data_points: Vec<DataPointRef>) -> (r:
    ProfileManifest)
    ensures
        profile_is(r, id@, axes@, trigger@, from as int),
        r.data_points == data_points,
{
    ProfileManifest {
        id: id.to_string(),
        axes: axes.to_string(),
        trigger: trigger.to_string(),
        freshness: "static".to_string(),
        min_capability: CapabilityClass::Silent,
        effective: Interval::starting(Timestamp::from_secs(from)),
        data_points,
        resolution: "public".to_string(),
        refusal: None,
    }
}

/// The band has these parts.
pub open spec fn band_is(b: ClassBand, label: Seq<char>, mant: int, exp: int) -> bool {
    b.label@ == label && b.min == Decimal::of_parts(mant, exp)
}

fn band(label: &str, mant: i128, exp: i32) -> (r: ClassBand)
    requires
        mant != 0 ==> mant % 10 != 0,
        mant == 0 ==> exp == 0,
        -1_000_000 < mant < 1_000_000,
        -10 < exp < 10,
    ensures
        band_is(r, label@, mant as int, exp as int),
{
    ClassBand { label: label.to_string(), min: dec(mant, exp) }
}

/// The map holds exactly these two texts, in this key order.
pub open spec fn two_texts(
    m: StrMap<String>,
    k1: Seq<char>,
    v1: Seq<char>,
    k2: Seq<char>,
    v2: Seq<char>,
) -> bool {
    &&& m.keys() == seq![k1, k2]
    &&& m@.map_values(|s: String| s@) == map![k1 => v1, k2 => v2]
}

fn pair_map(k1: &str, v1: &str, k2: &str, v2: &str) -> (r: StrMap<String>)
    requires
        sorts_before(k1@, k2@),
    ensures
        two_texts(r, k1@, v1@, k2@, v2@),
{
    let mut m: StrMap<String> = StrMap::new();
    m.insert(k1.to_string(), v1.to_string());
    m.insert(k2.to_string(), v2.to_string());
    let n: usize = m.len();
    proof {
        assert(m@.map_values(|s: String| s@) =~= map![k1@ => v1@, k2@ => v2@]);
        let want = seq![k1@, k2@];
        assert(ascending(want));
        assert forall|k: Seq<char>| #[trigger] m.keys().contains(k) <==> want.contains(k) by {
            assert(m@.contains_key(k) <==> m.keys().contains(k));
            if want.contains(k) {
                let i = want.index_of(k);
                assert(k == k1@ || k == k2@);
            }
            if k == k1@ {
                assert(want[0] == k);
            }
            if k == k2@ {
                assert(want[1] == k);
            }
        }
        ascending_unique(m.keys(), want);
    }
    m
}

/// The key orders that the corpus relies on.
proof fn key_orders()
    ensures
        sorts_before("en"@, "ja"@),
        sorts_before("en"@, "zh"@),
        sorts_before("U"@, "soh"@),
{
    reveal_strlit("en");
    reveal_strlit("ja");
    reveal_strlit("zh");
    reveal_strlit("U");
    reveal_strlit("soh");
}

/// A text that begins with a character that is no white space is not blank.
proof fn starts_visibly(s: Seq<char>)
    requires
        s.len() > 0,
        !is_white(s[0]),
    ensures
        !is_blank(s),
{
}

/// The EU ESPR electronics lens: complete coverage of the demo passport,
/// classifies the reparability score on the EU bands and the round-trip
/// efficiency through the rule package.
pub open spec fn is_eu_lens(l: LensManifest) -> bool {
    let points = l.profile.data_points@;
    &&& l.version@ == "1.0.0"@
    &&& profile_is(l.profile, EU_LENS_ID@, "EU x electronics x -"@, "any"@, 1_798_761_600)
    &&& points.len() == 3
    &&& point_is(points[0], "ferin:eu"@, "de.dpp.operator-id"@, "1.0.0"@)
    &&& point_is(points[1], "ferin:eu"@, "de.dpp.reparability-score"@, "1.1.0"@)
    &&& point_is(points[2], "ferin:eu"@, "de.dpp.carbon-footprint"@, "1.2.0"@)
    &&& l.bindings@.len() == 3
    &&& binding_is(l.bindings@[0], OPERATOR_ELEMENT@, facts::OPERATOR_ID@, TrustMarker::Attested, None)
    &&& binding_is(
        l.bindings@[1],
        REPARABILITY_ELEMENT@,
        facts::REPARABILITY@,
        TrustMarker::SelfDeclared,
        None,
    )
    &&& binding_is(
        l.bindings@[2],
        CARBON_ELEMENT@,
        facts::CARBON@,
        TrustMarker::SelfDeclared,
        Some("kgCO2e"@),
    )
    &&& l.transforms@.len() == 2
    &&& l.transforms@[0] matches TransformBinding::Classification { id, source, bands } && {
        &&& id@ == "eu-reparability-class"@
        &&& source@ == facts::REPARABILITY@
        &&& bands@.len() == 4
        &&& band_is(bands@[0], "A"@, 8, 0)
        &&& band_is(bands@[1], "B"@, 6, 0)
        &&& band_is(bands@[2], "C"@, 4, 0)
        &&& band_is(bands@[3], "D"@, 0, 0)
    }
    &&& l.transforms@[1] matches TransformBinding::Primmel { id, package_ref, rule_id, inputs } && {
        &&& id@ == "eu-efficiency-class"@
        &&& package_ref@ == BATTERY_RULES_PACKAGE_ID@
        &&& rule_id@ == EFFICIENCY_CLASS_RULE@
        &&& inputs.keys() == seq!["eff"@]
        &&& inputs@["eff"@]@ == facts::ROUND_TRIP_EFFICIENCY@
    }
    &&& l.presentation is None
}

proof fn eu_lens_valid(l: LensManifest)
    requires
        is_eu_lens(l),
    ensures
        lens_fault(l) is None,
{
    reveal_strlit("ferin:eu");
    reveal_strlit("/");
    reveal_strlit("@");
    reveal_strlit("1.0.0");
    reveal_strlit("1.1.0");
    reveal_strlit("1.2.0");
    reveal_strlit("de.dpp.operator-id");
    reveal_strlit("de.dpp.reparability-score");
    reveal_strlit("de.dpp.carbon-footprint");
    reveal_strlit("ferin:eu/de.dpp.operator-id@1.0.0");
    reveal_strlit("ferin:eu/de.dpp.reparability-score@1.1.0");
    reveal_strlit("ferin:eu/de.dpp.carbon-footprint@1.2.0");
    reveal_strlit("eu-reparability-class");
    reveal_strlit("eu-efficiency-class");
    reveal_strlit("A");
    reveal_strlit("B");
    reveal_strlit("C");
    reveal_strlit("D");
    reveal_strlit("urn:primmel:pkg:battery-rules");
    reveal_strlit("efficiency-class");
    reveal_strlit("battery.round-trip-efficiency-pct");
    let points = l.profile.data_points@;
    assert(data_point_text(points[0]) =~= OPERATOR_ELEMENT@);
    assert(data_point_text(points[1]) =~= REPARABILITY_ELEMENT@);
    assert(data_point_text(points[2]) =~= CARBON_ELEMENT@);
    starts_visibly(facts::OPERATOR_ID@);
    starts_visibly(facts::REPARABILITY@);
    starts_visibly(facts::CARBON@);
    starts_visibly(facts::ROUND_TRIP_EFFICIENCY@);
    starts_visibly("1.0.0"@);
    starts_visibly("A"@);
    starts_visibly("B"@);
    starts_visibly("C"@);
    starts_visibly("D"@);
    starts_visibly(BATTERY_RULES_PACKAGE_ID@);
    starts_visibly(EFFICIENCY_CLASS_RULE@);
    reveal_with_fuel(crate::lens::bands_fault, 6);
    assert("eu-reparability-class"@.len() != "eu-efficiency-class"@.len());
    well_formed_lens_validates(l);
}

/// The EU ESPR electronics lens.
pub fn eu_lens() -> (r: LensManifest)
    ensures
        is_eu_lens(r),
        lens_fault(r) is None,
{
    let mut points: Vec<DataPointRef> = Vec::new();
    points.push(point("ferin:eu", "de.dpp.operator-id", "1.0.0"));
    points.push(point("ferin:eu", "de.dpp.reparability-score", "1.1.0"));
    points.push(point("ferin:eu", "de.dpp.carbon-footprint", "1.2.0"));
    let mut bindings: Vec<DataPointBinding> = Vec::new();
    bindings.push(binding(OPERATOR_ELEMENT, facts::OPERATOR_ID, TrustMarker::Attested, None));
    bindings.push(
        binding(REPARABILITY_ELEMENT, facts::REPARABILITY, TrustMarker::SelfDeclared, None),
    );
    bindings.push(
        binding(CARBON_ELEMENT, facts::CARBON, TrustMarker::SelfDeclared, Some("kgCO2e")),
    );
    let mut bands: Vec<ClassBand> = Vec::new();
    bands.push(band("A", 8, 0));
    bands.push(band("B", 6, 0));
    bands.push(band("C", 4, 0));
    bands.push(band("D", 0, 0));
    let mut transforms: Vec<TransformBinding> = Vec::new();
    transforms.push(
        TransformBinding::Classification {
            id: "eu-reparability-class".to_string(),
            source: facts::REPARABILITY.to_string(),
            bands,
        },
    );
    transforms.push(
        TransformBinding::Primmel {
            id: "eu-efficiency-class".to_string(),
            package_ref: BATTERY_RULES_PACKAGE_ID.to_string(),
            rule_id: EFFICIENCY_CLASS_RULE.to_string(),
            inputs: single_map("eff", facts::ROUND_TRIP_EFFICIENCY),
        },
    );
    let lens: LensManifest = LensManifest {
        version: "1.0.0".to_string(),
        profile: profile(EU_LENS_ID, "EU x electronics x -", "any", 1_798_761_600, points),
        bindings,
        transforms,
        presentation: None,
    };
    proof {
        eu_lens_valid(lens);
    }
    lens
}

/// A map with one key.
fn single_map(k: &str, v: &str) -> (r: StrMap<String>)
    ensures
        r.keys() == seq![k@],
        r@.contains_key(k@),
        r@[k@]@ == v@,
{
    let mut m: StrMap<String> = StrMap::new();
    m.insert(k.to_string(), v.to_string());
    let n: usize = m.len();
    proof {
        let keys = m.keys();
        assert(m@.contains_key(k@));
        assert(keys.contains(k@));
        let i = keys.index_of(k@);
        assert forall|j: int| 0 <= j < keys.len() implies keys[j] == k@ by {
            assert(keys.contains(keys[j]));
            assert(m@.contains_key(keys[j]));
        }
        if keys.len() > 1 {
            assert(keys[0] != keys[1]);
        }
        assert(keys =~= seq![k@]);
    }
    m
}

/// The JP METI PSE lens: triggered on the JP market fact, missing the
/// top-runner-class data point on the demo passport, converts battery
/// capacity kWh -> MJ, classifies the reparability score on the JP bands, and
/// decides the state of health under its guard band.
pub open spec fn is_jp_lens(l: LensManifest) -> bool {
    let points = l.profile.data_points@;
    &&& l.version@ == "1.0.0"@
    &&& profile_is(
        l.profile,
        JP_LENS_ID@,
        "JP x electronics x -"@,
        "subject.markets ~ JP"@,
        1_790_812_800,
    )
    &&& points.len() == 3
    &&& point_is(points[0], "ferin:jp"@, "de.dpp.operator-id"@, "1.0.0"@)
    &&& point_is(points[1], "ferin:jp"@, "de.jp.pse-mark"@, "2.0.0"@)
    &&& point_is(points[2], "ferin:jp"@, "de.jp.top-runner-class"@, "2026.1"@)
    &&& l.bindings@.len() == 3
    &&& binding_is(
        l.bindings@[0],
        "ferin:jp/de.dpp.operator-id@1.0.0"@,
        facts::OPERATOR_ID@,
        TrustMarker::Attested,
        None,
    )
    &&& binding_is(
        l.bindings@[1],
        "ferin:jp/de.jp.pse-mark@2.0.0"@,
        facts::PSE_MARK@,
        TrustMarker::Attested,
        None,
    )
    &&& binding_is(
        l.bindings@[2],
        "ferin:jp/de.jp.top-runner-class@2026.1"@,
        facts::TOP_RUNNER@,
        TrustMarker::SelfDeclared,
        None,
    )
    &&& l.transforms@.len() == 3
    &&& l.transforms@[0] matches TransformBinding::UnitConversion {
        id,
        source,
        from_unit,
        to_unit,
        from_item,
        to_item,
    } && {
        &&& id@ == "capacity-mj"@
        &&& source@ == facts::CAPACITY_KWH@
        &&& from_unit@ == "kWh"@
        &&& to_unit@ == "MJ"@
        &&& opt_text(from_item) == Some("unit-kwh"@)
        &&& opt_text(to_item) == Some("unit-mj"@)
    }
    &&& l.transforms@[1] matches TransformBinding::Classification { id, source, bands } && {
        &&& id@ == "jp-reparability-class"@
        &&& source@ == facts::REPARABILITY@
        &&& bands@.len() == 4
        &&& band_is(bands@[0], "class-1"@, 85, -1)
        &&& band_is(bands@[1], "class-2"@, 7, 0)
        &&& band_is(bands@[2], "class-3"@, 5, 0)
        &&& band_is(bands@[3], "class-4"@, 0, 0)
    }
    &&& l.transforms@[2] matches TransformBinding::Primmel { id, package_ref, rule_id, inputs } && {
        &&& id@ == "jp-soh-guard-band"@
        &&& package_ref@ == BATTERY_RULES_PACKAGE_ID@
        &&& rule_id@ == SOH_GUARD_BAND_RULE@
        &&& two_texts(inputs, "U"@, facts::SOH_UNCERTAINTY@, "soh"@, facts::SOH@)
    }
    &&& l.presentation is None
}

proof fn jp_lens_valid(l: LensManifest)
    requires
        is_jp_lens(l),
    ensures
        lens_fault(l) is None,
{
    reveal_strlit("ferin:jp");
    reveal_strlit("/");
    reveal_strlit("@");
    reveal_strlit("1.0.0");
    reveal_strlit("2.0.0");
    reveal_strlit("2026.1");
    reveal_strlit("de.dpp.operator-id");
    reveal_strlit("de.jp.pse-mark");
    reveal_strlit("de.jp.top-runner-class");
    reveal_strlit("ferin:jp/de.dpp.operator-id@1.0.0");
    reveal_strlit("ferin:jp/de.jp.pse-mark@2.0.0");
    reveal_strlit("ferin:jp/de.jp.top-runner-class@2026.1");
    reveal_strlit("capacity-mj");
    reveal_strlit("jp-reparability-class");
    reveal_strlit("jp-soh-guard-band");
    reveal_strlit("battery.capacity-kwh");
    reveal_strlit("de.dpp.reparability-score");
    reveal_strlit("battery.soh-u-pct");
    reveal_strlit("class-1");
    reveal_strlit("class-2");
    reveal_strlit("class-3");
    reveal_strlit("class-4");
    reveal_strlit("urn:primmel:pkg:battery-rules");
    reveal_strlit("soh-guard-band");
    let points = l.profile.data_points@;
    assert(data_point_text(points[0]) =~= "ferin:jp/de.dpp.operator-id@1.0.0"@);
    assert(data_point_text(points[1]) =~= "ferin:jp/de.jp.pse-mark@2.0.0"@);
    assert(data_point_text(points[2]) =~= "ferin:jp/de.jp.top-runner-class@2026.1"@);
    starts_visibly(facts::OPERATOR_ID@);
    starts_visibly(facts::PSE_MARK@);
    starts_visibly(facts::TOP_RUNNER@);
    starts_visibly(facts::CAPACITY_KWH@);
    starts_visibly(facts::REPARABILITY@);
    starts_visibly(facts::SOH_UNCERTAINTY@);
    starts_visibly("1.0.0"@);
    starts_visibly("class-1"@);
    starts_visibly("class-2"@);
    starts_visibly("class-3"@);
    starts_visibly("class-4"@);
    starts_visibly(BATTERY_RULES_PACKAGE_ID@);
    starts_visibly(SOH_GUARD_BAND_RULE@);
    reveal_with_fuel(crate::lens::bands_fault, 6);
    assert("capacity-mj"@.len() != "jp-reparability-class"@.len());
    assert("capacity-mj"@.len() != "jp-soh-guard-band"@.len());
    assert("jp-reparability-class"@.len() != "jp-soh-guard-band"@.len());
    match l.transforms@[2] {
        TransformBinding::Primmel { inputs, .. } => {
            let m = inputs@.map_values(|s: String| s@);
            assert(inputs.keys()[0] == "U"@);
            reveal_strlit("U");
            reveal_strlit("soh");
            assert("U"@.len() != "soh"@.len());
            assert(m["U"@] == facts::SOH_UNCERTAINTY@);
            assert(m.contains_key("U"@));
            assert(inputs@["U"@]@ == facts::SOH_UNCERTAINTY@);
        },
        _ => {},
    }
    well_formed_lens_validates(l);
}

/// The JP METI PSE lens.
pub fn jp_lens() -> (r: LensManifest)
    ensures
        is_jp_lens(r),
        lens_fault(r) is None,
{
    proof {
        key_orders();
    }
    let mut points: Vec<DataPointRef> = Vec::new();
    points.push(point("ferin:jp", "de.dpp.operator-id", "1.0.0"));
    points.push(point("ferin:jp", "de.jp.pse-mark", "2.0.0"));
    points.push(point("ferin:jp", "de.jp.top-runner-class", "2026.1"));
    let mut bindings: Vec<DataPointBinding> = Vec::new();
    bindings.push(
        binding(
            "ferin:jp/de.dpp.operator-id@1.0.0",
            facts::OPERATOR_ID,
            TrustMarker::Attested,
            None,
        ),
    );
    bindings.push(
        binding("ferin:jp/de.jp.pse-mark@2.0.0", facts::PSE_MARK, TrustMarker::Attested, None),
    );
    // Deliberately not provided by the demo passport: the two lenses must
    // disagree on coverage, visibly.
    bindings.push(
        binding(
            "ferin:jp/de.jp.top-runner-class@2026.1",
            facts::TOP_RUNNER,
            TrustMarker::SelfDeclared,
            None,
        ),
    );
    let mut bands: Vec<ClassBand> = Vec::new();
    bands.push(band("class-1", 85, -1));
    bands.push(band("class-2", 7, 0));
    bands.push(band("class-3", 5, 0));
    bands.push(band("class-4", 0, 0));
    let mut transforms: Vec<TransformBinding> = Vec::new();
    transforms.push(
        TransformBinding::UnitConversion {
            id: "capacity-mj".to_string(),
            source: facts::CAPACITY_KWH.to_string(),
            from_unit: "kWh".to_string(),
            to_unit: "MJ".to_string(),
            from_item: Some("unit-kwh".to_string()),
            to_item: Some("unit-mj".to_string()),
        },
    );
    transforms.push(
        TransformBinding::Classification {
            id: "jp-reparability-class".to_string(),
            source: facts::REPARABILITY.to_string(),
            bands,
        },
    );
    // The guard-band moment: the state of health that would pass on its bare
    // value (86.3 >= 85) is decided on the value narrowed by its uncertainty
    // (86.3 - 1.8 = 84.5 < 85).
    transforms.push(
        TransformBinding::Primmel {
            id: "jp-soh-guard-band".to_string(),
            package_ref: BATTERY_RULES_PACKAGE_ID.to_string(),
            rule_id: SOH_GUARD_BAND_RULE.to_string(),
            inputs: pair_map("U", facts::SOH_UNCERTAINTY, "soh", facts::SOH),
        },
    );
    let lens: LensManifest = LensManifest {
        version: "1.0.0".to_string(),
        profile: profile(
            JP_LENS_ID,
            "JP x electronics x -",
            "subject.markets ~ JP",
            1_790_812_800,
            points,
        ),
        bindings,
        transforms,
        presentation: None,
    };
    proof {
        jp_lens_valid(lens);
    }
    lens
}

/// The presented element has these labels.
pub open spec fn presented_is(
    e: PresentationElement,
    element: Seq<char>,
    en: Seq<char>,
    tag: Seq<char>,
    other: Seq<char>,
) -> bool {
    e.element@ == element && two_texts(e.labels, "en"@, en, tag, other)
}

fn presented(element: &str, en: &str, tag: &str, other: &str) -> (r: PresentationElement)
    requires
        sorts_before("en"@, tag@),
    ensures
        presented_is(r, element@, en@, tag@, other@),
{
    PresentationElement { element: element.to_string(), labels: pair_map("en", en, tag, other) }
}

/// The section has this id and these labels.
pub open spec fn section_is(
    s: PresentationSection,
    id: Seq<char>,
    en: Seq<char>,
    tag: Seq<char>,
    other: Seq<char>,
) -> bool {
    s.id@ == id && two_texts(s.labels, "en"@, en, tag, other)
}

fn section(id: &str, en: &str, tag: &str, other: &str, elements: Vec<PresentationElement>) -> (r:
    PresentationSection)
    requires
        sorts_before("en"@, tag@),
    ensures
        section_is(r, id@, en@, tag@, other@),
        r.elements == elements,
{
    PresentationSection { id: id.to_string(), labels: pair_map("en", en, tag, other), elements }
}

/// The default formatting: unit behind the value, one digit, English.
pub open spec fn default_formatting(f: FormattingRules) -> bool {
    f.unit_position == UnitPosition::Suffix && f.decimal_digits == 1 && f.fallback_lang@ == "en"@
}

/// The consumer presentation lens: the demo passport as a consumer sees it —
/// sections product / repair / recycling, labels in English and Japanese, one
/// element that the passport deliberately does not provide.
pub open spec fn is_consumer_lens(l: LensManifest) -> bool {
    let points = l.profile.data_points@;
    &&& l.version@ == "1.0.0"@
    &&& profile_is(l.profile, CONSUMER_LENS_ID@, "EU x - x -"@, "any"@, 1_767_225_600)
    &&& points.len() == 5
    &&& point_is(points[0], "ferin:eu"@, "de.dpp.operator-id"@, "1.0.0"@)
    &&& point_is(points[1], "ferin:eu"@, "battery.capacity-kwh"@, "1.0.0"@)
    &&& point_is(points[2], "ferin:eu"@, "de.dpp.reparability-score"@, "1.1.0"@)
    &&& point_is(points[3], "ferin:eu"@, "de.dpp.carbon-footprint"@, "1.2.0"@)
    &&& point_is(points[4], "ferin:eu"@, "de.dpp.recycling-instruction"@, "1.0.0"@)
    &&& l.bindings@.len() == 5
    &&& binding_is(l.bindings@[0], OPERATOR_ELEMENT@, facts::OPERATOR_ID@, TrustMarker::Attested, None)
    &&& binding_is(
        l.bindings@[1],
        CAPACITY_ELEMENT@,
        facts::CAPACITY_KWH@,
        TrustMarker::SelfDeclared,
        Some("kWh"@),
    )
    &&& binding_is(
        l.bindings@[2],
        REPARABILITY_ELEMENT@,
        facts::REPARABILITY@,
        TrustMarker::SelfDeclared,
        None,
    )
    &&& binding_is(
        l.bindings@[3],
        CARBON_ELEMENT@,
        facts::CARBON@,
        TrustMarker::SelfDeclared,
        Some("kgCO2e"@),
    )
    &&& binding_is(
        l.bindings@[4],
        INSTRUCTION_ELEMENT@,
        facts::RECYCLING_INSTRUCTION@,
        TrustMarker::SelfDeclared,
        None,
    )
    &&& l.transforms@.len() == 0
    &&& l.presentation matches Some(p) && consumer_presentation(p)
}

/// The presentation of the consumer lens.
pub open spec fn consumer_presentation(p: PresentationBinding) -> bool {
    let s = p.sections@;
    &&& p.template_ref@ == "urn:unidpp:template:consumer-v1"@
    &&& default_formatting(p.formatting)
    &&& s.len() == 3
    &&& section_is(s[0], "product"@, "Product"@, "ja"@, "製品情報"@)
    &&& s[0].elements@.len() == 2
    &&& presented_is(s[0].elements@[0], OPERATOR_ELEMENT@, "Operator"@, "ja"@, "事業者ID"@)
    &&& presented_is(s[0].elements@[1], CAPACITY_ELEMENT@, "Battery capacity"@, "ja"@, "電池容量"@)
    &&& section_is(s[1], "repair"@, "Repair"@, "ja"@, "修理"@)
    &&& s[1].elements@.len() == 1
    &&& presented_is(
        s[1].elements@[0],
        REPARABILITY_ELEMENT@,
        "Reparability score"@,
        "ja"@,
        "修理容易性スコア"@,
    )
    &&& section_is(s[2], "recycling"@, "Recycling"@, "ja"@, "リサイクル"@)
    &&& s[2].elements@.len() == 2
    &&& presented_is(
        s[2].elements@[0],
        CARBON_ELEMENT@,
        "Carbon footprint"@,
        "ja"@,
        "炭素フットプリント"@,
    )
    &&& presented_is(
        s[2].elements@[1],
        INSTRUCTION_ELEMENT@,
        "Recycling instruction"@,
        "ja"@,
        "リサイクル手順"@,
    )
}

proof fn consumer_lens_valid(l: LensManifest)
    requires
        is_consumer_lens(l),
    ensures
        lens_fault(l) is None,
{
    reveal_strlit("ferin:eu");
    reveal_strlit("/");
    reveal_strlit("@");
    reveal_strlit("1.0.0");
    reveal_strlit("1.1.0");
    reveal_strlit("1.2.0");
    reveal_strlit("de.dpp.operator-id");
    reveal_strlit("battery.capacity-kwh");
    reveal_strlit("de.dpp.reparability-score");
    reveal_strlit("de.dpp.carbon-footprint");
    reveal_strlit("de.dpp.recycling-instruction");
    reveal_strlit("ferin:eu/de.dpp.operator-id@1.0.0");
    reveal_strlit("ferin:eu/battery.capacity-kwh@1.0.0");
    reveal_strlit("ferin:eu/de.dpp.reparability-score@1.1.0");
    reveal_strlit("ferin:eu/de.dpp.carbon-footprint@1.2.0");
    reveal_strlit("ferin:eu/de.dpp.recycling-instruction@1.0.0");
    let points = l.profile.data_points@;
    assert(data_point_text(points[0]) =~= OPERATOR_ELEMENT@);
    assert(data_point_text(points[1]) =~= CAPACITY_ELEMENT@);
    assert(data_point_text(points[2]) =~= REPARABILITY_ELEMENT@);
    assert(data_point_text(points[3]) =~= CARBON_ELEMENT@);
    assert(data_point_text(points[4]) =~= INSTRUCTION_ELEMENT@);
    starts_visibly(facts::OPERATOR_ID@);
    starts_visibly(facts::CAPACITY_KWH@);
    starts_visibly(facts::REPARABILITY@);
    starts_visibly(facts::CARBON@);
    starts_visibly(facts::RECYCLING_INSTRUCTION@);
    starts_visibly("1.0.0"@);
    assert(requires_element(l, OPERATOR_ELEMENT@));
    assert(requires_element(l, CAPACITY_ELEMENT@));
    assert(requires_element(l, REPARABILITY_ELEMENT@));
    assert(requires_element(l, CARBON_ELEMENT@));
    assert(requires_element(l, INSTRUCTION_ELEMENT@));
    well_formed_lens_validates(l);
}

/// The consumer presentation lens.
pub fn consumer_lens() -> (r: LensManifest)
    ensures
        is_consumer_lens(r),
        lens_fault(r) is None,
{
    proof {
        key_orders();
    }
    let mut points: Vec<DataPointRef> = Vec::new();
    points.push(point("ferin:eu", "de.dpp.operator-id", "1.0.0"));
    points.push(point("ferin:eu", "battery.capacity-kwh", "1.0.0"));
    points.push(point("ferin:eu", "de.dpp.reparability-score", "1.1.0"));
    points.push(point("ferin:eu", "de.dpp.carbon-footprint", "1.2.0"));
    points.push(point("ferin:eu", "de.dpp.recycling-instruction", "1.0.0"));
    let mut bindings: Vec<DataPointBinding> = Vec::new();
    bindings.push(binding(OPERATOR_ELEMENT, facts::OPERATOR_ID, TrustMarker::Attested, None));
    bindings.push(
        binding(CAPACITY_ELEMENT, facts::CAPACITY_KWH, TrustMarker::SelfDeclared, Some("kWh")),
    );
    bindings.push(
        binding(REPARABILITY_ELEMENT, facts::REPARABILITY, TrustMarker::SelfDeclared, None),
    );
    bindings.push(
        binding(CARBON_ELEMENT, facts::CARBON, TrustMarker::SelfDeclared, Some("kgCO2e")),
    );
    // Deliberately not provided by the demo passport: the render must show
    // its gap, not hide it.
    bindings.push(
        binding(
            INSTRUCTION_ELEMENT,
            facts::RECYCLING_INSTRUCTION,
            TrustMarker::SelfDeclared,
            None,
        ),
    );
    let mut product: Vec<PresentationElement> = Vec::new();
    product.push(presented(OPERATOR_ELEMENT, "Operator", "ja", "事業者ID"));
    product.push(presented(CAPACITY_ELEMENT, "Battery capacity", "ja", "電池容量"));
    let mut repair: Vec<PresentationElement> = Vec::new();
    repair.push(presented(REPARABILITY_ELEMENT, "Reparability score", "ja", "修理容易性スコア"));
    let mut recycling: Vec<PresentationElement> = Vec::new();
    recycling.push(presented(CARBON_ELEMENT, "Carbon footprint", "ja", "炭素フットプリント"));
    recycling.push(
        presented(INSTRUCTION_ELEMENT, "Recycling instruction", "ja", "リサイクル手順"),
    );
    let mut sections: Vec<PresentationSection> = Vec::new();
    sections.push(section("product", "Product", "ja", "製品情報", product));
    sections.push(section("repair", "Repair", "ja", "修理", repair));
    sections.push(section("recycling", "Recycling", "ja", "リサイクル", recycling));
    let lens: LensManifest = LensManifest {
        version: "1.0.0".to_string(),
        profile: profile(CONSUMER_LENS_ID, "EU x - x -", "any", 1_767_225_600, points),
        bindings,
        transforms: Vec::new(),
        presentation: Some(
            PresentationBinding {
                template_ref: "urn:unidpp:template:consumer-v1".to_string(),
                formatting: FormattingRules::default(),
                sections,
            },
        ),
    };
    proof {
        consumer_lens_valid(lens);
    }
    lens
}

/// The CN regulatory protocol lens: national conformity regimes as named data
/// points with labels.
pub open spec fn is_cn_protocol_lens(l: LensManifest) -> bool {
    let points = l.profile.data_points@;
    &&& l.version@ == "1.0.0"@
    &&& profile_is(l.profile, CN_PROTOCOL_LENS_ID@, "CN x - x -"@, "any"@, 1_767_225_600)
    &&& points.len() == 3
    &&& point_is(points[0], "ferin:cn"@, "cn.protocol.3c"@, "1.0.0"@)
    &&& point_is(points[1], "ferin:cn"@, "cn.protocol.producer-regulation"@, "1.0.0"@)
    &&& point_is(points[2], "ferin:cn"@, "cn.protocol.industrial-license"@, "1.0.0"@)
    &&& l.bindings@.len() == 3
    &&& binding_is(l.bindings@[0], CN_3C_ELEMENT@, facts::CN_PROTOCOL_3C@, TrustMarker::Attested, None)
    &&& binding_is(
        l.bindings@[1],
        CN_PRODUCER_ELEMENT@,
        facts::CN_PROTOCOL_PRODUCER@,
        TrustMarker::SelfDeclared,
        None,
    )
    &&& binding_is(
        l.bindings@[2],
        CN_LICENSE_ELEMENT@,
        facts::CN_PROTOCOL_LICENSE@,
        TrustMarker::SelfDeclared,
        None,
    )
    &&& l.transforms@.len() == 0
    &&& l.presentation matches Some(p) && cn_presentation(p)
}

/// The presentation of the CN protocol lens.
pub open spec fn cn_presentation(p: PresentationBinding) -> bool {
    let s = p.sections@;
    &&& p.template_ref@ == "urn:unidpp:template:cn-protocol-v1"@
    &&& default_formatting(p.formatting)
    &&& s.len() == 1
    &&& section_is(s[0], "regulatory"@, "Regulatory protocol checks"@, "zh"@, "监管协议核查"@)
    &&& s[0].elements@.len() == 3
    &&& presented_is(
        s[0].elements@[0],
        CN_3C_ELEMENT@,
        "CCC certification protocol"@,
        "zh"@,
        "强制性产品认证（CCC）"@,
    )
    &&& presented_is(
        s[0].elements@[1],
        CN_PRODUCER_ELEMENT@,
        "Producer regulation protocol"@,
        "zh"@,
        "生产者法规"@,
    )
    &&& presented_is(
        s[0].elements@[2],
        CN_LICENSE_ELEMENT@,
        "Industrial product production licence"@,
        "zh"@,
        "工业产品生产许可证"@,
    )
}

proof fn cn_protocol_lens_valid(l: LensManifest)
    requires
        is_cn_protocol_lens(l),
    ensures
        lens_fault(l) is None,
{
    reveal_strlit("ferin:cn");
    reveal_strlit("/");
    reveal_strlit("@");
    reveal_strlit("1.0.0");
    reveal_strlit("cn.protocol.3c");
    reveal_strlit("cn.protocol.producer-regulation");
    reveal_strlit("cn.protocol.industrial-license");
    reveal_strlit("ferin:cn/cn.protocol.3c@1.0.0");
    reveal_strlit("ferin:cn/cn.protocol.producer-regulation@1.0.0");
    reveal_strlit("ferin:cn/cn.protocol.industrial-license@1.0.0");
    let points = l.profile.data_points@;
    assert(data_point_text(points[0]) =~= CN_3C_ELEMENT@);
    assert(data_point_text(points[1]) =~= CN_PRODUCER_ELEMENT@);
    assert(data_point_text(points[2]) =~= CN_LICENSE_ELEMENT@);
    starts_visibly(facts::CN_PROTOCOL_3C@);
    starts_visibly(facts::CN_PROTOCOL_PRODUCER@);
    starts_visibly(facts::CN_PROTOCOL_LICENSE@);
    starts_visibly("1.0.0"@);
    assert(requires_element(l, CN_3C_ELEMENT@));
    assert(requires_element(l, CN_PRODUCER_ELEMENT@));
    assert(requires_element(l, CN_LICENSE_ELEMENT@));
    well_formed_lens_validates(l);
}

/// The CN regulatory protocol lens.
pub fn cn_protocol_lens() -> (r: LensManifest)
    ensures
        is_cn_protocol_lens(r),
        lens_fault(r) is None,
{
    proof {
        key_orders();
    }
    let mut points: Vec<DataPointRef> = Vec::new();
    points.push(point("ferin:cn", "cn.protocol.3c", "1.0.0"));
    points.push(point("ferin:cn", "cn.protocol.producer-regulation", "1.0.0"));
    points.push(point("ferin:cn", "cn.protocol.industrial-license", "1.0.0"));
    let mut bindings: Vec<DataPointBinding> = Vec::new();
    bindings.push(binding(CN_3C_ELEMENT, facts::CN_PROTOCOL_3C, TrustMarker::Attested, None));
    bindings.push(
        binding(
            CN_PRODUCER_ELEMENT,
            facts::CN_PROTOCOL_PRODUCER,
            TrustMarker::SelfDeclared,
            None,
        ),
    );
    bindings.push(
        binding(CN_LICENSE_ELEMENT, facts::CN_PROTOCOL_LICENSE, TrustMarker::SelfDeclared, None),
    );
    let mut checks: Vec<PresentationElement> = Vec::new();
    checks.push(
        presented(CN_3C_ELEMENT, "CCC certification protocol", "zh", "强制性产品认证（CCC）"),
    );
    checks.push(
        presented(CN_PRODUCER_ELEMENT, "Producer regulation protocol", "zh", "生产者法规"),
    );
    checks.push(
        presented(
            CN_LICENSE_ELEMENT,
            "Industrial product production licence",
            "zh",
            "工业产品生产许可证",
        ),
    );
    let mut sections: Vec<PresentationSection> = Vec::new();
    sections.push(
        section("regulatory", "Regulatory protocol checks", "zh", "监管协议核查", checks),
    );
    let lens: LensManifest = LensManifest {
        version: "1.0.0".to_string(),
        profile: profile(CN_PROTOCOL_LENS_ID, "CN x - x -", "any", 1_767_225_600, points),
        bindings,
        transforms: Vec::new(),
        presentation: Some(
            PresentationBinding {
                template_ref: "urn:unidpp:template:cn-protocol-v1".to_string(),
                formatting: FormattingRules::default(),
                sections,
            },
        ),
    };
    proof {
        cn_protocol_lens_valid(lens);
    }
    lens
}

/// The EU battery-pack-system lens: the roll-up profile. The pack elements
/// are data points of the *packs* — the system's own coverage reports them
/// absent while the aggregations select them from every child.
pub open spec fn is_pack_lens(l: LensManifest) -> bool {
    let points = l.profile.data_points@;
    &&& l.version@ == "1.0.0"@
    &&& profile_is(l.profile, PACK_LENS_ID@, "EU x batteries x -"@, "any"@, 1_798_761_600)
    &&& points.len() == 4
    &&& point_is(points[0], "ferin:eu"@, "eu.energy-label-class"@, "1.0.0"@)
    &&& point_is(points[1], "ferin:eu"@, "pack.carbon-footprint"@, "1.0.0"@)
    &&& point_is(points[2], "ferin:eu"@, "pack.mass-kg"@, "1.0.0"@)
    &&& point_is(points[3], "ferin:eu"@, "pack.soh-pct"@, "1.0.0"@)
    &&& l.bindings@.len() == 4
    &&& binding_is(
        l.bindings@[0],
        ENERGY_LABEL_ELEMENT@,
        facts::ENERGY_LABEL@,
        TrustMarker::Attested,
        None,
    )
    &&& binding_is(
        l.bindings@[1],
        PACK_CARBON_ELEMENT@,
        facts::PACK_CARBON@,
        TrustMarker::Attested,
        Some("kgCO2e"@),
    )
    &&& binding_is(
        l.bindings@[2],
        PACK_MASS_ELEMENT@,
        facts::PACK_MASS@,
        TrustMarker::Attested,
        Some("kg"@),
    )
    &&& binding_is(
        l.bindings@[3],
        PACK_SOH_ELEMENT@,
        facts::PACK_SOH@,
        TrustMarker::Attested,
        Some("%"@),
    )
    &&& l.transforms@.len() == 3
    &&& rollup_is(
        l.transforms@[0],
        "carbon-rollup"@,
        AggregationOperation::Sum,
        PACK_CARBON_ELEMENT@,
        None,
        "ISO 14067:2018"@,
    )
    &&& rollup_is(
        l.transforms@[1],
        "soh-weighted-average"@,
        AggregationOperation::WeightedAverage,
        PACK_SOH_ELEMENT@,
        Some(PACK_MASS_ELEMENT@),
        "IEC 62660-1:2018"@,
    )
    &&& l.transforms@[2] matches TransformBinding::LocalizationMapping { id, source, mapping_ref } && {
        &&& id@ == "jp-star-display"@
        &&& source@ == facts::ENERGY_LABEL@
        &&& mapping_ref@ == EU_CLASS_TO_JP_STAR_ID@
    }
    &&& l.presentation is None
}

/// The transform is an aggregation with these parts.
pub open spec fn rollup_is(
    t: TransformBinding,
    want_id: Seq<char>,
    want_operation: AggregationOperation,
    want_input: Seq<char>,
    want_weight: Option<Seq<char>>,
    want_citation: Seq<char>,
) -> bool {
    t matches TransformBinding::Aggregation {
        id,
        operation,
        input_element,
        weight_element,
        method_citation,
    } && {
        &&& id@ == want_id
        &&& operation == want_operation
        &&& input_element@ == want_input
        &&& opt_text(weight_element) == want_weight
        &&& method_citation@ == want_citation
    }
}

proof fn pack_lens_valid(l: LensManifest)
    requires
        is_pack_lens(l),
    ensures
        lens_fault(l) is None,
{
    reveal_strlit("ferin:eu");
    reveal_strlit("/");
    reveal_strlit("@");
    reveal_strlit("1.0.0");
    reveal_strlit("eu.energy-label-class");
    reveal_strlit("pack.carbon-footprint");
    reveal_strlit("pack.mass-kg");
    reveal_strlit("pack.soh-pct");
    reveal_strlit("ferin:eu/eu.energy-label-class@1.0.0");
    reveal_strlit("ferin:eu/pack.carbon-footprint@1.0.0");
    reveal_strlit("ferin:eu/pack.mass-kg@1.0.0");
    reveal_strlit("ferin:eu/pack.soh-pct@1.0.0");
    reveal_strlit("carbon-rollup");
    reveal_strlit("soh-weighted-average");
    reveal_strlit("jp-star-display");
    reveal_strlit("ISO 14067:2018");
    reveal_strlit("IEC 62660-1:2018");
    reveal_strlit("urn:unidpp:mapping:eu-class-to-jp-star");
    let points = l.profile.data_points@;
    assert(data_point_text(points[0]) =~= ENERGY_LABEL_ELEMENT@);
    assert(data_point_text(points[1]) =~= PACK_CARBON_ELEMENT@);
    assert(data_point_text(points[2]) =~= PACK_MASS_ELEMENT@);
    assert(data_point_text(points[3]) =~= PACK_SOH_ELEMENT@);
    assert(requires_element(l, PACK_CARBON_ELEMENT@));
    assert(requires_element(l, PACK_MASS_ELEMENT@));
    assert(requires_element(l, PACK_SOH_ELEMENT@));
    assert(ENERGY_LABEL_ELEMENT@[9] != PACK_CARBON_ELEMENT@[9]);
    starts_visibly(facts::ENERGY_LABEL@);
    starts_visibly(facts::PACK_CARBON@);
    starts_visibly(facts::PACK_MASS@);
    starts_visibly(facts::PACK_SOH@);
    starts_visibly(PACK_CARBON_ELEMENT@);
    starts_visibly(PACK_SOH_ELEMENT@);
    starts_visibly("1.0.0"@);
    starts_visibly("ISO 14067:2018"@);
    starts_visibly("IEC 62660-1:2018"@);
    starts_visibly(EU_CLASS_TO_JP_STAR_ID@);
    assert("carbon-rollup"@.len() != "soh-weighted-average"@.len());
    assert("carbon-rollup"@.len() != "jp-star-display"@.len());
    assert("soh-weighted-average"@.len() != "jp-star-display"@.len());
    assert(PACK_MASS_ELEMENT@[14] != PACK_SOH_ELEMENT@[14]);
    well_formed_lens_validates(l);
}

/// The EU battery-pack-system lens.
pub fn pack_lens() -> (r: LensManifest)
    ensures
        is_pack_lens(r),
        lens_fault(r) is None,
{
    let mut points: Vec<DataPointRef> = Vec::new();
    points.push(point("ferin:eu", "eu.energy-label-class", "1.0.0"));
    points.push(point("ferin:eu", "pack.carbon-footprint", "1.0.0"));
    points.push(point("ferin:eu", "pack.mass-kg", "1.0.0"));
    points.push(point("ferin:eu", "pack.soh-pct", "1.0.0"));
    let mut bindings: Vec<DataPointBinding> = Vec::new();
    bindings.push(binding(ENERGY_LABEL_ELEMENT, facts::ENERGY_LABEL, TrustMarker::Attested, None));
    bindings.push(
        binding(PACK_CARBON_ELEMENT, facts::PACK_CARBON, TrustMarker::Attested, Some("kgCO2e")),
    );
    bindings.push(
        binding(PACK_MASS_ELEMENT, facts::PACK_MASS, TrustMarker::Attested, Some("kg")),
    );
    bindings.push(binding(PACK_SOH_ELEMENT, facts::PACK_SOH, TrustMarker::Attested, Some("%")));
    let mut transforms: Vec<TransformBinding> = Vec::new();
    transforms.push(
        TransformBinding::Aggregation {
            id: "carbon-rollup".to_string(),
            operation: AggregationOperation::Sum,
            input_element: PACK_CARBON_ELEMENT.to_string(),
            weight_element: None,
            method_citation: "ISO 14067:2018".to_string(),
        },
    );
    transforms.push(
        TransformBinding::Aggregation {
            id: "soh-weighted-average".to_string(),
            operation: AggregationOperation::WeightedAverage,
            input_element: PACK_SOH_ELEMENT.to_string(),
            weight_element: Some(PACK_MASS_ELEMENT.to_string()),
            method_citation: "IEC 62660-1:2018".to_string(),
        },
    );
    transforms.push(
        TransformBinding::LocalizationMapping {
            id: "jp-star-display".to_string(),
            source: facts::ENERGY_LABEL.to_string(),
            mapping_ref: EU_CLASS_TO_JP_STAR_ID.to_string(),
        },
    );
    let lens: LensManifest = LensManifest {
        version: "1.0.0".to_string(),
        profile: profile(PACK_LENS_ID, "EU x batteries x -", "any", 1_798_761_600, points),
        bindings,
        transforms,
        presentation: None,
    };
    proof {
        pack_lens_valid(lens);
    }
    lens
}

/// The log entry has this sequence number, time, acting party, trust and
/// head.
pub open spec fn event_is(
    e: SealedEvent,
    seq: u64,
    secs: int,
    role: Seq<char>,
    actor: Seq<char>,
    trust: TrustMarker,
    head: Seq<char>,
) -> bool {
    &&& e.event.seq == seq
    &&& e.event.occurred_at.secs == secs
    &&& e.event.actor_role@ == role
    &&& e.event.actor_id@ == actor
    &&& e.event.trust == trust
    &&& e.state_hash@ == head
}

fn event(
    seq: u64,
    secs: i64,
    role: &str,
    actor: &str,
    payload: EventPayload,
    trust: TrustMarker,
    head: &str,
) -> (r: SealedEvent)
    ensures
        event_is(r, seq, secs as int, role@, actor@, trust, head@),
        r.event.payload == payload,
{
    SealedEvent {
        event: TypedEvent {
            seq,
            occurred_at: Timestamp::from_secs(secs),
            actor_role: role.to_string(),
            actor_id: actor.to_string(),
            payload,
            trust,
        },
        state_hash: head.to_string(),
    }
}

/// The payload is an issuance.
pub open spec fn is_issuance(p: EventPayload, want_derived: bool, want_inputs: Seq<Seq<char>>) -> bool {
    p matches EventPayload::Issuance { derived, inputs } && derived == want_derived && texts(
        inputs@,
    ) == want_inputs
}

fn issuance(derived: bool, inputs: Vec<String>) -> (r: EventPayload)
    ensures
        is_issuance(r, derived, texts(inputs@)),
{
    EventPayload::Issuance { derived, inputs }
}

/// The payload is a correction of a field that had no value.
pub open spec fn correction_is(
    p: EventPayload,
    want_field: Seq<char>,
    want_value: Seq<char>,
    want_reason: Seq<char>,
) -> bool {
    p matches EventPayload::Correction { field, prior_value, new_value, reason } && {
        &&& field@ == want_field
        &&& prior_value@.len() == 0
        &&& new_value@ == want_value
        &&& reason@ == want_reason
    }
}

fn correction(field: &str, value: &str, reason: &str) -> (r: EventPayload)
    ensures
        correction_is(r, field@, value@, reason@),
{
    EventPayload::Correction {
        field: field.to_string(),
        prior_value: String::new(),
        new_value: value.to_string(),
        reason: reason.to_string(),
    }
}

/// The payload is a custody transfer.
pub open spec fn custody_is(
    p: EventPayload,
    want_from: Seq<char>,
    want_to: Seq<char>,
    want_signed: bool,
) -> bool {
    p matches EventPayload::CustodyTransfer { from, to, counterparty_signed } && {
        &&& from@ == want_from
        &&& to@ == want_to
        &&& counterparty_signed == want_signed
    }
}

/// The payload is a software update of one slot.
pub open spec fn software_is(p: EventPayload, slot: Seq<char>, version: Seq<char>) -> bool {
    p matches EventPayload::SoftwareUpdate { versions, unlocked_features } && {
        &&& versions.keys() == seq![slot]
        &&& versions@.contains_key(slot)
        &&& versions@[slot]@ == version
        &&& unlocked_features@.len() == 0
    }
}

/// The payload records these counters.
pub open spec fn counters_are(p: EventPayload, want: Map<Seq<char>, Decimal>) -> bool {
    p matches EventPayload::MilestoneRecord { counters } && counters@ == want
}

/// The payload replaces one part by another.
pub open spec fn replacement_is(
    p: EventPayload,
    want_removed: Seq<char>,
    want_added: Seq<char>,
    want_like: bool,
) -> bool {
    p matches EventPayload::PartReplace { removed, added, like_for_like } && {
        &&& removed@ == want_removed
        &&& added@ == want_added
        &&& like_for_like == want_like
    }
}

/// The measurands of the demo passport's milestone: reparability 8.1, carbon
/// footprint 96.4, capacity 0.072 kWh, state of health 86.3 % with expanded
/// uncertainty 1.8 %, round-trip efficiency 88.5 %.
pub open spec fn demo_counters() -> Map<Seq<char>, Decimal> {
    map![
        facts::REPARABILITY@ => Decimal::of_parts(81, -1),
        facts::CARBON@ => Decimal::of_parts(964, -1),
        facts::CAPACITY_KWH@ => Decimal::of_parts(72, -3),
        facts::SOH@ => Decimal::of_parts(863, -1),
        facts::SOH_UNCERTAINTY@ => Decimal::of_parts(18, -1),
        facts::ROUND_TRIP_EFFICIENCY@ => Decimal::of_parts(885, -1),
    ]
}

fn demo_measurands() -> (r: StrMap<Decimal>)
    ensures
        r@ == demo_counters(),
{
    let mut m: StrMap<Decimal> = StrMap::new();
    m.insert(facts::REPARABILITY.to_string(), dec(81, -1));
    m.insert(facts::CARBON.to_string(), dec(964, -1));
    m.insert(facts::CAPACITY_KWH.to_string(), dec(72, -3));
    m.insert(facts::SOH.to_string(), dec(863, -1));
    m.insert(facts::SOH_UNCERTAINTY.to_string(), dec(18, -1));
    m.insert(facts::ROUND_TRIP_EFFICIENCY.to_string(), dec(885, -1));
    m
}

/// The demo log: eight lifecycle events, then the three CN protocol
/// declarations (one of them a stated false, never an omission).
pub open spec fn is_demo_log(log: Seq<SealedEvent>, heads: Seq<Seq<char>>) -> bool {
    &&& log.len() == 11
    // 2026-08-03T09:15:00Z
    &&& event_is(log[0], 0, 1_785_748_500, "issuing authority"@, "urn:unidpp:actor:oem-nordwave"@, TrustMarker::Attested, heads[0])
    &&& is_issuance(log[0].event.payload, false, Seq::empty())
    // 2026-08-20T14:02:00Z
    &&& event_is(log[1], 1, 1_787_234_520, "custodian"@, "urn:unidpp:actor:retailer-kyoto-denshi"@, TrustMarker::SelfDeclared, heads[1])
    &&& custody_is(log[1].event.payload, "urn:unidpp:actor:oem-nordwave"@, "consumer-anon-1"@, true)
    // 2026-11-05T02:30:00Z
    &&& event_is(log[2], 2, 1_793_845_800, "economic operator"@, "urn:unidpp:actor:oem-nordwave"@, TrustMarker::SelfDeclared, heads[2])
    &&& software_is(log[2].event.payload, "system-firmware"@, "1.07"@)
    // 2026-12-01T08:00:00Z
    &&& event_is(log[3], 3, 1_796_112_000, "economic operator"@, "urn:unidpp:actor:oem-nordwave"@, TrustMarker::SelfDeclared, heads[3])
    &&& correction_is(log[3].event.payload, facts::MARKETS@, "EU,JP"@, "market placement declaration (EU, JP)"@)
    // 2026-12-01T08:05:00Z
    &&& event_is(log[4], 4, 1_796_112_300, "economic operator"@, "urn:unidpp:actor:oem-nordwave"@, TrustMarker::Attested, heads[4])
    &&& correction_is(log[4].event.payload, facts::OPERATOR_ID@, "urn:unidpp:actor:oem-nordwave"@, "EU/JP DPP operator identifier"@)
    // 2026-12-02T10:00:00Z
    &&& event_is(log[5], 5, 1_796_205_600, "conformity assessment body"@, "urn:unidpp:actor:cab-meti-licensed"@, TrustMarker::Attested, heads[5])
    &&& correction_is(log[5].event.payload, facts::PSE_MARK@, "pse-square-95"@, "METI PSE conformity declaration"@)
    // 2027-01-12T09:00:00Z
    &&& event_is(log[6], 6, 1_799_744_400, "economic operator"@, "urn:unidpp:actor:oem-nordwave"@, TrustMarker::Attested, heads[6])
    &&& counters_are(log[6].event.payload, demo_counters())
    // 2027-02-11T10:44:00Z
    &&& event_is(log[7], 7, 1_802_342_640, "repairer"@, "urn:unidpp:actor:repair-shibuya"@, TrustMarker::Attested, heads[7])
    &&& replacement_is(log[7].event.payload, "urn:unidpp:passport:sodimm-16g-aa117-0042"@, "urn:unidpp:passport:sodimm-32g-aa119-0007"@, false)
    // 2027-02-11T10:50:00Z
    &&& event_is(log[8], 8, 1_802_343_000, "conformity assessment body"@, "urn:unidpp:actor:cab-cnccc-licensed"@, TrustMarker::Attested, heads[8])
    &&& correction_is(log[8].event.payload, facts::CN_PROTOCOL_3C@, "true"@, "CCC certification protocol conformance (CN market entry)"@)
    // 2027-02-11T10:51:00Z
    &&& event_is(log[9], 9, 1_802_343_060, "economic operator"@, "urn:unidpp:actor:oem-nordwave"@, TrustMarker::SelfDeclared, heads[9])
    &&& correction_is(log[9].event.payload, facts::CN_PROTOCOL_PRODUCER@, "true"@, "producer-regulation protocol conformance declaration"@)
    // 2027-02-11T10:52:00Z
    &&& event_is(log[10], 10, 1_802_343_120, "economic operator"@, "urn:unidpp:actor:oem-nordwave"@, TrustMarker::SelfDeclared, heads[10])
    &&& correction_is(log[10].event.payload, facts::CN_PROTOCOL_LICENSE@, "false"@, "industrial product production licence not required for this class"@)
}

/// The passport has these identity fields.
pub open spec fn identity_is(
    p: Passport,
    id: Seq<char>,
    product: Seq<char>,
    from: int,
    to: int,
) -> bool {
    &&& p.passport_id@ == id
    &&& p.product_id@ == product
    &&& p.capability == CapabilityClass::PassiveAuth
    &&& p.validity.from.secs == from
    &&& p.validity.to matches Some(end) && end.secs == to
}

fn passport(id: &str, product: &str, from: i64, to: i64, log: Vec<SealedEvent>) -> (r: Passport)
    ensures
        identity_is(r, id@, product@, from as int, to as int),
        r.log == log,
{
    Passport {
        passport_id: id.to_string(),
        product_id: product.to_string(),
        capability: CapabilityClass::PassiveAuth,
        validity: Interval {
            from: Timestamp::from_secs(from),
            to: Some(Timestamp::from_secs(to)),
        },
        log,
    }
}

/// The passport is the demonstration passport, with these log heads.
pub open spec fn is_demo_passport(p: Passport, heads: Seq<Seq<char>>) -> bool {
    &&& identity_is(
        p,
        DEMO_PASSPORT_ID@,
        "cpid:urn:iso:std:iso-iec:15459:unidpp:inst:84120099012345"@,
        1_785_748_500,
        2_101_367_700,
    )
    &&& is_demo_log(p.log@, heads)
}

/// The demo passport: the neutral-core laptop document. `heads` are the log
/// heads after each event.
pub fn demo_passport(heads: &Vec<String>) -> (r: Passport)
    requires
        heads@.len() == 11,
    ensures
        is_demo_passport(r, texts(heads@)),
{
    let none: Vec<String> = Vec::new();
    assert(texts(none@) =~= Seq::<Seq<char>>::empty());
    let mut log: Vec<SealedEvent> = Vec::new();
    log.push(
        event(
            0,
            1_785_748_500,
            "issuing authority",
            "urn:unidpp:actor:oem-nordwave",
            issuance(false, none),
            TrustMarker::Attested,
            heads[0].as_str(),
        ),
    );
    log.push(
        event(
            1,
            1_787_234_520,
            "custodian",
            "urn:unidpp:actor:retailer-kyoto-denshi",
            EventPayload::CustodyTransfer {
                from: "urn:unidpp:actor:oem-nordwave".to_string(),
                to: "consumer-anon-1".to_string(),
                counterparty_signed: true,
            },
            TrustMarker::SelfDeclared,
            heads[1].as_str(),
        ),
    );
    log.push(
        event(
            2,
            1_793_845_800,
            "economic operator",
            "urn:unidpp:actor:oem-nordwave",
            EventPayload::SoftwareUpdate {
                versions: single_map("system-firmware", "1.07"),
                unlocked_features: Vec::new(),
            },
            TrustMarker::SelfDeclared,
            heads[2].as_str(),
        ),
    );
    log.push(
        event(
            3,
            1_796_112_000,
            "economic operator",
            "urn:unidpp:actor:oem-nordwave",
            correction(facts::MARKETS, "EU,JP", "market placement declaration (EU, JP)"),
            TrustMarker::SelfDeclared,
            heads[3].as_str(),
        ),
    );
    log.push(
        event(
            4,
            1_796_112_300,
            "economic operator",
            "urn:unidpp:actor:oem-nordwave",
            correction(facts::OPERATOR_ID, "urn:unidpp:actor:oem-nordwave", "EU/JP DPP operator identifier"),
            TrustMarker::Attested,
            heads[4].as_str(),
        ),
    );
    log.push(
        event(
            5,
            1_796_205_600,
            "conformity assessment body",
            "urn:unidpp:actor:cab-meti-licensed",
            correction(facts::PSE_MARK, "pse-square-95", "METI PSE conformity declaration"),
            TrustMarker::Attested,
            heads[5].as_str(),
        ),
    );
    log.push(
        event(
            6,
            1_799_744_400,
            "economic operator",
            "urn:unidpp:actor:oem-nordwave",
            EventPayload::MilestoneRecord { counters: demo_measurands() },
            TrustMarker::Attested,
            heads[6].as_str(),
        ),
    );
    log.push(
        event(
            7,
            1_802_342_640,
            "repairer",
            "urn:unidpp:actor:repair-shibuya",
            EventPayload::PartReplace {
                removed: "urn:unidpp:passport:sodimm-16g-aa117-0042".to_string(),
                added: "urn:unidpp:passport:sodimm-32g-aa119-0007".to_string(),
                like_for_like: false,
            },
            TrustMarker::Attested,
            heads[7].as_str(),
        ),
    );
    log.push(
        event(
            8,
            1_802_343_000,
            "conformity assessment body",
            "urn:unidpp:actor:cab-cnccc-licensed",
            correction(facts::CN_PROTOCOL_3C, "true", "CCC certification protocol conformance (CN market entry)"),
            TrustMarker::Attested,
            heads[8].as_str(),
        ),
    );
    log.push(
        event(
            9,
            1_802_343_060,
            "economic operator",
            "urn:unidpp:actor:oem-nordwave",
            correction(facts::CN_PROTOCOL_PRODUCER, "true", "producer-regulation protocol conformance declaration"),
            TrustMarker::SelfDeclared,
            heads[9].as_str(),
        ),
    );
    log.push(
        event(
            10,
            1_802_343_120,
            "economic operator",
            "urn:unidpp:actor:oem-nordwave",
            correction(facts::CN_PROTOCOL_LICENSE, "false", "industrial product production licence not required for this class"),
            TrustMarker::SelfDeclared,
            heads[10].as_str(),
        ),
    );
    passport(
        DEMO_PASSPORT_ID,
        "cpid:urn:iso:std:iso-iec:15459:unidpp:inst:84120099012345",
        1_785_748_500,
        2_101_367_700,
        log,
    )
}

/// What is particular to a pack child: its product, issuing time, and its
/// carbon footprint, mass and state of health as mantissas of one decimal
/// digit at most.
pub open spec fn pack_child_product(index: int) -> Seq<char> {
    if index == 0 {
        "cpid:urn:iso:std:iso-iec:15459:unidpp:inst:84120099088001"@
    } else if index == 1 {
        "cpid:urn:iso:std:iso-iec:15459:unidpp:inst:84120099088002"@
    } else {
        "cpid:urn:iso:std:iso-iec:15459:unidpp:inst:84120099088003"@
    }
}

/// When a pack child was issued: 2027-01-05 at 09:00, 09:05 and 09:10.
pub open spec fn pack_child_issued(index: int) -> int {
    1_799_139_600 + 300 * index
}

/// The measurands of a pack child: carbon 31.5 / 33 / 25.5 kgCO2e, mass
/// 12.5 / 15.5 / 12 kg, state of health 91.2 / 88.4 / 86.9 %.
pub open spec fn pack_child_counters(index: int) -> Map<Seq<char>, Decimal> {
    if index == 0 {
        map![
            facts::PACK_CARBON@ => Decimal::of_parts(315, -1),
            facts::PACK_MASS@ => Decimal::of_parts(125, -1),
            facts::PACK_SOH@ => Decimal::of_parts(912, -1),
        ]
    } else if index == 1 {
        map![
            facts::PACK_CARBON@ => Decimal::of_parts(33, 0),
            facts::PACK_MASS@ => Decimal::of_parts(155, -1),
            facts::PACK_SOH@ => Decimal::of_parts(884, -1),
        ]
    } else {
        map![
            facts::PACK_CARBON@ => Decimal::of_parts(255, -1),
            facts::PACK_MASS@ => Decimal::of_parts(12, 0),
            facts::PACK_SOH@ => Decimal::of_parts(869, -1),
        ]
    }
}

/// The passport is the pack child `index` with these heads.
pub open spec fn is_pack_child(p: Passport, index: int, heads: Seq<Seq<char>>) -> bool {
    &&& identity_is(
        p,
        pack_child_id_of(index),
        pack_child_product(index),
        pack_child_issued(index),
        2_272_525_200,
    )
    &&& p.log@.len() == 2
    &&& event_is(
        p.log@[0],
        0,
        pack_child_issued(index),
        "issuing authority"@,
        "urn:unidpp:actor:oem-batteriewerke"@,
        TrustMarker::Attested,
        heads[0],
    )
    &&& is_issuance(p.log@[0].event.payload, false, Seq::empty())
    &&& event_is(
        p.log@[1],
        1,
        1_799_150_400,
        "economic operator"@,
        "urn:unidpp:actor:oem-batteriewerke"@,
        TrustMarker::Attested,
        heads[1],
    )
    &&& counters_are(p.log@[1].event.payload, pack_child_counters(index))
}

/// The passport id of a pack child.
pub open spec fn pack_child_id_of(index: int) -> Seq<char> {
    if index == 0 {
        "urn:iso:std:iso-iec:15459:unidpp:passport:pack-84120099088001"@
    } else if index == 1 {
        "urn:iso:std:iso-iec:15459:unidpp:passport:pack-84120099088002"@
    } else {
        "urn:iso:std:iso-iec:15459:unidpp:passport:pack-84120099088003"@
    }
}

fn pack_measurands(carbon: Decimal, mass: Decimal, soh: Decimal) -> (r: StrMap<Decimal>)
    ensures
        r@ == map![
            facts::PACK_CARBON@ => carbon,
            facts::PACK_MASS@ => mass,
            facts::PACK_SOH@ => soh,
        ],
{
    let mut m: StrMap<Decimal> = StrMap::new();
    m.insert(facts::PACK_CARBON.to_string(), carbon);
    m.insert(facts::PACK_MASS.to_string(), mass);
    m.insert(facts::PACK_SOH.to_string(), soh);
    m
}

/// One battery-pack child: issued, then an attested milestone carrying its
/// carbon footprint, mass and state of health.
pub fn pack_child(index: usize, heads: &Vec<String>) -> (r: Passport)
    requires
        index < 3,
        heads@.len() == 2,
    ensures
        is_pack_child(r, index as int, texts(heads@)),
{
    let (id, product): (&str, &str) = if index == 0 {
        (
            "urn:iso:std:iso-iec:15459:unidpp:passport:pack-84120099088001",
            "cpid:urn:iso:std:iso-iec:15459:unidpp:inst:84120099088001",
        )
    } else if index == 1 {
        (
            "urn:iso:std:iso-iec:15459:unidpp:passport:pack-84120099088002",
            "cpid:urn:iso:std:iso-iec:15459:unidpp:inst:84120099088002",
        )
    } else {
        (
            "urn:iso:std:iso-iec:15459:unidpp:passport:pack-84120099088003",
            "cpid:urn:iso:std:iso-iec:15459:unidpp:inst:84120099088003",
        )
    };
    let counters: StrMap<Decimal> = if index == 0 {
        pack_measurands(dec(315, -1), dec(125, -1), dec(912, -1))
    } else if index == 1 {
        pack_measurands(dec(33, 0), dec(155, -1), dec(884, -1))
    } else {
        pack_measurands(dec(255, -1), dec(12, 0), dec(869, -1))
    };
    let issued: i64 = 1_799_139_600 + 300 * index as i64;
    let mut log: Vec<SealedEvent> = Vec::new();
    let none: Vec<String> = Vec::new();
    assert(texts(none@) =~= Seq::<Seq<char>>::empty());
    log.push(
        event(
            0,
            issued,
            "issuing authority",
            "urn:unidpp:actor:oem-batteriewerke",
            issuance(false, none),
            TrustMarker::Attested,
            heads[0].as_str(),
        ),
    );
    log.push(
        event(
            1,
            1_799_150_400,
            "economic operator",
            "urn:unidpp:actor:oem-batteriewerke",
            EventPayload::MilestoneRecord { counters },
            TrustMarker::Attested,
            heads[1].as_str(),
        ),
    );
    passport(id, product, issued, 2_272_525_200, log)
}

/// The three battery-pack children, in passport-id order; `heads` holds the
/// log heads of each.
pub fn pack_children(heads: &Vec<Vec<String>>) -> (r: Vec<Passport>)
    requires
        heads@.len() == 3,
        forall|i: int| 0 <= i < 3 ==> (#[trigger] heads@[i])@.len() == 2,
    ensures
        r@.len() == 3,
        forall|i: int| 0 <= i < 3 ==> is_pack_child(#[trigger] r@[i], i, texts(heads@[i]@)),
{
    let mut out: Vec<Passport> = Vec::new();
    let mut i: usize = 0;
    while i < 3
        invariant
            i <= 3,
            heads@.len() == 3,
            forall|k: int| 0 <= k < 3 ==> (#[trigger] heads@[k])@.len() == 2,
            out@.len() == i,
            forall|k: int| 0 <= k < i ==> is_pack_child(#[trigger] out@[k], k, texts(heads@[k]@)),
        decreases 3 - i,
    {
        out.push(pack_child(i, &heads[i]));
        i = i + 1;
    }
    out
}

/// The passport is the pack system with these heads: a derived issuance over
/// the three packs, then its EU energy-label class.
pub open spec fn is_pack_system(p: Passport, heads: Seq<Seq<char>>) -> bool {
    &&& identity_is(
        p,
        PACK_SYSTEM_ID@,
        "cpid:urn:iso:std:iso-iec:15459:unidpp:inst:84120099077701"@,
        1_799_229_600,
        2_272_615_200,
    )
    &&& p.log@.len() == 2
    &&& event_is(
        p.log@[0],
        0,
        1_799_229_600,
        "issuing authority"@,
        "urn:unidpp:actor:oem-batteriewerke"@,
        TrustMarker::Attested,
        heads[0],
    )
    &&& is_issuance(
        p.log@[0].event.payload,
        true,
        seq![pack_child_id_of(0), pack_child_id_of(1), pack_child_id_of(2)],
    )
    &&& event_is(
        p.log@[1],
        1,
        1_799_229_900,
        "conformity assessment body"@,
        "urn:unidpp:actor:cab-eu-notified"@,
        TrustMarker::Attested,
        heads[1],
    )
    &&& correction_is(
        p.log@[1].event.payload,
        facts::ENERGY_LABEL@,
        "B"@,
        "EU energy-label class of the pack system"@,
    )
}

/// The battery-pack system passport (the aggregation subject).
pub fn pack_system(heads: &Vec<String>) -> (r: Passport)
    requires
        heads@.len() == 2,
    ensures
        is_pack_system(r, texts(heads@)),
{
    let mut inputs: Vec<String> = Vec::new();
    inputs.push("urn:iso:std:iso-iec:15459:unidpp:passport:pack-84120099088001".to_string());
    inputs.push("urn:iso:std:iso-iec:15459:unidpp:passport:pack-84120099088002".to_string());
    inputs.push("urn:iso:std:iso-iec:15459:unidpp:passport:pack-84120099088003".to_string());
    assert(texts(inputs@) =~= seq![
        pack_child_id_of(0),
        pack_child_id_of(1),
        pack_child_id_of(2),
    ]);
    let mut log: Vec<SealedEvent> = Vec::new();
    log.push(
        event(
            0,
            1_799_229_600,
            "issuing authority",
            "urn:unidpp:actor:oem-batteriewerke",
            issuance(true, inputs),
            TrustMarker::Attested,
            heads[0].as_str(),
        ),
    );
    log.push(
        event(
            1,
            1_799_229_900,
            "conformity assessment body",
            "urn:unidpp:actor:cab-eu-notified",
            correction(facts::ENERGY_LABEL, "B", "EU energy-label class of the pack system"),
            TrustMarker::Attested,
            heads[1].as_str(),
        ),
    );
    passport(
        PACK_SYSTEM_ID,
        "cpid:urn:iso:std:iso-iec:15459:unidpp:inst:84120099077701",
        1_799_229_600,
        2_272_615_200,
        log,
    )
}

/// The position of a pack child's passport id.
pub open spec fn pack_index(id: Seq<char>) -> Option<int> {
    if id == pack_child_id_of(0) {
        Some(0)
    } else if id == pack_child_id_of(1) {
        Some(1)
    } else if id == pack_child_id_of(2) {
        Some(2)
    } else {
        None
    }
}

fn pack_position(id: &str) -> (r: Option<usize>)
    ensures
        match r {
            Some(i) => i < 3 && pack_index(id@) == Some(i as int),
            None => pack_index(id@) is None,
        },
{
    if same(id, "urn:iso:std:iso-iec:15459:unidpp:passport:pack-84120099088001") {
        Some(0)
    } else if same(id, "urn:iso:std:iso-iec:15459:unidpp:passport:pack-84120099088002") {
        Some(1)
    } else if same(id, "urn:iso:std:iso-iec:15459:unidpp:passport:pack-84120099088003") {
        Some(2)
    } else {
        None
    }
}

/// One built-in child passport by id, when the corpus holds it.
pub fn fixture_child(passport_id: &str, heads: &Vec<Vec<String>>) -> (r: Option<Passport>)
    requires
        heads@.len() == 3,
        forall|i: int| 0 <= i < 3 ==> (#[trigger] heads@[i])@.len() == 2,
    ensures
        match pack_index(passport_id@) {
            Some(i) => r is Some && is_pack_child(r->0, i, texts(heads@[i]@)),
            None => r is None,
        },
{
    match pack_position(passport_id) {
        Some(i) => Some(pack_child(i, &heads[i])),
        None => None,
    }
}

/// The child documents of a fixture parent (the pack system's three packs;
/// nothing for any other).
pub fn fixture_children_of(parent_id: &str, heads: &Vec<Vec<String>>) -> (r: Vec<Passport>)
    requires
        heads@.len() == 3,
        forall|i: int| 0 <= i < 3 ==> (#[trigger] heads@[i])@.len() == 2,
    ensures
        if parent_id@ == PACK_SYSTEM_ID@ {
            r@.len() == 3 && forall|i: int|
                0 <= i < 3 ==> is_pack_child(#[trigger] r@[i], i, texts(heads@[i]@))
        } else {
            r@.len() == 0
        },
{
    if same(parent_id, PACK_SYSTEM_ID) {
        pack_children(heads)
    } else {
        Vec::new()
    }
}

/// A built-in lens by profile item id.
pub fn fixture_lens(profile_id: &str) -> (r: Option<LensManifest>)
    ensures
        match r {
            Some(l) => is_fixture_lens(profile_id@, l) && lens_fault(l) is None,
            None => !is_fixture_id(profile_id@),
        },
{
    if same(profile_id, EU_LENS_ID) {
        Some(eu_lens())
    } else if same(profile_id, JP_LENS_ID) {
        Some(jp_lens())
    } else if same(profile_id, CONSUMER_LENS_ID) {
        Some(consumer_lens())
    } else if same(profile_id, CN_PROTOCOL_LENS_ID) {
        Some(cn_protocol_lens())
    } else if same(profile_id, PACK_LENS_ID) {
        Some(pack_lens())
    } else {
        None
    }
}

/// The corpus has a lens of this id.
pub open spec fn is_fixture_id(id: Seq<char>) -> bool {
    id == EU_LENS_ID@ || id == JP_LENS_ID@ || id == CONSUMER_LENS_ID@ || id == CN_PROTOCOL_LENS_ID@
        || id == PACK_LENS_ID@
}

/// `l` is the lens of the corpus with this id.
pub open spec fn is_fixture_lens(id: Seq<char>, l: LensManifest) -> bool {
    ||| id == EU_LENS_ID@ && is_eu_lens(l)
    ||| id == JP_LENS_ID@ && is_jp_lens(l)
    ||| id == CONSUMER_LENS_ID@ && is_consumer_lens(l)
    ||| id == CN_PROTOCOL_LENS_ID@ && is_cn_protocol_lens(l)
    ||| id == PACK_LENS_ID@ && is_pack_lens(l)
}

/// The demonstration instant: 2027-02-11T11:00:00Z.
pub fn demo_as_of() -> (r: Timestamp)
    ensures
        r.secs == 1_802_343_600,
{
    Timestamp::from_secs(1_802_343_600)
}

/// The reverse correspondence: JP stars back to EU classes, as an item of its
/// own.
pub open spec fn jp_star_to_eu_class() -> MappingView {
    MappingView {
        id: JP_STAR_TO_EU_CLASS_ID@,
        source_scheme: "urn:jp:meti:star-rating"@,
        target_scheme: "urn:eu:reg:2017:1369#annex-ii-class"@,
        table: eu_class_to_jp_star().table.map_values(|e: EntryView| swapped(e)),
        ..eu_class_to_jp_star()
    }
}

/// The reverse item is a valid mapping.
pub proof fn reverse_star_mapping_is_valid()
    ensures
        mapping_fault(jp_star_to_eu_class()) is None,
{
    reveal_strlit("A");
    reveal_strlit("B");
    reveal_strlit("C");
    reveal_strlit("D");
    reveal_strlit("E");
    reveal_strlit("★★★★★");
    reveal_strlit("★★★★");
    reveal_strlit("★★★");
    reveal_strlit("★★");
    reveal_strlit("★");
    reveal_strlit("urn:unidpp:mapping:jp-star-to-eu-class");
    reveal_strlit("1.0.0");
    reveal_strlit("urn:eu:reg:2017:1369#annex-ii-class");
    reveal_strlit("urn:jp:meti:star-rating");
    reveal_with_fuel(crate::codelist::rows_fault, 7);
    let m = jp_star_to_eu_class();
    starts_visibly(m.id);
    starts_visibly(m.version);
    starts_visibly(m.source_scheme);
    starts_visibly(m.target_scheme);
    assert forall|i: int| 0 <= i < 5 implies !is_blank((#[trigger] m.table[i]).source)
        && !is_blank(m.table[i].target) by {
        starts_visibly(m.table[i].source);
        starts_visibly(m.table[i].target);
    }
    assert forall|i: int, j: int| 0 <= i < j < 5 implies (#[trigger] m.table[i]).source != (
    #[trigger] m.table[j]).source by {
        assert(m.table[i].source.len() != m.table[j].source.len());
    }
}

/// The reverse correspondence (JP stars back to EU classes).
pub fn jp_star_to_eu_class_mapping() -> (r: CodeListMapping)
    ensures
        r@ == jp_star_to_eu_class(),
        mapping_fault(r@) is None,
{
    proof {
        star_mapping_is_valid_and_bijective();
        reverse_star_mapping_is_valid();
    }
    let forward: CodeListMapping = eu_class_to_jp_star_mapping();
    match forward.reversed() {
        Ok(mut reverse) => {
            reverse.id = JP_STAR_TO_EU_CLASS_ID.to_string();
            reverse
        },
        // The table is bijective.
        Err(_) => forward,
    }
}

/// The built-in code-list mappings.
pub fn fixture_mappings() -> (r: MappingSet)
    ensures
        r@ == map![
            EU_CLASS_TO_JP_STAR_ID@ => (eu_class_to_jp_star(), "fixtures"@),
            JP_STAR_TO_EU_CLASS_ID@ => (jp_star_to_eu_class(), "fixtures"@),
        ],
{
    let mut set: MappingSet = MappingSet::empty();
    set.insert(eu_class_to_jp_star_mapping(), "fixtures");
    set.insert(jp_star_to_eu_class_mapping(), "fixtures");
    set
}

/// What a registered unit says.
pub open spec fn unit_is(u: RegisteredUnit, item: Seq<char>, name: Seq<char>, citation: Seq<char>) -> bool {
    u.item@ == item && u.name@ == name && opt_text(u.citation) == Some(citation)
}

fn registered(item: &str, name: &str, citation: &str) -> (r: RegisteredUnit)
    ensures
        unit_is(r, item@, name@, citation@),
{
    RegisteredUnit {
        item: item.to_string(),
        name: name.to_string(),
        citation: Some(citation.to_string()),
    }
}

/// The map holds the two registered energy units and nothing else.
pub open spec fn holds_energy_units(m: Map<Seq<char>, RegisteredUnit>) -> bool {
    &&& forall|k: Seq<char>| #[trigger] m.contains_key(k) <==> k == "unit-kwh"@ || k == "unit-mj"@
    &&& unit_is(
        m["unit-kwh"@],
        "unit-kwh"@,
        "kilowatt hour"@,
        "ISO 80000-4:2006 (energy); 1 kWh = 3.6 MJ exactly"@,
    )
    &&& unit_is(m["unit-mj"@], "unit-mj"@, "megajoule"@, "ISO 80000-4:2006 (energy)"@)
}

/// The built-in unit identities: the registry seed dataset's ISO 80000
/// citations, so the kWh -> MJ conversion still shows its registered citation
/// chain when no registry is reachable.
pub fn fixture_units() -> (r: StrMap<RegisteredUnit>)
    ensures
        holds_energy_units(r@),
{
    let mut units: StrMap<RegisteredUnit> = StrMap::new();
    units.insert(
        "unit-kwh".to_string(),
        registered(
            "unit-kwh",
            "kilowatt hour",
            "ISO 80000-4:2006 (energy); 1 kWh = 3.6 MJ exactly",
        ),
    );
    units.insert(
        "unit-mj".to_string(),
        registered("unit-mj", "megajoule", "ISO 80000-4:2006 (energy)"),
    );
    proof {
        reveal_strlit("unit-kwh");
        reveal_strlit("unit-mj");
        assert("unit-kwh"@.len() != "unit-mj"@.len());
    }
    units
}

/// The unit has these parts.
pub open spec fn measure_is(u: Unit, symbol: Seq<char>, dimension: Seq<char>, mant: int, exp: int) -> bool {
    u.symbol@ == symbol && u.dimension@ == dimension && u.factor == Decimal::of_parts(mant, exp)
}

fn measure(symbol: &str, dimension: &str, mant: i128, exp: i32) -> (r: Unit)
    requires
        mant != 0 ==> mant % 10 != 0,
        mant == 0 ==> exp == 0,
        -1_000_000 < mant < 1_000_000,
        -10 < exp < 10,
    ensures
        measure_is(r, symbol@, dimension@, mant as int, exp as int),
{
    Unit {
        symbol: symbol.to_string(),
        dimension: dimension.to_string(),
        factor: dec(mant, exp),
    }
}

/// The energy and mass units of the corpus, each with its factor to the
/// joule or the kilogram.
pub fn fixture_unit_registry() -> (r: UnitRegistry)
    ensures
        r.units@.len() == 7,
        measure_is(r.units@[0], "J"@, "energy"@, 1, 0),
        measure_is(r.units@[1], "kJ"@, "energy"@, 1, 3),
        measure_is(r.units@[2], "MJ"@, "energy"@, 1, 6),
        measure_is(r.units@[3], "Wh"@, "energy"@, 36, 2),
        measure_is(r.units@[4], "kWh"@, "energy"@, 36, 5),
        measure_is(r.units@[5], "g"@, "mass"@, 1, -3),
        measure_is(r.units@[6], "kg"@, "mass"@, 1, 0),
{
    let mut units: Vec<Unit> = Vec::new();
    units.push(measure("J", "energy", 1, 0));
    units.push(measure("kJ", "energy", 1, 3));
    units.push(measure("MJ", "energy", 1, 6));
    units.push(measure("Wh", "energy", 36, 2));
    units.push(measure("kWh", "energy", 36, 5));
    units.push(measure("g", "mass", 1, -3));
    units.push(measure("kg", "mass", 1, 0));
    UnitRegistry { units }
}

/// The battery decision rules as a JSON document.
pub const BATTERY_RULES_PRML: &'static str = "{
  \"id\": \"urn:primmel:pkg:battery-rules\",
  \"version\": \"1.0.0\",
  \"title\": \"Battery passport decision rules (two-lens demo)\",
  \"rules\": [
    {
      \"id\": \"soh-guard-band\",
      \"clause_urn\": \"urn:oiml:pub:r:91-2:2025#clause-6.1\",
      \"title\": \"State of health >= 85 %, guarded acceptance with w = U\",
      \"arms\": [
        { \"label\": \"conforming\",
          \"when\": { \"op\": \"ge\",
                    \"lhs\": { \"sub\": [ { \"input\": \"soh\" }, { \"input\": \"U\" } ] },
                    \"rhs\": { \"const\": \"85\" } } },
        { \"label\": \"not-demonstrably-conforming\" }
      ]
    },
    {
      \"id\": \"efficiency-class\",
      \"clause_urn\": \"urn:eu:reg:2017:1369#annex-ii\",
      \"title\": \"Round-trip efficiency class bands\",
      \"arms\": [
        { \"label\": \"A\", \"when\": { \"op\": \"ge\",
                                  \"lhs\": { \"input\": \"eff\" },
                                  \"rhs\": { \"const\": \"92\" } } },
        { \"label\": \"B\", \"when\": { \"op\": \"ge\",
                                  \"lhs\": { \"input\": \"eff\" },
                                  \"rhs\": { \"const\": \"85\" } } },
        { \"label\": \"C\" }
      ]
    }
  ]
}
";

/// The EU energy-label class to JP star-display correspondence as a JSON
/// document.
pub const EU_CLASS_TO_JP_STAR_MAPPING: &'static str = "{
  \"id\": \"urn:unidpp:mapping:eu-class-to-jp-star\",
  \"version\": \"1.0.0\",
  \"title\": \"EU energy-label class to JP star display (A-E band)\",
  \"citation\": \"Regulation (EU) 2017/1369 Annex II <-> JP METI star display\",
  \"source_scheme\": \"urn:eu:reg:2017:1369#annex-ii-class\",
  \"target_scheme\": \"urn:jp:meti:star-rating\",
  \"table\": [
    { \"source_value\": \"A\", \"target_value\": \"★★★★★\",
      \"note\": \"the A-E band of the EU scale maps onto the five-star display\" },
    { \"source_value\": \"B\", \"target_value\": \"★★★★\" },
    { \"source_value\": \"C\", \"target_value\": \"★★★\" },
    { \"source_value\": \"D\", \"target_value\": \"★★\" },
    { \"source_value\": \"E\", \"target_value\": \"★\" }
  ]
}";

/// The arm `label` when the input is at least the limit.
pub open spec fn at_least(label: Seq<char>, lhs: ExprView, limit: int) -> ArmView {
    ArmView {
        label,
        when: Some(
            PredicateView {
                op: CmpOp::Ge,
                lhs,
                rhs: ExprView::Const(Decimal::of_parts(limit, 0)),
            },
        ),
    }
}

/// The guard-band rule: state of health at least 85 %, narrowed by its
/// expanded uncertainty.
pub open spec fn guard_band_rule() -> RuleView {
    RuleView {
        id: SOH_GUARD_BAND_RULE@,
        clause_urn: "urn:oiml:pub:r:91-2:2025#clause-6.1"@,
        title: Some("State of health >= 85 %, guarded acceptance with w = U"@),
        arms: seq![
            at_least(
                "conforming"@,
                ExprView::Sub(
                    Box::new(ExprView::Input("soh"@)),
                    Box::new(ExprView::Input("U"@)),
                ),
                85,
            ),
            ArmView { label: "not-demonstrably-conforming"@, when: None },
        ],
    }
}

/// The efficiency class rule: A from 92 %, B from 85 %, else C.
pub open spec fn efficiency_rule() -> RuleView {
    RuleView {
        id: EFFICIENCY_CLASS_RULE@,
        clause_urn: "urn:eu:reg:2017:1369#annex-ii"@,
        title: Some("Round-trip efficiency class bands"@),
        arms: seq![
            at_least("A"@, ExprView::Input("eff"@), 92),
            at_least("B"@, ExprView::Input("eff"@), 85),
            ArmView { label: "C"@, when: None },
        ],
    }
}

/// The battery decision rules.
pub open spec fn battery_rules() -> PackageView {
    PackageView {
        id: BATTERY_RULES_PACKAGE_ID@,
        version: "1.0.0"@,
        title: Some("Battery passport decision rules (two-lens demo)"@),
        rules: seq![guard_band_rule(), efficiency_rule()],
    }
}

fn input(name: &str) -> (r: Expr)
    ensures
        r@ == ExprView::Input(name@),
{
    Expr::Input { input: name.to_string() }
}

fn guarded(label: &str, lhs: Expr, limit: i128) -> (r: Arm)
    requires
        limit % 10 != 0,
        0 < limit < 1000,
    ensures
        r@ == at_least(label@, lhs@, limit as int),
{
    Arm {
        label: label.to_string(),
        when: Some(
            Predicate { op: CmpOp::Ge, lhs, rhs: Expr::Const { value: dec(limit, 0) } },
        ),
    }
}

/// The built-in battery decision rules are a valid package.
pub proof fn battery_rules_are_valid()
    ensures
        package_fault(battery_rules()) is None,
{
    reveal_strlit("urn:primmel:pkg:battery-rules");
    reveal_strlit("1.0.0");
    reveal_strlit("soh-guard-band");
    reveal_strlit("efficiency-class");
    reveal_strlit("urn:");
    reveal_strlit("urn:oiml:pub:r:91-2:2025#clause-6.1");
    reveal_strlit("urn:eu:reg:2017:1369#annex-ii");
    reveal_strlit("conforming");
    reveal_strlit("not-demonstrably-conforming");
    reveal_strlit("A");
    reveal_strlit("B");
    reveal_strlit("C");
    reveal_strlit("soh");
    reveal_strlit("U");
    reveal_strlit("eff");
    reveal_with_fuel(crate::primmel::rules_fault, 4);
    reveal_with_fuel(crate::primmel::arms_fault, 5);
    reveal_with_fuel(crate::primmel::expr_fault, 3);
    let p = battery_rules();
    starts_visibly(p.id);
    starts_visibly(p.version);
    starts_visibly(p.rules[0].id);
    starts_visibly(p.rules[1].id);
    assert(p.rules[0].id.len() != p.rules[1].id.len());
    starts_visibly("conforming"@);
    starts_visibly("not-demonstrably-conforming"@);
    starts_visibly("A"@);
    starts_visibly("B"@);
    starts_visibly("C"@);
    starts_visibly("soh"@);
    starts_visibly("U"@);
    starts_visibly("eff"@);
    let a = p.rules[0].clause_urn;
    let b = p.rules[1].clause_urn;
    assert(trimmed(a) == a);
    assert(trimmed(b) == b);
    assert("urn:"@ =~= a.subrange(0, 4));
    assert("urn:"@ =~= b.subrange(0, 4));
}

/// The built-in Primmel package.
pub fn battery_rules_package() -> (r: PrimmelPackage)
    ensures
        r@ == battery_rules(),
        package_fault(r@) is None,
{
    proof {
        battery_rules_are_valid();
    }
    let mut guard: Vec<Arm> = Vec::new();
    guard.push(
        guarded(
            "conforming",
            Expr::Sub { a: Box::new(input("soh")), b: Box::new(input("U")) },
            85,
        ),
    );
    guard.push(Arm { label: "not-demonstrably-conforming".to_string(), when: None });
    let mut classes: Vec<Arm> = Vec::new();
    classes.push(guarded("A", input("eff"), 92));
    classes.push(guarded("B", input("eff"), 85));
    classes.push(Arm { label: "C".to_string(), when: None });
    let mut rules: Vec<PrimmelRule> = Vec::new();
    rules.push(
        PrimmelRule {
            id: SOH_GUARD_BAND_RULE.to_string(),
            clause_urn: "urn:oiml:pub:r:91-2:2025#clause-6.1".to_string(),
            title: Some("State of health >= 85 %, guarded acceptance with w = U".to_string()),
            arms: guard,
        },
    );
    rules.push(
        PrimmelRule {
            id: EFFICIENCY_CLASS_RULE.to_string(),
            clause_urn: "urn:eu:reg:2017:1369#annex-ii".to_string(),
            title: Some("Round-trip efficiency class bands".to_string()),
            arms: classes,
        },
    );
    assert(rules@[0]@.arms =~= guard_band_rule().arms);
    assert(rules@[1]@.arms =~= efficiency_rule().arms);
    assert(rules@.map_values(|x: PrimmelRule| x@) =~= battery_rules().rules);
    PrimmelPackage {
        id: BATTERY_RULES_PACKAGE_ID.to_string(),
        version: "1.0.0".to_string(),
        title: Some("Battery passport decision rules (two-lens demo)".to_string()),
        rules,
    }
}

/// The built-in Primmel packages.
pub fn fixture_primmel() -> (r: PackageSet)
    ensures
        r@ == map![BATTERY_RULES_PACKAGE_ID@ => (battery_rules(), "fixtures"@)],
{
    PackageSet::of(battery_rules_package(), "fixtures")
}

} // verus!
