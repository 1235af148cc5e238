//! The projection engine: render a passport under a lens at an instant —
//! select, transform, cover.
//!
//! The same passport document, lens manifest and `as-of` instant produce the
//! same view. Selection applies the manifest's data-point bindings in three
//! named gates, reported honestly when they fail:
//!
//! 1. **capability gate** — the subject's capability class must meet the
//!    binding's floor;
//! 2. **presence** — the source fact must exist on the twin state as-of the
//!    instant;
//! 3. **provenance filter** — the sourcing event's trust marker must meet the
//!    binding's floor.
//!
//! Transforms run in manifest order, and every derived value carries the
//! trust marker of its input — a derived value is never more trustworthy than
//! what it was computed from.
use vstd::prelude::*;
use vstd::string::*;

use crate::aggregate::{aggregation_json, have_grown_since, later_child_events_do_not_change_the_rollup, rollup_doc, AggregationOperation, ChildDocuments};
use crate::codelist::{row_for, rows_are_found_by_source, CodeListMapping, MappingSet, MappingView, UNMAPPED};
use crate::decimal::{decimal_text, parsed_decimal, text_reads_back, Decimal};
use crate::json::{json_view_cases, json_views, member_names_differ, member_str, member_view, opt_str_view, Json, JsonObject, JsonView};
use crate::lens::{binding_of, elements, lens_fault, requires_element, transform_id, transform_source, transforms_fault_free, validated_lens_binds_every_element, ClassBand, DataPointBinding, LensManifest, TransformBinding};
use crate::model::{capability_rank, capability_text, data_point_text, head_at, interval_contains, trust_grade, trust_text, CapabilityClass, FactValue, Interval, Passport, SealedEvent, TrustMarker, TypedEvent};
use crate::primmel::{decided, eval_error_text, rule_named, EvalError, EvalErrorView, PackageSet, PackageView, PrimmelPackage, PrimmelRule, RuleView};
use crate::strmap::{in_order, one_more_key, StrMap};
use crate::text::{before, join, joined, phrase, texts};
use crate::time::{instant_text, Timestamp};
use crate::twin::{active_children, fold, folded, holds_fact, later_events_are_not_seen, value_type, FactView, OriginView, SourcedFact, TwinState, TwinView, ValueView};
use crate::units::{converted, Unit, UnitRegistry};

verus! {

/// Why an element is missing from a view.
#[derive(Debug, PartialEq, Eq)]
#[allow(inconsistent_fields)]
pub enum MissingReason {
    /// The source fact does not exist on the twin state as-of the view
    /// instant.
    AbsentAsOf,
    /// The sourcing event's trust marker is below the binding floor.
    BelowTrustFloor { floor: TrustMarker },
    /// The subject's capability class is below the binding floor.
    CapabilityGate { floor: CapabilityClass },
}

/// The human phrasing of a reason.
pub open spec fn reason_detail(r: MissingReason) -> Seq<char> {
    match r {
        MissingReason::AbsentAsOf => "no event wrote this fact at or before the as-of instant"@,
        MissingReason::BelowTrustFloor { floor } => "sourcing event below the lens trust floor `"@
            + trust_text(floor) + "`"@,
        MissingReason::CapabilityGate { floor } => "subject capability below the element gate `"@
            + capability_text(floor) + "`"@,
    }
}

/// The wire name of a reason.
pub open spec fn reason_name(r: MissingReason) -> Seq<char> {
    match r {
        MissingReason::AbsentAsOf => "absent-as-of"@,
        MissingReason::BelowTrustFloor { .. } => "below-trust-floor"@,
        MissingReason::CapabilityGate { .. } => "capability-gate"@,
    }
}

/// `m` with the fields of a reason: its name, its floor where it has one, and
/// its phrasing.
pub open spec fn with_reason(m: Map<Seq<char>, JsonView>, r: MissingReason) -> Map<
    Seq<char>,
    JsonView,
> {
    let named = m.insert("reason"@, JsonView::Str(reason_name(r)));
    let floored = match r {
        MissingReason::AbsentAsOf => named,
        MissingReason::BelowTrustFloor { floor } => named.insert(
            "floor"@,
            JsonView::Str(trust_text(floor)),
        ),
        MissingReason::CapabilityGate { floor } => named.insert(
            "floor"@,
            JsonView::Str(capability_text(floor)),
        ),
    };
    floored.insert("detail"@, JsonView::Str(reason_detail(r)))
}

impl MissingReason {
    /// The human phrasing of the reason.
    pub fn detail(&self) -> (r: String)
        ensures
            r@ == reason_detail(*self),
    {
        match self {
            MissingReason::AbsentAsOf => {
                "no event wrote this fact at or before the as-of instant".to_string()
            },
            MissingReason::BelowTrustFloor { floor } => phrase(
                "sourcing event below the lens trust floor `",
                floor.text(),
                "`",
            ),
            MissingReason::CapabilityGate { floor } => phrase(
                "subject capability below the element gate `",
                floor.text(),
                "`",
            ),
        }
    }

    /// The wire name of the reason.
    pub fn name(&self) -> (r: &'static str)
        ensures
            r@ == reason_name(*self),
    {
        match self {
            MissingReason::AbsentAsOf => "absent-as-of",
            MissingReason::BelowTrustFloor { .. } => "below-trust-floor",
            MissingReason::CapabilityGate { .. } => "capability-gate",
        }
    }

    /// Write the fields of the reason.
    pub fn write(&self, m: &mut JsonObject)
        ensures
            final(m)@ == with_reason(old(m)@, *self),
    {
        m.put("reason", self.name());
        match self {
            MissingReason::AbsentAsOf => {},
            MissingReason::BelowTrustFloor { floor } => m.put("floor", floor.text()),
            MissingReason::CapabilityGate { floor } => m.put("floor", floor.text()),
        }
        m.put("detail", self.detail().as_str());
    }
}

/// What a binding selects from a state for a subject of the given
/// capability: the fact, or the first gate that blocks it.
pub open spec fn selection_of(
    capability: CapabilityClass,
    s: TwinView,
    b: DataPointBinding,
) -> Result<FactView, MissingReason> {
    if capability_rank(capability) < capability_rank(b.min_capability) {
        Err(MissingReason::CapabilityGate { floor: b.min_capability })
    } else if !s.facts.contains_key(b.source@) {
        Err(MissingReason::AbsentAsOf)
    } else if trust_grade(s.facts[b.source@].origin.trust) < trust_grade(b.min_trust) {
        Err(MissingReason::BelowTrustFloor { floor: b.min_trust })
    } else {
        Ok(s.facts[b.source@])
    }
}

/// The outcome of evaluating one binding (one selection model for the view,
/// the presentation and the roll-ups).
pub enum Selection<'a> {
    Found(&'a SourcedFact),
    Blocked(MissingReason),
}

/// Evaluate one binding.
pub fn select<'a>(passport: &Passport, state: &'a TwinState, binding: &DataPointBinding) -> (r:
    Selection<'a>)
    ensures
        match r {
            Selection::Found(f) => selection_of(passport.capability, state@, *binding) == Ok::<
                FactView,
                MissingReason,
            >(f@),
            Selection::Blocked(reason) => selection_of(passport.capability, state@, *binding)
                == Err::<FactView, MissingReason>(reason),
        },
{
    if passport.capability.rank() < binding.min_capability.rank() {
        return Selection::Blocked(
            MissingReason::CapabilityGate { floor: binding.min_capability.copy() },
        );
    }
    match state.get(binding.source.as_str()) {
        None => Selection::Blocked(MissingReason::AbsentAsOf),
        Some(fact) => {
            if !fact.origin.trust.meets(binding.min_trust) {
                return Selection::Blocked(
                    MissingReason::BelowTrustFloor { floor: binding.min_trust },
                );
            }
            Selection::Found(fact)
        },
    }
}

/// A fact value as plain JSON: decimals stay exact texts, truth values and
/// lists are native, texts are texts.
pub open spec fn value_doc(v: ValueView) -> JsonView {
    match v {
        ValueView::Str(s) => JsonView::Str(s),
        ValueView::Num(d) => JsonView::Str(decimal_text(d)),
        ValueView::Bool(b) => JsonView::Bool(b),
        ValueView::List(l) => JsonView::Arr(l.map_values(|s: Seq<char>| JsonView::Str(s))),
    }
}

/// A fact value as plain JSON.
pub fn fact_value_json(value: &FactValue) -> (r: Json)
    ensures
        r@ == value_doc(value@),
{
    broadcast use json_view_cases;

    match value {
        FactValue::Str(s) => Json::text(s.as_str()),
        FactValue::Num(d) => Json::text(d.to_text().as_str()),
        FactValue::Bool(b) => Json::Bool(*b),
        FactValue::List(l) => {
            assert(l@.map_values(|s: String| JsonView::Str(s@)) =~= texts(l@).map_values(
                |s: Seq<char>| JsonView::Str(s),
            ));
            Json::text_list(l)
        },
    }
}

/// Where a value was sourced: sequence, time, acting party.
pub open spec fn sourced_doc(o: OriginView) -> JsonView {
    JsonView::Obj(
        map![
            "seq"@ => JsonView::Num(o.seq),
            "occurred_at"@ => JsonView::Str(instant_text(o.occurred_at)),
            "actor_role"@ => JsonView::Str(o.actor_role),
            "actor_id"@ => JsonView::Str(o.actor_id),
        ],
    )
}

/// Where a value was sourced.
pub fn sourced_json(fact: &SourcedFact) -> (r: JsonObject)
    ensures
        JsonView::Obj(r@) == sourced_doc(fact@.origin),
{
    let mut m: JsonObject = JsonObject::new();
    m.put_num("seq", fact.origin.seq);
    m.put("occurred_at", fact.origin.occurred_at.to_text().as_str());
    m.put("actor_role", fact.origin.actor_role.as_str());
    m.put("actor_id", fact.origin.actor_id.as_str());
    m
}

/// The entry of a selected element.
pub open spec fn selected_doc(element: Seq<char>, b: DataPointBinding, f: FactView) -> JsonView {
    let head = map![
        "element"@ => JsonView::Str(element),
        "value"@ => value_doc(f.value),
        "kind"@ => JsonView::Str(value_type(f.value)),
    ];
    let united = match b.declared_unit {
        Some(u) => head.insert("declared_unit"@, JsonView::Str(u@)),
        None => head,
    };
    JsonView::Obj(
        united.insert("sourced"@, sourced_doc(f.origin)).insert(
            "trust"@,
            JsonView::Str(trust_text(f.origin.trust)),
        ),
    )
}

/// The entry of a selected element.
pub fn selected_json(element: &str, binding: &DataPointBinding, fact: &SourcedFact) -> (r:
    JsonObject)
    ensures
        JsonView::Obj(r@) == selected_doc(element@, *binding, fact@),
{
    let mut m: JsonObject = JsonObject::new();
    m.put("element", element);
    m.insert("value", fact_value_json(&fact.value));
    m.put("kind", fact.value.kind_name());
    match &binding.declared_unit {
        Some(u) => m.put("declared_unit", u.as_str()),
        None => {},
    }
    m.put_obj("sourced", sourced_json(fact));
    m.put("trust", fact.origin.trust.text());
    m
}

/// A registered unit identity resolved from the registry's units subregister
/// (item id, name, citation chain).
#[derive(Debug, PartialEq, Eq)]
pub struct RegisteredUnit {
    pub item: String,
    pub name: String,
    pub citation: Option<String>,
}

/// Where the lens manifest came from (honesty field of the view).
#[derive(Debug, PartialEq, Eq)]
pub struct ProfileSource {
    /// `registry` | `fixtures` | `unreachable` (the fallback modes).
    pub mode: String,
    /// Extra detail for fallback modes; `None` when authoritative.
    pub detail: Option<String>,
}

impl ProfileSource {
    /// Authoritative registry mode.
    pub fn registry() -> (r: ProfileSource)
        ensures
            r.mode@ == "registry"@,
            r.detail is None,
    {
        ProfileSource { mode: "registry".to_string(), detail: None }
    }

    /// Fixture fallback mode with its explanation.
    pub fn fallback(mode: &str, detail: Option<String>) -> (r: ProfileSource)
        ensures
            r.mode@ == mode@,
            r.detail == detail,
    {
        ProfileSource { mode: mode.to_string(), detail }
    }
}

/// Projection failures that make a view impossible (structural, not data,
/// problems — data problems are reported *in* the view).
#[derive(Debug, PartialEq, Eq)]
pub enum ViewError {
    /// The lens manifest is unusable.
    Invalid(String),
}

impl ViewError {
    /// The text of the error.
    pub fn to_text(&self) -> (r: String)
        ensures
            r@ == "invalid lens: "@ + self->Invalid_0@,
    {
        match self {
            ViewError::Invalid(m) => {
                let mut out: String = "invalid lens: ".to_string();
                out.append(m.as_str());
                out
            },
        }
    }
}

/// What the core rules say of the folded subject.
#[derive(Debug, PartialEq)]
pub struct CoreFindings {
    /// Whether the profile's trigger predicate holds of the folded facts.
    pub trigger_holds: bool,
    /// The root hash over the committed parts of the active children.
    pub input_set_root: String,
    /// The signed roll-up attestations over the committed children, by
    /// transform id; empty where no sealing key is armed.
    pub attestations: StrMap<Json>,
}

/// What a projection has at hand besides passport and lens.
pub struct Holdings<'a> {
    /// Registry unit identities by item id.
    pub units: &'a StrMap<RegisteredUnit>,
    /// The units that conversions may use.
    pub unit_registry: &'a UnitRegistry,
    pub packages: &'a PackageSet,
    pub mappings: &'a MappingSet,
    pub children: &'a ChildDocuments,
    /// The root hash over the committed parts of the active children.
    pub root: &'a str,
    /// The roll-up attestations by transform id.
    pub attestations: &'a StrMap<Json>,
}

/// What the holdings say.
pub struct HoldingsView {
    pub units: Map<Seq<char>, RegisteredUnit>,
    pub unit_registry: Seq<Unit>,
    pub packages: Map<Seq<char>, (PackageView, Seq<char>)>,
    pub mappings: Map<Seq<char>, (MappingView, Seq<char>)>,
    pub children: Map<Seq<char>, Passport>,
    pub root: Seq<char>,
    pub attestations: Map<Seq<char>, JsonView>,
}

/// What each document of a map says.
pub open spec fn docs_view(docs: Map<Seq<char>, Json>) -> Map<Seq<char>, JsonView> {
    docs.map_values(|j: Json| j@)
}

impl<'a> View for Holdings<'a> {
    type V = HoldingsView;

    open spec fn view(&self) -> HoldingsView {
        HoldingsView {
            units: self.units@,
            unit_registry: self.unit_registry.units@,
            packages: self.packages@,
            mappings: self.mappings@,
            children: self.children.documents@,
            root: self.root@,
            attestations: docs_view(self.attestations@),
        }
    }
}

/// The position of the band that a value falls into, among the first `n`: the
/// highest `min` the value meets, the first declared of equal ones.
pub open spec fn band_for(bands: Seq<ClassBand>, v: Decimal, n: int) -> Option<int>
    decreases n,
{
    if n <= 0 {
        None
    } else {
        let best = band_for(bands, v, n - 1);
        let min = bands[n - 1].min.value();
        if v.value() >= min && (best is None || min > bands[best->0].min.value()) {
            Some(n - 1)
        } else {
            best
        }
    }
}

/// The band the value falls into; below the lowest band there is none.
pub fn classify<'a>(bands: &'a Vec<ClassBand>, value: &Decimal) -> (r: Option<&'a ClassBand>)
    ensures
        match r {
            Some(b) => band_for(bands@, *value, bands@.len() as int) is Some && *b
                == bands@[band_for(bands@, *value, bands@.len() as int)->0],
            None => band_for(bands@, *value, bands@.len() as int) is None,
        },
{
    let mut best: Option<usize> = None;
    let mut i: usize = 0;
    while i < bands.len()
        invariant
            i <= bands.len(),
            match best {
                Some(k) => k < i && band_for(bands@, *value, i as int) == Some(k as int),
                None => band_for(bands@, *value, i as int) is None,
            },
        decreases bands.len() - i,
    {
        let meets: bool = !value.less(&bands[i].min);
        let better: bool = match best {
            None => true,
            Some(k) => bands[k].min.less(&bands[i].min),
        };
        if meets && better {
            best = Some(i);
        }
        i = i + 1;
    }
    match best {
        Some(k) => Some(&bands[k]),
        None => None,
    }
}

/// Classification picks the highest band that the value meets: the band is
/// met, no met band has a higher `min`, and none declared earlier has the
/// same.
pub proof fn classification_is_highest_met(bands: Seq<ClassBand>, v: Decimal, n: int)
    requires
        0 <= n <= bands.len(),
    ensures
        match band_for(bands, v, n) {
            Some(k) => 0 <= k < n && v.value() >= bands[k].min.value() && (forall|j: int|
                0 <= j < n && v.value() >= (#[trigger] bands[j]).min.value()
                    ==> bands[j].min.value() <= bands[k].min.value() && (bands[j].min.value()
                    == bands[k].min.value() ==> k <= j)),
            None => forall|j: int| 0 <= j < n ==> v.value() < (#[trigger] bands[j]).min.value(),
        },
    decreases n,
{
    if n > 0 {
        classification_is_highest_met(bands, v, n - 1);
    }
}

/// The `k`-th band is the lowest: none has a lower `min`, and none declared
/// earlier has the same.
pub open spec fn is_lowest_band(bands: Seq<ClassBand>, k: int) -> bool {
    0 <= k < bands.len() && forall|j: int|
        0 <= j < bands.len() ==> bands[k].min.value() <= (#[trigger] bands[j]).min.value() && (
        bands[j].min.value() == bands[k].min.value() ==> k <= j)
}

/// The `min` of the lowest band, lowest as a number; nothing where there is
/// no band.
pub open spec fn lowest_min_text(bands: Seq<ClassBand>) -> Seq<char> {
    if bands.len() == 0 {
        Seq::empty()
    } else {
        decimal_text(bands[choose|k: int| is_lowest_band(bands, k)].min)
    }
}

fn lowest_min(bands: &Vec<ClassBand>) -> (r: String)
    ensures
        r@ == lowest_min_text(bands@),
{
    if bands.len() == 0 {
        return String::new();
    }
    let mut best: usize = 0;
    let mut i: usize = 1;
    while i < bands.len()
        invariant
            best < i <= bands.len(),
            forall|j: int|
                0 <= j < i ==> bands@[best as int].min.value() <= (
                #[trigger] bands@[j]).min.value() && (bands@[j].min.value()
                    == bands@[best as int].min.value() ==> best <= j),
        decreases bands.len() - i,
    {
        if bands[i].min.less(&bands[best].min) {
            best = i;
        }
        i = i + 1;
    }
    assert(is_lowest_band(bands@, best as int));
    let ghost k = choose|k: int| is_lowest_band(bands@, k);
    assert(bands@[k].min.value() == bands@[best as int].min.value());
    bands[best].min.to_text()
}

proof fn some_band_is_lowest(bands: Seq<ClassBand>, n: int) -> (k: int)
    requires
        0 < n <= bands.len(),
    ensures
        is_lowest_band(bands.take(n), k),
    decreases n,
{
    if n == 1 {
        0
    } else {
        let k = some_band_is_lowest(bands, n - 1);
        assert forall|j: int| 0 <= j < n - 1 implies bands[k].min.value() <= (
        #[trigger] bands[j]).min.value() && (bands[j].min.value() == bands[k].min.value() ==> k
            <= j) by {
            assert(bands.take(n - 1)[j] == bands[j]);
        }
        if bands[n - 1].min.value() < bands[k].min.value() {
            n - 1
        } else {
            k
        }
    }
}

/// What an unclassified value is below is the `min` of the lowest band: one
/// that no band undercuts, as a number.
pub proof fn unclassified_names_the_lowest_band(bands: Seq<ClassBand>)
    requires
        bands.len() > 0,
    ensures
        exists|k: int|
            0 <= k < bands.len() && lowest_min_text(bands) == decimal_text(
                (#[trigger] bands[k]).min,
            ) && forall|j: int|
                0 <= j < bands.len() ==> bands[k].min.value() <= (#[trigger] bands[j]).min.value(),
{
    let k = some_band_is_lowest(bands, bands.len() as int);
    assert(bands.take(bands.len() as int) =~= bands);
    let c = choose|c: int| is_lowest_band(bands, c);
    assert(is_lowest_band(bands, c));
    assert(bands[c].min.value() <= bands[k].min.value());
}

/// The fields of a classification: the band's label, or the explicit
/// `unclassified`.
pub open spec fn class_fields(bands: Seq<ClassBand>, v: Decimal) -> Map<Seq<char>, JsonView> {
    match band_for(bands, v, bands.len() as int) {
        Some(k) => map![
            "output"@ => JsonView::Str(bands[k].label@),
            "band"@ => JsonView::Obj(map![
                "label"@ => JsonView::Str(bands[k].label@),
                "min"@ => JsonView::Str(decimal_text(bands[k].min)),
            ]),
        ],
        None => map![
            "output"@ => JsonView::Str("unclassified"@),
            "below_lowest_band"@ => JsonView::Str(lowest_min_text(bands)),
        ],
    }
}

fn classification_json(bands: &Vec<ClassBand>, value: &Decimal) -> (r: JsonObject)
    ensures
        r@ == class_fields(bands@, *value),
{
    let mut m: JsonObject = JsonObject::new();
    match classify(bands, value) {
        Some(band) => {
            m.put("output", band.label.as_str());
            let mut b: JsonObject = JsonObject::new();
            b.put("label", band.label.as_str());
            b.put("min", band.min.to_text().as_str());
            m.put_obj("band", b);
        },
        None => {
            m.put("output", "unclassified");
            m.put("below_lowest_band", lowest_min(bands).as_str());
        },
    }
    m
}

/// The identity block of a unit: the registered item, the item that could not
/// be resolved, or none.
pub open spec fn unit_identity(item: Option<String>, units: Map<Seq<char>, RegisteredUnit>) -> JsonView {
    match item {
        Some(id) => if units.contains_key(id@) {
            JsonView::Obj(
                map![
                    "uom_registered"@ => JsonView::Bool(true),
                    "item"@ => JsonView::Str(units[id@].item@),
                    "name"@ => JsonView::Str(units[id@].name@),
                    "citation"@ => opt_str_view(units[id@].citation),
                ],
            )
        } else {
            JsonView::Obj(
                map![
                    "uom_registered"@ => JsonView::Bool(false),
                    "item"@ => JsonView::Str(id@),
                    "note"@ => JsonView::Str("unit item not resolvable from the registry as-of this view"@),
                ],
            )
        },
        None => JsonView::Obj(map!["uom_registered"@ => JsonView::Bool(false)]),
    }
}

fn unit_identity_json(item: &Option<String>, units: &StrMap<RegisteredUnit>) -> (r: JsonObject)
    ensures
        JsonView::Obj(r@) == unit_identity(*item, units@),
{
    let mut m: JsonObject = JsonObject::new();
    match item {
        Some(id) => match units.get(id.as_str()) {
            Some(u) => {
                m.put_bool("uom_registered", true);
                m.put("item", u.item.as_str());
                m.put("name", u.name.as_str());
                m.put_opt("citation", &u.citation);
            },
            None => {
                m.put_bool("uom_registered", false);
                m.put("item", id.as_str());
                m.put("note", "unit item not resolvable from the registry as-of this view");
            },
        },
        None => m.put_bool("uom_registered", false),
    }
    m
}

/// An amount with its unit.
pub open spec fn amount_doc(amount: Decimal, unit: Seq<char>) -> JsonView {
    JsonView::Obj(
        map![
            "amount"@ => JsonView::Str(decimal_text(amount)),
            "unit"@ => JsonView::Str(unit),
        ],
    )
}

/// The fields of a unit conversion: the exact conversion and the resolved
/// unit identities; none where the conversion is not possible.
pub open spec fn conversion_fields(
    amount: Decimal,
    from_unit: Seq<char>,
    to_unit: Seq<char>,
    from_item: Option<String>,
    to_item: Option<String>,
    h: HoldingsView,
) -> Option<Map<Seq<char>, JsonView>> {
    match converted(h.unit_registry, amount, from_unit, to_unit) {
        None => None,
        Some(output) => Some(
            map![
                "input"@ => amount_doc(amount, from_unit),
                "output"@ => amount_doc(output, to_unit),
                "exact"@ => JsonView::Bool(true),
                "units"@ => JsonView::Obj(map![
                    from_unit => unit_identity(from_item, h.units),
                    to_unit => unit_identity(to_item, h.units),
                ]),
            ],
        ),
    }
}

fn amount_json(amount: &Decimal, unit: &str) -> (r: JsonObject)
    ensures
        JsonView::Obj(r@) == amount_doc(*amount, unit@),
{
    let mut m: JsonObject = JsonObject::new();
    m.put("amount", amount.to_text().as_str());
    m.put("unit", unit);
    m
}

fn unit_conversion_json(
    amount: &Decimal,
    from_unit: &str,
    to_unit: &str,
    from_item: &Option<String>,
    to_item: &Option<String>,
    h: &Holdings,
) -> (r: Option<JsonObject>)
    ensures
        match r {
            Some(m) => conversion_fields(*amount, from_unit@, to_unit@, *from_item, *to_item, h@)
                == Some(m@),
            None => conversion_fields(*amount, from_unit@, to_unit@, *from_item, *to_item, h@) is None,
        },
{
    let output: Decimal = match h.unit_registry.convert(amount, from_unit, to_unit) {
        Some(d) => d,
        None => return None,
    };
    let mut fields: JsonObject = JsonObject::new();
    fields.put_obj("input", amount_json(amount, from_unit));
    fields.put_obj("output", amount_json(&output, to_unit));
    fields.put_bool("exact", true);
    let mut block: JsonObject = JsonObject::new();
    block.put_obj(from_unit, unit_identity_json(from_item, h.units));
    block.put_obj(to_unit, unit_identity_json(to_item, h.units));
    fields.put_obj("units", block);
    Some(fields)
}

/// What the first `n` bound inputs of a rule resolve to.
#[verifier::ext_equal]
pub struct Resolved {
    /// The numeric values by input name.
    pub values: Map<Seq<char>, Decimal>,
    /// The `inputs` block.
    pub block: Map<Seq<char>, JsonView>,
    /// The `missing_inputs` entries.
    pub missing: Seq<JsonView>,
    /// The weakest trust among the values.
    pub weakest: Option<TrustMarker>,
}

/// One entry of `missing_inputs`.
pub open spec fn missing_input_doc(
    input: Seq<char>,
    path: Seq<char>,
    reason: Seq<char>,
    detail: Seq<char>,
) -> JsonView {
    JsonView::Obj(
        map![
            "input"@ => JsonView::Str(input),
            "path"@ => JsonView::Str(path),
            "reason"@ => JsonView::Str(reason),
            "detail"@ => JsonView::Str(detail),
        ],
    )
}

/// The weaker of a trust so far and another.
pub open spec fn weaker(so_far: Option<TrustMarker>, t: TrustMarker) -> TrustMarker {
    match so_far {
        None => t,
        Some(floor) => if trust_grade(t) < trust_grade(floor) {
            t
        } else {
            floor
        },
    }
}

/// One more input resolved: a numeric fact is a value; an absent or
/// non-numeric fact is reported.
pub open spec fn resolved_more(
    r: Resolved,
    name: Seq<char>,
    path: Seq<char>,
    s: TwinView,
    at: Timestamp,
) -> Resolved {
    let entry = map!["path"@ => JsonView::Str(path)];
    if !s.facts.contains_key(path) {
        Resolved {
            block: r.block.insert(name, JsonView::Obj(entry)),
            missing: r.missing.push(
                missing_input_doc(
                    name,
                    path,
                    "absent-as-of"@,
                    "no event wrote fact `"@ + path + "` at or before the as-of instant "@
                        + instant_text(at),
                ),
            ),
            ..r
        }
    } else {
        let fact = s.facts[path];
        match fact.value {
            ValueView::Num(v) => Resolved {
                values: r.values.insert(name, v),
                block: r.block.insert(
                    name,
                    JsonView::Obj(
                        entry.insert("value"@, JsonView::Str(decimal_text(v))).insert(
                            "trust"@,
                            JsonView::Str(trust_text(fact.origin.trust)),
                        ).insert("sourced_seq"@, JsonView::Num(fact.origin.seq)),
                    ),
                ),
                weakest: Some(weaker(r.weakest, fact.origin.trust)),
                ..r
            },
            other => Resolved {
                block: r.block.insert(name, JsonView::Obj(entry)),
                missing: r.missing.push(
                    missing_input_doc(
                        name,
                        path,
                        "not-numeric"@,
                        "fact `"@ + path + "` is a "@ + value_type(other)
                            + " fact; the rule needs a numeric measurand"@,
                    ),
                ),
                ..r
            },
        }
    }
}

/// The first `n` inputs of a binding (in input-name order) resolved against
/// the state.
pub open spec fn resolved(inputs: StrMap<String>, s: TwinView, at: Timestamp, n: int) -> Resolved
    decreases n,
{
    if n <= 0 {
        Resolved {
            values: Map::empty(),
            block: Map::empty(),
            missing: Seq::empty(),
            weakest: None,
        }
    } else {
        let name = inputs.keys()[n - 1];
        resolved_more(resolved(inputs, s, at, n - 1), name, inputs@[name]@, s, at)
    }
}

/// The fields behind the resolved inputs: the decision with its clause, or
/// why there is none.
pub open spec fn decision_fields(
    m: Map<Seq<char>, JsonView>,
    rule: RuleView,
    rule_id: Seq<char>,
    inputs: Map<Seq<char>, String>,
    r: Resolved,
) -> Map<Seq<char>, JsonView> {
    if r.missing.len() > 0 {
        m.insert("clause_urn"@, JsonView::Str(rule.clause_urn)).insert(
            "status"@,
            JsonView::Str("missing-inputs"@),
        ).insert("missing_inputs"@, JsonView::Arr(r.missing))
    } else {
        match decided(rule.arms, 0, r.values) {
            Ok(outcome) => {
                let labelled = m.insert("clause_urn"@, JsonView::Str(rule.clause_urn)).insert(
                    "output"@,
                    JsonView::Str(outcome.label),
                ).insert(
                    "matched_arm"@,
                    match outcome.matched_arm {
                        Some(i) => JsonView::Num(i as u64),
                        None => JsonView::Null,
                    },
                );
                let trusted = match r.weakest {
                    Some(t) => labelled.insert("trust"@, JsonView::Str(trust_text(t))),
                    None => labelled,
                };
                trusted.insert("status"@, JsonView::Str("computed"@))
            },
            Err(EvalErrorView::MissingInput(input)) => m.insert(
                "status"@,
                JsonView::Str("missing-inputs"@),
            ).insert(
                "missing_inputs"@,
                JsonView::Arr(
                    seq![
                        missing_input_doc(
                            input,
                            if inputs.contains_key(input) { inputs[input]@ } else { Seq::empty() },
                            "not-bound"@,
                            "rule `"@ + rule_id + "` consumes input `"@ + input
                                + "`, which the binding does not map to a twin fact path"@,
                        ),
                    ],
                ),
            ),
            Err(e) => m.insert("status"@, JsonView::Str("failed"@)).insert(
                "error"@,
                JsonView::Str("rule `"@ + rule_id + "`: "@ + eval_error_text(e)),
            ),
        }
    }
}

/// The ids of rules.
pub open spec fn rule_ids(rules: Seq<RuleView>) -> Seq<Seq<char>> {
    rules.map_values(|r: RuleView| r.id)
}

/// The fields of a rule transform: the decision with its clause, package and
/// inputs — or the honest reason why there is none.
pub open spec fn rule_fields(
    package_ref: Seq<char>,
    rule_id: Seq<char>,
    inputs: StrMap<String>,
    s: TwinView,
    packages: Map<Seq<char>, (PackageView, Seq<char>)>,
    at: Timestamp,
) -> Map<Seq<char>, JsonView> {
    if !packages.contains_key(package_ref) {
        map![
            "status"@ => JsonView::Str("failed"@),
            "error"@ => JsonView::Str(
                "primmel package `"@ + package_ref
                    + "` is not available to this projector (rule `"@ + rule_id + "` cannot run)"@,
            ),
        ]
    } else {
        let (package, source) = packages[package_ref];
        let head = map![
            "package"@ => JsonView::Obj(map![
                "id"@ => JsonView::Str(package.id),
                "version"@ => JsonView::Str(package.version),
                "source"@ => JsonView::Str(source),
            ]),
        ];
        match rule_named(package.rules, rule_id, 0) {
            None => head.insert("status"@, JsonView::Str("failed"@)).insert(
                "error"@,
                JsonView::Str(
                    "primmel package `"@ + package_ref + "` has no rule `"@ + rule_id
                        + "` (it holds: "@ + joined(rule_ids(package.rules), ", "@) + ")"@,
                ),
            ),
            Some(rule) => {
                let r = resolved(inputs, s, at, inputs.keys().len() as int);
                decision_fields(
                    head.insert("inputs"@, JsonView::Obj(r.block)),
                    rule,
                    rule_id,
                    inputs@,
                    r,
                )
            },
        }
    }
}

fn missing_input_json(input: &str, path: &str, reason: &str, detail: &str) -> (r: Json)
    ensures
        r@ == missing_input_doc(input@, path@, reason@, detail@),
{
    broadcast use json_view_cases;

    let mut m: JsonObject = JsonObject::new();
    m.put("input", input);
    m.put("path", path);
    m.put("reason", reason);
    m.put("detail", detail);
    Json::Obj(m)
}

/// The resolved inputs of a rule binding.
struct ResolvedInputs {
    values: StrMap<Decimal>,
    block: JsonObject,
    missing: Vec<Json>,
    weakest: Option<TrustMarker>,
}

impl ResolvedInputs {
    spec fn says(self) -> Resolved {
        Resolved {
            values: self.values@,
            block: self.block@,
            missing: json_views(self.missing@),
            weakest: self.weakest,
        }
    }

    fn resolve(&mut self, name: &String, path: &String, state: &TwinState, at: Timestamp)
        ensures
            final(self).says() == resolved_more(old(self).says(), name@, path@, state@, at),
    {
        let ghost start = self.says();
        let ghost missing0 = self.missing@;
        let mut entry: JsonObject = JsonObject::new();
        entry.put("path", path.as_str());
        match state.get(path.as_str()) {
            None => {
                let mut detail: String = phrase(
                    "no event wrote fact `",
                    path.as_str(),
                    "` at or before the as-of instant ",
                );
                detail.append(at.to_text().as_str());
                self.missing.push(
                    missing_input_json(
                        name.as_str(),
                        path.as_str(),
                        "absent-as-of",
                        detail.as_str(),
                    ),
                );
                assert(json_views(self.missing@) =~= json_views(missing0).push(
                    self.missing@.last()@,
                ));
            },
            Some(fact) => match &fact.value {
                FactValue::Num(v) => {
                    self.values.insert(name.clone(), *v);
                    entry.put("value", v.to_text().as_str());
                    entry.put("trust", fact.origin.trust.text());
                    entry.put_num("sourced_seq", fact.origin.seq);
                    self.weakest = Some(
                        match self.weakest {
                            None => fact.origin.trust,
                            Some(floor) => if fact.origin.trust.grade() < floor.grade() {
                                fact.origin.trust
                            } else {
                                floor
                            },
                        },
                    );
                },
                other => {
                    let mut detail: String = phrase("fact `", path.as_str(), "` is a ");
                    detail.append(other.kind_name());
                    detail.append(" fact; the rule needs a numeric measurand");
                    self.missing.push(
                        missing_input_json(
                            name.as_str(),
                            path.as_str(),
                            "not-numeric",
                            detail.as_str(),
                        ),
                    );
                    assert(json_views(self.missing@) =~= json_views(missing0).push(
                        self.missing@.last()@,
                    ));
                },
            },
        }
        self.block.put_obj(name.as_str(), entry);
        assert(self.says() =~= resolved_more(start, name@, path@, state@, at));
    }
}

fn resolve_inputs(inputs: &StrMap<String>, state: &TwinState, at: Timestamp) -> (r: ResolvedInputs)
    ensures
        r.says() == resolved(*inputs, state@, at, inputs.keys().len() as int),
{
    let mut out: ResolvedInputs = ResolvedInputs {
        values: StrMap::new(),
        block: JsonObject::new(),
        missing: Vec::new(),
        weakest: None,
    };
    let n: usize = inputs.len();
    let mut i: usize = 0;
    assert(out.says() =~= resolved(*inputs, state@, at, 0));
    while i < n
        invariant
            i <= n == inputs.keys().len(),
            out.says() == resolved(*inputs, state@, at, i as int),
        decreases n - i,
    {
        out.resolve(inputs.key(i), inputs.value(i), state, at);
        i = i + 1;
    }
    out
}

fn decide(
    m: &mut JsonObject,
    rule: &PrimmelRule,
    rule_id: &str,
    inputs: &StrMap<String>,
    found: ResolvedInputs,
)
    ensures
        final(m)@ == decision_fields(old(m)@, rule@, rule_id@, inputs@, found.says()),
{
    broadcast use json_view_cases;

    if found.missing.len() > 0 {
        m.put("clause_urn", rule.clause_urn.as_str());
        m.put("status", "missing-inputs");
        m.put_arr("missing_inputs", found.missing);
        return ;
    }
    match rule.evaluate(&found.values) {
        Ok(outcome) => {
            m.put("clause_urn", rule.clause_urn.as_str());
            m.put("output", outcome.label.as_str());
            match outcome.matched_arm {
                Some(i) => m.put_num("matched_arm", i as u64),
                None => m.insert("matched_arm", Json::Null),
            }
            match found.weakest {
                Some(t) => m.put("trust", t.text()),
                None => {},
            }
            m.put("status", "computed");
        },
        Err(EvalError::MissingInput { input }) => {
            m.put("status", "missing-inputs");
            let mut detail: String = phrase("rule `", rule_id, "` consumes input `");
            detail.append(input.as_str());
            detail.append("`, which the binding does not map to a twin fact path");
            assert(""@ =~= Seq::<char>::empty()) by {
                reveal_strlit("");
            }
            let path: &str = match inputs.get(input.as_str()) {
                Some(p) => p.as_str(),
                None => "",
            };
            let mut entries: Vec<Json> = Vec::new();
            entries.push(
                missing_input_json(input.as_str(), path, "not-bound", detail.as_str()),
            );
            assert(json_views(entries@) =~= seq![entries@[0]@]);
            m.put_arr("missing_inputs", entries);
        },
        Err(e) => {
            m.put("status", "failed");
            let mut why: String = phrase("rule `", rule_id, "`: ");
            why.append(e.to_text().as_str());
            m.put("error", why.as_str());
        },
    }
}

fn rule_id_list(package: &PrimmelPackage) -> (r: String)
    ensures
        r@ == joined(rule_ids(package@.rules), ", "@),
{
    let mut ids: Vec<String> = Vec::new();
    let mut i: usize = 0;
    while i < package.rules.len()
        invariant
            i <= package.rules.len(),
            texts(ids@) == rule_ids(package@.rules).take(i as int),
        decreases package.rules.len() - i,
    {
        let ghost done = ids@;
        ids.push(package.rules[i].id.clone());
        assert(texts(ids@) =~= texts(done).push(package.rules@[i as int].id@));
        assert(rule_ids(package@.rules).take(i as int + 1) =~= rule_ids(package@.rules).take(
            i as int,
        ).push(package.rules@[i as int].id@));
        i = i + 1;
    }
    assert(rule_ids(package@.rules).take(package.rules@.len() as int) =~= rule_ids(package@.rules));
    join(&ids, ", ")
}

/// Evaluate one rule binding and render its transform fields.
fn primmel_json(
    package_ref: &str,
    rule_id: &str,
    inputs: &StrMap<String>,
    state: &TwinState,
    packages: &PackageSet,
    at: Timestamp,
) -> (r: JsonObject)
    ensures
        r@ == rule_fields(package_ref@, rule_id@, *inputs, state@, packages@, at),
{
    let mut m: JsonObject = JsonObject::new();
    let (package, source): (&PrimmelPackage, &'static str) = match packages.get(package_ref) {
        Some(found) => found,
        None => {
            m.put("status", "failed");
            let mut why: String = phrase(
                "primmel package `",
                package_ref,
                "` is not available to this projector (rule `",
            );
            why.append(rule_id);
            why.append("` cannot run)");
            m.put("error", why.as_str());
            return m;
        },
    };
    let mut block: JsonObject = JsonObject::new();
    block.put("id", package.id.as_str());
    block.put("version", package.version.as_str());
    block.put("source", source);
    m.put_obj("package", block);
    let rule: &PrimmelRule = match package.rule(rule_id) {
        Some(rule) => rule,
        None => {
            m.put("status", "failed");
            let mut why: String = phrase("primmel package `", package_ref, "` has no rule `");
            why.append(rule_id);
            why.append("` (it holds: ");
            why.append(rule_id_list(package).as_str());
            why.append(")");
            m.put("error", why.as_str());
            return m;
        },
    };
    let found: ResolvedInputs = resolve_inputs(inputs, state, at);
    let ResolvedInputs { values, block, missing, weakest } = found;
    let ghost shown = block@;
    m.put_obj("inputs", block);
    // The block has moved into the entry; the decision reads the rest.
    let rest: ResolvedInputs = ResolvedInputs {
        values,
        block: JsonObject::new(),
        missing,
        weakest,
    };
    decide(&mut m, rule, rule_id, inputs, rest);
    m
}

/// The fields of a localization mapping: the target value of the registered
/// correspondence, the explicit `unmapped` where the table has none, or the
/// reason of a failure.
pub open spec fn mapping_fields(
    mapping_ref: Seq<char>,
    source: Seq<char>,
    s: TwinView,
    mappings: Map<Seq<char>, (MappingView, Seq<char>)>,
    at: Timestamp,
) -> Map<Seq<char>, JsonView> {
    if !s.facts.contains_key(source) {
        map![
            "status"@ => JsonView::Str("failed"@),
            "error"@ => JsonView::Str(absent_text(source, at)),
        ]
    } else {
        let fact = s.facts[source];
        let head = map![
            "input"@ => value_doc(fact.value),
            "trust"@ => JsonView::Str(trust_text(fact.origin.trust)),
        ];
        match code_of(fact.value) {
            None => head.insert("status"@, JsonView::Str("failed"@)).insert(
                "error"@,
                JsonView::Str(
                    "mapping source `"@ + source + "` is a "@ + value_type(fact.value)
                        + " fact; the table keys on code values"@,
                ),
            ),
            Some(code) => if !mappings.contains_key(mapping_ref) {
                head.insert("status"@, JsonView::Str("failed"@)).insert(
                    "error"@,
                    JsonView::Str(
                        "code-list mapping item `"@ + mapping_ref
                            + "` is not available to this projector"@,
                    ),
                )
            } else {
                let (mapping, sourced) = mappings[mapping_ref];
                let named = head.insert("mapping"@, mapping_block(mapping, sourced));
                match row_for(mapping.table, code, 0) {
                    Some(row) => {
                        let out = named.insert("output"@, JsonView::Str(row.target));
                        let noted = match row.note {
                            Some(n) => out.insert("note"@, JsonView::Str(n)),
                            None => out,
                        };
                        noted.insert("status"@, JsonView::Str("computed"@))
                    },
                    None => named.insert("output"@, JsonView::Str(UNMAPPED@)).insert(
                        "detail"@,
                        JsonView::Str(
                            "value `"@ + code + "` of "@ + mapping.source_scheme
                                + " has no correspondence in `"@ + mapping.id + "` ("@
                                + mapping.source_scheme + " -> "@ + mapping.target_scheme + ")"@,
                        ),
                    ).insert("status"@, JsonView::Str(UNMAPPED@)),
                }
            },
        }
    }
}

/// The message for a fact that is not there as-of the instant.
pub open spec fn absent_text(source: Seq<char>, at: Timestamp) -> Seq<char> {
    "source fact `"@ + source + "` is absent as-of "@ + instant_text(at)
}

/// The code value of a fact: a text, or the exact spelling of a number.
pub open spec fn code_of(v: ValueView) -> Option<Seq<char>> {
    match v {
        ValueView::Str(s) => Some(s),
        ValueView::Num(d) => Some(decimal_text(d)),
        _ => None,
    }
}

/// The identity block of a mapping item.
pub open spec fn mapping_block(m: MappingView, source: Seq<char>) -> JsonView {
    let head = map![
        "id"@ => JsonView::Str(m.id),
        "version"@ => JsonView::Str(m.version),
        "source"@ => JsonView::Str(source),
        "source_scheme"@ => JsonView::Str(m.source_scheme),
        "target_scheme"@ => JsonView::Str(m.target_scheme),
    ];
    let cited = match m.citation {
        Some(c) => head.insert("citation"@, JsonView::Str(c)),
        None => head,
    };
    JsonView::Obj(cited.insert("entries"@, JsonView::Num(m.table.len() as u64)))
}

fn absent_message(source: &str, at: Timestamp) -> (r: String)
    ensures
        r@ == absent_text(source@, at),
{
    let mut out: String = phrase("source fact `", source, "` is absent as-of ");
    out.append(at.to_text().as_str());
    out
}

fn mapping_block_json(mapping: &CodeListMapping, source: &str) -> (r: JsonObject)
    ensures
        JsonView::Obj(r@) == mapping_block(mapping@, source@),
{
    let mut block: JsonObject = JsonObject::new();
    block.put("id", mapping.id.as_str());
    block.put("version", mapping.version.as_str());
    block.put("source", source);
    block.put("source_scheme", mapping.source_scheme.as_str());
    block.put("target_scheme", mapping.target_scheme.as_str());
    match &mapping.citation {
        Some(c) => block.put("citation", c.as_str()),
        None => {},
    }
    block.put_num("entries", mapping.table.len() as u64);
    block
}

/// Evaluate one localization-mapping binding and render its transform fields.
fn mapping_json(
    mapping_ref: &str,
    source: &str,
    state: &TwinState,
    mappings: &MappingSet,
    at: Timestamp,
) -> (r: JsonObject)
    ensures
        r@ == mapping_fields(mapping_ref@, source@, state@, mappings@, at),
{
    let mut m: JsonObject = JsonObject::new();
    let fact: &SourcedFact = match state.get(source) {
        Some(f) => f,
        None => {
            m.put("status", "failed");
            m.put("error", absent_message(source, at).as_str());
            return m;
        },
    };
    m.insert("input", fact_value_json(&fact.value));
    m.put("trust", fact.origin.trust.text());
    let code: String = match &fact.value {
        FactValue::Str(s) => s.clone(),
        FactValue::Num(n) => n.to_text(),
        other => {
            m.put("status", "failed");
            let mut why: String = phrase("mapping source `", source, "` is a ");
            why.append(other.kind_name());
            why.append(" fact; the table keys on code values");
            m.put("error", why.as_str());
            return m;
        },
    };
    let (mapping, sourced): (&CodeListMapping, &'static str) = match mappings.get(mapping_ref) {
        Some(found) => found,
        None => {
            m.put("status", "failed");
            m.put(
                "error",
                phrase(
                    "code-list mapping item `",
                    mapping_ref,
                    "` is not available to this projector",
                ).as_str(),
            );
            return m;
        },
    };
    m.put_obj("mapping", mapping_block_json(mapping, sourced));
    match mapping.lookup(code.as_str()) {
        Some(entry) => {
            m.put("output", entry.target_value.as_str());
            match &entry.note {
                Some(n) => m.put("note", n.as_str()),
                None => {},
            }
            m.put("status", "computed");
        },
        None => {
            m.put("output", UNMAPPED);
            let mut detail: String = phrase("value `", code.as_str(), "` of ");
            detail.append(mapping.source_scheme.as_str());
            detail.append(" has no correspondence in `");
            detail.append(mapping.id.as_str());
            detail.append("` (");
            detail.append(mapping.source_scheme.as_str());
            detail.append(" -> ");
            detail.append(mapping.target_scheme.as_str());
            detail.append(")");
            m.put("detail", detail.as_str());
            m.put("status", UNMAPPED);
        },
    }
    m
}

/// The wire name of a transform's kind.
pub open spec fn kind_text(t: TransformBinding) -> Seq<char> {
    match t {
        TransformBinding::UnitConversion { .. } => "unit-conversion"@,
        TransformBinding::Classification { .. } => "classification"@,
        TransformBinding::Primmel { .. } => "primmel"@,
        TransformBinding::Aggregation { .. } => "aggregation"@,
        TransformBinding::LocalizationMapping { .. } => "localization-mapping"@,
    }
}

/// The fact paths that a rule binding consumes, in input-name order.
pub open spec fn input_paths(inputs: StrMap<String>) -> Seq<Seq<char>> {
    inputs.keys().map_values(|k: Seq<char>| inputs@[k]@)
}

/// The fact at a path, where there is one.
pub open spec fn fact_at(s: TwinView, path: Seq<char>) -> Option<FactView> {
    if s.facts.contains_key(path) {
        Some(s.facts[path])
    } else {
        None
    }
}

/// The entry of a transform on one fact: the input travels with it whatever
/// happens; then what was computed, or why nothing was.
pub open spec fn outcome_doc(
    head: Map<Seq<char>, JsonView>,
    fact: Option<FactView>,
    computed: Option<Map<Seq<char>, JsonView>>,
    error: Seq<char>,
) -> JsonView {
    let shown = match fact {
        Some(f) => head.insert("input"@, value_doc(f.value)).insert(
            "trust"@,
            JsonView::Str(trust_text(f.origin.trust)),
        ),
        None => head,
    };
    match computed {
        Some(fields) => JsonView::Obj(
            shown.union_prefer_right(fields).insert("status"@, JsonView::Str("computed"@)),
        ),
        None => JsonView::Obj(
            shown.insert("status"@, JsonView::Str("failed"@)).insert("error"@, JsonView::Str(error)),
        ),
    }
}

/// The entry with the attestation of its transform under `rollup`; as it is
/// where there is none.
pub open spec fn attested(
    entry: JsonView,
    id: Seq<char>,
    attestations: Map<Seq<char>, JsonView>,
) -> JsonView {
    match entry {
        JsonView::Obj(m) => if attestations.contains_key(id) {
            JsonView::Obj(m.insert("rollup"@, attestations[id]))
        } else {
            entry
        },
        _ => entry,
    }
}

/// The entry of a transform.
pub open spec fn transform_doc(
    t: TransformBinding,
    l: LensManifest,
    s: TwinView,
    h: HoldingsView,
    at: Timestamp,
) -> JsonView {
    let base = map![
        "id"@ => JsonView::Str(transform_id(t)),
        "kind"@ => JsonView::Str(kind_text(t)),
    ];
    let head = base.insert("source"@, JsonView::Str(transform_source(t)));
    let fact = fact_at(s, transform_source(t));
    match t {
        TransformBinding::Aggregation {
            id,
            operation,
            input_element,
            weight_element,
            method_citation,
        } => match binding_of(l, input_element@) {
            Some(input) => attested(
                rollup_doc(
                    id@,
                    operation,
                    input,
                    match weight_element {
                        Some(w) => binding_of(l, w@),
                        None => None,
                    },
                    method_citation@,
                    active_children(s),
                    h.children,
                    h.root,
                    at,
                ),
                id@,
                h.attestations,
            ),
            None => JsonView::Obj(
                base.insert("status"@, JsonView::Str("failed"@)).insert(
                    "error"@,
                    JsonView::Str(
                        "aggregation `"@ + id@ + "` input element `"@ + input_element@
                            + "` has no binding"@,
                    ),
                ),
            ),
        },
        TransformBinding::Primmel { package_ref, rule_id, inputs, .. } => JsonView::Obj(
            head.insert("package_ref"@, JsonView::Str(package_ref@)).insert(
                "rule_id"@,
                JsonView::Str(rule_id@),
            ).insert("source"@, JsonView::Str(joined(input_paths(inputs), ","@))).union_prefer_right(
                rule_fields(package_ref@, rule_id@, inputs, s, h.packages, at),
            ),
        ),
        TransformBinding::LocalizationMapping { source, mapping_ref, .. } => JsonView::Obj(
            head.union_prefer_right(mapping_fields(mapping_ref@, source@, s, h.mappings, at)),
        ),
        TransformBinding::UnitConversion { from_unit, to_unit, from_item, to_item, .. } => {
            let computed = match fact {
                Some(FactView { value: ValueView::Num(amount), .. }) => conversion_fields(
                    amount,
                    from_unit@,
                    to_unit@,
                    from_item,
                    to_item,
                    h,
                ),
                _ => None,
            };
            outcome_doc(
                head,
                fact,
                computed,
                if fact is None {
                    absent_text(transform_source(t), at)
                } else {
                    "cannot convert source value from `"@ + from_unit@ + "` to `"@ + to_unit@
                        + "` (dimension mismatch or unregistered unit)"@
                },
            )
        },
        TransformBinding::Classification { bands, .. } => {
            let computed = match fact {
                Some(FactView { value: ValueView::Num(v), .. }) => Some(class_fields(bands@, v)),
                _ => None,
            };
            outcome_doc(
                head,
                fact,
                computed,
                if fact is None {
                    absent_text(transform_source(t), at)
                } else {
                    "classification source is not a numeric fact"@
                },
            )
        },
    }
}

fn kind_name(t: &TransformBinding) -> (r: &'static str)
    ensures
        r@ == kind_text(*t),
{
    match t {
        TransformBinding::UnitConversion { .. } => "unit-conversion",
        TransformBinding::Classification { .. } => "classification",
        TransformBinding::Primmel { .. } => "primmel",
        TransformBinding::Aggregation { .. } => "aggregation",
        TransformBinding::LocalizationMapping { .. } => "localization-mapping",
    }
}

fn input_path_list(inputs: &StrMap<String>) -> (r: String)
    ensures
        r@ == joined(input_paths(*inputs), ","@),
{
    let n: usize = inputs.len();
    let mut paths: Vec<String> = Vec::new();
    let mut i: usize = 0;
    while i < n
        invariant
            i <= n == inputs.keys().len(),
            texts(paths@) == input_paths(*inputs).take(i as int),
        decreases n - i,
    {
        let ghost done = paths@;
        paths.push(inputs.value(i).clone());
        assert(texts(paths@) =~= texts(done).push(input_paths(*inputs)[i as int]));
        assert(input_paths(*inputs).take(i as int + 1) =~= input_paths(*inputs).take(
            i as int,
        ).push(input_paths(*inputs)[i as int]));
        i = i + 1;
    }
    assert(input_paths(*inputs).take(n as int) =~= input_paths(*inputs));
    join(&paths, ",")
}

fn outcome_json(
    head: JsonObject,
    fact: Option<&SourcedFact>,
    computed: Option<JsonObject>,
    error: String,
) -> (r: JsonObject)
    ensures
        JsonView::Obj(r@) == outcome_doc(
            head@,
            match fact {
                Some(f) => Some(f@),
                None => None,
            },
            match computed {
                Some(m) => Some(m@),
                None => None,
            },
            error@,
        ),
{
    let mut m: JsonObject = head;
    match fact {
        Some(f) => {
            m.insert("input", fact_value_json(&f.value));
            m.put("trust", f.origin.trust.text());
        },
        None => {},
    }
    match computed {
        Some(fields) => {
            m.merge(fields);
            m.put("status", "computed");
        },
        None => {
            m.put("status", "failed");
            m.put("error", error.as_str());
        },
    }
    m
}

/// A weighted average of a bound element has a bound weight.
pub open spec fn weights_are_bound(t: TransformBinding, l: LensManifest) -> bool {
    match t {
        TransformBinding::Aggregation { operation, input_element, weight_element, .. } => (operation
            == AggregationOperation::WeightedAverage && binding_of(l, input_element@) is Some) ==> (
        weight_element is Some && binding_of(l, weight_element->0@) is Some),
        _ => true,
    }
}

/// Evaluate one transform binding and render its entry.
pub fn transform_json(
    t: &TransformBinding,
    lens: &LensManifest,
    state: &TwinState,
    h: &Holdings,
    at: Timestamp,
) -> (r: JsonObject)
    requires
        weights_are_bound(*t, *lens),
    ensures
        JsonView::Obj(r@) == transform_doc(*t, *lens, state@, h@, at),
{
    let mut m: JsonObject = JsonObject::new();
    m.put("id", t.id());
    m.put("kind", kind_name(t));
    match t {
        TransformBinding::Aggregation {
            id,
            operation,
            input_element,
            weight_element,
            method_citation,
        } => {
            let input: &DataPointBinding = match lens.binding_for(input_element.as_str()) {
                Some(b) => b,
                None => {
                    m.put("status", "failed");
                    let mut why: String = phrase(
                        "aggregation `",
                        id.as_str(),
                        "` input element `",
                    );
                    why.append(input_element.as_str());
                    why.append("` has no binding");
                    m.put("error", why.as_str());
                    return m;
                },
            };
            let weight: Option<&DataPointBinding> = match weight_element {
                Some(w) => lens.binding_for(w.as_str()),
                None => None,
            };
            let mut entry: JsonObject = aggregation_json(
                id.as_str(),
                *operation,
                input,
                weight,
                method_citation.as_str(),
                state,
                h.children,
                h.root,
                at,
            );
            match h.attestations.get(id.as_str()) {
                Some(doc) => entry.insert("rollup", doc.copy()),
                None => {},
            }
            entry
        },
        TransformBinding::Primmel { package_ref, rule_id, inputs, .. } => {
            m.put("source", t.source());
            m.put("package_ref", package_ref.as_str());
            m.put("rule_id", rule_id.as_str());
            m.put("source", input_path_list(inputs).as_str());
            m.merge(
                primmel_json(
                    package_ref.as_str(),
                    rule_id.as_str(),
                    inputs,
                    state,
                    h.packages,
                    at,
                ),
            );
            m
        },
        TransformBinding::LocalizationMapping { source, mapping_ref, .. } => {
            m.put("source", t.source());
            m.merge(
                mapping_json(mapping_ref.as_str(), source.as_str(), state, h.mappings, at),
            );
            m
        },
        TransformBinding::UnitConversion { from_unit, to_unit, from_item, to_item, .. } => {
            m.put("source", t.source());
            let fact: Option<&SourcedFact> = state.get(t.source());
            let computed: Option<JsonObject> = match fact {
                Some(f) => match &f.value {
                    FactValue::Num(amount) => unit_conversion_json(
                        amount,
                        from_unit.as_str(),
                        to_unit.as_str(),
                        from_item,
                        to_item,
                        h,
                    ),
                    _ => None,
                },
                None => None,
            };
            let error: String = match fact {
                None => absent_message(t.source(), at),
                Some(_) => {
                    let mut why: String = phrase(
                        "cannot convert source value from `",
                        from_unit.as_str(),
                        "` to `",
                    );
                    why.append(to_unit.as_str());
                    why.append("` (dimension mismatch or unregistered unit)");
                    why
                },
            };
            outcome_json(m, fact, computed, error)
        },
        TransformBinding::Classification { bands, .. } => {
            m.put("source", t.source());
            let fact: Option<&SourcedFact> = state.get(t.source());
            let computed: Option<JsonObject> = match fact {
                Some(f) => match &f.value {
                    FactValue::Num(v) => Some(classification_json(bands, v)),
                    _ => None,
                },
                None => None,
            };
            let error: String = match fact {
                None => absent_message(t.source(), at),
                Some(_) => "classification source is not a numeric fact".to_string(),
            };
            outcome_json(m, fact, computed, error)
        },
    }
}

/// What the data points select.
#[verifier::ext_equal]
pub struct Gathered {
    /// The `selected` entries.
    pub selected: Seq<JsonView>,
    /// The `missing` entries.
    pub missing: Seq<JsonView>,
    /// The trust marker of each selected element.
    pub trust: Map<Seq<char>, JsonView>,
}

/// The `missing` entry of an element.
pub open spec fn missing_doc(element: Seq<char>, reason: MissingReason) -> JsonView {
    JsonView::Obj(with_reason(map!["element"@ => JsonView::Str(element)], reason))
}

/// What the first `n` data points of a lens select.
pub open spec fn gathered(l: LensManifest, capability: CapabilityClass, s: TwinView, n: int) -> Gathered
    decreases n,
{
    if n <= 0 {
        Gathered { selected: Seq::empty(), missing: Seq::empty(), trust: Map::empty() }
    } else {
        let g = gathered(l, capability, s, n - 1);
        let element = elements(l)[n - 1];
        let b = binding_of(l, element)->0;
        match selection_of(capability, s, b) {
            Err(reason) => Gathered { missing: g.missing.push(missing_doc(element, reason)), ..g },
            Ok(fact) => Gathered {
                selected: g.selected.push(selected_doc(element, b, fact)),
                trust: g.trust.insert(element, JsonView::Str(trust_text(fact.origin.trust))),
                ..g
            },
        }
    }
}

/// The coverage report: how many elements the lens requires, how many the
/// view has, which are missing and why.
pub open spec fn coverage_doc(required: nat, present: nat, missing: Seq<JsonView>) -> JsonView {
    JsonView::Obj(
        map![
            "elements_required"@ => JsonView::Num(required as u64),
            "elements_present"@ => JsonView::Num(present as u64),
            "missing"@ => JsonView::Arr(missing),
            "complete"@ => JsonView::Bool(required == present),
            "ratio"@ => if required == 0 {
                JsonView::Ratio(1, 1)
            } else {
                JsonView::Ratio(present as u64, required as u64)
            },
        ],
    )
}

/// The coverage report.
pub fn coverage_json(required: usize, present: usize, missing: Vec<Json>) -> (r: JsonObject)
    ensures
        JsonView::Obj(r@) == coverage_doc(required as nat, present as nat, json_views(missing@)),
{
    broadcast use json_view_cases;

    let mut m: JsonObject = JsonObject::new();
    m.put_num("elements_required", required as u64);
    m.put_num("elements_present", present as u64);
    m.put_arr("missing", missing);
    m.put_bool("complete", required == present);
    if required == 0 {
        m.insert("ratio", Json::Ratio(1, 1));
    } else {
        m.insert("ratio", Json::Ratio(present as u64, required as u64));
    }
    m
}

/// The `profile` block.
pub open spec fn profile_doc(
    l: LensManifest,
    capability: CapabilityClass,
    at: Timestamp,
    trigger_holds: bool,
    source: ProfileSource,
) -> JsonView {
    let p = l.profile;
    let m = map![
        "id"@ => JsonView::Str(p.id@),
        "version"@ => JsonView::Str(l.version@),
        "axes"@ => JsonView::Str(p.axes@),
        "trigger"@ => JsonView::Str(p.trigger@),
        "freshness"@ => JsonView::Str(p.freshness@),
        "min_capability"@ => JsonView::Str(capability_text(p.min_capability)),
        "applies"@ => JsonView::Bool(trigger_holds && interval_contains(p.effective, at)),
        "satisfiable"@ => JsonView::Bool(capability_rank(capability) >= capability_rank(p.min_capability)),
        "resolution"@ => JsonView::Str(p.resolution@),
        "source"@ => JsonView::Str(source.mode@),
    ];
    JsonView::Obj(
        match source.detail {
            Some(d) => m.insert("source_detail"@, JsonView::Str(d@)),
            None => m,
        },
    )
}

fn profile_json(
    lens: &LensManifest,
    capability: &CapabilityClass,
    at: Timestamp,
    trigger_holds: bool,
    source: &ProfileSource,
) -> (r: JsonObject)
    ensures
        JsonView::Obj(r@) == profile_doc(*lens, *capability, at, trigger_holds, *source),
{
    let mut m: JsonObject = JsonObject::new();
    m.put("id", lens.profile.id.as_str());
    m.put("version", lens.version.as_str());
    m.put("axes", lens.profile.axes.as_str());
    m.put("trigger", lens.profile.trigger.as_str());
    m.put("freshness", lens.profile.freshness.as_str());
    m.put("min_capability", lens.profile.min_capability.text());
    m.put_bool("applies", trigger_holds && lens.profile.effective.contains(at));
    m.put_bool("satisfiable", capability.rank() >= lens.profile.min_capability.rank());
    m.put("resolution", lens.profile.resolution.as_str());
    m.put("source", source.mode.as_str());
    match &source.detail {
        Some(d) => m.put("source_detail", d.as_str()),
        None => {},
    }
    m
}

/// The validity block.
pub open spec fn validity_doc(v: Interval, at: Timestamp) -> JsonView {
    JsonView::Obj(
        map![
            "from"@ => JsonView::Str(instant_text(v.from)),
            "to"@ => match v.to {
                Some(t) => JsonView::Str(instant_text(t)),
                None => JsonView::Null,
            },
            "contains_as_of"@ => JsonView::Bool(interval_contains(v, at)),
        ],
    )
}

/// The `passport` block of a view.
pub open spec fn passport_doc(p: Passport, s: TwinView, at: Timestamp) -> JsonView {
    let head = map![
        "id"@ => JsonView::Str(p.passport_id@),
        "product_id"@ => JsonView::Str(p.product_id@),
        "capability"@ => JsonView::Str(capability_text(p.capability)),
        "status"@ => JsonView::Str(s.status),
    ];
    let held = match s.custodian {
        Some(c) => head.insert("custodian"@, JsonView::Str(c)),
        None => head,
    };
    let counted = held.insert("events"@, JsonView::Num(s.event_count as u64));
    let headed = match head_at(p.log@, at) {
        Some(h) => counted.insert("log_head"@, JsonView::Str(h)),
        None => counted,
    };
    JsonView::Obj(headed.insert("validity"@, validity_doc(p.validity, at)))
}

fn passport_json(passport: &Passport, state: &TwinState, at: Timestamp) -> (r: JsonObject)
    ensures
        JsonView::Obj(r@) == passport_doc(*passport, state@, at),
{
    broadcast use json_view_cases;

    let mut m: JsonObject = JsonObject::new();
    m.put("id", passport.passport_id.as_str());
    m.put("product_id", passport.product_id.as_str());
    m.put("capability", passport.capability.text());
    m.put("status", state.status.text());
    match &state.custodian {
        Some(c) => m.put("custodian", c.as_str()),
        None => {},
    }
    m.put_num("events", state.event_count as u64);
    match passport.state_hash_at(at) {
        Some(h) => m.put("log_head", h.as_str()),
        None => {},
    }
    let mut validity: JsonObject = JsonObject::new();
    validity.put("from", passport.validity.from.to_text().as_str());
    match passport.validity.to {
        Some(t) => validity.put("to", t.to_text().as_str()),
        None => validity.insert("to", Json::Null),
    }
    validity.put_bool("contains_as_of", passport.validity.contains(at));
    m.put_obj("validity", validity);
    m
}

/// The view of a passport under a lens.
pub open spec fn view_doc(
    p: Passport,
    l: LensManifest,
    at: Timestamp,
    actor: Seq<char>,
    source: ProfileSource,
    h: HoldingsView,
    trigger_holds: bool,
) -> JsonView {
    let s = folded(p.log@, at);
    let n = l.profile.data_points@.len();
    let g = gathered(l, p.capability, s, n as int);
    JsonView::Obj(
        map![
            "service"@ => JsonView::Str("unidpp-projector"@),
            "actor"@ => JsonView::Str(actor),
            "as_of"@ => JsonView::Str(instant_text(at)),
            "passport"@ => passport_doc(p, s, at),
            "profile"@ => profile_doc(l, p.capability, at, trigger_holds, source),
            "selected"@ => JsonView::Arr(g.selected),
            "transformed"@ => JsonView::Arr(
                l.transforms@.map_values(|t: TransformBinding| transform_doc(t, l, s, h, at)),
            ),
            "coverage"@ => coverage_doc(n, g.selected.len(), g.missing),
            "trust"@ => JsonView::Obj(g.trust),
        ],
    )
}

/// Render the view. `actor` names the requesting role (recorded, not
/// authenticated); `units` maps registry unit item ids to their resolved
/// identities; `source` reports where the manifest came from; `packages` and
/// `mappings` hold what the lens's rule and localization bindings may
/// consult; `children` holds the child passport documents of the traversal
/// set; `unit_registry` the units that conversions may use; `findings` what
/// the core rules say of the folded subject.
pub fn project(
    passport: &Passport,
    lens: &LensManifest,
    at: Timestamp,
    actor: &str,
    units: &StrMap<RegisteredUnit>,
    source: &ProfileSource,
    packages: &PackageSet,
    mappings: &MappingSet,
    children: &ChildDocuments,
    unit_registry: &UnitRegistry,
    findings: &CoreFindings,
) -> (r: Result<JsonObject, ViewError>)
    ensures
        match lens_fault(*lens) {
            Some(f) => r matches Err(ViewError::Invalid(m)) && m@ == f,
            None => r matches Ok(view) && JsonView::Obj(view@) == view_doc(
                *passport,
                *lens,
                at,
                actor@,
                *source,
                (HoldingsView {
                    units: units@,
                    unit_registry: unit_registry.units@,
                    packages: packages@,
                    mappings: mappings@,
                    children: children.documents@,
                    root: findings.input_set_root@,
                    attestations: docs_view(findings.attestations@),
                }),
                findings.trigger_holds,
            ),
        },
{
    broadcast use json_view_cases;

    match lens.validate() {
        Ok(()) => {},
        Err(e) => return Err(ViewError::Invalid(e)),
    }
    let state: TwinState = fold(passport, at);
    let h: Holdings = Holdings {
        units,
        unit_registry,
        packages,
        mappings,
        children,
        root: findings.input_set_root.as_str(),
        attestations: &findings.attestations,
    };

    let n: usize = lens.profile.data_points.len();
    let mut selected: Vec<Json> = Vec::new();
    let mut missing: Vec<Json> = Vec::new();
    let mut trust: JsonObject = JsonObject::new();
    let mut i: usize = 0;
    assert(json_views(selected@) =~= Seq::<JsonView>::empty());
    assert(json_views(missing@) =~= Seq::<JsonView>::empty());
    while i < n
        invariant
            i <= n == lens.profile.data_points@.len(),
            lens_fault(*lens) is None,
            gathered(*lens, passport.capability, state@, i as int) == (Gathered {
                selected: json_views(selected@),
                missing: json_views(missing@),
                trust: trust@,
            }),
        decreases n - i,
    {
        broadcast use json_view_cases;

        let element: String = lens.profile.data_points[i].text();
        proof {
            assert(elements(*lens)[i as int] == element@);
            assert(requires_element(*lens, element@));
            validated_lens_binds_every_element(*lens, element@);
        }
        let binding: &DataPointBinding = match lens.binding_for(element.as_str()) {
            Some(b) => b,
            None => return Err(
                ViewError::Invalid(phrase("data point `", element.as_str(), "` has no binding")),
            ),
        };
        let ghost (selected0, missing0) = (selected@, missing@);
        match select(passport, &state, binding) {
            Selection::Blocked(reason) => {
                let mut m: JsonObject = JsonObject::new();
                m.put("element", element.as_str());
                reason.write(&mut m);
                missing.push(Json::Obj(m));
                assert(json_views(missing@) =~= json_views(missing0).push(missing@.last()@));
            },
            Selection::Found(fact) => {
                trust.put(element.as_str(), fact.origin.trust.text());
                selected.push(Json::Obj(selected_json(element.as_str(), binding, fact)));
                assert(json_views(selected@) =~= json_views(selected0).push(selected@.last()@));
            },
        }
        i = i + 1;
    }

    let ghost docs = lens.transforms@.map_values(
        |t: TransformBinding| transform_doc(t, *lens, state@, h@, at),
    );
    let mut transformed: Vec<Json> = Vec::new();
    let mut j: usize = 0;
    while j < lens.transforms.len()
        invariant
            j <= lens.transforms.len(),
            lens_fault(*lens) is None,
            docs == lens.transforms@.map_values(
                |t: TransformBinding| transform_doc(t, *lens, state@, h@, at),
            ),
            json_views(transformed@) == docs.take(j as int),
        decreases lens.transforms.len() - j,
    {
        broadcast use json_view_cases;

        proof {
            transforms_fault_free(*lens, 0, j as int);
            match lens.transforms@[j as int] {
                TransformBinding::Aggregation { weight_element: Some(w), .. } => {
                    validated_lens_binds_every_element(*lens, w@);
                },
                _ => {},
            }
        }
        let ghost done = transformed@;
        transformed.push(Json::Obj(transform_json(&lens.transforms[j], lens, &state, &h, at)));
        assert(json_views(transformed@) =~= json_views(done).push(docs[j as int]));
        assert(docs.take(j as int + 1) =~= docs.take(j as int).push(docs[j as int]));
        j = j + 1;
    }
    assert(docs.take(docs.len() as int) =~= docs);

    let present: usize = selected.len();
    let mut view: JsonObject = JsonObject::new();
    view.put("service", "unidpp-projector");
    view.put("actor", actor);
    view.put("as_of", at.to_text().as_str());
    view.put_obj("passport", passport_json(passport, &state, at));
    view.put_obj(
        "profile",
        profile_json(lens, &passport.capability, at, findings.trigger_holds, source),
    );
    view.put_arr("selected", selected);
    view.put_arr("transformed", transformed);
    view.put_obj("coverage", coverage_json(n, present, missing));
    view.put_obj("trust", trust);
    Ok(view)
}

/// The element is selected for a subject of this capability.
pub open spec fn is_selected(
    l: LensManifest,
    capability: CapabilityClass,
    s: TwinView,
    element: Seq<char>,
) -> bool {
    selection_of(capability, s, binding_of(l, element)->0) is Ok
}

/// What each entry has under `key`.
pub open spec fn named_by(docs: Seq<JsonView>, key: Seq<char>) -> Seq<Option<Seq<char>>> {
    docs.map_values(|d: JsonView| member_str(d, key))
}

/// Texts that are all there.
pub open spec fn all_some(parts: Seq<Seq<char>>) -> Seq<Option<Seq<char>>> {
    parts.map_values(|p: Seq<char>| Some(p))
}

/// Nothing is silently dropped: every data point stands in exactly one of the
/// two lists, selected or missing, both in data-point order; the trust map
/// has exactly the selected elements, and the counts add up.
pub proof fn every_element_is_selected_or_missing(
    l: LensManifest,
    capability: CapabilityClass,
    s: TwinView,
    n: int,
)
    requires
        0 <= n <= l.profile.data_points@.len(),
    ensures
        named_by(gathered(l, capability, s, n).selected, "element"@) == all_some(
            elements(l).take(n).filter(|e: Seq<char>| is_selected(l, capability, s, e)),
        ),
        named_by(gathered(l, capability, s, n).missing, "element"@) == all_some(
            elements(l).take(n).filter(|e: Seq<char>| !is_selected(l, capability, s, e)),
        ),
        forall|e: Seq<char>| #[trigger]
            gathered(l, capability, s, n).trust.contains_key(e) <==> elements(l).take(n).contains(e)
                && is_selected(l, capability, s, e),
        gathered(l, capability, s, n).selected.len() + gathered(l, capability, s, n).missing.len()
            == n,
    decreases n,
{
    reveal(Seq::filter);
    let yes = |e: Seq<char>| is_selected(l, capability, s, e);
    let no = |e: Seq<char>| !is_selected(l, capability, s, e);
    let now = gathered(l, capability, s, n);
    if n > 0 {
        every_element_is_selected_or_missing(l, capability, s, n - 1);
        let was = gathered(l, capability, s, n - 1);
        let element = elements(l)[n - 1];
        one_more_key(elements(l), n - 1);
        assert(elements(l).take(n).drop_last() =~= elements(l).take(n - 1));
        entries_name_their_element(element, binding_of(l, element)->0);
        if yes(element) {
            let f = selection_of(capability, s, binding_of(l, element)->0)->Ok_0;
            assert(named_by(now.selected, "element"@) =~= named_by(was.selected, "element"@).push(
                member_str(selected_doc(element, binding_of(l, element)->0, f), "element"@),
            ));
            assert(all_some(elements(l).take(n - 1).filter(yes).push(element)) =~= all_some(
                elements(l).take(n - 1).filter(yes),
            ).push(Some(element)));
        } else {
            let reason = selection_of(capability, s, binding_of(l, element)->0)->Err_0;
            assert(named_by(now.missing, "element"@) =~= named_by(was.missing, "element"@).push(
                member_str(missing_doc(element, reason), "element"@),
            ));
            assert(all_some(elements(l).take(n - 1).filter(no).push(element)) =~= all_some(
                elements(l).take(n - 1).filter(no),
            ).push(Some(element)));
        }
    } else {
        assert(elements(l).take(0) =~= Seq::<Seq<char>>::empty());
        assert(named_by(now.selected, "element"@) =~= all_some(elements(l).take(0).filter(yes)));
        assert(named_by(now.missing, "element"@) =~= all_some(elements(l).take(0).filter(no)));
    }
}

proof fn entries_name_their_element(element: Seq<char>, b: DataPointBinding)
    ensures
        forall|f: FactView| #[trigger]
            member_str(selected_doc(element, b, f), "element"@) == Some(element),
        forall|r: MissingReason| #[trigger]
            member_str(missing_doc(element, r), "element"@) == Some(element),
{
    reveal_strlit("element");
    reveal_strlit("value");
    reveal_strlit("kind");
    reveal_strlit("declared_unit");
    reveal_strlit("sourced");
    reveal_strlit("trust");
    reveal_strlit("reason");
    reveal_strlit("floor");
    reveal_strlit("detail");
    assert("element"@.len() == 7 && "element"@[0] == 'e');
    assert("sourced"@[0] == 's');
    assert("value"@.len() == 5 && "kind"@.len() == 4 && "declared_unit"@.len() == 13 && "trust"@.len()
        == 5 && "reason"@.len() == 6 && "floor"@.len() == 5 && "detail"@.len() == 6);
}

/// A view is complete exactly when nothing is reported missing.
pub proof fn complete_means_nothing_missing(
    p: Passport,
    l: LensManifest,
    at: Timestamp,
)
    ensures
        ({
            let n = l.profile.data_points@.len();
            let g = gathered(l, p.capability, folded(p.log@, at), n as int);
            (n == g.selected.len()) <==> g.missing.len() == 0
        }),
{
    every_element_is_selected_or_missing(
        l,
        p.capability,
        folded(p.log@, at),
        l.profile.data_points@.len() as int,
    );
}

/// A selected fact has cleared every gate: the subject's capability, presence
/// on the state, and the trust floor.
pub proof fn selected_facts_clear_the_gates(
    capability: CapabilityClass,
    s: TwinView,
    b: DataPointBinding,
)
    ensures
        selection_of(capability, s, b) is Ok <==> (capability_rank(capability) >= capability_rank(
            b.min_capability,
        ) && s.facts.contains_key(b.source@) && trust_grade(s.facts[b.source@].origin.trust)
            >= trust_grade(b.min_trust)),
        selection_of(capability, s, b) is Ok ==> selection_of(capability, s, b)->Ok_0
            == s.facts[b.source@],
{
}

/// Lowering a binding's floors never loses an element: what is selected under
/// the stricter binding is selected, the same, under the laxer one.
pub proof fn lower_floors_select_no_less(
    capability: CapabilityClass,
    s: TwinView,
    strict: DataPointBinding,
    lax: DataPointBinding,
)
    requires
        strict.source@ == lax.source@,
        trust_grade(lax.min_trust) <= trust_grade(strict.min_trust),
        capability_rank(lax.min_capability) <= capability_rank(strict.min_capability),
        selection_of(capability, s, strict) is Ok,
    ensures
        selection_of(capability, s, lax) == selection_of(capability, s, strict),
{
}

/// The `k`-th bound input is a numeric fact.
pub open spec fn is_numeric_input(inputs: StrMap<String>, s: TwinView, k: int) -> bool {
    fact_at(s, inputs@[inputs.keys()[k]]@) is Some && fact_at(
        s,
        inputs@[inputs.keys()[k]]@,
    )->0.value is Num
}

/// The trust of the `k`-th bound input.
pub open spec fn input_trust(inputs: StrMap<String>, s: TwinView, k: int) -> TrustMarker {
    fact_at(s, inputs@[inputs.keys()[k]]@)->0.origin.trust
}

/// A decision is exactly as trustworthy as its weakest input: no numeric
/// input among the first `n` has a lower grade than the decision's, and one
/// of them has the decision's marker; without a numeric input there is none.
pub proof fn decision_trust_is_weakest(inputs: StrMap<String>, s: TwinView, at: Timestamp, n: int)
    ensures
        match resolved(inputs, s, at, n).weakest {
            Some(t) => (forall|k: int|
                0 <= k < n && #[trigger] is_numeric_input(inputs, s, k) ==> trust_grade(t)
                    <= trust_grade(input_trust(inputs, s, k))) && (exists|k: int|
                0 <= k < n && #[trigger] is_numeric_input(inputs, s, k) && input_trust(inputs, s, k)
                    == t),
            None => forall|k: int| 0 <= k < n ==> !#[trigger] is_numeric_input(inputs, s, k),
        },
    decreases n,
{
    if n > 0 {
        decision_trust_is_weakest(inputs, s, at, n - 1);
        let was = resolved(inputs, s, at, n - 1).weakest;
        let now = resolved(inputs, s, at, n).weakest;
        if is_numeric_input(inputs, s, n - 1) {
            assert(now == Some(weaker(was, input_trust(inputs, s, n - 1))));
            if was is Some && now == was {
                let k = choose|k: int|
                    0 <= k < n - 1 && #[trigger] is_numeric_input(inputs, s, k) && input_trust(
                        inputs,
                        s,
                        k,
                    ) == was->0;
                assert(is_numeric_input(inputs, s, k));
            }
        } else {
            assert(now == was);
        }
    }
}

/// Some entry of `missing` names this input.
pub open spec fn names_input(missing: Seq<JsonView>, input: Seq<char>) -> bool {
    exists|j: int|
        0 <= j < missing.len() && member_str(#[trigger] missing[j], "input"@) == Some(input)
}

/// Every bound input of a rule is either a numeric value or reported missing
/// by its name.
pub proof fn every_input_is_value_or_missing(
    inputs: StrMap<String>,
    s: TwinView,
    at: Timestamp,
    n: int,
    k: int,
)
    requires
        0 <= k < n <= inputs.keys().len(),
    ensures
        resolved(inputs, s, at, n).values.contains_key(inputs.keys()[k]) || names_input(
            resolved(inputs, s, at, n).missing,
            inputs.keys()[k],
        ),
    decreases n,
{
    let was = resolved(inputs, s, at, n - 1);
    let now = resolved(inputs, s, at, n);
    let last = inputs.keys()[n - 1];
    if k < n - 1 {
        every_input_is_value_or_missing(inputs, s, at, n - 1, k);
        if names_input(was.missing, inputs.keys()[k]) {
            let j = choose|j: int|
                0 <= j < was.missing.len() && member_str(#[trigger] was.missing[j], "input"@)
                    == Some(inputs.keys()[k]);
            assert(now.missing[j] == was.missing[j]);
        }
    } else if !now.values.contains_key(last) {
        reveal_strlit("input");
        reveal_strlit("path");
        reveal_strlit("reason");
        reveal_strlit("detail");
        assert("input"@.len() != "path"@.len() && "input"@.len() != "reason"@.len()
            && "input"@.len() != "detail"@.len());
        assert(member_str(now.missing[was.missing.len() as int], "input"@) == Some(last));
    }
}

/// A derived value is never more trustworthy than what it was computed from:
/// the entry of a conversion, a classification or a mapping carries the trust
/// marker of its source fact, whatever its outcome.
pub proof fn derived_values_carry_their_inputs_trust(
    t: TransformBinding,
    l: LensManifest,
    s: TwinView,
    h: HoldingsView,
    at: Timestamp,
)
    requires
        t is UnitConversion || t is Classification || t is LocalizationMapping,
        fact_at(s, transform_source(t)) is Some,
    ensures
        member_str(transform_doc(t, l, s, h, at), "trust"@) == Some(
            trust_text(fact_at(s, transform_source(t))->0.origin.trust),
        ),
{
    reveal_strlit("trust");
    reveal_strlit("input");
    reveal_strlit("exact");
    reveal_strlit("units");
    reveal_strlit("error");
    reveal_strlit("output");
    reveal_strlit("band");
    reveal_strlit("below_lowest_band");
    reveal_strlit("status");
    reveal_strlit("mapping");
    reveal_strlit("note");
    reveal_strlit("detail");
    assert("trust"@[0] == 't');
    assert("input"@[0] == 'i' && "exact"@[0] == 'e' && "units"@[0] == 'u' && "error"@[0] == 'e');
    assert("output"@.len() == 6 && "band"@.len() == 4 && "below_lowest_band"@.len() == 17);
    assert("status"@.len() == 6 && "mapping"@.len() == 7 && "note"@.len() == 4 && "detail"@.len()
        == 6);
    assert("trust"@.len() == 5);
}

/// A roll-up carries its attestation exactly where one was handed in for its
/// transform; the field is absent otherwise, never a placeholder.
pub proof fn attestations_travel_or_are_absent(
    t: TransformBinding,
    l: LensManifest,
    s: TwinView,
    h: HoldingsView,
    at: Timestamp,
)
    requires
        t is Aggregation,
        binding_of(l, t->input_element@) is Some,
    ensures
        member_view(transform_doc(t, l, s, h, at), "rollup"@) == (if h.attestations.contains_key(
            transform_id(t),
        ) {
            Some(h.attestations[transform_id(t)])
        } else {
            None
        }),
{
    reveal_strlit("rollup");
    reveal_strlit("id");
    reveal_strlit("kind");
    reveal_strlit("operation");
    reveal_strlit("input_element");
    reveal_strlit("weight_element");
    reveal_strlit("method_citation");
    reveal_strlit("children_required");
    reveal_strlit("input_set_root");
    reveal_strlit("status");
    reveal_strlit("error");
    reveal_strlit("inputs");
    reveal_strlit("trust");
    reveal_strlit("missing_children");
    reveal_strlit("output");
    reveal_strlit("children_provided");
    assert("rollup"@.len() == 6 && "rollup"@[0] == 'r');
    assert("status"@[0] == 's' && "inputs"@[0] == 'i' && "output"@[0] == 'o');
    assert("id"@.len() == 2 && "kind"@.len() == 4 && "operation"@.len() == 9 && "error"@.len() == 5
        && "trust"@.len() == 5 && "input_element"@.len() == 13 && "weight_element"@.len() == 14
        && "method_citation"@.len() == 15 && "children_required"@.len() == 17
        && "input_set_root"@.len() == 14 && "missing_children"@.len() == 16
        && "children_provided"@.len() == 17);
}

/// Events after the instant do not move the log head as-of the instant.
pub proof fn later_heads_are_not_seen(log: Seq<SealedEvent>, more: Seq<SealedEvent>, at: Timestamp)
    requires
        forall|i: int|
            0 <= i < more.len() ==> (#[trigger] more[i]).event.occurred_at.secs > at.secs,
    ensures
        head_at(log + more, at) == head_at(log, at),
    decreases more.len(),
{
    if more.len() > 0 {
        later_heads_are_not_seen(log, more.drop_last(), at);
        assert((log + more).drop_last() =~= log + more.drop_last());
    } else {
        assert(log + more =~= log);
    }
}

/// Events after the instant do not change the view: an archived log and the
/// log as it has grown since, by any number of later events, give the same
/// view as-of the instant.
pub proof fn later_events_do_not_change_the_view(
    p: Passport,
    grown: Passport,
    more: Seq<SealedEvent>,
    l: LensManifest,
    at: Timestamp,
    actor: Seq<char>,
    source: ProfileSource,
    h: HoldingsView,
    trigger_holds: bool,
)
    requires
        forall|i: int|
            0 <= i < more.len() ==> (#[trigger] more[i]).event.occurred_at.secs > at.secs,
        grown.log@ == p.log@ + more,
        grown.passport_id@ == p.passport_id@,
        grown.product_id@ == p.product_id@,
        grown.capability == p.capability,
        grown.validity == p.validity,
    ensures
        view_doc(grown, l, at, actor, source, h, trigger_holds) == view_doc(
            p,
            l,
            at,
            actor,
            source,
            h,
            trigger_holds,
        ),
{
    later_events_are_not_seen(p.log@, more, at);
    later_heads_are_not_seen(p.log@, more, at);
}

/// The shown value says the fact: a truth value is itself, a text is itself,
/// a list is the list of its texts, and a number is a text that reads back as
/// it.
pub proof fn shown_values_say_the_fact(v: ValueView)
    requires
        v is Num ==> v->Num_0.valid(),
    ensures
        match v {
            ValueView::Bool(b) => value_doc(v) == JsonView::Bool(b),
            ValueView::Str(s) => value_doc(v) == JsonView::Str(s),
            ValueView::Num(d) => value_doc(v) is Str && value_doc(v)->Str_0 == decimal_text(d)
                && parsed_decimal(value_doc(v)->Str_0) == Some(d),
            ValueView::List(l) => value_doc(v) is Arr && value_doc(v)->Arr_0.len() == l.len()
                && forall|i: int|
                0 <= i < l.len() ==> #[trigger] value_doc(v)->Arr_0[i] == JsonView::Str(l[i]),
        },
{
    match v {
        ValueView::Num(d) => text_reads_back(d),
        _ => {},
    }
}

/// Two different values of one kind are never shown alike.
pub proof fn shown_values_determine_the_fact(a: ValueView, b: ValueView)
    requires
        value_type(a) == value_type(b),
        a is Num ==> a->Num_0.valid(),
        b is Num ==> b->Num_0.valid(),
        value_doc(a) == value_doc(b),
    ensures
        a == b,
{
    reveal_strlit("str");
    reveal_strlit("num");
    reveal_strlit("bool");
    reveal_strlit("list");
    assert("str"@.len() == 3 && "str"@[0] == 's' && "num"@.len() == 3 && "num"@[0] == 'n');
    assert("bool"@.len() == 4 && "bool"@[0] == 'b' && "list"@.len() == 4 && "list"@[0] == 'l');
    shown_values_say_the_fact(a);
    shown_values_say_the_fact(b);
    match (a, b) {
        (ValueView::List(x), ValueView::List(y)) => {
            assert forall|i: int| 0 <= i < x.len() implies x[i] == y[i] by {
                assert(value_doc(a)->Arr_0[i] == JsonView::Str(x[i]));
                assert(value_doc(b)->Arr_0[i] == JsonView::Str(y[i]));
            }
            assert(x =~= y);
        },
        _ => {},
    }
}

/// What a document shows of where a value came from.
pub open spec fn shows_origin(doc: JsonView, o: OriginView) -> bool {
    &&& member_view(doc, "seq"@) == Some(JsonView::Num(o.seq))
    &&& member_str(doc, "occurred_at"@) == Some(instant_text(o.occurred_at))
    &&& member_str(doc, "actor_role"@) == Some(o.actor_role)
    &&& member_str(doc, "actor_id"@) == Some(o.actor_id)
}

/// What the entry of a selected element shows: the element, the fact's value
/// and kind, the declared unit where the binding has one, the event that
/// wrote the fact, and its trust.
pub open spec fn shows_selection(
    doc: JsonView,
    element: Seq<char>,
    b: DataPointBinding,
    f: FactView,
) -> bool {
    &&& member_str(doc, "element"@) == Some(element)
    &&& member_view(doc, "value"@) == Some(value_doc(f.value))
    &&& member_str(doc, "kind"@) == Some(value_type(f.value))
    &&& b.declared_unit is Some ==> member_str(doc, "declared_unit"@) == Some(b.declared_unit->0@)
    &&& b.declared_unit is None ==> member_view(doc, "declared_unit"@) is None
    &&& member_str(doc, "trust"@) == Some(trust_text(f.origin.trust))
    &&& member_view(doc, "sourced"@) is Some
    &&& shows_origin(member_view(doc, "sourced"@)->0, f.origin)
}

/// The entry of a selected element shows its fact.
pub proof fn selected_entries_show_the_fact(element: Seq<char>, b: DataPointBinding, f: FactView)
    ensures
        shows_selection(selected_doc(element, b, f), element, b, f),
{
    member_names_differ();
}

/// What the entry of a missing element shows: the element, and the condition that
/// kept it out, with its floor where it has one.
pub open spec fn shows_gap(doc: JsonView, reason: MissingReason) -> bool {
    match reason {
        MissingReason::AbsentAsOf => {
            &&& member_str(doc, "reason"@) == Some("absent-as-of"@)
            &&& member_str(doc, "detail"@) == Some(
                "no event wrote this fact at or before the as-of instant"@,
            )
        },
        MissingReason::BelowTrustFloor { floor } => {
            &&& member_str(doc, "reason"@) == Some("below-trust-floor"@)
            &&& member_str(doc, "floor"@) == Some(trust_text(floor))
            &&& member_str(doc, "detail"@) == Some(
                "sourcing event below the lens trust floor `"@ + trust_text(floor) + "`"@,
            )
        },
        MissingReason::CapabilityGate { floor } => {
            &&& member_str(doc, "reason"@) == Some("capability-gate"@)
            &&& member_str(doc, "floor"@) == Some(capability_text(floor))
            &&& member_str(doc, "detail"@) == Some(
                "subject capability below the element gate `"@ + capability_text(floor) + "`"@,
            )
        },
    }
}

/// The entry of a missing element names the element and shows why.
pub proof fn missing_entries_show_the_gate(element: Seq<char>, reason: MissingReason)
    ensures
        member_str(missing_doc(element, reason), "element"@) == Some(element),
        shows_gap(missing_doc(element, reason), reason),
        reason is AbsentAsOf ==> member_view(missing_doc(element, reason), "floor"@) is None,
{
    member_names_differ();
}

/// Which gate blocks: the capability gate before all others, with the
/// binding's own floor; then absence; then the trust floor, again with the
/// binding's own.
pub proof fn the_first_gate_blocks(capability: CapabilityClass, s: TwinView, b: DataPointBinding)
    ensures
        capability_rank(capability) < capability_rank(b.min_capability) ==> selection_of(
            capability,
            s,
            b,
        ) == Err::<FactView, MissingReason>(
            MissingReason::CapabilityGate { floor: b.min_capability },
        ),
        capability_rank(capability) >= capability_rank(b.min_capability) && !s.facts.contains_key(
            b.source@,
        ) ==> selection_of(capability, s, b) == Err::<FactView, MissingReason>(
            MissingReason::AbsentAsOf,
        ),
        capability_rank(capability) >= capability_rank(b.min_capability) && s.facts.contains_key(
            b.source@,
        ) && trust_grade(s.facts[b.source@].origin.trust) < trust_grade(b.min_trust)
            ==> selection_of(capability, s, b) == Err::<FactView, MissingReason>(
            MissingReason::BelowTrustFloor { floor: b.min_trust },
        ),
{
}

/// How a view's lists grow with one more data point: a fact that clears the
/// binding's three gates adds one selected entry that shows it and one trust
/// marker, and nothing missing; otherwise one missing entry is added that
/// shows the condition, and nothing is selected.
pub proof fn each_data_point_adds_one_entry(
    l: LensManifest,
    capability: CapabilityClass,
    s: TwinView,
    n: int,
)
    requires
        0 < n <= l.profile.data_points@.len(),
        binding_of(l, data_point_text(l.profile.data_points@[n - 1])) is Some,
    ensures
        ({
            let element = data_point_text(l.profile.data_points@[n - 1]);
            let b = binding_of(l, element)->0;
            let was = gathered(l, capability, s, n - 1);
            let now = gathered(l, capability, s, n);
            if capability_rank(capability) >= capability_rank(b.min_capability)
                && s.facts.contains_key(b.source@) && trust_grade(
                s.facts[b.source@].origin.trust,
            ) >= trust_grade(b.min_trust) {
                &&& now.selected.len() == was.selected.len() + 1
                &&& now.selected.drop_last() == was.selected
                &&& shows_selection(now.selected.last(), element, b, s.facts[b.source@])
                &&& now.missing == was.missing
                &&& now.trust == was.trust.insert(
                    element,
                    JsonView::Str(trust_text(s.facts[b.source@].origin.trust)),
                )
            } else {
                &&& now.selected == was.selected
                &&& now.trust == was.trust
                &&& now.missing.len() == was.missing.len() + 1
                &&& now.missing.drop_last() == was.missing
                &&& member_str(now.missing.last(), "element"@) == Some(element)
                &&& shows_gap(
                    now.missing.last(),
                    if capability_rank(capability) < capability_rank(b.min_capability) {
                        MissingReason::CapabilityGate { floor: b.min_capability }
                    } else if !s.facts.contains_key(b.source@) {
                        MissingReason::AbsentAsOf
                    } else {
                        MissingReason::BelowTrustFloor { floor: b.min_trust }
                    },
                )
            }
        }),
{
    let element = data_point_text(l.profile.data_points@[n - 1]);
    assert(elements(l)[n - 1] == element);
    let b = binding_of(l, element)->0;
    let was = gathered(l, capability, s, n - 1);
    let now = gathered(l, capability, s, n);
    match selection_of(capability, s, b) {
        Ok(fact) => {
            selected_entries_show_the_fact(element, b, fact);
            assert(now.selected.drop_last() =~= was.selected);
        },
        Err(reason) => {
            missing_entries_show_the_gate(element, reason);
            assert(now.missing.drop_last() =~= was.missing);
        },
    }
}

/// With no data points nothing is selected and nothing is missing.
pub proof fn no_data_points_gather_nothing(
    l: LensManifest,
    capability: CapabilityClass,
    s: TwinView,
)
    ensures
        gathered(l, capability, s, 0).selected.len() == 0,
        gathered(l, capability, s, 0).missing.len() == 0,
        forall|e: Seq<char>| !#[trigger] gathered(l, capability, s, 0).trust.contains_key(e),
{
}

/// A truth value, a text, a number or a list that the log states is what the
/// view shows of it: the entry that a selected data point adds has under
/// `value` the document of the very value that the state as-of the instant
/// has at the binding's path.
pub proof fn selected_values_are_the_stated_ones(
    p: Passport,
    l: LensManifest,
    at: Timestamp,
    n: int,
    e: TypedEvent,
    value: ValueView,
)
    requires
        0 < n <= l.profile.data_points@.len(),
        binding_of(l, data_point_text(l.profile.data_points@[n - 1])) is Some,
        ({
            let b = binding_of(l, data_point_text(l.profile.data_points@[n - 1]))->0;
            &&& holds_fact(folded(p.log@, at), b.source@, value, e)
            &&& capability_rank(p.capability) >= capability_rank(b.min_capability)
            &&& trust_grade(e.trust) >= trust_grade(b.min_trust)
        }),
    ensures
        ({
            let entry = gathered(l, p.capability, folded(p.log@, at), n).selected.last();
            &&& value is Bool ==> member_view(entry, "value"@) == Some(
                JsonView::Bool(value->Bool_0),
            )
            &&& value is Str ==> member_view(entry, "value"@) == Some(JsonView::Str(value->Str_0))
            &&& value is Num ==> member_view(entry, "value"@) == Some(
                JsonView::Str(decimal_text(value->Num_0)),
            )
            &&& value is List ==> member_view(entry, "value"@) == Some(
                JsonView::Arr(value->List_0.map_values(|s: Seq<char>| JsonView::Str(s))),
            )
            &&& member_str(entry, "kind"@) == Some(
                if value is Str {
                    "str"@
                } else if value is Num {
                    "num"@
                } else if value is Bool {
                    "bool"@
                } else {
                    "list"@
                },
            )
            &&& member_str(entry, "trust"@) == Some(trust_text(e.trust))
            &&& member_view(member_view(entry, "sourced"@)->0, "seq"@) == Some(JsonView::Num(e.seq))
        }),
{
    each_data_point_adds_one_entry(l, p.capability, folded(p.log@, at), n);
}

/// What the coverage report counts: the required elements, the present ones,
/// their quotient (one where nothing is required), and the missing entries;
/// it is complete exactly where nothing required is absent.
pub proof fn coverage_counts(required: nat, present: nat, missing: Seq<JsonView>)
    requires
        present <= required <= u64::MAX,
    ensures
        ({
            let doc = coverage_doc(required, present, missing);
            &&& member_view(doc, "elements_required"@) == Some(JsonView::Num(required as u64))
            &&& member_view(doc, "elements_present"@) == Some(JsonView::Num(present as u64))
            &&& member_view(doc, "missing"@) == Some(JsonView::Arr(missing))
            &&& member_view(doc, "complete"@) == Some(JsonView::Bool(present == required))
            &&& required > 0 ==> member_view(doc, "ratio"@) == Some(
                JsonView::Ratio(present as u64, required as u64),
            )
            &&& required == 0 ==> member_view(doc, "ratio"@) == Some(JsonView::Ratio(1, 1))
        }),
{
    member_names_differ();
}

/// The members of a view: who asked and as-of when, the passport and profile
/// blocks, what the state as-of the instant selects and misses over all data
/// points, one entry per transform in manifest order, and the coverage over
/// the same lists.
pub proof fn views_show_the_state_as_of_the_instant(
    p: Passport,
    l: LensManifest,
    at: Timestamp,
    actor: Seq<char>,
    source: ProfileSource,
    h: HoldingsView,
    trigger_holds: bool,
)
    ensures
        ({
            let doc = view_doc(p, l, at, actor, source, h, trigger_holds);
            let s = folded(p.log@, at);
            let n = l.profile.data_points@.len();
            let g = gathered(l, p.capability, s, n as int);
            &&& member_str(doc, "service"@) == Some("unidpp-projector"@)
            &&& member_str(doc, "actor"@) == Some(actor)
            &&& member_str(doc, "as_of"@) == Some(instant_text(at))
            &&& member_view(doc, "passport"@) == Some(passport_doc(p, s, at))
            &&& member_view(doc, "profile"@) == Some(
                profile_doc(l, p.capability, at, trigger_holds, source),
            )
            &&& member_view(doc, "selected"@) == Some(JsonView::Arr(g.selected))
            &&& member_view(doc, "trust"@) == Some(JsonView::Obj(g.trust))
            &&& member_view(doc, "coverage"@) == Some(
                coverage_doc(n, g.selected.len(), g.missing),
            )
            &&& member_view(doc, "transformed"@) is Some
            &&& member_view(doc, "transformed"@)->0 is Arr
            &&& member_view(doc, "transformed"@)->0->Arr_0.len() == l.transforms@.len()
            &&& forall|i: int|
                0 <= i < l.transforms@.len() ==> #[trigger] member_view(
                    doc,
                    "transformed"@,
                )->0->Arr_0[i] == transform_doc(l.transforms@[i], l, s, h, at)
        }),
{
    member_names_differ();
}

/// The members of a view's passport block: who the subject is, its status,
/// custodian and number of counted events as the state has them, the log head
/// as-of the instant, and its validity, which ends before its end.
pub proof fn passport_blocks_show_the_subject(p: Passport, s: TwinView, at: Timestamp)
    requires
        s.event_count <= u64::MAX,
    ensures
        ({
            let doc = passport_doc(p, s, at);
            &&& member_str(doc, "id"@) == Some(p.passport_id@)
            &&& member_str(doc, "product_id"@) == Some(p.product_id@)
            &&& member_str(doc, "capability"@) == Some(capability_text(p.capability))
            &&& member_str(doc, "status"@) == Some(s.status)
            &&& s.custodian is Some ==> member_str(doc, "custodian"@) == s.custodian
            &&& s.custodian is None ==> member_view(doc, "custodian"@) is None
            &&& member_view(doc, "events"@) == Some(JsonView::Num(s.event_count as u64))
            &&& head_at(p.log@, at) is Some ==> member_str(doc, "log_head"@) == head_at(p.log@, at)
            &&& head_at(p.log@, at) is None ==> member_view(doc, "log_head"@) is None
            &&& member_view(doc, "validity"@) is Some
            &&& ({
                let v = member_view(doc, "validity"@)->0;
                &&& member_str(v, "from"@) == Some(instant_text(p.validity.from))
                &&& p.validity.to is Some ==> member_str(v, "to"@) == Some(
                    instant_text(p.validity.to->0),
                )
                &&& p.validity.to is None ==> member_view(v, "to"@) == Some(JsonView::Null)
                &&& member_view(v, "contains_as_of"@) == Some(
                    JsonView::Bool(
                        p.validity.from.secs <= at.secs && (p.validity.to is Some ==> at.secs
                            < p.validity.to->0.secs),
                    ),
                )
            })
        }),
{
    member_names_differ();
}

/// The members of a view's profile block: the profile by its own fields; it
/// applies where its trigger holds and it is in force, and is satisfiable
/// where the subject's capability reaches its floor; the source of the
/// manifest is named, with its detail where there is one.
pub proof fn profile_blocks_show_the_profile(
    l: LensManifest,
    capability: CapabilityClass,
    at: Timestamp,
    trigger_holds: bool,
    source: ProfileSource,
)
    ensures
        ({
            let doc = profile_doc(l, capability, at, trigger_holds, source);
            let p = l.profile;
            &&& member_str(doc, "id"@) == Some(p.id@)
            &&& member_str(doc, "version"@) == Some(l.version@)
            &&& member_str(doc, "axes"@) == Some(p.axes@)
            &&& member_str(doc, "trigger"@) == Some(p.trigger@)
            &&& member_str(doc, "freshness"@) == Some(p.freshness@)
            &&& member_str(doc, "resolution"@) == Some(p.resolution@)
            &&& member_str(doc, "min_capability"@) == Some(capability_text(p.min_capability))
            &&& member_view(doc, "applies"@) == Some(
                JsonView::Bool(
                    trigger_holds && p.effective.from.secs <= at.secs && (p.effective.to is Some
                        ==> at.secs < p.effective.to->0.secs),
                ),
            )
            &&& member_view(doc, "satisfiable"@) == Some(
                JsonView::Bool(capability_rank(capability) >= capability_rank(p.min_capability)),
            )
            &&& member_str(doc, "source"@) == Some(source.mode@)
            &&& source.detail is Some ==> member_str(doc, "source_detail"@) == Some(
                source.detail->0@,
            )
            &&& source.detail is None ==> member_view(doc, "source_detail"@) is None
        }),
{
    member_names_differ();
}

/// What every transform entry shows: its id and its kind.
#[verifier::rlimit(60)]
#[verifier::spinoff_prover]
pub proof fn transforms_show_id_and_kind(
    t: TransformBinding,
    l: LensManifest,
    s: TwinView,
    h: HoldingsView,
    at: Timestamp,
)
    ensures
        ({
            let doc = transform_doc(t, l, s, h, at);
            &&& member_str(doc, "id"@) == Some(
                match t {
                    TransformBinding::UnitConversion { id, .. } => id@,
                    TransformBinding::Classification { id, .. } => id@,
                    TransformBinding::Primmel { id, .. } => id@,
                    TransformBinding::Aggregation { id, .. } => id@,
                    TransformBinding::LocalizationMapping { id, .. } => id@,
                },
            )
            &&& member_str(doc, "kind"@) == Some(
                if t is UnitConversion {
                    "unit-conversion"@
                } else if t is Classification {
                    "classification"@
                } else if t is Primmel {
                    "primmel"@
                } else if t is Aggregation {
                    "aggregation"@
                } else {
                    "localization-mapping"@
                },
            )
        }),
{
    member_names_differ();
}

/// A document of an amount shows the number and its unit.
pub open spec fn shows_amount(doc: Option<JsonView>, amount: Decimal, unit: Seq<char>) -> bool {
    &&& doc is Some
    &&& member_str(doc->0, "amount"@) == Some(decimal_text(amount))
    &&& member_str(doc->0, "unit"@) == Some(unit)
}

/// A conversion shows the fact's number in its unit and the converted number
/// in the other: the same quantity, exactly. What cannot be converted is a
/// failure that says why.
#[verifier::rlimit(60)]
pub proof fn conversions_show_the_same_quantity(
    t: TransformBinding,
    l: LensManifest,
    s: TwinView,
    h: HoldingsView,
    at: Timestamp,
)
    requires
        t is UnitConversion,
    ensures
        ({
            let doc = transform_doc(t, l, s, h, at);
            let (source, from, to) = (
                t->UnitConversion_source@,
                t->from_unit@,
                t->to_unit@,
            );
            let numeric = s.facts.contains_key(source) && s.facts[source].value is Num;
            let amount = s.facts[source].value->Num_0;
            let out = converted(h.unit_registry, amount, from, to);
            &&& member_str(doc, "source"@) == Some(source)
            &&& numeric && out is Some ==> {
                &&& member_str(doc, "status"@) == Some("computed"@)
                &&& member_view(doc, "exact"@) == Some(JsonView::Bool(true))
                &&& shows_amount(member_view(doc, "input"@), amount, from)
                &&& shows_amount(member_view(doc, "output"@), out->0, to)
                &&& member_view(doc, "error"@) is None
            }
            &&& !(numeric && out is Some) ==> {
                &&& member_str(doc, "status"@) == Some("failed"@)
                &&& member_view(doc, "output"@) is None
            }
            &&& !s.facts.contains_key(source) ==> member_str(doc, "error"@) == Some(
                "source fact `"@ + source + "` is absent as-of "@ + instant_text(at),
            )
            &&& s.facts.contains_key(source) && !(numeric && out is Some) ==> member_str(
                doc,
                "error"@,
            ) == Some(
                "cannot convert source value from `"@ + from + "` to `"@ + to
                    + "` (dimension mismatch or unregistered unit)"@,
            )
        }),
{
    member_names_differ();
}

/// A classification shows the label of the highest band that the fact's
/// number meets, the first declared of equal ones, with the band; below all
/// bands it shows `unclassified` and the lowest `min`.
#[verifier::rlimit(60)]
pub proof fn classifications_show_the_highest_band_met(
    t: TransformBinding,
    l: LensManifest,
    s: TwinView,
    h: HoldingsView,
    at: Timestamp,
    k: int,
)
    requires
        t is Classification,
        s.facts.contains_key(t->Classification_source@),
        s.facts[t->Classification_source@].value is Num,
        -1 <= k < t->bands@.len(),
        ({
            let v = s.facts[t->Classification_source@].value->Num_0.value();
            let bands = t->bands@;
            &&& k >= 0 ==> bands[k].min.value() <= v && forall|j: int|
                0 <= j < bands.len() && (#[trigger] bands[j]).min.value() <= v
                    ==> bands[j].min.value() <= bands[k].min.value() && (bands[j].min.value()
                    == bands[k].min.value() ==> k <= j)
            &&& k < 0 ==> forall|j: int| 0 <= j < bands.len() ==> v < (#[trigger] bands[j]).min.value()
        }),
    ensures
        ({
            let doc = transform_doc(t, l, s, h, at);
            let bands = t->bands@;
            &&& member_str(doc, "status"@) == Some("computed"@)
            &&& member_view(doc, "input"@) == Some(
                JsonView::Str(decimal_text(s.facts[t->Classification_source@].value->Num_0)),
            )
            &&& k >= 0 ==> {
                &&& member_str(doc, "output"@) == Some(bands[k].label@)
                &&& member_view(doc, "band"@) is Some
                &&& member_str(member_view(doc, "band"@)->0, "label"@) == Some(bands[k].label@)
                &&& member_str(member_view(doc, "band"@)->0, "min"@) == Some(
                    decimal_text(bands[k].min),
                )
            }
            &&& k < 0 ==> {
                &&& member_str(doc, "output"@) == Some("unclassified"@)
                &&& member_str(doc, "below_lowest_band"@) == Some(lowest_min_text(bands))
                &&& member_view(doc, "band"@) is None
            }
        }),
{
    member_names_differ();
    let bands = t->bands@;
    let v = s.facts[t->Classification_source@].value->Num_0;
    classification_is_highest_met(bands, v, bands.len() as int);
    match band_for(bands, v, bands.len() as int) {
        Some(b) => {
            assert(bands[b].min.value() <= v.value());
            if k >= 0 {
                assert(bands[k].min.value() <= v.value());
            }
            assert(b == k);
        },
        None => {
            if k >= 0 {
                assert(v.value() < bands[k].min.value());
            }
        },
    }
}

/// A classification without a number to classify fails, and says why.
pub proof fn classifications_without_a_number_fail(
    t: TransformBinding,
    l: LensManifest,
    s: TwinView,
    h: HoldingsView,
    at: Timestamp,
)
    requires
        t is Classification,
        !(s.facts.contains_key(t->Classification_source@)
            && s.facts[t->Classification_source@].value is Num),
    ensures
        member_str(transform_doc(t, l, s, h, at), "status"@) == Some("failed"@),
        member_view(transform_doc(t, l, s, h, at), "output"@) is None,
        member_str(transform_doc(t, l, s, h, at), "error"@) == Some(
            if s.facts.contains_key(t->Classification_source@) {
                "classification source is not a numeric fact"@
            } else {
                "source fact `"@ + t->Classification_source@ + "` is absent as-of "@
                    + instant_text(at)
            },
        ),
{
    member_names_differ();
}

/// A mapping shows the target value of the first row for the fact's code,
/// with the row's note, and the explicit `unmapped` where no row has the
/// code; the mapping item is named with its version and where it came from.
#[verifier::rlimit(60)]
#[verifier::spinoff_prover]
pub proof fn mappings_show_the_row_of_the_code(
    t: TransformBinding,
    l: LensManifest,
    s: TwinView,
    h: HoldingsView,
    at: Timestamp,
    k: int,
)
    requires
        t is LocalizationMapping,
        s.facts.contains_key(t->LocalizationMapping_source@),
        ({
            let v = s.facts[t->LocalizationMapping_source@].value;
            v is Str || v is Num
        }),
        h.mappings.contains_key(t->mapping_ref@),
        ({
            let v = s.facts[t->LocalizationMapping_source@].value;
            let code = if v is Str { v->Str_0 } else { decimal_text(v->Num_0) };
            let table = h.mappings[t->mapping_ref@].0.table;
            &&& 0 <= k <= table.len()
            &&& forall|j: int| 0 <= j < k ==> (#[trigger] table[j]).source != code
            &&& k < table.len() ==> table[k].source == code
        }),
    ensures
        ({
            let doc = transform_doc(t, l, s, h, at);
            let (m, sourced) = h.mappings[t->mapping_ref@];
            let v = s.facts[t->LocalizationMapping_source@].value;
            let code = if v is Str { v->Str_0 } else { decimal_text(v->Num_0) };
            &&& member_view(doc, "input"@) == Some(JsonView::Str(code))
            &&& k < m.table.len() ==> {
                &&& member_str(doc, "output"@) == Some(m.table[k].target)
                &&& member_str(doc, "status"@) == Some("computed"@)
                &&& m.table[k].note is Some ==> member_str(doc, "note"@) == m.table[k].note
                &&& m.table[k].note is None ==> member_view(doc, "note"@) is None
            }
            &&& k == m.table.len() ==> {
                &&& member_str(doc, "output"@) == Some("unmapped"@)
                &&& member_str(doc, "status"@) == Some("unmapped"@)
                &&& member_str(doc, "detail"@) == Some(
                    "value `"@ + code + "` of "@ + m.source_scheme + " has no correspondence in `"@
                        + m.id + "` ("@ + m.source_scheme + " -> "@ + m.target_scheme + ")"@,
                )
            }
            &&& member_view(doc, "mapping"@) is Some
            &&& ({
                let block = member_view(doc, "mapping"@)->0;
                &&& member_str(block, "id"@) == Some(m.id)
                &&& member_str(block, "version"@) == Some(m.version)
                &&& member_str(block, "source"@) == Some(sourced)
                &&& member_str(block, "source_scheme"@) == Some(m.source_scheme)
                &&& member_str(block, "target_scheme"@) == Some(m.target_scheme)
                &&& m.citation is Some ==> member_str(block, "citation"@) == m.citation
            })
        }),
{
    member_names_differ();
    let v = s.facts[t->LocalizationMapping_source@].value;
    let code = if v is Str { v->Str_0 } else { decimal_text(v->Num_0) };
    let table = h.mappings[t->mapping_ref@].0.table;
    rows_are_found_by_source(table, code, 0);
    match row_for(table, code, 0) {
        Some(row) => {
            let j = choose|j: int|
                0 <= j < table.len() && #[trigger] table[j] == row && row.source == code && forall|
                    i: int,
                |
                    0 <= i < j ==> (#[trigger] table[i]).source != code;
            assert(table[j] == row);
            if k < j {
                assert(table[k].source != code);
            }
            assert(j == k);
        },
        None => {
            if k < table.len() {
                assert(table[k].source != code);
            }
        },
    }
}

/// A mapping without a code, or without its item, fails and says so.
#[verifier::rlimit(60)]
pub proof fn mappings_without_code_or_item_fail(
    t: TransformBinding,
    l: LensManifest,
    s: TwinView,
    h: HoldingsView,
    at: Timestamp,
)
    requires
        t is LocalizationMapping,
    ensures
        ({
            let doc = transform_doc(t, l, s, h, at);
            let source = t->LocalizationMapping_source@;
            let coded = s.facts.contains_key(source) && (s.facts[source].value is Str
                || s.facts[source].value is Num);
            &&& !s.facts.contains_key(source) ==> member_str(doc, "status"@) == Some("failed"@)
                && member_str(doc, "error"@) == Some(
                "source fact `"@ + source + "` is absent as-of "@ + instant_text(at),
            )
            &&& s.facts.contains_key(source) && !coded ==> member_str(doc, "status"@) == Some(
                "failed"@,
            ) && member_str(doc, "error"@) == Some(
                "mapping source `"@ + source + "` is a "@ + value_type(s.facts[source].value)
                    + " fact; the table keys on code values"@,
            )
            &&& coded && !h.mappings.contains_key(t->mapping_ref@) ==> member_str(doc, "status"@)
                == Some("failed"@) && member_str(doc, "error"@) == Some(
                "code-list mapping item `"@ + t->mapping_ref@
                    + "` is not available to this projector"@,
            )
        }),
{
    member_names_differ();
}

/// What happened to the children after the instant changes nothing in a view
/// as-of it.
pub proof fn later_child_events_do_not_change_the_view(
    p: Passport,
    l: LensManifest,
    at: Timestamp,
    actor: Seq<char>,
    source: ProfileSource,
    h: HoldingsView,
    later: HoldingsView,
    trigger_holds: bool,
)
    requires
        have_grown_since(h.children, later.children, at),
        later == (HoldingsView { children: later.children, ..h }),
    ensures
        view_doc(p, l, at, actor, source, h, trigger_holds) == view_doc(
            p,
            l,
            at,
            actor,
            source,
            later,
            trigger_holds,
        ),
{
    let s = folded(p.log@, at);
    let a = l.transforms@.map_values(|t: TransformBinding| transform_doc(t, l, s, h, at));
    let b = l.transforms@.map_values(|t: TransformBinding| transform_doc(t, l, s, later, at));
    assert forall|i: int| 0 <= i < a.len() implies a[i] == b[i] by {
        match l.transforms@[i] {
            TransformBinding::Aggregation {
                id,
                operation,
                input_element,
                weight_element,
                method_citation,
            } => {
                match binding_of(l, input_element@) {
                    Some(input) => later_child_events_do_not_change_the_rollup(
                        id@,
                        operation,
                        input,
                        match weight_element {
                            Some(w) => binding_of(l, w@),
                            None => None,
                        },
                        method_citation@,
                        active_children(s),
                        h.children,
                        later.children,
                        h.root,
                        at,
                    ),
                    None => {},
                }
            },
            _ => {},
        }
    }
    assert(a =~= b);
}

/// A roll-up goes over the subject's own active children, with the bindings
/// of the elements it names.
pub proof fn rollups_go_over_the_active_children(
    t: TransformBinding,
    l: LensManifest,
    s: TwinView,
    h: HoldingsView,
    at: Timestamp,
)
    requires
        t is Aggregation,
        binding_of(l, t->input_element@) is Some,
        !h.attestations.contains_key(t->Aggregation_id@),
    ensures
        transform_doc(t, l, s, h, at) == rollup_doc(
            t->Aggregation_id@,
            t->operation,
            binding_of(l, t->input_element@)->0,
            if t->weight_element is Some {
                binding_of(l, t->weight_element->0@)
            } else {
                None
            },
            t->method_citation@,
            in_order(s.children),
            h.children,
            h.root,
            at,
        ),
{
}

/// The fact at the path of the `k`-th input of a rule.
pub open spec fn input_fact(inputs: StrMap<String>, s: TwinView, k: int) -> Option<FactView> {
    let path = inputs@[inputs.keys()[k]]@;
    if s.facts.contains_key(path) {
        Some(s.facts[path])
    } else {
        None
    }
}

/// What the inputs block shows of an input: the path it is bound to, and,
/// where the fact is a number, the number, its trust and its event.
pub open spec fn shows_input(doc: JsonView, path: Seq<char>, fact: Option<FactView>) -> bool {
    &&& member_str(doc, "path"@) == Some(path)
    &&& fact is Some && fact->0.value is Num ==> {
        &&& member_str(doc, "value"@) == Some(decimal_text(fact->0.value->Num_0))
        &&& member_str(doc, "trust"@) == Some(trust_text(fact->0.origin.trust))
        &&& member_view(doc, "sourced_seq"@) == Some(JsonView::Num(fact->0.origin.seq))
    }
    &&& !(fact is Some && fact->0.value is Num) ==> member_view(doc, "value"@) is None
}

/// What the inputs of a rule resolve to: each name has the number that the
/// state has at the path it is bound to, and is shown with it; a name whose
/// path has no fact, or no number, has no value and is reported; and there is
/// a report only where some name is such.
#[verifier::rlimit(60)]
#[verifier::spinoff_prover]
pub proof fn inputs_resolve_to_the_bound_facts(
    inputs: StrMap<String>,
    s: TwinView,
    at: Timestamp,
    n: int,
)
    requires
        0 <= n <= inputs.keys().len(),
        inputs.keys().no_duplicates(),
    ensures
        ({
            let r = resolved(inputs, s, at, n);
            let keys = inputs.keys();
            &&& forall|k: int|
                0 <= k < n ==> {
                    let fact = #[trigger] input_fact(inputs, s, k);
                    let numeric = fact is Some && fact->0.value is Num;
                    &&& r.values.contains_key(keys[k]) <==> numeric
                    &&& numeric ==> r.values[keys[k]] == fact->0.value->Num_0
                    &&& r.block.contains_key(keys[k])
                    &&& shows_input(r.block[keys[k]], inputs@[keys[k]]@, fact)
                }
            &&& forall|x: Seq<char>| #[trigger]
                r.values.contains_key(x) ==> keys.take(n).contains(x)
            &&& r.missing.len() == 0 <==> forall|k: int|
                0 <= k < n ==> (#[trigger] input_fact(inputs, s, k)) is Some && input_fact(
                    inputs,
                    s,
                    k,
                )->0.value is Num
        }),
    decreases n,
{
    if n > 0 {
        member_names_differ();
        inputs_resolve_to_the_bound_facts(inputs, s, at, n - 1);
        let keys = inputs.keys();
        let was = resolved(inputs, s, at, n - 1);
        let now = resolved(inputs, s, at, n);
        let name = keys[n - 1];
        one_more_key(keys, n - 1);
        let last = input_fact(inputs, s, n - 1);
        assert(!was.values.contains_key(name)) by {
            if was.values.contains_key(name) {
                assert(keys.take(n - 1).contains(name));
                let j = keys.take(n - 1).index_of(name);
                assert(keys[j] == name && j < n - 1);
            }
        }
        assert forall|k: int| 0 <= k < n implies ({
            let fact = #[trigger] input_fact(inputs, s, k);
            let numeric = fact is Some && fact->0.value is Num;
            &&& now.values.contains_key(keys[k]) <==> numeric
            &&& numeric ==> now.values[keys[k]] == fact->0.value->Num_0
            &&& now.block.contains_key(keys[k])
            &&& shows_input(now.block[keys[k]], inputs@[keys[k]]@, fact)
        }) by {
            if k < n - 1 {
                assert(keys[k] != name);
            }
        }
        if now.missing.len() == 0 {
            assert(was.missing.len() == 0);
        } else if was.missing.len() > 0 {
            let k = choose|k: int|
                0 <= k < n - 1 && !((#[trigger] input_fact(inputs, s, k)) is Some && input_fact(
                    inputs,
                    s,
                    k,
                )->0.value is Num);
            assert(input_fact(inputs, s, k) is None || !(input_fact(inputs, s, k)->0.value is Num));
        }
    }
}

/// What a rule transform shows: the package and rule it asks for; with the
/// package at hand, its id, version and source, and the inputs block; where
/// every input is a number, the decision of the package's rule over those
/// numbers — its label, its arm, its clause and the weakest trust; where one
/// is not, the missing inputs; and where package or rule is not to be had, a
/// failure that says so.
#[verifier::rlimit(60)]
#[verifier::spinoff_prover]
pub proof fn rules_show_their_decision(
    t: TransformBinding,
    l: LensManifest,
    s: TwinView,
    h: HoldingsView,
    at: Timestamp,
)
    requires
        t is Primmel,
    ensures
        ({
            let doc = transform_doc(t, l, s, h, at);
            let (package_ref, rule_id) = (t->package_ref@, t->rule_id@);
            let inputs = t->inputs;
            let (package, source) = h.packages[package_ref];
            let rule = rule_named(package.rules, rule_id, 0);
            let r = resolved(inputs, s, at, inputs.keys().len() as int);
            let decision = decided(rule->0.arms, 0, r.values);
            &&& member_str(doc, "package_ref"@) == Some(package_ref)
            &&& member_str(doc, "rule_id"@) == Some(rule_id)
            &&& !h.packages.contains_key(package_ref) ==> {
                &&& member_str(doc, "status"@) == Some("failed"@)
                &&& member_view(doc, "output"@) is None
                &&& member_str(doc, "error"@) == Some(
                    "primmel package `"@ + package_ref
                        + "` is not available to this projector (rule `"@ + rule_id
                        + "` cannot run)"@,
                )
            }
            &&& h.packages.contains_key(package_ref) ==> {
                &&& member_view(doc, "package"@) is Some
                &&& member_str(member_view(doc, "package"@)->0, "id"@) == Some(package.id)
                &&& member_str(member_view(doc, "package"@)->0, "version"@) == Some(
                    package.version,
                )
                &&& member_str(member_view(doc, "package"@)->0, "source"@) == Some(source)
                &&& rule is None ==> member_str(doc, "status"@) == Some("failed"@) && member_view(
                    doc,
                    "output"@,
                ) is None
            }
            &&& h.packages.contains_key(package_ref) && rule is Some ==> {
                &&& member_view(doc, "inputs"@) == Some(JsonView::Obj(r.block))
                &&& r.missing.len() > 0 ==> {
                    &&& member_str(doc, "status"@) == Some("missing-inputs"@)
                    &&& member_view(doc, "missing_inputs"@) == Some(JsonView::Arr(r.missing))
                    &&& member_str(doc, "clause_urn"@) == Some(rule->0.clause_urn)
                    &&& member_view(doc, "output"@) is None
                }
                &&& r.missing.len() == 0 && decision is Ok ==> {
                    &&& member_str(doc, "status"@) == Some("computed"@)
                    &&& member_str(doc, "output"@) == Some(decision->Ok_0.label)
                    &&& member_str(doc, "clause_urn"@) == Some(rule->0.clause_urn)
                    &&& decision->Ok_0.matched_arm is Some ==> member_view(doc, "matched_arm"@)
                        == Some(JsonView::Num(decision->Ok_0.matched_arm->0 as u64))
                    &&& decision->Ok_0.matched_arm is None ==> member_view(doc, "matched_arm"@)
                        == Some(JsonView::Null)
                    &&& r.weakest is Some ==> member_str(doc, "trust"@) == Some(
                        trust_text(r.weakest->0),
                    )
                }
                &&& r.missing.len() == 0 && decision is Err ==> {
                    &&& member_view(doc, "output"@) is None
                    &&& decision->Err_0 is MissingInput ==> member_str(doc, "status"@) == Some(
                        "missing-inputs"@,
                    )
                    &&& !(decision->Err_0 is MissingInput) ==> member_str(doc, "status"@) == Some(
                        "failed"@,
                    ) && member_str(doc, "error"@) == Some(
                        "rule `"@ + rule_id + "`: "@ + eval_error_text(decision->Err_0),
                    )
                }
            }
        }),
{
    member_names_differ();
}

/// The identity of a unit in a conversion: the registered item by its own
/// fields, or the item that could not be resolved, or none at all.
pub proof fn unit_identities_are_honest(item: Option<String>, units: Map<Seq<char>, RegisteredUnit>)
    ensures
        ({
            let doc = unit_identity(item, units);
            let known = item is Some && units.contains_key(item->0@);
            &&& member_view(doc, "uom_registered"@) == Some(JsonView::Bool(known))
            &&& known ==> {
                &&& member_str(doc, "item"@) == Some(units[item->0@].item@)
                &&& member_str(doc, "name"@) == Some(units[item->0@].name@)
                &&& units[item->0@].citation is Some ==> member_str(doc, "citation"@) == Some(
                    units[item->0@].citation->0@,
                )
                &&& units[item->0@].citation is None ==> member_view(doc, "citation"@) == Some(
                    JsonView::Null,
                )
            }
            &&& item is Some && !known ==> member_str(doc, "item"@) == Some(item->0@)
            &&& item is None ==> member_view(doc, "item"@) is None
        }),
{
    member_names_differ();
}

/// A conversion shows who its two units are, each under its symbol.
#[verifier::rlimit(60)]
pub proof fn conversions_show_their_units(
    t: TransformBinding,
    l: LensManifest,
    s: TwinView,
    h: HoldingsView,
    at: Timestamp,
)
    requires
        t is UnitConversion,
        t->from_unit@ != t->to_unit@,
        member_str(transform_doc(t, l, s, h, at), "status"@) == Some("computed"@),
    ensures
        ({
            let units = member_view(transform_doc(t, l, s, h, at), "units"@);
            &&& units is Some
            &&& member_view(units->0, t->from_unit@) == Some(unit_identity(t->from_item, h.units))
            &&& member_view(units->0, t->to_unit@) == Some(unit_identity(t->to_item, h.units))
        }),
{
    member_names_differ();
    reveal_strlit("computed");
    reveal_strlit("failed");
    assert("computed"@.len() != "failed"@.len());
}

/// What a report of a missing input shows.
pub open spec fn shows_missing_input(
    doc: JsonView,
    name: Seq<char>,
    path: Seq<char>,
    reason: Seq<char>,
    detail: Seq<char>,
) -> bool {
    &&& member_str(doc, "input"@) == Some(name)
    &&& member_str(doc, "path"@) == Some(path)
    &&& member_str(doc, "reason"@) == Some(reason)
    &&& member_str(doc, "detail"@) == Some(detail)
}

/// What one more input of a rule adds to the report: nothing where its fact
/// is a number; otherwise one entry with its name and its path, which says
/// that the fact is absent, or of which kind it is.
pub proof fn missing_inputs_say_why(inputs: StrMap<String>, s: TwinView, at: Timestamp, n: int)
    requires
        0 <= n < inputs.keys().len(),
    ensures
        ({
            let name = inputs.keys()[n];
            let path = inputs@[name]@;
            let fact = input_fact(inputs, s, n);
            let was = resolved(inputs, s, at, n).missing;
            let now = resolved(inputs, s, at, n + 1).missing;
            &&& resolved(inputs, s, at, 0).missing.len() == 0
            &&& fact is Some && fact->0.value is Num ==> now == was
            &&& !(fact is Some && fact->0.value is Num) ==> now.len() == was.len() + 1
                && now.drop_last() == was
            &&& fact is None ==> shows_missing_input(
                now.last(),
                name,
                path,
                "absent-as-of"@,
                "no event wrote fact `"@ + path + "` at or before the as-of instant "@
                    + instant_text(at),
            )
            &&& fact is Some && !(fact->0.value is Num) ==> shows_missing_input(
                now.last(),
                name,
                path,
                "not-numeric"@,
                "fact `"@ + path + "` is a "@ + value_type(fact->0.value)
                    + " fact; the rule needs a numeric measurand"@,
            )
        }),
{
    member_names_differ();
    let was = resolved(inputs, s, at, n).missing;
    let now = resolved(inputs, s, at, n + 1).missing;
    if now.len() > was.len() {
        assert(now.drop_last() =~= was);
    }
}

/// A rule that reads an input without a binding reports that input; a rule
/// that the package does not have is named beside those that it has; and the
/// source of a rule is the paths that its inputs are bound to.
#[verifier::rlimit(60)]
pub proof fn rules_say_what_they_lack(
    t: TransformBinding,
    l: LensManifest,
    s: TwinView,
    h: HoldingsView,
    at: Timestamp,
)
    requires
        t is Primmel,
        h.packages.contains_key(t->package_ref@),
    ensures
        ({
            let doc = transform_doc(t, l, s, h, at);
            let (package_ref, rule_id) = (t->package_ref@, t->rule_id@);
            let inputs = t->inputs;
            let package = h.packages[package_ref].0;
            let rule = rule_named(package.rules, rule_id, 0);
            let r = resolved(inputs, s, at, inputs.keys().len() as int);
            let decision = decided(rule->0.arms, 0, r.values);
            &&& member_str(doc, "source"@) == Some(joined(input_paths(inputs), ","@))
            &&& rule is None ==> member_str(doc, "error"@) == Some(
                "primmel package `"@ + package_ref + "` has no rule `"@ + rule_id
                    + "` (it holds: "@ + joined(package.rules.map_values(|r: RuleView| r.id), ", "@)
                    + ")"@,
            )
            &&& rule is Some && r.missing.len() == 0 && decision is Err
                && decision->Err_0 is MissingInput ==> ({
                let name = decision->Err_0->MissingInput_0;
                let report = member_view(doc, "missing_inputs"@);
                &&& report is Some && report->0 is Arr && report->0->Arr_0.len() == 1
                &&& shows_missing_input(
                    report->0->Arr_0[0],
                    name,
                    if inputs@.contains_key(name) { inputs@[name]@ } else { Seq::empty() },
                    "not-bound"@,
                    "rule `"@ + rule_id + "` consumes input `"@ + name
                        + "`, which the binding does not map to a twin fact path"@,
                )
            })
        }),
{
    member_names_differ();
    let package = h.packages[t->package_ref@].0;
    assert(rule_ids(package.rules) =~= package.rules.map_values(|r: RuleView| r.id));
}

/// The paths of a rule's inputs stand in the order of their names.
pub proof fn input_paths_follow_the_names(inputs: StrMap<String>, k: int)
    requires
        0 <= k < inputs.keys().len(),
    ensures
        input_paths(inputs).len() == inputs.keys().len(),
        input_paths(inputs)[k] == inputs@[inputs.keys()[k]]@,
{
}

/// A mapping block says how many rows the mapping has, and cites what the
/// mapping cites, and nothing where it cites nothing.
pub proof fn mapping_blocks_count_the_rows(m: MappingView, source: Seq<char>)
    requires
        m.table.len() <= u64::MAX,
    ensures
        member_view(mapping_block(m, source), "entries"@) matches Some(JsonView::Num(n)) && n
            == m.table.len(),
        m.citation is None ==> member_view(mapping_block(m, source), "citation"@) is None,
{
    member_names_differ();
}

} // verus!
