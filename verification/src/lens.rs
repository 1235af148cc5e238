//! The lens projection model: what a registered profile item carries beyond
//! the core profile so that a view can be rendered — the data-point bindings,
//! the transform bindings and the presentation binding.
//!
//! The core profile states *what the lens requires*; the bindings state
//! *where each element's value lives on the twin state and which provenance
//! and capability it must clear*; the transforms state *how derived values
//! are produced*; the presentation states *how a consumer sees them*. The
//! projector executes the manifest — it never hardcodes a jurisdiction.
use vstd::prelude::*;
use vstd::string::*;

use crate::aggregate::AggregationOperation;
use crate::codelist::or_unknown;
use crate::decimal::Decimal;
use crate::json::{member_str, member_view, Json, JsonObject, JsonView};
use crate::model::{data_point_text, CapabilityClass, ProfileManifest, TrustMarker};
use crate::strmap::StrMap;
use crate::text::{blank, is_blank, phrase, reports, same, texts};
use crate::time::instant_text;

verus! {

/// One data-point binding: how a required element is selected from the twin
/// state.
#[derive(Debug, PartialEq)]
pub struct DataPointBinding {
    /// The required element, as the canonical text of one of the profile's
    /// data points.
    pub element: String,
    /// The twin-state fact path holding the element's value.
    pub source: String,
    /// Provenance filter: the sourcing event's trust marker must meet or
    /// exceed this grade, else the element is excluded and reported.
    pub min_trust: TrustMarker,
    /// Capability gate: the subject's capability class must meet or exceed
    /// this floor, else the element is blocked and reported.
    pub min_capability: CapabilityClass,
    /// Display-only declared unit for the value: carries no conversion claim.
    pub declared_unit: Option<String>,
}

/// The provenance floor of a binding that states none: no floor.
pub fn no_trust_floor() -> (r: TrustMarker)
    ensures
        r == TrustMarker::Unsigned,
{
    TrustMarker::Unsigned
}

/// The capability gate of a binding that states none: no gate.
pub fn no_capability_gate() -> (r: CapabilityClass)
    ensures
        r == CapabilityClass::Silent,
{
    CapabilityClass::Silent
}

/// One classification band: `label` applies when the input value is `>= min`.
#[derive(Debug, PartialEq)]
pub struct ClassBand {
    pub label: String,
    pub min: Decimal,
}

/// A transform binding: how one derived value is produced.
#[derive(Debug, PartialEq)]
pub enum TransformBinding {
    /// Exact unit conversion through the unit registry (e.g. kWh -> MJ,
    /// x 3.6 exactly). `from_item`/`to_item` optionally name registry unit
    /// items, binding the conversion's unit identity to the registered
    /// citation chain.
    UnitConversion {
        id: String,
        source: String,
        from_unit: String,
        to_unit: String,
        from_item: Option<String>,
        to_item: Option<String>,
    },
    /// Band classification: the manifest's own table, applied to a numeric
    /// fact; the highest band whose `min` the value meets wins; below the
    /// lowest band the value is `unclassified` (explicit, never silent).
    Classification { id: String, source: String, bands: Vec<ClassBand> },
    /// A Primmel decision rule over twin facts: `inputs` maps the rule's
    /// input names to fact paths.
    Primmel { id: String, package_ref: String, rule_id: String, inputs: StrMap<String> },
    /// A roll-up of one element over the subject's active children,
    /// following a cited method standard.
    Aggregation {
        id: String,
        operation: AggregationOperation,
        input_element: String,
        weight_element: Option<String>,
        method_citation: String,
    },
    /// A code value translated through a registered correspondence item.
    LocalizationMapping { id: String, source: String, mapping_ref: String },
}

/// The transform's identity within the lens.
pub open spec fn transform_id(t: TransformBinding) -> Seq<char> {
    match t {
        TransformBinding::UnitConversion { id, .. } => id@,
        TransformBinding::Classification { id, .. } => id@,
        TransformBinding::Primmel { id, .. } => id@,
        TransformBinding::Aggregation { id, .. } => id@,
        TransformBinding::LocalizationMapping { id, .. } => id@,
    }
}

/// What the transform reads: a fact path; for a rule the path of its first
/// input, for a roll-up the input element.
pub open spec fn transform_source(t: TransformBinding) -> Seq<char> {
    match t {
        TransformBinding::UnitConversion { source, .. } => source@,
        TransformBinding::Classification { source, .. } => source@,
        TransformBinding::Primmel { inputs, .. } => if inputs.keys().len() > 0 {
            inputs@[inputs.keys()[0]]@
        } else {
            Seq::empty()
        },
        TransformBinding::Aggregation { input_element, .. } => input_element@,
        TransformBinding::LocalizationMapping { source, .. } => source@,
    }
}

/// The texts that are there, in order.
pub open spec fn present(a: Option<String>, b: Option<String>) -> Seq<Seq<char>> {
    match (a, b) {
        (Some(x), Some(y)) => seq![x@, y@],
        (Some(x), None) => seq![x@],
        (None, Some(y)) => seq![y@],
        (None, None) => Seq::empty(),
    }
}

impl TransformBinding {
    /// The transform's identity within the lens.
    pub fn id(&self) -> (r: &str)
        ensures
            r@ == transform_id(*self),
    {
        match self {
            TransformBinding::UnitConversion { id, .. } => id.as_str(),
            TransformBinding::Classification { id, .. } => id.as_str(),
            TransformBinding::Primmel { id, .. } => id.as_str(),
            TransformBinding::Aggregation { id, .. } => id.as_str(),
            TransformBinding::LocalizationMapping { id, .. } => id.as_str(),
        }
    }

    /// What the transform reads.
    pub fn source(&self) -> (r: &str)
        ensures
            r@ == transform_source(*self),
    {
        match self {
            TransformBinding::UnitConversion { source, .. } => source.as_str(),
            TransformBinding::Classification { source, .. } => source.as_str(),
            TransformBinding::Primmel { inputs, .. } => {
                if inputs.len() > 0 {
                    inputs.value(0).as_str()
                } else {
                    assert(""@ =~= Seq::<char>::empty()) by {
                        reveal_strlit("");
                    }
                    ""
                }
            },
            TransformBinding::Aggregation { input_element, .. } => input_element.as_str(),
            TransformBinding::LocalizationMapping { source, .. } => source.as_str(),
        }
    }

    /// Registry unit items this transform references, in encounter order.
    pub fn unit_items(&self) -> (r: Vec<String>)
        ensures
            texts(r@) == (match *self {
                TransformBinding::UnitConversion { from_item, to_item, .. } => present(
                    from_item,
                    to_item,
                ),
                _ => Seq::empty(),
            }),
    {
        let mut out: Vec<String> = Vec::new();
        match self {
            TransformBinding::UnitConversion { from_item, to_item, .. } => {
                match from_item {
                    Some(i) => out.push(i.clone()),
                    None => {},
                }
                match to_item {
                    Some(i) => out.push(i.clone()),
                    None => {},
                }
                assert(texts(out@) =~= present(*from_item, *to_item));
            },
            _ => {
                assert(texts(out@) =~= Seq::<Seq<char>>::empty());
            },
        }
        out
    }

    /// The rule packages this transform references.
    pub fn package_refs(&self) -> (r: Vec<String>)
        ensures
            texts(r@) == (match *self {
                TransformBinding::Primmel { package_ref, .. } => seq![package_ref@],
                _ => Seq::empty(),
            }),
    {
        let mut out: Vec<String> = Vec::new();
        match self {
            TransformBinding::Primmel { package_ref, .. } => {
                out.push(package_ref.clone());
                assert(texts(out@) =~= seq![package_ref@]);
            },
            _ => {
                assert(texts(out@) =~= Seq::<Seq<char>>::empty());
            },
        }
        out
    }

    /// The code-list mapping items this transform references.
    pub fn mapping_refs(&self) -> (r: Vec<String>)
        ensures
            texts(r@) == (match *self {
                TransformBinding::LocalizationMapping { mapping_ref, .. } => seq![mapping_ref@],
                _ => Seq::empty(),
            }),
    {
        let mut out: Vec<String> = Vec::new();
        match self {
            TransformBinding::LocalizationMapping { mapping_ref, .. } => {
                out.push(mapping_ref.clone());
                assert(texts(out@) =~= seq![mapping_ref@]);
            },
            _ => {
                assert(texts(out@) =~= Seq::<Seq<char>>::empty());
            },
        }
        out
    }
}

/// Where a unit stands in a formatted value.
#[derive(Clone, Copy, Debug, PartialEq, Eq, Structural)]
pub enum UnitPosition {
    /// Behind the value, after a space.
    Suffix,
    /// Nowhere (wire name `none`).
    Hidden,
}

/// Display formatting rules.
#[derive(Debug, PartialEq)]
pub struct FormattingRules {
    pub unit_position: UnitPosition,
    /// Digits behind the point in a formatted number (display only).
    pub decimal_digits: u8,
    /// The language that serves when the requested one has no label.
    pub fallback_lang: String,
}

impl Default for FormattingRules {
    fn default() -> (r: FormattingRules)
        ensures
            r.unit_position == UnitPosition::Suffix,
            r.decimal_digits == 1,
            r.fallback_lang@ == "en"@,
    {
        FormattingRules {
            unit_position: UnitPosition::Suffix,
            decimal_digits: 1,
            fallback_lang: "en".to_string(),
        }
    }
}

/// One presented element with its labels by language tag.
#[derive(Debug, PartialEq)]
pub struct PresentationElement {
    pub element: String,
    pub labels: StrMap<String>,
}

/// One section of the presentation.
#[derive(Debug, PartialEq)]
pub struct PresentationSection {
    pub id: String,
    pub labels: StrMap<String>,
    pub elements: Vec<PresentationElement>,
}

/// How a consumer sees the profile: sections in display order.
#[derive(Debug, PartialEq)]
pub struct PresentationBinding {
    pub template_ref: String,
    pub formatting: FormattingRules,
    pub sections: Vec<PresentationSection>,
}

/// The lens manifest: core profile + projection bindings.
#[derive(Debug, PartialEq)]
pub struct LensManifest {
    /// Manifest version — pinned to a registered version of the profile item.
    pub version: String,
    /// The core profile.
    pub profile: ProfileManifest,
    /// One binding per required data point.
    pub bindings: Vec<DataPointBinding>,
    /// Derived values, in manifest order.
    pub transforms: Vec<TransformBinding>,
    /// The consumer presentation, where the lens has one.
    pub presentation: Option<PresentationBinding>,
}

/// The required elements of a lens, as canonical texts, in order.
pub open spec fn elements(l: LensManifest) -> Seq<Seq<char>> {
    l.profile.data_points@.map_values(|p| data_point_text(p))
}

/// `e` is a required element.
pub open spec fn requires_element(l: LensManifest, e: Seq<char>) -> bool {
    exists|i: int| 0 <= i < l.profile.data_points@.len() && data_point_text(
        #[trigger] l.profile.data_points@[i],
    ) == e
}

/// Some binding before `n` binds the element.
pub open spec fn bound_before(bindings: Seq<DataPointBinding>, n: int, e: Seq<char>) -> bool {
    exists|i: int| 0 <= i < n && (#[trigger] bindings[i]).element@ == e
}

/// The position of the first binding of an element, from `i` on.
pub open spec fn binding_index(bindings: Seq<DataPointBinding>, e: Seq<char>, i: int) -> Option<int>
    decreases bindings.len() - i,
{
    if i < 0 || i >= bindings.len() {
        None
    } else if bindings[i].element@ == e {
        Some(i)
    } else {
        binding_index(bindings, e, i + 1)
    }
}

/// The first binding of an element.
pub open spec fn binding_of(l: LensManifest, e: Seq<char>) -> Option<DataPointBinding> {
    match binding_index(l.bindings@, e, 0) {
        Some(i) => Some(l.bindings@[i]),
        None => None,
    }
}

/// The first fault among the bindings from `i` on: an element that is no data
/// point, an element bound twice, an empty source path.
pub open spec fn bindings_fault(l: LensManifest, i: int) -> Option<Seq<char>>
    decreases l.bindings@.len() - i,
{
    if i < 0 || i >= l.bindings@.len() {
        None
    } else {
        let b = l.bindings@[i];
        if !requires_element(l, b.element@) {
            Some(
                "binding element `"@ + b.element@ + "` is not a data point of profile "@
                    + l.profile.id@,
            )
        } else if bound_before(l.bindings@, i, b.element@) {
            Some(
                "element `"@ + b.element@ + "` is bound more than once in profile "@
                    + l.profile.id@,
            )
        } else if is_blank(b.source@) {
            Some("binding for `"@ + b.element@ + "` has an empty source fact path"@)
        } else {
            bindings_fault(l, i + 1)
        }
    }
}

/// The first data point from `i` on without a binding.
pub open spec fn unbound_fault(l: LensManifest, i: int) -> Option<Seq<char>>
    decreases l.profile.data_points@.len() - i,
{
    if i < 0 || i >= l.profile.data_points@.len() {
        None
    } else {
        let e = data_point_text(l.profile.data_points@[i]);
        if !bound_before(l.bindings@, l.bindings@.len() as int, e) {
            Some("data point `"@ + e + "` of profile "@ + l.profile.id@ + " has no binding"@)
        } else {
            unbound_fault(l, i + 1)
        }
    }
}

/// The first band from `i` on without a label.
pub open spec fn bands_fault(id: Seq<char>, bands: Seq<ClassBand>, i: int) -> Option<Seq<char>>
    decreases bands.len() - i,
{
    if i < 0 || i >= bands.len() {
        None
    } else if is_blank(bands[i].label@) {
        Some("classification `"@ + id + "` has an empty band label"@)
    } else {
        bands_fault(id, bands, i + 1)
    }
}

/// What is wrong with the parts that only this kind of transform has.
pub open spec fn kind_fault(l: LensManifest, t: TransformBinding) -> Option<Seq<char>> {
    match t {
        TransformBinding::UnitConversion { .. } => None,
        TransformBinding::Classification { id, bands, .. } => if bands@.len() == 0 {
            Some("classification `"@ + id@ + "` has no bands"@)
        } else {
            bands_fault(id@, bands@, 0)
        },
        TransformBinding::Primmel { id, package_ref, rule_id, .. } => if is_blank(package_ref@) {
            Some("primmel transform `"@ + id@ + "` names no package"@)
        } else if is_blank(rule_id@) {
            Some("primmel transform `"@ + id@ + "` names no rule"@)
        } else {
            None
        },
        TransformBinding::Aggregation {
            id,
            operation,
            input_element,
            weight_element,
            method_citation,
        } => if is_blank(method_citation@) {
            Some("aggregation `"@ + id@ + "` cites no method standard"@)
        } else if !requires_element(l, input_element@) {
            Some(
                "aggregation `"@ + id@ + "` input element `"@ + input_element@
                    + "` is not a data point of profile "@ + l.profile.id@,
            )
        } else {
            match weight_element {
                Some(w) => if !requires_element(l, w@) {
                    Some(
                        "aggregation `"@ + id@ + "` weight element `"@ + w@
                            + "` is not a data point of profile "@ + l.profile.id@,
                    )
                } else {
                    None
                },
                None => if operation == AggregationOperation::WeightedAverage {
                    Some("aggregation `"@ + id@ + "` averages without a weight element"@)
                } else {
                    None
                },
            }
        },
        TransformBinding::LocalizationMapping { id, mapping_ref, .. } => if is_blank(mapping_ref@) {
            Some("localization mapping `"@ + id@ + "` names no mapping item"@)
        } else {
            None
        },
    }
}

/// Some transform before `n` has the id.
pub open spec fn transform_before(l: LensManifest, n: int, id: Seq<char>) -> bool {
    exists|i: int| 0 <= i < n && transform_id(#[trigger] l.transforms@[i]) == id
}

/// The first fault among the transforms from `i` on.
pub open spec fn transforms_fault(l: LensManifest, i: int) -> Option<Seq<char>>
    decreases l.transforms@.len() - i,
{
    if i < 0 || i >= l.transforms@.len() {
        None
    } else {
        let t = l.transforms@[i];
        if transform_before(l, i, transform_id(t)) {
            Some("duplicate transform id `"@ + transform_id(t) + "`"@)
        } else if is_blank(transform_source(t)) {
            Some("transform `"@ + transform_id(t) + "` has an empty source fact path"@)
        } else {
            match kind_fault(l, t) {
                Some(f) => Some(f),
                None => transforms_fault(l, i + 1),
            }
        }
    }
}

/// The first presented element of a section, from `i` on, that is no data
/// point.
pub open spec fn section_fault(l: LensManifest, s: PresentationSection, i: int) -> Option<Seq<char>>
    decreases s.elements@.len() - i,
{
    if i < 0 || i >= s.elements@.len() {
        None
    } else if !requires_element(l, s.elements@[i].element@) {
        Some(
            "presentation section `"@ + s.id@ + "` presents `"@ + s.elements@[i].element@
                + "`, which is not a data point of profile "@ + l.profile.id@,
        )
    } else {
        section_fault(l, s, i + 1)
    }
}

/// The first fault among the sections from `i` on.
pub open spec fn sections_fault(l: LensManifest, s: Seq<PresentationSection>, i: int) -> Option<
    Seq<char>,
>
    decreases s.len() - i,
{
    if i < 0 || i >= s.len() {
        None
    } else {
        match section_fault(l, s[i], 0) {
            Some(f) => Some(f),
            None => sections_fault(l, s, i + 1),
        }
    }
}

/// What is wrong with the version pin and the presentation.
pub open spec fn tail_fault(l: LensManifest) -> Option<Seq<char>> {
    if is_blank(l.version@) {
        Some("profile "@ + l.profile.id@ + " manifest lacks a version pin"@)
    } else {
        match l.presentation {
            Some(p) => sections_fault(l, p.sections@, 0),
            None => None,
        }
    }
}

/// The first fault of a lens: the core rules, every required element bound
/// exactly once (no orphans, no extras), transform ids unique, every
/// transform well-formed, the version pinned, and nothing presented that is
/// not required.
pub open spec fn lens_fault(l: LensManifest) -> Option<Seq<char>> {
    match l.profile.refusal {
        Some(why) => Some(why@),
        None => match bindings_fault(l, 0) {
            Some(f) => Some(f),
            None => match unbound_fault(l, 0) {
                Some(f) => Some(f),
                None => match transforms_fault(l, 0) {
                    Some(f) => Some(f),
                    None => tail_fault(l),
                },
            },
        },
    }
}

impl LensManifest {
    /// Whether `e` is a required element.
    fn has_element(&self, e: &str) -> (r: bool)
        ensures
            r == requires_element(*self, e@),
    {
        let mut i: usize = 0;
        while i < self.profile.data_points.len()
            invariant
                i <= self.profile.data_points.len(),
                forall|j: int|
                    0 <= j < i ==> data_point_text(#[trigger] self.profile.data_points@[j]) != e@,
            decreases self.profile.data_points.len() - i,
        {
            let text: String = self.profile.data_points[i].text();
            if same(text.as_str(), e) {
                return true;
            }
            i = i + 1;
        }
        false
    }

    /// Whether one of the first `n` bindings binds the element.
    fn binds_before(&self, n: usize, e: &str) -> (r: bool)
        requires
            n <= self.bindings.len(),
        ensures
            r == bound_before(self.bindings@, n as int, e@),
    {
        let mut i: usize = 0;
        while i < n
            invariant
                i <= n <= self.bindings.len(),
                forall|j: int| 0 <= j < i ==> (#[trigger] self.bindings@[j]).element@ != e@,
            decreases n - i,
        {
            if same(self.bindings[i].element.as_str(), e) {
                return true;
            }
            i = i + 1;
        }
        false
    }

    /// The binding of an element.
    pub fn binding_for(&self, e: &str) -> (r: Option<&DataPointBinding>)
        ensures
            match r {
                Some(b) => binding_of(*self, e@) == Some(*b),
                None => binding_of(*self, e@) is None,
            },
    {
        let mut i: usize = 0;
        while i < self.bindings.len()
            invariant
                i <= self.bindings.len(),
                binding_index(self.bindings@, e@, 0) == binding_index(
                    self.bindings@,
                    e@,
                    i as int,
                ),
            decreases self.bindings.len() - i,
        {
            if same(self.bindings[i].element.as_str(), e) {
                return Some(&self.bindings[i]);
            }
            i = i + 1;
        }
        None
    }

    fn validate_bindings(&self) -> (r: Result<(), String>)
        ensures
            reports(r, bindings_fault(*self, 0)),
    {
        let mut i: usize = 0;
        while i < self.bindings.len()
            invariant
                i <= self.bindings.len(),
                bindings_fault(*self, 0) == bindings_fault(*self, i as int),
            decreases self.bindings.len() - i,
        {
            let b: &DataPointBinding = &self.bindings[i];
            if !self.has_element(b.element.as_str()) {
                let mut out: String = phrase(
                    "binding element `",
                    b.element.as_str(),
                    "` is not a data point of profile ",
                );
                out.append(self.profile.id.as_str());
                return Err(out);
            }
            if self.binds_before(i, b.element.as_str()) {
                let mut out: String = phrase(
                    "element `",
                    b.element.as_str(),
                    "` is bound more than once in profile ",
                );
                out.append(self.profile.id.as_str());
                return Err(out);
            }
            if blank(b.source.as_str()) {
                return Err(
                    phrase(
                        "binding for `",
                        b.element.as_str(),
                        "` has an empty source fact path",
                    ),
                );
            }
            i = i + 1;
        }
        Ok(())
    }

    fn validate_coverage(&self) -> (r: Result<(), String>)
        ensures
            reports(r, unbound_fault(*self, 0)),
    {
        let mut i: usize = 0;
        while i < self.profile.data_points.len()
            invariant
                i <= self.profile.data_points.len(),
                unbound_fault(*self, 0) == unbound_fault(*self, i as int),
            decreases self.profile.data_points.len() - i,
        {
            let e: String = self.profile.data_points[i].text();
            if !self.binds_before(self.bindings.len(), e.as_str()) {
                let mut out: String = phrase("data point `", e.as_str(), "` of profile ");
                out.append(self.profile.id.as_str());
                out.append(" has no binding");
                return Err(out);
            }
            i = i + 1;
        }
        Ok(())
    }

    fn names_before(&self, n: usize, id: &str) -> (r: bool)
        requires
            n <= self.transforms.len(),
        ensures
            r == transform_before(*self, n as int, id@),
    {
        let mut i: usize = 0;
        while i < n
            invariant
                i <= n <= self.transforms.len(),
                forall|j: int|
                    0 <= j < i ==> transform_id(#[trigger] self.transforms@[j]) != id@,
            decreases n - i,
        {
            if same(self.transforms[i].id(), id) {
                return true;
            }
            i = i + 1;
        }
        false
    }

    fn validate_kind(&self, t: &TransformBinding) -> (r: Result<(), String>)
        ensures
            reports(r, kind_fault(*self, *t)),
    {
        match t {
            TransformBinding::UnitConversion { .. } => Ok(()),
            TransformBinding::Classification { id, bands, .. } => {
                if bands.len() == 0 {
                    return Err(phrase("classification `", id.as_str(), "` has no bands"));
                }
                let mut i: usize = 0;
                while i < bands.len()
                    invariant
                        i <= bands.len(),
                        kind_fault(*self, *t) == bands_fault(id@, bands@, i as int),
                    decreases bands.len() - i,
                {
                    if blank(bands[i].label.as_str()) {
                        return Err(
                            phrase(
                                "classification `",
                                id.as_str(),
                                "` has an empty band label",
                            ),
                        );
                    }
                    i = i + 1;
                }
                Ok(())
            },
            TransformBinding::Primmel { id, package_ref, rule_id, .. } => {
                if blank(package_ref.as_str()) {
                    return Err(phrase("primmel transform `", id.as_str(), "` names no package"));
                }
                if blank(rule_id.as_str()) {
                    return Err(phrase("primmel transform `", id.as_str(), "` names no rule"));
                }
                Ok(())
            },
            TransformBinding::Aggregation {
                id,
                operation,
                input_element,
                weight_element,
                method_citation,
            } => {
                if blank(method_citation.as_str()) {
                    return Err(
                        phrase("aggregation `", id.as_str(), "` cites no method standard"),
                    );
                }
                if !self.has_element(input_element.as_str()) {
                    let mut out: String = phrase(
                        "aggregation `",
                        id.as_str(),
                        "` input element `",
                    );
                    out.append(input_element.as_str());
                    out.append("` is not a data point of profile ");
                    out.append(self.profile.id.as_str());
                    return Err(out);
                }
                match weight_element {
                    Some(w) => {
                        if !self.has_element(w.as_str()) {
                            let mut out: String = phrase(
                                "aggregation `",
                                id.as_str(),
                                "` weight element `",
                            );
                            out.append(w.as_str());
                            out.append("` is not a data point of profile ");
                            out.append(self.profile.id.as_str());
                            return Err(out);
                        }
                        Ok(())
                    },
                    None => {
                        if *operation == AggregationOperation::WeightedAverage {
                            return Err(
                                phrase(
                                    "aggregation `",
                                    id.as_str(),
                                    "` averages without a weight element",
                                ),
                            );
                        }
                        Ok(())
                    },
                }
            },
            TransformBinding::LocalizationMapping { id, mapping_ref, .. } => {
                if blank(mapping_ref.as_str()) {
                    return Err(
                        phrase(
                            "localization mapping `",
                            id.as_str(),
                            "` names no mapping item",
                        ),
                    );
                }
                Ok(())
            },
        }
    }

    fn validate_transforms(&self) -> (r: Result<(), String>)
        ensures
            reports(r, transforms_fault(*self, 0)),
    {
        let mut i: usize = 0;
        while i < self.transforms.len()
            invariant
                i <= self.transforms.len(),
                transforms_fault(*self, 0) == transforms_fault(*self, i as int),
            decreases self.transforms.len() - i,
        {
            let t: &TransformBinding = &self.transforms[i];
            if self.names_before(i, t.id()) {
                return Err(phrase("duplicate transform id `", t.id(), "`"));
            }
            if blank(t.source()) {
                return Err(phrase("transform `", t.id(), "` has an empty source fact path"));
            }
            match self.validate_kind(t) {
                Ok(()) => {},
                Err(e) => return Err(e),
            }
            i = i + 1;
        }
        Ok(())
    }

    fn validate_section(&self, s: &PresentationSection) -> (r: Result<(), String>)
        ensures
            reports(r, section_fault(*self, *s, 0)),
    {
        let mut i: usize = 0;
        while i < s.elements.len()
            invariant
                i <= s.elements.len(),
                section_fault(*self, *s, 0) == section_fault(*self, *s, i as int),
            decreases s.elements.len() - i,
        {
            if !self.has_element(s.elements[i].element.as_str()) {
                let mut out: String = phrase(
                    "presentation section `",
                    s.id.as_str(),
                    "` presents `",
                );
                out.append(s.elements[i].element.as_str());
                out.append("`, which is not a data point of profile ");
                out.append(self.profile.id.as_str());
                return Err(out);
            }
            i = i + 1;
        }
        Ok(())
    }

    fn validate_tail(&self) -> (r: Result<(), String>)
        ensures
            reports(r, tail_fault(*self)),
    {
        if blank(self.version.as_str()) {
            return Err(
                phrase("profile ", self.profile.id.as_str(), " manifest lacks a version pin"),
            );
        }
        match &self.presentation {
            Some(p) => {
                let mut i: usize = 0;
                while i < p.sections.len()
                    invariant
                        i <= p.sections.len(),
                        tail_fault(*self) == sections_fault(*self, p.sections@, i as int),
                    decreases p.sections.len() - i,
                {
                    match self.validate_section(&p.sections[i]) {
                        Ok(()) => {},
                        Err(e) => return Err(e),
                    }
                    i = i + 1;
                }
                Ok(())
            },
            None => Ok(()),
        }
    }

    /// Structural validation.
    pub fn validate(&self) -> (r: Result<(), String>)
        ensures
            reports(r, lens_fault(*self)),
    {
        match &self.profile.refusal {
            Some(why) => return Err(why.clone()),
            None => {},
        }
        match self.validate_bindings() {
            Ok(()) => {},
            Err(e) => return Err(e),
        }
        match self.validate_coverage() {
            Ok(()) => {},
            Err(e) => return Err(e),
        }
        match self.validate_transforms() {
            Ok(()) => {},
            Err(e) => return Err(e),
        }
        self.validate_tail()
    }

    /// The lens identity.
    pub fn id(&self) -> (r: &str)
        ensures
            r@ == self.profile.id@,
    {
        self.profile.id.as_str()
    }
}

/// Where some binding binds an element, the first one that does is found.
proof fn binding_index_found(bindings: Seq<DataPointBinding>, e: Seq<char>, i: int)
    requires
        0 <= i,
        exists|j: int| i <= j < bindings.len() && (#[trigger] bindings[j]).element@ == e,
    ensures
        binding_index(bindings, e, i) is Some,
        i <= binding_index(bindings, e, i)->0 < bindings.len(),
        bindings[binding_index(bindings, e, i)->0].element@ == e,
    decreases bindings.len() - i,
{
    if bindings[i].element@ != e {
        binding_index_found(bindings, e, i + 1);
    }
}

proof fn unbound_fault_free(l: LensManifest, i: int, k: int)
    requires
        0 <= i <= k < l.profile.data_points@.len(),
        unbound_fault(l, i) is None,
    ensures
        bound_before(
            l.bindings@,
            l.bindings@.len() as int,
            data_point_text(l.profile.data_points@[k]),
        ),
    decreases k - i,
{
    if i < k {
        unbound_fault_free(l, i + 1, k);
    }
}

proof fn bindings_fault_free(l: LensManifest, i: int, k: int)
    requires
        0 <= i <= k < l.bindings@.len(),
        bindings_fault(l, i) is None,
    ensures
        requires_element(l, l.bindings@[k].element@),
        !bound_before(l.bindings@, k, l.bindings@[k].element@),
        !is_blank(l.bindings@[k].source@),
    decreases k - i,
{
    if i < k {
        bindings_fault_free(l, i + 1, k);
    }
}

/// A validated lens binds every required element.
pub proof fn validated_lens_binds_every_element(l: LensManifest, e: Seq<char>)
    requires
        lens_fault(l) is None,
        requires_element(l, e),
    ensures
        binding_of(l, e) is Some,
        binding_of(l, e)->0.element@ == e,
{
    let k = choose|k: int|
        0 <= k < l.profile.data_points@.len() && data_point_text(
            #[trigger] l.profile.data_points@[k],
        ) == e;
    unbound_fault_free(l, 0, k);
    binding_index_found(l.bindings@, e, 0);
}

/// A validated lens binds nothing else, and nothing twice: every binding is
/// for a required element, and it is the only one for that element.
pub proof fn validated_lens_binds_once(l: LensManifest, i: int, j: int)
    requires
        lens_fault(l) is None,
        0 <= i < j < l.bindings@.len(),
    ensures
        requires_element(l, l.bindings@[i].element@),
        requires_element(l, l.bindings@[j].element@),
        l.bindings@[i].element@ != l.bindings@[j].element@,
{
    bindings_fault_free(l, 0, i);
    bindings_fault_free(l, 0, j);
}

/// No fault in a transform of a lens without fault.
pub proof fn transforms_fault_free(l: LensManifest, i: int, k: int)
    requires
        0 <= i <= k < l.transforms@.len(),
        transforms_fault(l, i) is None,
    ensures
        !transform_before(l, k, transform_id(l.transforms@[k])),
        !is_blank(transform_source(l.transforms@[k])),
        kind_fault(l, l.transforms@[k]) is None,
    decreases k - i,
{
    if i < k {
        transforms_fault_free(l, i + 1, k);
    }
}

/// The transforms of a validated lens have ids of their own.
pub proof fn validated_lens_transform_ids_differ(l: LensManifest, i: int, j: int)
    requires
        lens_fault(l) is None,
        0 <= i < j < l.transforms@.len(),
    ensures
        transform_id(l.transforms@[i]) != transform_id(l.transforms@[j]),
{
    transforms_fault_free(l, 0, j);
}

proof fn sections_fault_free(l: LensManifest, s: Seq<PresentationSection>, i: int, k: int)
    requires
        0 <= i <= k < s.len(),
        sections_fault(l, s, i) is None,
    ensures
        section_fault(l, s[k], 0) is None,
    decreases k - i,
{
    if i < k {
        sections_fault_free(l, s, i + 1, k);
    }
}

proof fn section_fault_free(l: LensManifest, s: PresentationSection, i: int, k: int)
    requires
        0 <= i <= k < s.elements@.len(),
        section_fault(l, s, i) is None,
    ensures
        requires_element(l, s.elements@[k].element@),
    decreases k - i,
{
    if i < k {
        section_fault_free(l, s, i + 1, k);
    }
}

/// A validated lens presents required elements only.
pub proof fn validated_lens_presents_required_elements(l: LensManifest, s: int, k: int)
    requires
        lens_fault(l) is None,
        l.presentation is Some,
        0 <= s < l.presentation->0.sections@.len(),
        0 <= k < l.presentation->0.sections@[s].elements@.len(),
    ensures
        requires_element(l, l.presentation->0.sections@[s].elements@[k].element@),
{
    let sections = l.presentation->0.sections@;
    sections_fault_free(l, sections, 0, s);
    section_fault_free(l, sections[s], 0, k);
}

/// What it takes for a lens to be valid: the core rules accept the profile,
/// the bindings bind the data points one for one, the transforms are
/// well-formed with ids of their own, the version is pinned, and every
/// presented element is required.
pub open spec fn well_formed(l: LensManifest) -> bool {
    let points = l.profile.data_points@;
    let bindings = l.bindings@;
    &&& l.profile.refusal is None
    &&& bindings.len() == points.len()
    &&& forall|i: int|
        0 <= i < points.len() ==> (#[trigger] bindings[i]).element@ == data_point_text(points[i])
            && !is_blank(bindings[i].source@)
    &&& forall|i: int, j: int|
        0 <= i < j < bindings.len() ==> (#[trigger] bindings[i]).element@ != (
        #[trigger] bindings[j]).element@
    &&& forall|i: int|
        0 <= i < l.transforms@.len() ==> !is_blank(transform_source(#[trigger] l.transforms@[i]))
            && kind_fault(l, l.transforms@[i]) is None
    &&& forall|i: int, j: int|
        0 <= i < j < l.transforms@.len() ==> transform_id(#[trigger] l.transforms@[i])
            != transform_id(#[trigger] l.transforms@[j])
    &&& !is_blank(l.version@)
    &&& l.presentation is Some ==> forall|i: int, k: int|
        0 <= i < l.presentation->0.sections@.len() && 0 <= k
            < l.presentation->0.sections@[i].elements@.len() ==> requires_element(
            l,
            (#[trigger] l.presentation->0.sections@[i].elements@[k]).element@,
        )
}

/// A well-formed lens validates.
pub proof fn well_formed_lens_validates(l: LensManifest)
    requires
        well_formed(l),
    ensures
        lens_fault(l) is None,
{
    bindings_fault_none(l, 0);
    unbound_fault_none(l, 0);
    transforms_fault_none(l, 0);
    match l.presentation {
        Some(p) => sections_fault_none(l, p.sections@, 0),
        None => {},
    }
}

proof fn bindings_fault_none(l: LensManifest, i: int)
    requires
        well_formed(l),
        0 <= i <= l.bindings@.len(),
    ensures
        bindings_fault(l, i) is None,
    decreases l.bindings@.len() - i,
{
    if i < l.bindings@.len() {
        let b = l.bindings@[i];
        assert(data_point_text(l.profile.data_points@[i]) == b.element@);
        bindings_fault_none(l, i + 1);
    }
}

proof fn unbound_fault_none(l: LensManifest, i: int)
    requires
        well_formed(l),
        0 <= i <= l.profile.data_points@.len(),
    ensures
        unbound_fault(l, i) is None,
    decreases l.profile.data_points@.len() - i,
{
    if i < l.profile.data_points@.len() {
        assert(l.bindings@[i].element@ == data_point_text(l.profile.data_points@[i]));
        unbound_fault_none(l, i + 1);
    }
}

proof fn transforms_fault_none(l: LensManifest, i: int)
    requires
        well_formed(l),
        0 <= i <= l.transforms@.len(),
    ensures
        transforms_fault(l, i) is None,
    decreases l.transforms@.len() - i,
{
    if i < l.transforms@.len() {
        let t = l.transforms@[i];
        transforms_fault_none(l, i + 1);
    }
}

proof fn sections_fault_none(l: LensManifest, s: Seq<PresentationSection>, i: int)
    requires
        0 <= i <= s.len(),
        forall|i: int, k: int|
            0 <= i < s.len() && 0 <= k < s[i].elements@.len() ==> requires_element(
                l,
                (#[trigger] s[i].elements@[k]).element@,
            ),
    ensures
        sections_fault(l, s, i) is None,
    decreases s.len() - i,
{
    if i < s.len() {
        section_fault_none(l, s[i], 0);
        sections_fault_none(l, s, i + 1);
    }
}

proof fn section_fault_none(l: LensManifest, s: PresentationSection, k: int)
    requires
        0 <= k <= s.elements@.len(),
        forall|k: int|
            0 <= k < s.elements@.len() ==> requires_element(
                l,
                (#[trigger] s.elements@[k]).element@,
            ),
    ensures
        section_fault(l, s, k) is None,
    decreases s.elements@.len() - k,
{
    if k < s.elements@.len() {
        assert(requires_element(l, s.elements@[k].element@));
        section_fault_none(l, s, k + 1);
    }
}

/// The manifest slot of a registry item that is a profile item, or why there
/// is none.
pub open spec fn item_manifest(item: JsonView) -> Result<JsonView, Seq<char>> {
    let id = or_unknown(member_str(item, "identifier"@));
    let class = member_str(item, "item_class"@);
    if class is Some && class->0 != "profile"@ {
        Err("item `"@ + id + "` is not a profile item (class `"@ + class->0 + "`)"@)
    } else {
        match member_view(item, "manifest"@) {
            Some(JsonView::Obj(m)) => Ok(JsonView::Obj(m)),
            _ => Err("profile item `"@ + id + "` carries no manifest"@),
        }
    }
}

/// The valid lens that a registry item's manifest was read as, or why there
/// is none: `read` is the outcome of reading the manifest of `item`.
pub open spec fn accepted_lens(item: JsonView, read: Result<LensManifest, String>) -> Result<
    LensManifest,
    Seq<char>,
> {
    match item_manifest(item) {
        Err(e) => Err(e),
        Ok(_) => match read {
            Err(why) => Err("lens manifest does not parse: "@ + why@),
            Ok(lens) => match lens_fault(lens) {
                Some(f) => Err(f),
                None => Ok(lens),
            },
        },
    }
}

impl LensManifest {
    /// The manifest slot of a registry item: present, an object, and of a
    /// profile item.
    pub fn manifest_of(item: &Json) -> (r: Result<&Json, String>)
        ensures
            match r {
                Ok(m) => item_manifest(item@) == Ok::<JsonView, Seq<char>>(m@),
                Err(e) => item_manifest(item@) == Err::<JsonView, Seq<char>>(e@),
            },
    {
        let id: &str = match item.get_str("identifier") {
            Some(s) => s,
            None => "?",
        };
        match item.get_str("item_class") {
            Some(class) => {
                if !same(class, "profile") {
                    let mut out: String = phrase("item `", id, "` is not a profile item (class `");
                    out.append(class);
                    out.append("`)");
                    return Err(out);
                }
            },
            None => {},
        }
        match item.get("manifest") {
            Some(m) => match m.as_object() {
                Some(_) => Ok(m),
                None => Err(phrase("profile item `", id, "` carries no manifest")),
            },
            None => Err(phrase("profile item `", id, "` carries no manifest")),
        }
    }

    /// Accept the lens that a registry item's manifest was read as:
    /// `read` is the outcome of reading the manifest of `item`.
    pub fn from_item(item: &Json, read: Result<LensManifest, String>) -> (r: Result<
        LensManifest,
        String,
    >)
        ensures
            match r {
                Ok(lens) => accepted_lens(item@, read) == Ok::<LensManifest, Seq<char>>(lens),
                Err(e) => accepted_lens(item@, read) == Err::<LensManifest, Seq<char>>(e@),
            },
    {
        match LensManifest::manifest_of(item) {
            Err(e) => return Err(e),
            Ok(_) => {},
        }
        match read {
            Err(why) => {
                let mut out: String = "lens manifest does not parse: ".to_string();
                out.append(why.as_str());
                Err(out)
            },
            Ok(lens) => match lens.validate() {
                Ok(()) => Ok(lens),
                Err(e) => Err(e),
            },
        }
    }

    /// The body that registers this lens as a profile item; `manifest` is the
    /// lens as a document.
    pub fn registration_body(
        &self,
        register_id: &str,
        definition: &str,
        manifest: Json,
    ) -> (r: JsonObject)
        ensures
            r@ == map![
                "register_id"@ => JsonView::Str(register_id@),
                "item_id"@ => JsonView::Str(self.profile.id@),
                "class"@ => JsonView::Str("profile"@),
                "definition"@ => JsonView::Str(definition@),
                "version"@ => JsonView::Str(self.version@),
                "effective_from"@ => JsonView::Str(instant_text(self.profile.effective.from)),
                "manifest"@ => manifest@,
            ],
    {
        let mut m: JsonObject = JsonObject::new();
        m.put("register_id", register_id);
        m.put("item_id", self.profile.id.as_str());
        m.put("class", "profile");
        m.put("definition", definition);
        m.put("version", self.version.as_str());
        m.put("effective_from", self.profile.effective.from.to_text().as_str());
        m.insert("manifest", manifest);
        m
    }
}

/// The required elements are the data points, by their texts and in their
/// order.
pub proof fn elements_are_the_data_points(l: LensManifest, i: int)
    requires
        0 <= i < l.profile.data_points@.len(),
    ensures
        elements(l).len() == l.profile.data_points@.len(),
        elements(l)[i] == data_point_text(l.profile.data_points@[i]),
        requires_element(l, elements(l)[i]),
{
    let p = l.profile.data_points@[i];
}

/// The binding of an element is the first one that names it, and there is one
/// exactly where some binding does.
pub proof fn the_binding_is_the_first_for_its_element(l: LensManifest, e: Seq<char>)
    ensures
        match binding_of(l, e) {
            Some(b) => exists|k: int|
                0 <= k < l.bindings@.len() && #[trigger] l.bindings@[k] == b && b.element@ == e
                    && forall|j: int| 0 <= j < k ==> (#[trigger] l.bindings@[j]).element@ != e,
            None => forall|j: int|
                0 <= j < l.bindings@.len() ==> (#[trigger] l.bindings@[j]).element@ != e,
        },
{
    first_binding(l.bindings@, e, 0);
    if binding_of(l, e) is Some {
        assert(l.bindings@[binding_index(l.bindings@, e, 0)->0] == binding_of(l, e)->0);
    }
}

proof fn first_binding(bindings: Seq<DataPointBinding>, e: Seq<char>, i: int)
    requires
        0 <= i <= bindings.len(),
    ensures
        match binding_index(bindings, e, i) {
            Some(k) => i <= k < bindings.len() && bindings[k].element@ == e && forall|j: int|
                i <= j < k ==> (#[trigger] bindings[j]).element@ != e,
            None => forall|j: int| i <= j < bindings.len() ==> (#[trigger] bindings[j]).element@ != e,
        },
    decreases bindings.len() - i,
{
    if i < bindings.len() && bindings[i].element@ != e {
        first_binding(bindings, e, i + 1);
    }
}

/// What a validated lens holds, beside its bindings: the core rules accept
/// its profile, its version is pinned, every binding and every transform
/// reads a path, a classification has bands and every band a label, a rule
/// names its package and itself, a roll-up cites its method, rolls up
/// required elements and weighs an average, and a mapping names its item.
pub proof fn validated_lens_is_sound(l: LensManifest)
    requires
        lens_fault(l) is None,
    ensures
        l.profile.refusal is None,
        !is_blank(l.version@),
        forall|k: int|
            0 <= k < l.bindings@.len() ==> !is_blank((#[trigger] l.bindings@[k]).source@),
        forall|k: int|
            0 <= k < l.transforms@.len() ==> !is_blank(transform_source(#[trigger] l.transforms@[k])),
        forall|k: int|
            0 <= k < l.transforms@.len() ==> (match #[trigger] l.transforms@[k] {
                TransformBinding::UnitConversion { .. } => true,
                TransformBinding::Classification { bands, .. } => bands@.len() > 0 && forall|
                    j: int,
                |
                    0 <= j < bands@.len() ==> !is_blank((#[trigger] bands@[j]).label@),
                TransformBinding::Primmel { package_ref, rule_id, .. } => !is_blank(package_ref@)
                    && !is_blank(rule_id@),
                TransformBinding::Aggregation {
                    operation,
                    input_element,
                    weight_element,
                    method_citation,
                    ..
                } => !is_blank(method_citation@) && requires_element(l, input_element@) && (
                operation == AggregationOperation::WeightedAverage ==> weight_element is Some) && (
                weight_element is Some ==> requires_element(l, weight_element->0@)),
                TransformBinding::LocalizationMapping { mapping_ref, .. } => !is_blank(
                    mapping_ref@,
                ),
            }),
{
    assert forall|k: int| 0 <= k < l.bindings@.len() implies !is_blank(
        (#[trigger] l.bindings@[k]).source@,
    ) by {
        bindings_fault_free(l, 0, k);
    }
    assert forall|k: int| 0 <= k < l.transforms@.len() implies !is_blank(
        transform_source(#[trigger] l.transforms@[k]),
    ) && kind_fault(l, l.transforms@[k]) is None by {
        transforms_fault_free(l, 0, k);
    }
    assert forall|k: int|
        0 <= k < l.transforms@.len()
            && #[trigger] l.transforms@[k] is Classification implies forall|j: int|
        0 <= j < l.transforms@[k]->bands@.len() ==> !is_blank(
            (#[trigger] l.transforms@[k]->bands@[j]).label@,
        ) by {
        transforms_fault_free(l, 0, k);
        match l.transforms@[k] {
            TransformBinding::Classification { id, bands, .. } => {
                assert forall|j: int| 0 <= j < bands@.len() implies !is_blank(
                    (#[trigger] bands@[j]).label@,
                ) by {
                    bands_are_labelled(id@, bands@, 0, j);
                }
            },
            _ => {},
        }
    }
}

proof fn bands_are_labelled(id: Seq<char>, bands: Seq<ClassBand>, i: int, k: int)
    requires
        0 <= i <= k < bands.len(),
        bands_fault(id, bands, i) is None,
    ensures
        !is_blank(bands[k].label@),
    decreases k - i,
{
    if i < k {
        bands_are_labelled(id, bands, i + 1, k);
    }
}

/// Every kind of transform is known by its id and reads its source: a fact
/// path; a rule that of its first input, a roll-up its input element.
pub proof fn transforms_are_known_by_id_and_source(t: TransformBinding)
    ensures
        match t {
            TransformBinding::UnitConversion { id, source, .. } => transform_id(t) == id@
                && transform_source(t) == source@,
            TransformBinding::Classification { id, source, .. } => transform_id(t) == id@
                && transform_source(t) == source@,
            TransformBinding::LocalizationMapping { id, source, .. } => transform_id(t) == id@
                && transform_source(t) == source@,
            TransformBinding::Aggregation { id, input_element, .. } => transform_id(t) == id@
                && transform_source(t) == input_element@,
            TransformBinding::Primmel { id, inputs, .. } => transform_id(t) == id@ && (
            inputs.keys().len() > 0 ==> transform_source(t) == inputs@[inputs.keys()[0]]@) && (
            inputs.keys().len() == 0 ==> transform_source(t).len() == 0),
        },
{
}

/// What a profile item carries: a manifest that is an object, where the item
/// is of the profile class or states no class; and of that manifest the lens
/// that it was read as, where that lens is free of faults.
pub proof fn items_carry_the_lens_of_their_manifest(
    item: JsonView,
    read: Result<LensManifest, String>,
    l: LensManifest,
)
    ensures
        item_manifest(item) is Ok <==> {
            &&& member_str(item, "item_class"@) is None || member_str(item, "item_class"@) == Some(
                "profile"@,
            )
            &&& member_view(item, "manifest"@) is Some && member_view(item, "manifest"@)->0 is Obj
        },
        item_manifest(item) is Ok ==> member_view(item, "manifest"@) == Some(
            item_manifest(item)->Ok_0,
        ),
        accepted_lens(item, read) == Ok::<LensManifest, Seq<char>>(l) <==> item_manifest(item) is Ok
            && read == Ok::<LensManifest, String>(l) && lens_fault(l) is None,
{
}

/// What a transform needs of its own kind, and no more: a classification
/// bands that all have a label; a rule its package and itself; a roll-up a
/// cited method, required elements and for an average a weight; a mapping
/// its item; a conversion nothing.
pub proof fn sound_transforms_are_accepted(l: LensManifest, t: TransformBinding)
    ensures
        t is UnitConversion ==> kind_fault(l, t) is None,
        t is Classification ==> (kind_fault(l, t) is None <==> t->bands@.len() > 0 && forall|j: int|
            0 <= j < t->bands@.len() ==> !is_blank((#[trigger] t->bands@[j]).label@)),
        t is Primmel ==> (kind_fault(l, t) is None <==> !is_blank(t->package_ref@) && !is_blank(
            t->rule_id@,
        )),
        t is Aggregation ==> (kind_fault(l, t) is None <==> !is_blank(t->method_citation@)
            && requires_element(l, t->input_element@) && (t->weight_element is Some
            ==> requires_element(l, t->weight_element->0@)) && (t->operation
            == AggregationOperation::WeightedAverage ==> t->weight_element is Some)),
        t is LocalizationMapping ==> (kind_fault(l, t) is None <==> !is_blank(t->mapping_ref@)),
{
    match t {
        TransformBinding::Classification { id, bands, .. } => {
            if bands_fault(id@, bands@, 0) is None {
                assert forall|j: int| 0 <= j < bands@.len() implies !is_blank(
                    (#[trigger] bands@[j]).label@,
                ) by {
                    bands_are_labelled(id@, bands@, 0, j);
                }
            } else {
                some_band_is_unlabelled(id@, bands@, 0);
            }
        },
        _ => {},
    }
}

proof fn some_band_is_unlabelled(id: Seq<char>, bands: Seq<ClassBand>, i: int)
    requires
        0 <= i,
        bands_fault(id, bands, i) is Some,
    ensures
        exists|j: int| i <= j < bands.len() && is_blank((#[trigger] bands[j]).label@),
    decreases bands.len() - i,
{
    if !is_blank(bands[i].label@) {
        some_band_is_unlabelled(id, bands, i + 1);
    }
}

/// The bindings are free of faults exactly where each binds a data point of
/// the profile, none binds what an earlier one does, and each reads a path;
/// and every data point is bound exactly where some binding names it. The
/// order of the bindings does not matter.
pub proof fn sound_bindings_are_accepted(l: LensManifest)
    ensures
        bindings_fault(l, 0) is None <==> forall|i: int|
            0 <= i < l.bindings@.len() ==> #[trigger] sound_binding(l, i),
        unbound_fault(l, 0) is None <==> forall|i: int|
            0 <= i < l.profile.data_points@.len() ==> bound_before(
                l.bindings@,
                l.bindings@.len() as int,
                data_point_text(#[trigger] l.profile.data_points@[i]),
            ),
{
    bindings_are_accepted_from(l, 0);
    points_are_bound_from(l, 0);
}

/// The `i`-th binding can stand in the lens.
pub open spec fn sound_binding(l: LensManifest, i: int) -> bool {
    let b = l.bindings@[i];
    &&& requires_element(l, b.element@)
    &&& forall|j: int| 0 <= j < i ==> (#[trigger] l.bindings@[j]).element@ != b.element@
    &&& !is_blank(b.source@)
}

proof fn bindings_are_accepted_from(l: LensManifest, k: int)
    requires
        0 <= k,
    ensures
        bindings_fault(l, k) is None <==> forall|i: int|
            k <= i < l.bindings@.len() ==> #[trigger] sound_binding(l, i),
    decreases l.bindings@.len() - k,
{
    if k < l.bindings@.len() {
        bindings_are_accepted_from(l, k + 1);
        assert(sound_binding(l, k) <==> requires_element(l, l.bindings@[k].element@)
            && !bound_before(l.bindings@, k, l.bindings@[k].element@) && !is_blank(
            l.bindings@[k].source@,
        ));
        if sound_binding(l, k) && bindings_fault(l, k + 1) is None {
            assert forall|i: int| k <= i < l.bindings@.len() implies #[trigger] sound_binding(l, i) by {
            }
        }
    }
}

proof fn points_are_bound_from(l: LensManifest, k: int)
    requires
        0 <= k,
    ensures
        unbound_fault(l, k) is None <==> forall|i: int|
            k <= i < l.profile.data_points@.len() ==> bound_before(
                l.bindings@,
                l.bindings@.len() as int,
                data_point_text(#[trigger] l.profile.data_points@[i]),
            ),
    decreases l.profile.data_points@.len() - k,
{
    if k < l.profile.data_points@.len() {
        points_are_bound_from(l, k + 1);
        let p = l.profile.data_points@[k];
        if bound_before(l.bindings@, l.bindings@.len() as int, data_point_text(p))
            && unbound_fault(l, k + 1) is None {
            assert forall|i: int| k <= i < l.profile.data_points@.len() implies bound_before(
                l.bindings@,
                l.bindings@.len() as int,
                data_point_text(#[trigger] l.profile.data_points@[i]),
            ) by {
            }
        }
    }
}

/// The core rules speak first, then the bindings; and a lens without a
/// presentation that passes all the parts is accepted.
pub proof fn lenses_validate_in_order(l: LensManifest, why: String)
    ensures
        l.profile.refusal == Some(why) ==> lens_fault(l) == Some(why@),
        l.profile.refusal is None && bindings_fault(l, 0) is Some ==> lens_fault(l)
            == bindings_fault(l, 0),
        l.profile.refusal is None && bindings_fault(l, 0) is None && unbound_fault(l, 0) is None
            && transforms_fault(l, 0) is None && !is_blank(l.version@) && l.presentation is None
            ==> lens_fault(l) is None,
{
}

} // verus!
