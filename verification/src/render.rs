//! The consumer presentation render: a passport under a lens *as a consumer
//! sees it* — the profile's data points arranged per its presentation binding
//! (sections, labels in the requested language, formatted values with units,
//! links to the authoritative sources).
//!
//! The render states what it could not see: an element that the selection
//! gates block renders as an explicit gap item with its reason; the document
//! carries the same coverage report as the view; a label missing in the
//! requested language falls back, and the item says which language served.
//! Display rounding is explicit (the rules' `decimal_digits`, half-up), and
//! the exact value always travels in the item's `value` field.
use vstd::arithmetic::power::*;
use vstd::prelude::*;
use vstd::string::*;

use crate::decimal::{decimal_text, pow10, Decimal, EXP_LIMIT};
use crate::json::{json_view_cases, json_views, member_names_differ, member_str, member_view, Json, JsonObject, JsonView};
use crate::lens::{binding_of, elements, lens_fault, requires_element, validated_lens_binds_every_element, validated_lens_presents_required_elements, DataPointBinding, FormattingRules, LensManifest, PresentationElement, PresentationSection, UnitPosition};
use crate::model::{capability_rank, capability_text, head_at, trust_grade, trust_text, FactValue, Passport, SealedEvent};
use crate::primmel::{midpoints_resolve_by_mode, round_decimal, rounded, rounding_gives_a_result, rounding_is_close, rounding_keeps_short_numbers, RoundingMode};
use crate::project::{coverage_doc, coverage_json, fact_value_json, gathered, later_heads_are_not_seen, select, selection_of, shows_gap, shows_origin, sourced_doc, sourced_json, value_doc, view_doc, with_reason, HoldingsView, MissingReason, ProfileSource, Selection, ViewError};
use crate::strmap::StrMap;
use crate::text::{join, joined, phrase};
use crate::time::{instant_text, Timestamp};
use crate::twin::{fold, folded, later_events_are_not_seen, value_type, FactView, TwinState, TwinView, ValueView};

verus! {

/// The label for one language: requested language, else the fallback
/// language, else the first label in language-tag order, else the text itself
/// — together with the language tag that served (none on the last resort: an
/// id is not a translation).
pub open spec fn label_of(
    labels: StrMap<String>,
    lang: Seq<char>,
    fallback_lang: Seq<char>,
    fallback_text: Seq<char>,
) -> (Seq<char>, Option<Seq<char>>) {
    if labels@.contains_key(lang) {
        (labels@[lang]@, Some(lang))
    } else if labels@.contains_key(fallback_lang) {
        (labels@[fallback_lang]@, Some(fallback_lang))
    } else if labels.keys().len() > 0 {
        (labels@[labels.keys()[0]]@, Some(labels.keys()[0]))
    } else {
        (fallback_text, None)
    }
}

/// The label for one language, with the language tag that served it.
pub fn label_for(
    labels: &StrMap<String>,
    lang: &str,
    rules: &FormattingRules,
    fallback_text: &str,
) -> (r: (String, Option<String>))
    ensures
        (r.0@, crate::text::opt_text(r.1)) == label_of(
            *labels,
            lang@,
            rules.fallback_lang@,
            fallback_text@,
        ),
{
    match labels.get(lang) {
        Some(label) => return (label.clone(), Some(lang.to_string())),
        None => {},
    }
    match labels.get(rules.fallback_lang.as_str()) {
        Some(label) => return (label.clone(), Some(rules.fallback_lang.clone())),
        None => {},
    }
    if labels.len() > 0 {
        return (labels.value(0).clone(), Some(labels.key(0).clone()));
    }
    (fallback_text.to_string(), None)
}

/// A label is always a label of the binding where it has any, and the
/// language it names is the one it is written in.
pub proof fn served_label_is_a_label(
    labels: StrMap<String>,
    lang: Seq<char>,
    fallback_lang: Seq<char>,
    fallback_text: Seq<char>,
)
    ensures
        ({
            let (label, served) = label_of(labels, lang, fallback_lang, fallback_text);
            match served {
                Some(tag) => labels@.contains_key(tag) && label == labels@[tag]@,
                None => label == fallback_text && forall|k: Seq<char>| !labels@.contains_key(k),
            }
        }),
{
    labels.holds_its_keys();
    if labels.keys().len() > 0 {
        assert(labels.keys().contains(labels.keys()[0]));
    }
}

/// The display text of a value under the formatting rules: display-only
/// rounding, half-up; unit behind the value or nowhere.
pub open spec fn formatted_text(v: ValueView, unit: Option<Seq<char>>, rules: FormattingRules) -> Seq<
    char,
> {
    let body = match v {
        ValueView::Num(n) => match rounded(n, rules.decimal_digits as int, RoundingMode::HalfUp) {
            Ok(d) => decimal_text(d),
            Err(_) => decimal_text(n),
        },
        ValueView::Str(s) => s,
        ValueView::Bool(b) => if b {
            "true"@
        } else {
            "false"@
        },
        ValueView::List(l) => joined(l, ", "@),
    };
    match (unit, rules.unit_position) {
        (Some(u), UnitPosition::Suffix) => body + " "@ + u,
        _ => body,
    }
}

/// The display text of one fact value.
pub fn formatted(value: &FactValue, unit: &Option<String>, rules: &FormattingRules) -> (r: String)
    ensures
        r@ == formatted_text(value@, crate::text::opt_text(*unit), *rules),
{
    let mut body: String = match value {
        FactValue::Num(n) => match round_decimal(*n, rules.decimal_digits, RoundingMode::HalfUp) {
            Ok(d) => d.to_text(),
            Err(_) => n.to_text(),
        },
        FactValue::Str(s) => s.clone(),
        FactValue::Bool(b) => if *b {
            "true".to_string()
        } else {
            "false".to_string()
        },
        FactValue::List(l) => join(l, ", "),
    };
    match (unit, rules.unit_position) {
        (Some(u), UnitPosition::Suffix) => {
            body.append(" ");
            body.append(u.as_str());
            body
        },
        _ => body,
    }
}

/// The language tag that served a label.
pub open spec fn lang_doc(lang: Option<Seq<char>>) -> JsonView {
    match lang {
        Some(l) => JsonView::Str(l),
        None => JsonView::Null,
    }
}

/// The link every consumer can follow to the authoritative view.
pub open spec fn view_link(p: Passport, l: LensManifest, at: Timestamp) -> Seq<char> {
    "/view?passport="@ + p.passport_id@ + "&profile="@ + l.profile.id@ + "&at="@ + instant_text(at)
}

/// The head of an item: element, label, link.
pub open spec fn item_head(
    e: PresentationElement,
    p: Passport,
    l: LensManifest,
    lang: Seq<char>,
    rules: FormattingRules,
    at: Timestamp,
) -> Map<Seq<char>, JsonView> {
    let (label, served) = label_of(e.labels, lang, rules.fallback_lang@, e.element@);
    map![
        "element"@ => JsonView::Str(e.element@),
        "label"@ => JsonView::Str(label),
        "label_lang"@ => lang_doc(served),
        "source"@ => JsonView::Obj(map!["view"@ => JsonView::Str(view_link(p, l, at))]),
    ]
}

/// The fields of a present item.
pub open spec fn present_fields(
    head: Map<Seq<char>, JsonView>,
    b: DataPointBinding,
    f: FactView,
    rules: FormattingRules,
) -> Map<Seq<char>, JsonView> {
    let unit = crate::text::opt_text(b.declared_unit);
    let valued = head.insert("value"@, value_doc(f.value)).insert(
        "kind"@,
        JsonView::Str(value_type(f.value)),
    );
    let united = match unit {
        Some(u) => valued.insert("unit"@, JsonView::Str(u)),
        None => valued,
    };
    united.insert("formatted"@, JsonView::Str(formatted_text(f.value, unit, rules))).insert(
        "sourced"@,
        sourced_doc(f.origin),
    ).insert("trust"@, JsonView::Str(trust_text(f.origin.trust))).insert(
        "status"@,
        JsonView::Str("present"@),
    )
}

/// One presented item: the localized label, the exact value, the formatted
/// value, and the link to the authoritative source. A gated element renders
/// as an explicit gap.
pub open spec fn item_doc(
    e: PresentationElement,
    p: Passport,
    l: LensManifest,
    lang: Seq<char>,
    rules: FormattingRules,
    s: TwinView,
    at: Timestamp,
) -> JsonView {
    let head = item_head(e, p, l, lang, rules, at);
    let b = binding_of(l, e.element@)->0;
    match selection_of(p.capability, s, b) {
        Ok(f) => JsonView::Obj(present_fields(head, b, f, rules)),
        Err(reason) => JsonView::Obj(
            with_reason(head.insert("status"@, JsonView::Str("missing"@)), reason),
        ),
    }
}

fn put_lang(m: &mut JsonObject, lang: &Option<String>)
    ensures
        final(m)@ == old(m)@.insert("label_lang"@, lang_doc(crate::text::opt_text(*lang))),
{
    broadcast use json_view_cases;

    match lang {
        Some(l) => m.put("label_lang", l.as_str()),
        None => m.insert("label_lang", Json::Null),
    }
}

fn render_item(
    e: &PresentationElement,
    passport: &Passport,
    lens: &LensManifest,
    lang: &str,
    rules: &FormattingRules,
    state: &TwinState,
    at: Timestamp,
) -> (r: JsonObject)
    requires
        lens_fault(*lens) is None,
        requires_element(*lens, e.element@),
    ensures
        JsonView::Obj(r@) == item_doc(*e, *passport, *lens, lang@, *rules, state@, at),
{
    let (label, served): (String, Option<String>) = label_for(
        &e.labels,
        lang,
        rules,
        e.element.as_str(),
    );
    let mut m: JsonObject = JsonObject::new();
    m.put("element", e.element.as_str());
    m.put("label", label.as_str());
    put_lang(&mut m, &served);
    let mut link: String = phrase("/view?passport=", passport.passport_id.as_str(), "&profile=");
    link.append(lens.profile.id.as_str());
    link.append("&at=");
    link.append(at.to_text().as_str());
    let mut source: JsonObject = JsonObject::new();
    source.put("view", link.as_str());
    m.put_obj("source", source);
    proof {
        validated_lens_binds_every_element(*lens, e.element@);
    }
    match lens.binding_for(e.element.as_str()) {
        Some(b) => match select(passport, state, b) {
            Selection::Found(fact) => {
                m.insert("value", fact_value_json(&fact.value));
                m.put("kind", fact.value.kind_name());
                match &b.declared_unit {
                    Some(u) => m.put("unit", u.as_str()),
                    None => {},
                }
                m.put("formatted", formatted(&fact.value, &b.declared_unit, rules).as_str());
                m.put_obj("sourced", sourced_json(fact));
                m.put("trust", fact.origin.trust.text());
                m.put("status", "present");
            },
            Selection::Blocked(reason) => {
                m.put("status", "missing");
                reason.write(&mut m);
            },
        },
        None => {},
    }
    m
}

/// One section: its label and its items, in display order.
pub open spec fn section_doc(
    sec: PresentationSection,
    p: Passport,
    l: LensManifest,
    lang: Seq<char>,
    rules: FormattingRules,
    s: TwinView,
    at: Timestamp,
) -> JsonView {
    let (label, served) = label_of(sec.labels, lang, rules.fallback_lang@, sec.id@);
    JsonView::Obj(
        map![
            "id"@ => JsonView::Str(sec.id@),
            "label"@ => JsonView::Str(label),
            "label_lang"@ => lang_doc(served),
            "items"@ => JsonView::Arr(
                sec.elements@.map_values(
                    |e: PresentationElement| item_doc(e, p, l, lang, rules, s, at),
                ),
            ),
        ],
    )
}

fn render_section(
    sec: &PresentationSection,
    passport: &Passport,
    lens: &LensManifest,
    lang: &str,
    rules: &FormattingRules,
    state: &TwinState,
    at: Timestamp,
) -> (r: JsonObject)
    requires
        lens_fault(*lens) is None,
        forall|k: int|
            0 <= k < sec.elements@.len() ==> requires_element(
                *lens,
                (#[trigger] sec.elements@[k]).element@,
            ),
    ensures
        JsonView::Obj(r@) == section_doc(*sec, *passport, *lens, lang@, *rules, state@, at),
{
    let (label, served): (String, Option<String>) = label_for(
        &sec.labels,
        lang,
        rules,
        sec.id.as_str(),
    );
    let ghost docs = sec.elements@.map_values(
        |e: PresentationElement| item_doc(e, *passport, *lens, lang@, *rules, state@, at),
    );
    let mut items: Vec<Json> = Vec::new();
    let mut i: usize = 0;
    while i < sec.elements.len()
        invariant
            i <= sec.elements.len(),
            lens_fault(*lens) is None,
            forall|k: int|
                0 <= k < sec.elements@.len() ==> requires_element(
                    *lens,
                    (#[trigger] sec.elements@[k]).element@,
                ),
            docs == sec.elements@.map_values(
                |e: PresentationElement| item_doc(e, *passport, *lens, lang@, *rules, state@, at),
            ),
            json_views(items@) == docs.take(i as int),
        decreases sec.elements.len() - i,
    {
        broadcast use json_view_cases;

        let ghost done = items@;
        items.push(
            Json::Obj(render_item(&sec.elements[i], passport, lens, lang, rules, state, at)),
        );
        assert(json_views(items@) =~= json_views(done).push(docs[i as int]));
        assert(docs.take(i as int + 1) =~= docs.take(i as int).push(docs[i as int]));
        i = i + 1;
    }
    assert(docs.take(docs.len() as int) =~= docs);
    let mut block: JsonObject = JsonObject::new();
    block.put("id", sec.id.as_str());
    block.put("label", label.as_str());
    put_lang(&mut block, &served);
    block.put_arr("items", items);
    block
}

/// The wire name of a unit position.
pub open spec fn position_text(p: UnitPosition) -> Seq<char> {
    match p {
        UnitPosition::Suffix => "suffix"@,
        UnitPosition::Hidden => "none"@,
    }
}

/// The formatting rules as a document.
pub open spec fn rules_doc(rules: FormattingRules) -> JsonView {
    JsonView::Obj(
        map![
            "unit_position"@ => JsonView::Str(position_text(rules.unit_position)),
            "decimal_digits"@ => JsonView::Num(rules.decimal_digits as u64),
            "fallback_lang"@ => JsonView::Str(rules.fallback_lang@),
        ],
    )
}

/// The profile block of the metadata.
pub open spec fn render_profile_doc(l: LensManifest, source: ProfileSource) -> JsonView {
    let m = map![
        "id"@ => JsonView::Str(l.profile.id@),
        "version"@ => JsonView::Str(l.version@),
        "source"@ => JsonView::Str(source.mode@),
    ];
    JsonView::Obj(
        match source.detail {
            Some(d) => m.insert("source_detail"@, JsonView::Str(d@)),
            None => m,
        },
    )
}

/// The metadata of a render.
pub open spec fn metadata_doc(
    l: LensManifest,
    template_ref: Seq<char>,
    rules: FormattingRules,
    lang: Seq<char>,
    source: ProfileSource,
    at: Timestamp,
) -> JsonView {
    JsonView::Obj(
        map![
            "template_ref"@ => JsonView::Str(template_ref),
            "lang"@ => JsonView::Str(lang),
            "fallback_lang"@ => JsonView::Str(rules.fallback_lang@),
            "formatting_rules"@ => rules_doc(rules),
            "as_of"@ => JsonView::Str(instant_text(at)),
            "profile"@ => render_profile_doc(l, source),
        ],
    )
}

/// The passport block of a render.
pub open spec fn render_passport_doc(p: Passport, s: TwinView, at: Timestamp) -> JsonView {
    let m = map![
        "id"@ => JsonView::Str(p.passport_id@),
        "product_id"@ => JsonView::Str(p.product_id@),
        "capability"@ => JsonView::Str(capability_text(p.capability)),
        "status"@ => JsonView::Str(s.status),
    ];
    JsonView::Obj(
        match head_at(p.log@, at) {
            Some(h) => m.insert("log_head"@, JsonView::Str(h)),
            None => m,
        },
    )
}

/// The presentation of a passport under a lens that has one.
pub open spec fn render_doc(
    p: Passport,
    l: LensManifest,
    at: Timestamp,
    lang: Seq<char>,
    source: ProfileSource,
) -> JsonView {
    let s = folded(p.log@, at);
    let presentation = l.presentation->0;
    let rules = presentation.formatting;
    let n = l.profile.data_points@.len();
    let g = gathered(l, p.capability, s, n as int);
    JsonView::Obj(
        map![
            "service"@ => JsonView::Str("unidpp-projector"@),
            "render_metadata"@ => metadata_doc(
                l,
                presentation.template_ref@,
                rules,
                lang,
                source,
                at,
            ),
            "passport"@ => render_passport_doc(p, s, at),
            "sections"@ => JsonView::Arr(
                presentation.sections@.map_values(
                    |sec: PresentationSection| section_doc(sec, p, l, lang, rules, s, at),
                ),
            ),
            "coverage"@ => coverage_doc(n, g.selected.len(), g.missing),
            "trust"@ => JsonView::Obj(g.trust),
        ],
    )
}

fn metadata_json(
    lens: &LensManifest,
    template_ref: &str,
    rules: &FormattingRules,
    lang: &str,
    source: &ProfileSource,
    at: Timestamp,
) -> (r: JsonObject)
    ensures
        JsonView::Obj(r@) == metadata_doc(*lens, template_ref@, *rules, lang@, *source, at),
{
    let mut m: JsonObject = JsonObject::new();
    m.put("template_ref", template_ref);
    m.put("lang", lang);
    m.put("fallback_lang", rules.fallback_lang.as_str());
    let mut formatting: JsonObject = JsonObject::new();
    match rules.unit_position {
        UnitPosition::Suffix => formatting.put("unit_position", "suffix"),
        UnitPosition::Hidden => formatting.put("unit_position", "none"),
    }
    formatting.put_num("decimal_digits", rules.decimal_digits as u64);
    formatting.put("fallback_lang", rules.fallback_lang.as_str());
    m.put_obj("formatting_rules", formatting);
    m.put("as_of", at.to_text().as_str());
    let mut profile: JsonObject = JsonObject::new();
    profile.put("id", lens.profile.id.as_str());
    profile.put("version", lens.version.as_str());
    profile.put("source", source.mode.as_str());
    match &source.detail {
        Some(d) => profile.put("source_detail", d.as_str()),
        None => {},
    }
    m.put_obj("profile", profile);
    m
}

fn render_passport_json(passport: &Passport, state: &TwinState, at: Timestamp) -> (r: JsonObject)
    ensures
        JsonView::Obj(r@) == render_passport_doc(*passport, state@, at),
{
    let mut m: JsonObject = JsonObject::new();
    m.put("id", passport.passport_id.as_str());
    m.put("product_id", passport.product_id.as_str());
    m.put("capability", passport.capability.text());
    m.put("status", state.status.text());
    match passport.state_hash_at(at) {
        Some(h) => m.put("log_head", h.as_str()),
        None => {},
    }
    m
}

/// Coverage and trust of a render: the same selection as the view.
struct Coverage {
    present: usize,
    missing: Vec<Json>,
    trust: JsonObject,
}

fn cover(passport: &Passport, lens: &LensManifest, state: &TwinState) -> (r: Coverage)
    requires
        lens_fault(*lens) is None,
    ensures
        ({
            let g = gathered(
                *lens,
                passport.capability,
                state@,
                lens.profile.data_points@.len() as int,
            );
            r.present == g.selected.len() && json_views(r.missing@) == g.missing && r.trust@
                == g.trust
        }),
{
    let n: usize = lens.profile.data_points.len();
    let mut out: Coverage = Coverage {
        present: 0,
        missing: Vec::new(),
        trust: JsonObject::new(),
    };
    let mut i: usize = 0;
    assert(json_views(out.missing@) =~= Seq::<JsonView>::empty());
    while i < n
        invariant
            i <= n == lens.profile.data_points@.len(),
            lens_fault(*lens) is None,
            out.present <= i,
            ({
                let g = gathered(*lens, passport.capability, state@, i as int);
                out.present == g.selected.len() && json_views(out.missing@) == g.missing
                    && out.trust@ == g.trust
            }),
        decreases n - i,
    {
        broadcast use json_view_cases;

        let element: String = lens.profile.data_points[i].text();
        proof {
            assert(elements(*lens)[i as int] == element@);
            assert(requires_element(*lens, element@));
            validated_lens_binds_every_element(*lens, element@);
        }
        match lens.binding_for(element.as_str()) {
            Some(b) => match select(passport, state, b) {
                Selection::Blocked(reason) => {
                    let ghost before = out.missing@;
                    let mut m: JsonObject = JsonObject::new();
                    m.put("element", element.as_str());
                    reason.write(&mut m);
                    out.missing.push(Json::Obj(m));
                    assert(json_views(out.missing@) =~= json_views(before).push(
                        out.missing@.last()@,
                    ));
                },
                Selection::Found(fact) => {
                    out.present = out.present + 1;
                    out.trust.put(element.as_str(), fact.origin.trust.text());
                },
            },
            None => {},
        }
        i = i + 1;
    }
    out
}

/// Render the presentation. Fails only structurally (an invalid lens, or a
/// lens without a presentation binding); data gaps are reported *in* the
/// render.
pub fn render(
    passport: &Passport,
    lens: &LensManifest,
    at: Timestamp,
    lang: &str,
    source: &ProfileSource,
) -> (r: Result<JsonObject, ViewError>)
    ensures
        match lens_fault(*lens) {
            Some(f) => r matches Err(ViewError::Invalid(m)) && m@ == f,
            None => if lens.presentation is None {
                r matches Err(ViewError::Invalid(m)) && m@ == "profile "@ + lens.profile.id@
                    + " carries no presentation binding — it cannot render"@
            } else {
                r matches Ok(doc) && JsonView::Obj(doc@) == render_doc(
                    *passport,
                    *lens,
                    at,
                    lang@,
                    *source,
                )
            },
        },
{
    match lens.validate() {
        Ok(()) => {},
        Err(e) => return Err(ViewError::Invalid(e)),
    }
    match &lens.presentation {
        None => Err(
            ViewError::Invalid(
                phrase(
                    "profile ",
                    lens.profile.id.as_str(),
                    " carries no presentation binding — it cannot render",
                ),
            ),
        ),
        Some(presentation) => {
            let state: TwinState = fold(passport, at);
            let rules: &FormattingRules = &presentation.formatting;
            let ghost docs = presentation.sections@.map_values(
                |sec: PresentationSection|
                    section_doc(sec, *passport, *lens, lang@, *rules, state@, at),
            );
            let mut sections: Vec<Json> = Vec::new();
            let mut i: usize = 0;
            while i < presentation.sections.len()
                invariant
                    i <= presentation.sections.len(),
                    lens_fault(*lens) is None,
                    lens.presentation == Some(*presentation),
                    docs == presentation.sections@.map_values(
                        |sec: PresentationSection|
                            section_doc(sec, *passport, *lens, lang@, *rules, state@, at),
                    ),
                    json_views(sections@) == docs.take(i as int),
                decreases presentation.sections.len() - i,
            {
                broadcast use json_view_cases;

                let ghost done = sections@;
                let sec: &PresentationSection = &presentation.sections[i];
                proof {
                    assert forall|k: int| 0 <= k < sec.elements@.len() implies requires_element(
                        *lens,
                        (#[trigger] sec.elements@[k]).element@,
                    ) by {
                        validated_lens_presents_required_elements(*lens, i as int, k);
                    }
                }
                sections.push(
                    Json::Obj(render_section(sec, passport, lens, lang, rules, &state, at)),
                );
                assert(json_views(sections@) =~= json_views(done).push(docs[i as int]));
                assert(docs.take(i as int + 1) =~= docs.take(i as int).push(docs[i as int]));
                i = i + 1;
            }
            assert(docs.take(docs.len() as int) =~= docs);
            let covered: Coverage = cover(passport, lens, &state);
            let Coverage { present, missing, trust } = covered;
            let mut doc: JsonObject = JsonObject::new();
            doc.put("service", "unidpp-projector");
            doc.put_obj(
                "render_metadata",
                metadata_json(lens, presentation.template_ref.as_str(), rules, lang, source, at),
            );
            doc.put_obj("passport", render_passport_json(passport, &state, at));
            doc.put_arr("sections", sections);
            doc.put_obj(
                "coverage",
                coverage_json(lens.profile.data_points.len(), present, missing),
            );
            doc.put_obj("trust", trust);
            Ok(doc)
        },
    }
}

/// The render is as honest as the view: for the same passport, lens and
/// instant, both carry the same coverage report and the same trust markers.
pub proof fn render_covers_what_the_view_covers(
    p: Passport,
    l: LensManifest,
    at: Timestamp,
    actor: Seq<char>,
    lang: Seq<char>,
    source: ProfileSource,
    h: HoldingsView,
    trigger_holds: bool,
)
    ensures
        member_view(render_doc(p, l, at, lang, source), "coverage"@) == member_view(
            view_doc(p, l, at, actor, source, h, trigger_holds),
            "coverage"@,
        ),
        member_view(render_doc(p, l, at, lang, source), "coverage"@) is Some,
        member_view(render_doc(p, l, at, lang, source), "trust"@) == member_view(
            view_doc(p, l, at, actor, source, h, trigger_holds),
            "trust"@,
        ),
        member_view(render_doc(p, l, at, lang, source), "trust"@) is Some,
{
    reveal_strlit("coverage");
    reveal_strlit("trust");
    assert("coverage"@.len() != "trust"@.len());
}

/// The document without the member `key`.
pub open spec fn without(doc: JsonView, key: Seq<char>) -> JsonView {
    match doc {
        JsonView::Obj(m) => JsonView::Obj(m.remove(key)),
        _ => doc,
    }
}

/// The document with `value` under `key`.
pub open spec fn with_member(doc: JsonView, key: Seq<char>, value: JsonView) -> JsonView {
    match doc {
        JsonView::Obj(m) => JsonView::Obj(m.insert(key, value)),
        _ => doc,
    }
}

/// A section or item without its label and the label's language tag.
pub open spec fn unlabelled(doc: JsonView) -> JsonView {
    without(without(doc, "label"@), "label_lang"@)
}

/// The section without its label, and its items without theirs.
pub open spec fn unlabelled_section(section: JsonView) -> JsonView {
    match member_view(section, "items"@) {
        Some(JsonView::Arr(items)) => with_member(
            unlabelled(section),
            "items"@,
            JsonView::Arr(items.map_values(|item: JsonView| unlabelled(item))),
        ),
        _ => unlabelled(section),
    }
}

/// The render without what depends on the language: the requested tag, the
/// labels and their tags.
pub open spec fn language_free(render: JsonView) -> JsonView {
    let tagless = match member_view(render, "render_metadata"@) {
        Some(m) => with_member(render, "render_metadata"@, without(m, "lang"@)),
        None => render,
    };
    match member_view(tagless, "sections"@) {
        Some(JsonView::Arr(sections)) => with_member(
            tagless,
            "sections"@,
            JsonView::Arr(sections.map_values(|sec: JsonView| unlabelled_section(sec))),
        ),
        _ => tagless,
    }
}

proof fn items_differ_in_labels_only(
    e: PresentationElement,
    p: Passport,
    l: LensManifest,
    a: Seq<char>,
    b: Seq<char>,
    rules: FormattingRules,
    s: TwinView,
    at: Timestamp,
)
    ensures
        unlabelled(item_doc(e, p, l, a, rules, s, at)) == unlabelled(
            item_doc(e, p, l, b, rules, s, at),
        ),
{
    let x = unlabelled(item_doc(e, p, l, a, rules, s, at))->Obj_0;
    let y = unlabelled(item_doc(e, p, l, b, rules, s, at))->Obj_0;
    assert(x =~= y);
}

proof fn sections_differ_in_labels_only(
    sec: PresentationSection,
    p: Passport,
    l: LensManifest,
    a: Seq<char>,
    b: Seq<char>,
    rules: FormattingRules,
    s: TwinView,
    at: Timestamp,
)
    ensures
        unlabelled_section(section_doc(sec, p, l, a, rules, s, at)) == unlabelled_section(
            section_doc(sec, p, l, b, rules, s, at),
        ),
{
    let (dx, dy) = (section_doc(sec, p, l, a, rules, s, at), section_doc(sec, p, l, b, rules, s, at));
    let ix = sec.elements@.map_values(
        |e: PresentationElement| item_doc(e, p, l, a, rules, s, at),
    );
    let iy = sec.elements@.map_values(
        |e: PresentationElement| item_doc(e, p, l, b, rules, s, at),
    );
    assert(member_view(dx, "items"@) == Some(JsonView::Arr(ix)));
    assert(member_view(dy, "items"@) == Some(JsonView::Arr(iy)));
    let ux = ix.map_values(|item: JsonView| unlabelled(item));
    let uy = iy.map_values(|item: JsonView| unlabelled(item));
    assert forall|k: int| 0 <= k < ux.len() implies ux[k] == uy[k] by {
        items_differ_in_labels_only(sec.elements@[k], p, l, a, b, rules, s, at);
    }
    assert(ux =~= uy);
    assert(unlabelled_section(dx)->Obj_0 =~= unlabelled_section(dy)->Obj_0);
}

/// Two renders of the same passport in two languages differ in nothing but
/// the labels, the tags of the languages that served them, and the requested
/// tag: values, units, sources, gaps and coverage are language-independent.
pub proof fn languages_differ_in_labels_only(
    p: Passport,
    l: LensManifest,
    at: Timestamp,
    a: Seq<char>,
    b: Seq<char>,
    source: ProfileSource,
)
    ensures
        language_free(render_doc(p, l, at, a, source)) == language_free(
            render_doc(p, l, at, b, source),
        ),
{
    reveal_strlit("render_metadata");
    reveal_strlit("sections");
    reveal_strlit("passport");
    reveal_strlit("coverage");
    reveal_strlit("trust");
    assert("sections"@.len() == 8 && "sections"@[0] == 's');
    assert("passport"@[0] == 'p' && "coverage"@[0] == 'c');
    assert("render_metadata"@.len() == 15 && "passport"@.len() == 8 && "coverage"@.len() == 8
        && "trust"@.len() == 5);
    let s = folded(p.log@, at);
    let presentation = l.presentation->0;
    let rules = presentation.formatting;
    let (dx, dy) = (render_doc(p, l, at, a, source), render_doc(p, l, at, b, source));
    let mx = metadata_doc(l, presentation.template_ref@, rules, a, source, at);
    let my = metadata_doc(l, presentation.template_ref@, rules, b, source, at);
    assert(without(mx, "lang"@)->Obj_0 =~= without(my, "lang"@)->Obj_0);
    let sx = presentation.sections@.map_values(
        |sec: PresentationSection| section_doc(sec, p, l, a, rules, s, at),
    );
    let sy = presentation.sections@.map_values(
        |sec: PresentationSection| section_doc(sec, p, l, b, rules, s, at),
    );
    assert(member_view(dx, "render_metadata"@) == Some(mx));
    assert(member_view(dy, "render_metadata"@) == Some(my));
    assert(member_view(dx, "sections"@) == Some(JsonView::Arr(sx)));
    assert(member_view(dy, "sections"@) == Some(JsonView::Arr(sy)));
    let ux = sx.map_values(|sec: JsonView| unlabelled_section(sec));
    let uy = sy.map_values(|sec: JsonView| unlabelled_section(sec));
    assert forall|k: int| 0 <= k < ux.len() implies ux[k] == uy[k] by {
        sections_differ_in_labels_only(presentation.sections@[k], p, l, a, b, rules, s, at);
    }
    assert(ux =~= uy);
    assert(language_free(dx)->Obj_0 =~= language_free(dy)->Obj_0);
}

/// Events after the instant do not change the render, however many.
pub proof fn later_events_do_not_change_the_render(
    p: Passport,
    grown: Passport,
    more: Seq<SealedEvent>,
    l: LensManifest,
    at: Timestamp,
    lang: Seq<char>,
    source: ProfileSource,
)
    requires
        forall|i: int|
            0 <= i < more.len() ==> (#[trigger] more[i]).event.occurred_at.secs > at.secs,
        grown.log@ == p.log@ + more,
        grown.passport_id@ == p.passport_id@,
        grown.product_id@ == p.product_id@,
        grown.capability == p.capability,
    ensures
        render_doc(grown, l, at, lang, source) == render_doc(p, l, at, lang, source),
{
    later_events_are_not_seen(p.log@, more, at);
    later_heads_are_not_seen(p.log@, more, at);
    let s = folded(p.log@, at);
    let presentation = l.presentation->0;
    let rules = presentation.formatting;
    let a = presentation.sections@.map_values(
        |sec: PresentationSection| section_doc(sec, grown, l, lang, rules, s, at),
    );
    let b = presentation.sections@.map_values(
        |sec: PresentationSection| section_doc(sec, p, l, lang, rules, s, at),
    );
    assert forall|k: int| 0 <= k < a.len() implies a[k] == b[k] by {
        let sec = presentation.sections@[k];
        let x = sec.elements@.map_values(
            |e: PresentationElement| item_doc(e, grown, l, lang, rules, s, at),
        );
        let y = sec.elements@.map_values(
            |e: PresentationElement| item_doc(e, p, l, lang, rules, s, at),
        );
        assert(x =~= y);
    }
    assert(a =~= b);
}

/// Which label serves: the requested language's where there is one; else the
/// fallback language's; else that of the first language tag in order; and
/// only without any label the fallback text, which names no language.
pub proof fn labels_prefer_the_requested_language(
    labels: StrMap<String>,
    lang: Seq<char>,
    fallback_lang: Seq<char>,
    fallback_text: Seq<char>,
)
    ensures
        ({
            let (label, served) = label_of(labels, lang, fallback_lang, fallback_text);
            let known = labels@;
            &&& known.contains_key(lang) ==> label == known[lang]@ && served == Some(lang)
            &&& !known.contains_key(lang) && known.contains_key(fallback_lang) ==> label
                == known[fallback_lang]@ && served == Some(fallback_lang)
            &&& !known.contains_key(lang) && !known.contains_key(fallback_lang) ==> (
            labels.keys().len() > 0 ==> served == Some(labels.keys()[0]) && label
                == known[labels.keys()[0]]@) && (labels.keys().len() == 0 ==> served is None
                && label == fallback_text)
        }),
{
}

/// How a value reads: a text as it is, a truth value as `true` or `false`, a
/// list as its texts with `, ` between them; the unit stands behind the value
/// after a blank where the rules put it there, and nowhere else.
pub proof fn values_read_as_they_are(v: ValueView, unit: Option<Seq<char>>, rules: FormattingRules)
    ensures
        v is Str ==> formatted_text(v, None, rules) == v->Str_0,
        v is Bool ==> formatted_text(v, None, rules) == (if v->Bool_0 {
            "true"@
        } else {
            "false"@
        }),
        v is List ==> formatted_text(v, None, rules) == joined(v->List_0, ", "@),
        unit is Some && rules.unit_position == UnitPosition::Suffix ==> formatted_text(
            v,
            unit,
            rules,
        ) == formatted_text(v, None, rules) + " "@ + unit->0,
        unit is None || rules.unit_position == UnitPosition::Hidden ==> formatted_text(
            v,
            unit,
            rules,
        ) == formatted_text(v, None, rules),
{
}

/// `d` is `n` to at most `digits` digits behind the point: within half a unit
/// of the last of them, and away from zero from the middle.
pub open spec fn displays(d: Decimal, n: Decimal, digits: int) -> bool {
    let unit = pow10(EXP_LIMIT - digits);
    let moved = 2 * (d.value() - n.value());
    &&& d.valid()
    &&& d.exp() >= -digits
    &&& -unit <= moved <= unit
    &&& n.value() > 0 ==> moved != -unit
    &&& n.value() < 0 ==> moved != unit
}

/// How a number reads: one that has no more digits behind the point than the
/// rules declare reads as it is, exactly; any other reads as a number with at
/// most that many, within half a unit of the last one, the middle going away
/// from zero. (Where more than 38 digits would be dropped, or more than 18
/// are declared, it reads as it is.)
#[verifier::rlimit(60)]
#[verifier::spinoff_prover]
pub proof fn numbers_read_to_the_declared_digits(n: Decimal, rules: FormattingRules)
    requires
        n.valid(),
    ensures
        ({
            let digits = rules.decimal_digits as int;
            let text = formatted_text(ValueView::Num(n), None, rules);
            &&& n.exp() >= -digits || digits > 18 ==> text == decimal_text(n)
            &&& digits <= 18 && -digits - 38 <= n.exp() < -digits ==> exists|d: Decimal| #[trigger]
                displays(d, n, digits) && text == decimal_text(d)
            &&& text == decimal_text(n) || exists|d: Decimal| #[trigger]
                displays(d, n, digits) && text == decimal_text(d)
        }),
{
    let digits = rules.decimal_digits as int;
    if digits <= 18 {
        let r = rounded(n, digits, RoundingMode::HalfUp);
        if n.exp() < -digits {
            if n.exp() >= -digits - 38 {
                rounding_gives_a_result(n, digits, RoundingMode::HalfUp);
            }
            if r is Ok {
                let d = r->Ok_0;
                rounding_is_close(n, digits, RoundingMode::HalfUp);
                let unit = pow10(EXP_LIMIT - digits);
                let moved = 2 * (d.value() - n.value());
                if moved == unit || moved == -unit {
                    lemma_pow_positive(10, (EXP_LIMIT - digits) as nat);
                    midpoints_resolve_by_mode(n, digits, RoundingMode::HalfUp);
                }
                assert(displays(d, n, digits));
            }
        } else if r is Ok {
            rounding_keeps_short_numbers(n, digits, RoundingMode::HalfUp);
        }
    }
}

/// The members of a presented item: the element with its label and the
/// language that served it, and the link to the view; where the element's
/// fact clears the gates, the exact value, its kind and unit, the reading
/// under the rules, its event and its trust; else an explicit gap with the
/// gate that blocks.
#[verifier::rlimit(60)]
#[verifier::spinoff_prover]
pub proof fn items_show_the_fact_or_the_gap(
    e: PresentationElement,
    p: Passport,
    l: LensManifest,
    lang: Seq<char>,
    rules: FormattingRules,
    s: TwinView,
    at: Timestamp,
)
    requires
        binding_of(l, e.element@) is Some,
    ensures
        ({
            let doc = item_doc(e, p, l, lang, rules, s, at);
            let b = binding_of(l, e.element@)->0;
            let fact = s.facts[b.source@];
            let (label, served) = label_of(e.labels, lang, rules.fallback_lang@, e.element@);
            let link = member_view(doc, "source"@);
            &&& member_str(doc, "element"@) == Some(e.element@)
            &&& member_str(doc, "label"@) == Some(label)
            &&& served is Some ==> member_str(doc, "label_lang"@) == served
            &&& served is None ==> member_view(doc, "label_lang"@) == Some(JsonView::Null)
            &&& link is Some
            &&& member_str(link->0, "view"@) == Some(
                "/view?passport="@ + p.passport_id@ + "&profile="@ + l.profile.id@ + "&at="@
                    + instant_text(at),
            )
            &&& if capability_rank(p.capability) >= capability_rank(b.min_capability)
                && s.facts.contains_key(b.source@) && trust_grade(fact.origin.trust)
                >= trust_grade(b.min_trust) {
                &&& member_str(doc, "status"@) == Some("present"@)
                &&& member_view(doc, "value"@) == Some(value_doc(fact.value))
                &&& member_str(doc, "kind"@) == Some(value_type(fact.value))
                &&& b.declared_unit is Some ==> member_str(doc, "unit"@) == Some(
                    b.declared_unit->0@,
                ) && member_str(doc, "formatted"@) == Some(
                    formatted_text(fact.value, Some(b.declared_unit->0@), rules),
                )
                &&& b.declared_unit is None ==> member_view(doc, "unit"@) is None && member_str(
                    doc,
                    "formatted"@,
                ) == Some(formatted_text(fact.value, None, rules))
                &&& member_str(doc, "trust"@) == Some(trust_text(fact.origin.trust))
                &&& member_view(doc, "sourced"@) is Some
                &&& shows_origin(member_view(doc, "sourced"@)->0, fact.origin)
            } else {
                &&& member_str(doc, "status"@) == Some("missing"@)
                &&& member_view(doc, "value"@) is None
                &&& member_view(doc, "formatted"@) is None
                &&& shows_gap(
                    doc,
                    if capability_rank(p.capability) < capability_rank(b.min_capability) {
                        MissingReason::CapabilityGate { floor: b.min_capability }
                    } else if !s.facts.contains_key(b.source@) {
                        MissingReason::AbsentAsOf
                    } else {
                        MissingReason::BelowTrustFloor { floor: b.min_trust }
                    },
                )
            }
        }),
{
    member_names_differ();
}

/// The members of a section: its id, its label with the language that served
/// it, and one item per element in display order.
pub proof fn sections_show_their_items(
    sec: PresentationSection,
    p: Passport,
    l: LensManifest,
    lang: Seq<char>,
    rules: FormattingRules,
    s: TwinView,
    at: Timestamp,
)
    ensures
        ({
            let doc = section_doc(sec, p, l, lang, rules, s, at);
            let (label, served) = label_of(sec.labels, lang, rules.fallback_lang@, sec.id@);
            let items = member_view(doc, "items"@);
            &&& member_str(doc, "id"@) == Some(sec.id@)
            &&& member_str(doc, "label"@) == Some(label)
            &&& served is Some ==> member_str(doc, "label_lang"@) == served
            &&& served is None ==> member_view(doc, "label_lang"@) == Some(JsonView::Null)
            &&& items is Some
            &&& items->0 is Arr
            &&& items->0->Arr_0.len() == sec.elements@.len()
            &&& forall|i: int|
                0 <= i < sec.elements@.len() ==> #[trigger] items->0->Arr_0[i] == item_doc(
                    sec.elements@[i],
                    p,
                    l,
                    lang,
                    rules,
                    s,
                    at,
                )
        }),
{
    member_names_differ();
}

/// The members of a render: what it was rendered with, the passport, one
/// section per section of the presentation in its order, each over the state
/// as-of the instant, and the coverage over all data points.
#[verifier::rlimit(60)]
#[verifier::spinoff_prover]
pub proof fn renders_show_the_state_as_of_the_instant(
    p: Passport,
    l: LensManifest,
    at: Timestamp,
    lang: Seq<char>,
    source: ProfileSource,
)
    requires
        l.presentation is Some,
    ensures
        ({
            let doc = render_doc(p, l, at, lang, source);
            let s = folded(p.log@, at);
            let shown = l.presentation->0;
            let n = l.profile.data_points@.len();
            let g = gathered(l, p.capability, s, n as int);
            let sections = member_view(doc, "sections"@);
            let meta = member_view(doc, "render_metadata"@);
            let subject = member_view(doc, "passport"@);
            &&& member_str(doc, "service"@) == Some("unidpp-projector"@)
            &&& member_view(doc, "coverage"@) == Some(
                coverage_doc(n, g.selected.len(), g.missing),
            )
            &&& member_view(doc, "trust"@) == Some(JsonView::Obj(g.trust))
            &&& sections is Some
            &&& sections->0 is Arr
            &&& sections->0->Arr_0.len() == shown.sections@.len()
            &&& forall|i: int|
                0 <= i < shown.sections@.len() ==> #[trigger] sections->0->Arr_0[i] == section_doc(
                    shown.sections@[i],
                    p,
                    l,
                    lang,
                    shown.formatting,
                    s,
                    at,
                )
            &&& subject is Some
            &&& member_str(subject->0, "id"@) == Some(p.passport_id@)
            &&& member_str(subject->0, "product_id"@) == Some(p.product_id@)
            &&& member_str(subject->0, "capability"@) == Some(capability_text(p.capability))
            &&& member_str(subject->0, "status"@) == Some(s.status)
            &&& head_at(p.log@, at) is Some ==> member_str(subject->0, "log_head"@) == head_at(
                p.log@,
                at,
            )
            &&& head_at(p.log@, at) is None ==> member_view(subject->0, "log_head"@) is None
            &&& meta is Some
            &&& member_str(meta->0, "template_ref"@) == Some(shown.template_ref@)
            &&& member_str(meta->0, "lang"@) == Some(lang)
            &&& member_str(meta->0, "fallback_lang"@) == Some(shown.formatting.fallback_lang@)
            &&& member_str(meta->0, "as_of"@) == Some(instant_text(at))
            &&& ({
                let rules = member_view(meta->0, "formatting_rules"@);
                let profile = member_view(meta->0, "profile"@);
                &&& rules is Some
                &&& member_str(rules->0, "unit_position"@) == Some(
                    if shown.formatting.unit_position == UnitPosition::Suffix {
                        "suffix"@
                    } else {
                        "none"@
                    },
                )
                &&& member_view(rules->0, "decimal_digits"@) == Some(
                    JsonView::Num(shown.formatting.decimal_digits as u64),
                )
                &&& member_str(rules->0, "fallback_lang"@) == Some(shown.formatting.fallback_lang@)
                &&& profile is Some
                &&& member_str(profile->0, "id"@) == Some(l.profile.id@)
                &&& member_str(profile->0, "version"@) == Some(l.version@)
                &&& member_str(profile->0, "source"@) == Some(source.mode@)
                &&& source.detail is Some ==> member_str(profile->0, "source_detail"@) == Some(
                    source.detail->0@,
                )
                &&& source.detail is None ==> member_view(profile->0, "source_detail"@) is None
            })
        }),
{
    member_names_differ();
}

} // verus!
