//! The decisions of the HTTP surface: what a request asks for, what serves
//! it, and what it is refused with.
//!
//! Performing the requests, reading the stores and sending the responses is
//! the service's business; it hands in what came back and sends what is
//! decided here.
use std::collections::HashMap;
use vstd::prelude::*;
use vstd::string::*;

use crate::aggregate::ChildDocuments;
use crate::codelist::{item_mapping, CodeListMapping, MappingSet, MappingView};
use crate::fixtures::{battery_rules, demo_passport, eu_class_to_jp_star, fixture_child, fixture_lens, fixture_mappings, fixture_primmel, fixture_units, is_demo_passport, is_fixture_id, is_fixture_lens, is_pack_child, jp_star_to_eu_class, pack_index, BATTERY_RULES_PACKAGE_ID, DEMO_PASSPORT_ID, EU_CLASS_TO_JP_STAR_ID, JP_STAR_TO_EU_CLASS_ID};
use crate::html::{document, page, speech, str_at, text, Format, FormatView};
use crate::json::{json_view_cases, member_of, member_str, member_view, Json, JsonObject, JsonView};
use crate::lens::{accepted_lens, lens_fault, present, LensManifest, TransformBinding};
use crate::model::Passport;
use crate::primmel::{accepted_package, PackageSet, PackageView, PrimmelPackage};
use crate::project::{docs_view, project, view_doc, CoreFindings, HoldingsView, ProfileSource, RegisteredUnit};
use crate::query::{param, param_of};
use crate::registry::{FetchOutcome, OutcomeView};
use crate::render::{render, render_doc};
use crate::strmap::{in_order, one_more_key, StrMap};
use crate::text::{among, blank, blank_texts_trim_to_nothing, copy_opt, is_blank, is_white, noted, opt_text, or_empty, phrase, same, texts, trim, trimmed, trimming_takes_the_ends_off};
use crate::time::{parsed_instant, Timestamp};
use crate::twin::{fold, folded, TwinState};
use crate::units::UnitRegistry;

verus! {

/// A refusal: the HTTP status and the message of its `error` body.
#[derive(Debug, PartialEq, Eq)]
pub struct Refusal {
    pub status: u16,
    pub message: String,
}

/// What a refusal says.
pub struct RefusalView {
    pub status: u16,
    pub message: Seq<char>,
}

impl View for Refusal {
    type V = RefusalView;

    open spec fn view(&self) -> RefusalView {
        RefusalView { status: self.status, message: self.message@ }
    }
}

/// A refusal with this status and message.
pub open spec fn refused(status: u16, message: Seq<char>) -> RefusalView {
    RefusalView { status, message }
}

impl Refusal {
    /// 400.
    pub fn bad_request(message: String) -> (r: Refusal)
        ensures
            r@ == refused(400, message@),
    {
        Refusal { status: 400, message }
    }

    /// 403.
    pub fn forbidden(message: String) -> (r: Refusal)
        ensures
            r@ == refused(403, message@),
    {
        Refusal { status: 403, message }
    }

    /// 404.
    pub fn not_found(message: String) -> (r: Refusal)
        ensures
            r@ == refused(404, message@),
    {
        Refusal { status: 404, message }
    }

    /// 500.
    pub fn internal_error(message: String) -> (r: Refusal)
        ensures
            r@ == refused(500, message@),
    {
        Refusal { status: 500, message }
    }

    /// 502.
    pub fn bad_gateway(message: String) -> (r: Refusal)
        ensures
            r@ == refused(502, message@),
    {
        Refusal { status: 502, message }
    }

    /// 503.
    pub fn service_unavailable(message: String) -> (r: Refusal)
        ensures
            r@ == refused(503, message@),
    {
        Refusal { status: 503, message }
    }

    /// The body of the response.
    pub fn body(&self) -> (r: JsonObject)
        ensures
            r@ == map!["error"@ => JsonView::Str(self@.message)],
    {
        let mut m: JsonObject = JsonObject::new();
        m.put("error", self.message.as_str());
        m
    }
}

/// A required parameter: present and not blank, trimmed.
pub open spec fn required_param(params: Map<String, String>, key: Seq<char>) -> Result<
    Seq<char>,
    RefusalView,
> {
    match param_of(params, key) {
        Some(raw) => if trimmed(raw).len() > 0 {
            Ok(trimmed(raw))
        } else {
            Err(refused(400, "`"@ + key + "` query parameter is required"@))
        },
        None => Err(refused(400, "`"@ + key + "` query parameter is required"@)),
    }
}

/// The `at` parameter: absent and blank are none, anything else must be an
/// instant.
pub open spec fn at_param(params: Map<String, String>) -> Result<Option<Timestamp>, RefusalView> {
    match param_of(params, "at"@) {
        None => Ok(None),
        Some(raw) => if trimmed(raw).len() == 0 {
            Ok(None)
        } else {
            match parsed_instant(trimmed(raw)) {
                Some(t) => Ok(Some(t)),
                None => Err(
                    refused(400, "invalid `at` parameter: not an RFC 3339 instant"@),
                ),
            }
        },
    }
}

fn required(params: &HashMap<String, String>, key: &str) -> (r: Result<String, Refusal>)
    ensures
        match r {
            Ok(v) => required_param(params@, key@) == Ok::<Seq<char>, RefusalView>(v@),
            Err(e) => required_param(params@, key@) == Err::<Seq<char>, RefusalView>(e@),
        },
{
    match param(params, key) {
        Some(raw) => {
            let v: String = trim(raw.as_str());
            if v.as_str().unicode_len() > 0 {
                return Ok(v);
            }
        },
        None => {},
    }
    Err(Refusal::bad_request(phrase("`", key, "` query parameter is required")))
}

fn instant_param(params: &HashMap<String, String>) -> (r: Result<Option<Timestamp>, Refusal>)
    ensures
        match r {
            Ok(t) => at_param(params@) == Ok::<Option<Timestamp>, RefusalView>(t),
            Err(e) => at_param(params@) == Err::<Option<Timestamp>, RefusalView>(e@),
        },
{
    match param(params, "at") {
        None => Ok(None),
        Some(raw) => {
            let v: String = trim(raw.as_str());
            if v.as_str().unicode_len() == 0 {
                return Ok(None);
            }
            match Timestamp::parse(v.as_str()) {
                Some(t) => Ok(Some(t)),
                None => Err(
                    Refusal::bad_request(
                        "invalid `at` parameter: not an RFC 3339 instant".to_string(),
                    ),
                ),
            }
        },
    }
}

/// The parsed `GET /view` query.
#[derive(Debug, PartialEq, Eq)]
pub struct ViewQuery {
    pub passport: String,
    pub profile: String,
    pub actor: String,
    pub at: Option<Timestamp>,
}

/// The parsed `GET /render` query.
#[derive(Debug, PartialEq, Eq)]
pub struct RenderQuery {
    pub passport: String,
    pub profile: String,
    pub lang: String,
    pub at: Option<Timestamp>,
}

/// What a query asks for: passport, profile, the third required parameter,
/// and the instant.
pub struct QueryView {
    pub passport: Seq<char>,
    pub profile: Seq<char>,
    pub third: Seq<char>,
    pub at: Option<Timestamp>,
}

/// The query with `passport`, `profile`, the parameter `third` and
/// optionally `at`, or the first refusal.
pub open spec fn query_of(params: Map<String, String>, third: Seq<char>) -> Result<
    QueryView,
    RefusalView,
> {
    match at_param(params) {
        Err(e) => Err(e),
        Ok(at) => match (
            required_param(params, "passport"@),
            required_param(params, "profile"@),
            required_param(params, third),
        ) {
            (Err(e), _, _) => Err(e),
            (_, Err(e), _) => Err(e),
            (_, _, Err(e)) => Err(e),
            (Ok(passport), Ok(profile), Ok(t)) => Ok(
                QueryView { passport, profile, third: t, at },
            ),
        },
    }
}

/// Parse and validate the view query.
pub fn parse_view_query(params: &HashMap<String, String>) -> (r: Result<ViewQuery, Refusal>)
    ensures
        match r {
            Ok(q) => query_of(params@, "actor"@) == Ok::<QueryView, RefusalView>(
                QueryView {
                    passport: q.passport@,
                    profile: q.profile@,
                    third: q.actor@,
                    at: q.at,
                },
            ),
            Err(e) => query_of(params@, "actor"@) == Err::<QueryView, RefusalView>(e@),
        },
{
    let at: Option<Timestamp> = match instant_param(params) {
        Ok(t) => t,
        Err(e) => return Err(e),
    };
    let passport: String = match required(params, "passport") {
        Ok(v) => v,
        Err(e) => return Err(e),
    };
    let profile: String = match required(params, "profile") {
        Ok(v) => v,
        Err(e) => return Err(e),
    };
    let actor: String = match required(params, "actor") {
        Ok(v) => v,
        Err(e) => return Err(e),
    };
    Ok(ViewQuery { passport, profile, actor, at })
}

/// Parse and validate the render query. `lang` is required — the render is
/// per-language by definition; an unknown tag is not an error.
pub fn parse_render_query(params: &HashMap<String, String>) -> (r: Result<RenderQuery, Refusal>)
    ensures
        match r {
            Ok(q) => query_of(params@, "lang"@) == Ok::<QueryView, RefusalView>(
                QueryView {
                    passport: q.passport@,
                    profile: q.profile@,
                    third: q.lang@,
                    at: q.at,
                },
            ),
            Err(e) => query_of(params@, "lang"@) == Err::<QueryView, RefusalView>(e@),
        },
{
    let at: Option<Timestamp> = match instant_param(params) {
        Ok(t) => t,
        Err(e) => return Err(e),
    };
    let passport: String = match required(params, "passport") {
        Ok(v) => v,
        Err(e) => return Err(e),
    };
    let profile: String = match required(params, "profile") {
        Ok(v) => v,
        Err(e) => return Err(e),
    };
    let lang: String = match required(params, "lang") {
        Ok(v) => v,
        Err(e) => return Err(e),
    };
    Ok(RenderQuery { passport, profile, lang, at })
}

/// Where a lens manifest came from, after the registry read.
#[derive(Debug, PartialEq)]
pub struct ResolvedLens {
    pub lens: LensManifest,
    pub source: ProfileSource,
}

/// The outcome of a read, or the text of its failure.
pub open spec fn fetched_view(f: Result<FetchOutcome, String>) -> Result<OutcomeView, Seq<char>> {
    match f {
        Ok(o) => Ok(o@),
        Err(e) => Err(e@),
    }
}

/// The lens is the built-in one of this id, served in a fallback mode.
pub open spec fn serves_fixture(
    r: Result<ResolvedLens, Refusal>,
    id: Seq<char>,
    mode: Seq<char>,
    detail: Seq<char>,
) -> bool {
    r matches Ok(resolved) && is_fixture_lens(id, resolved.lens) && resolved.source.mode@ == mode
        && opt_text(resolved.source.detail) == Some(detail)
}

/// What serves a profile: the registry where it answered (its negative
/// stands), else the built-in fixtures with the reason.
pub open spec fn lens_served(
    r: Result<ResolvedLens, Refusal>,
    id: Seq<char>,
    fetched: Result<OutcomeView, Seq<char>>,
    read: Result<LensManifest, String>,
) -> bool {
    match fetched {
        Err(e) => r matches Err(x) && x@ == refused(
            502,
            "registry read of profile `"@ + id + "` failed: "@ + e,
        ),
        Ok(OutcomeView::Registry(item)) => match accepted_lens(item, read) {
            Ok(lens) => r matches Ok(resolved) && resolved.lens == lens && resolved.source.mode@
                == "registry"@ && resolved.source.detail is None,
            Err(e) => r matches Err(x) && x@ == refused(502, "profile item `"@ + id + "`: "@ + e),
        },
        Ok(OutcomeView::Missing) => r matches Err(x) && x@ == refused(
            404,
            "no profile item `"@ + id + "` in the registry"@,
        ),
        Ok(OutcomeView::Fixtures) => if is_fixture_id(id) {
            serves_fixture(r, id, "fixtures"@, "no registry URL configured"@)
        } else {
            r matches Err(x) && x@ == refused(
                404,
                "no profile item `"@ + id + "` and no registry configured"@,
            )
        },
        Ok(OutcomeView::Unreachable(detail)) => if is_fixture_id(id) {
            serves_fixture(r, id, "unreachable"@, detail)
        } else {
            r matches Err(x) && x@ == refused(
                503,
                "registry unreachable and `"@ + id + "` is not a built-in fixture: "@ + detail,
            )
        },
    }
}

/// Resolve the lens manifest: registry first, fixtures otherwise. `read` is
/// the outcome of reading the manifest of the item that the registry
/// answered with.
pub fn resolve_lens(
    profile_id: &str,
    fetched: Result<FetchOutcome, String>,
    read: Result<LensManifest, String>,
) -> (r: Result<ResolvedLens, Refusal>)
    ensures
        lens_served(r, profile_id@, fetched_view(fetched), read),
{
    match fetched {
        Err(e) => {
            let mut why: String = phrase("registry read of profile `", profile_id, "` failed: ");
            why.append(e.as_str());
            Err(Refusal::bad_gateway(why))
        },
        Ok(FetchOutcome::Registry(item)) => match LensManifest::from_item(&item, read) {
            Ok(lens) => Ok(ResolvedLens { lens, source: ProfileSource::registry() }),
            Err(e) => {
                let mut why: String = phrase("profile item `", profile_id, "`: ");
                why.append(e.as_str());
                Err(Refusal::bad_gateway(why))
            },
        },
        Ok(FetchOutcome::Missing) => Err(
            Refusal::not_found(phrase("no profile item `", profile_id, "` in the registry")),
        ),
        Ok(FetchOutcome::Fixtures) => match fixture_lens(profile_id) {
            Some(lens) => Ok(
                ResolvedLens {
                    lens,
                    source: ProfileSource::fallback(
                        "fixtures",
                        Some("no registry URL configured".to_string()),
                    ),
                },
            ),
            None => Err(
                Refusal::not_found(
                    phrase("no profile item `", profile_id, "` and no registry configured"),
                ),
            ),
        },
        Ok(FetchOutcome::Unreachable(detail)) => match fixture_lens(profile_id) {
            Some(lens) => Ok(
                ResolvedLens { lens, source: ProfileSource::fallback("unreachable", Some(detail)) },
            ),
            None => {
                let mut why: String = phrase(
                    "registry unreachable and `",
                    profile_id,
                    "` is not a built-in fixture: ",
                );
                why.append(detail.as_str());
                Err(Refusal::service_unavailable(why))
            },
        },
    }
}

/// A profile whose resolution is `none` is not servable.
pub fn check_servable(lens: &LensManifest, profile_id: &str) -> (r: Result<(), Refusal>)
    ensures
        if lens.profile.resolution@ == "none"@ {
            r matches Err(x) && x@ == refused(
                403,
                "profile `"@ + profile_id@ + "` is not servable (resolution `none`)"@,
            )
        } else {
            r is Ok
        },
{
    if same(lens.profile.resolution.as_str(), "none") {
        return Err(
            Refusal::forbidden(
                phrase("profile `", profile_id, "` is not servable (resolution `none`)"),
            ),
        );
    }
    Ok(())
}

/// A profile without a presentation binding cannot be rendered.
pub fn check_presentable(lens: &LensManifest, profile_id: &str) -> (r: Result<(), Refusal>)
    ensures
        if lens.presentation is None {
            r matches Err(x) && x@ == refused(
                400,
                "profile `"@ + profile_id@
                    + "` carries no presentation binding — `/render` needs one; `/view` serves this profile"@,
            )
        } else {
            r is Ok
        },
{
    if lens.presentation.is_none() {
        return Err(
            Refusal::bad_request(
                phrase(
                    "profile `",
                    profile_id,
                    "` carries no presentation binding — `/render` needs one; `/view` serves this profile",
                ),
            ),
        );
    }
    Ok(())
}

/// An output format that is none of the three is refused.
pub fn check_format(format: &Format) -> (r: Result<(), Refusal>)
    ensures
        match format@ {
            FormatView::Invalid(other) => r matches Err(x) && x@ == refused(
                400,
                "unknown `format` `"@ + other + "` — `html`, `text` or `json`"@,
            ),
            _ => r is Ok,
        },
{
    match format {
        Format::Invalid(other) => Err(
            Refusal::bad_request(
                phrase("unknown `format` `", other.as_str(), "` — `html`, `text` or `json`"),
            ),
        ),
        _ => Ok(()),
    }
}

fn note_all(seen: &mut Vec<String>, more: Vec<String>)
    ensures
        texts(final(seen)@) == noted(texts(old(seen)@), texts(more@)),
{
    let ghost start = texts(seen@);
    let ghost all = texts(more@);
    let mut i: usize = 0;
    assert(all.take(0) =~= Seq::<Seq<char>>::empty());
    while i < more.len()
        invariant
            i <= more.len(),
            all == texts(more@),
            texts(seen@) == noted(start, all.take(i as int)),
        decreases more.len() - i,
    {
        assert(all.take(i as int + 1).drop_last() =~= all.take(i as int));
        assert(all.take(i as int + 1).last() == more@[i as int]@);
        if !among(seen, more[i].as_str()) {
            let ghost before = seen@;
            seen.push(more[i].clone());
            assert(texts(seen@) =~= texts(before).push(more@[i as int]@));
        }
        i = i + 1;
    }
    assert(all.take(all.len() as int) =~= all);
}

/// The registry unit items that the first `n` transforms reference, each once.
pub open spec fn unit_refs(transforms: Seq<TransformBinding>, n: int) -> Seq<Seq<char>>
    decreases n,
{
    if n <= 0 {
        Seq::empty()
    } else {
        noted(
            unit_refs(transforms, n - 1),
            match transforms[n - 1] {
                TransformBinding::UnitConversion { from_item, to_item, .. } => present(
                    from_item,
                    to_item,
                ),
                _ => Seq::empty(),
            },
        )
    }
}

/// The rule packages that the first `n` transforms reference, each once.
pub open spec fn package_refs(transforms: Seq<TransformBinding>, n: int) -> Seq<Seq<char>>
    decreases n,
{
    if n <= 0 {
        Seq::empty()
    } else {
        noted(
            package_refs(transforms, n - 1),
            match transforms[n - 1] {
                TransformBinding::Primmel { package_ref, .. } => seq![package_ref@],
                _ => Seq::empty(),
            },
        )
    }
}

/// The mapping items that the first `n` transforms reference, each once.
pub open spec fn mapping_refs(transforms: Seq<TransformBinding>, n: int) -> Seq<Seq<char>>
    decreases n,
{
    if n <= 0 {
        Seq::empty()
    } else {
        noted(
            mapping_refs(transforms, n - 1),
            match transforms[n - 1] {
                TransformBinding::LocalizationMapping { mapping_ref, .. } => seq![mapping_ref@],
                _ => Seq::empty(),
            },
        )
    }
}

/// The registry unit items that a lens references, each once, in order.
pub fn referenced_units(lens: &LensManifest) -> (r: Vec<String>)
    ensures
        texts(r@) == unit_refs(lens.transforms@, lens.transforms@.len() as int),
{
    let mut items: Vec<String> = Vec::new();
    let mut i: usize = 0;
    assert(texts(items@) =~= Seq::<Seq<char>>::empty());
    while i < lens.transforms.len()
        invariant
            i <= lens.transforms.len(),
            texts(items@) == unit_refs(lens.transforms@, i as int),
        decreases lens.transforms.len() - i,
    {
        note_all(&mut items, lens.transforms[i].unit_items());
        i = i + 1;
    }
    items
}

/// The rule packages that a lens references, each once, in order.
pub fn referenced_packages(lens: &LensManifest) -> (r: Vec<String>)
    ensures
        texts(r@) == package_refs(lens.transforms@, lens.transforms@.len() as int),
{
    let mut refs: Vec<String> = Vec::new();
    let mut i: usize = 0;
    assert(texts(refs@) =~= Seq::<Seq<char>>::empty());
    while i < lens.transforms.len()
        invariant
            i <= lens.transforms.len(),
            texts(refs@) == package_refs(lens.transforms@, i as int),
        decreases lens.transforms.len() - i,
    {
        note_all(&mut refs, lens.transforms[i].package_refs());
        i = i + 1;
    }
    refs
}

/// The mapping items that a lens references, each once, in order.
pub fn referenced_mappings(lens: &LensManifest) -> (r: Vec<String>)
    ensures
        texts(r@) == mapping_refs(lens.transforms@, lens.transforms@.len() as int),
{
    let mut refs: Vec<String> = Vec::new();
    let mut i: usize = 0;
    assert(texts(refs@) =~= Seq::<Seq<char>>::empty());
    while i < lens.transforms.len()
        invariant
            i <= lens.transforms.len(),
            texts(refs@) == mapping_refs(lens.transforms@, i as int),
        decreases lens.transforms.len() - i,
    {
        note_all(&mut refs, lens.transforms[i].mapping_refs());
        i = i + 1;
    }
    refs
}

/// What a unit identity says.
pub struct UnitView {
    pub item: Seq<char>,
    pub name: Seq<char>,
    pub citation: Option<Seq<char>>,
}

/// What a registered unit says.
pub open spec fn unit_view(u: RegisteredUnit) -> UnitView {
    UnitView { item: u.item@, name: u.name@, citation: opt_text(u.citation) }
}

/// A text of the item's manifest.
pub open spec fn manifest_str(doc: JsonView, key: Seq<char>) -> Option<Seq<char>> {
    match member_view(doc, "manifest"@) {
        Some(m) => member_str(m, key),
        None => None,
    }
}

/// The identity that a registry unit item carries: its identifier; the
/// manifest's name, else the title; the manifest's citation, else the notes.
pub open spec fn item_unit(doc: JsonView) -> Option<UnitView> {
    match member_str(doc, "identifier"@) {
        None => None,
        Some(item) => Some(
            UnitView {
                item,
                name: match manifest_str(doc, "name"@) {
                    Some(n) => n,
                    None => or_empty(member_str(doc, "title"@)),
                },
                citation: match manifest_str(doc, "iso_80000_citation"@) {
                    Some(c) => Some(c),
                    None => member_str(doc, "notes"@),
                },
            },
        ),
    }
}

fn manifest_text(doc: &Json, key: &str) -> (r: Option<String>)
    ensures
        opt_text(r) == manifest_str(doc@, key@),
{
    match doc.get("manifest") {
        Some(m) => match m.get_str(key) {
            Some(s) => Some(s.to_string()),
            None => None,
        },
        None => None,
    }
}

/// Read a registry unit item as its registered identity.
pub fn registered_unit_from_item(doc: &Json) -> (r: Option<RegisteredUnit>)
    ensures
        match r {
            Some(u) => item_unit(doc@) == Some(unit_view(u)),
            None => item_unit(doc@) is None,
        },
{
    match doc.get_str("identifier") {
        None => None,
        Some(identifier) => {
            let name: String = match manifest_text(doc, "name") {
                Some(n) => n,
                None => match doc.get_str("title") {
                    Some(t) => t.to_string(),
                    None => String::new(),
                },
            };
            let citation: Option<String> = match manifest_text(doc, "iso_80000_citation") {
                Some(c) => Some(c),
                None => match doc.get_str("notes") {
                    Some(n) => Some(n.to_string()),
                    None => None,
                },
            };
            Some(RegisteredUnit { item: identifier.to_string(), name, citation })
        },
    }
}

/// The built-in identity of a unit item.
pub open spec fn fixture_unit(item: Seq<char>) -> Option<UnitView> {
    if item == "unit-kwh"@ {
        Some(
            UnitView {
                item: "unit-kwh"@,
                name: "kilowatt hour"@,
                citation: Some("ISO 80000-4:2006 (energy); 1 kWh = 3.6 MJ exactly"@),
            },
        )
    } else if item == "unit-mj"@ {
        Some(
            UnitView {
                item: "unit-mj"@,
                name: "megajoule"@,
                citation: Some("ISO 80000-4:2006 (energy)"@),
            },
        )
    } else {
        None
    }
}

/// The identity of a referenced unit item: from the registry's answer; the
/// built-in one when no registry is configured or it cannot be reached; none
/// on a live negative or a refused read (the view reports it).
pub open spec fn unit_served(item: Seq<char>, fetched: Result<OutcomeView, Seq<char>>) -> Option<
    UnitView,
> {
    match fetched {
        Ok(OutcomeView::Registry(doc)) => item_unit(doc),
        Ok(OutcomeView::Fixtures) => fixture_unit(item),
        Ok(OutcomeView::Unreachable(_)) => fixture_unit(item),
        _ => None,
    }
}

fn built_in_unit(item: &str) -> (r: Option<RegisteredUnit>)
    ensures
        match r {
            Some(u) => fixture_unit(item@) == Some(unit_view(u)),
            None => fixture_unit(item@) is None,
        },
{
    proof {
        reveal_strlit("unit-kwh");
        reveal_strlit("unit-mj");
        assert("unit-kwh"@.len() != "unit-mj"@.len());
    }
    let units: StrMap<RegisteredUnit> = fixture_units();
    match units.get(item) {
        Some(u) => Some(
            RegisteredUnit {
                item: u.item.clone(),
                name: u.name.clone(),
                citation: copy_opt(&u.citation),
            },
        ),
        None => None,
    }
}

/// The reads of a request, by item id. An item without an entry was not
/// asked for: no registry is configured.
pub open spec fn asked(
    fetched: Map<Seq<char>, Result<FetchOutcome, String>>,
    item: Seq<char>,
) -> Result<OutcomeView, Seq<char>> {
    if fetched.contains_key(item) {
        fetched_view(fetched[item])
    } else {
        Ok(OutcomeView::Fixtures)
    }
}

fn resolve_unit(item: &str, fetched: &StrMap<Result<FetchOutcome, String>>) -> (r: Option<
    RegisteredUnit,
>)
    ensures
        match r {
            Some(u) => unit_served(item@, asked(fetched@, item@)) == Some(unit_view(u)),
            None => unit_served(item@, asked(fetched@, item@)) is None,
        },
{
    match fetched.get(item) {
        Some(Ok(FetchOutcome::Registry(doc))) => registered_unit_from_item(doc),
        None => built_in_unit(item),
        Some(Ok(FetchOutcome::Fixtures)) => built_in_unit(item),
        Some(Ok(FetchOutcome::Unreachable(_))) => built_in_unit(item),
        Some(Ok(FetchOutcome::Missing)) => None,
        Some(Err(_)) => None,
    }
}

/// The identities are those of the referenced items that have one, each
/// under its item id.
pub open spec fn units_resolved(
    units: Map<Seq<char>, RegisteredUnit>,
    refs: Seq<Seq<char>>,
    fetched: Map<Seq<char>, Result<FetchOutcome, String>>,
) -> bool {
    &&& forall|item: Seq<char>| #[trigger]
        units.contains_key(item) <==> refs.contains(item) && unit_served(
            item,
            asked(fetched, item),
        ) is Some
    &&& forall|item: Seq<char>| #[trigger]
        units.contains_key(item) ==> unit_served(item, asked(fetched, item)) == Some(
            unit_view(units[item]),
        )
}

/// Resolve the unit identities that the lens's transforms reference.
pub fn resolve_units(lens: &LensManifest, fetched: &StrMap<Result<FetchOutcome, String>>) -> (r:
    StrMap<RegisteredUnit>)
    ensures
        units_resolved(
            r@,
            unit_refs(lens.transforms@, lens.transforms@.len() as int),
            fetched@,
        ),
{
    let refs: Vec<String> = referenced_units(lens);
    let ghost all = texts(refs@);
    let mut units: StrMap<RegisteredUnit> = StrMap::new();
    let mut i: usize = 0;
    assert(all.take(0) =~= Seq::<Seq<char>>::empty());
    while i < refs.len()
        invariant
            i <= refs.len(),
            all == texts(refs@),
            units_resolved(units@, all.take(i as int), fetched@),
        decreases refs.len() - i,
    {
        let ghost before = units@;
        proof {
            let now = all.take(i as int + 1);
            assert(now =~= all.take(i as int).push(refs@[i as int]@));
            assert forall|item: Seq<char>| now.contains(item) <==> all.take(i as int).contains(item)
                || item == refs@[i as int]@ by {
                if all.take(i as int).contains(item) {
                    let k = choose|k: int|
                        0 <= k < all.take(i as int).len() && all.take(i as int)[k] == item;
                    assert(now[k] == item);
                }
                if item == refs@[i as int]@ {
                    assert(now[i as int] == item);
                }
            }
        }
        match resolve_unit(refs[i].as_str(), fetched) {
            Some(u) => units.insert(refs[i].clone(), u),
            None => {},
        }
        i = i + 1;
    }
    assert(all.take(all.len() as int) =~= all);
    units
}

/// Serve a rule package from the operator-pinned files, where they hold it:
/// an explicit pin beats the network.
fn serve_pinned(set: &mut PackageSet, package_ref: &str, pinned: &PackageSet) -> (r: bool)
    ensures
        r == pinned@.contains_key(package_ref@),
        final(set)@ == (if pinned@.contains_key(package_ref@) {
            let p = pinned@[package_ref@].0;
            old(set)@.insert(p.id, (p, "dir"@))
        } else {
            old(set)@
        }),
{
    match pinned.get(package_ref) {
        Some((package, _)) => {
            set.insert(package.copy(), "dir");
            true
        },
        None => false,
    }
}

/// What serves a rule package that is not pinned: the registered item where
/// the registry answered; nothing on its live negative; the built-in package
/// when no registry is configured or it cannot be reached.
pub open spec fn package_served(package_ref: Seq<char>, fetched: Result<OutcomeView, Seq<char>>) -> Result<
    Option<(PackageView, Seq<char>)>,
    RefusalView,
> {
    match fetched {
        Err(e) => Err(
            refused(
                502,
                "registry read of primmel package `"@ + package_ref + "` failed: "@ + e,
            ),
        ),
        Ok(OutcomeView::Registry(doc)) => match member_view(doc, "manifest"@) {
            None => Err(
                refused(
                    502,
                    "primmel package item `"@ + package_ref + "` carries no manifest"@,
                ),
            ),
            Some(manifest) => match accepted_package(manifest) {
                Err(e) => Err(
                    refused(502, "primmel package item `"@ + package_ref + "`: "@ + e),
                ),
                Ok(p) => Ok(Some((p, "registry"@))),
            },
        },
        Ok(OutcomeView::Missing) => Ok(None),
        _ => if package_ref == BATTERY_RULES_PACKAGE_ID@ {
            Ok(Some((battery_rules(), "fixtures"@)))
        } else {
            Ok(None)
        },
    }
}

fn serve_built_in_package(set: &mut PackageSet, package_ref: &str)
    ensures
        final(set)@ == (if package_ref@ == BATTERY_RULES_PACKAGE_ID@ {
            old(set)@.insert(battery_rules().id, (battery_rules(), "fixtures"@))
        } else {
            old(set)@
        }),
{
    let fallback: PackageSet = fixture_primmel();
    match fallback.get(package_ref) {
        Some((package, _)) => set.insert(package.copy(), "fixtures"),
        None => {},
    }
}

/// Serve a rule package that is not pinned.
fn serve_package(
    set: &mut PackageSet,
    package_ref: &str,
    fetched: &Result<FetchOutcome, String>,
) -> (r: Result<(), Refusal>)
    ensures
        match package_served(package_ref@, fetched_view(*fetched)) {
            Err(x) => r matches Err(e) && e@ == x && final(set)@ == old(set)@,
            Ok(None) => r is Ok && final(set)@ == old(set)@,
            Ok(Some(p)) => r is Ok && final(set)@ == old(set)@.insert(p.0.id, p),
        },
{
    match fetched {
        Err(e) => {
            let mut why: String = phrase(
                "registry read of primmel package `",
                package_ref,
                "` failed: ",
            );
            why.append(e.as_str());
            Err(Refusal::bad_gateway(why))
        },
        Ok(FetchOutcome::Registry(doc)) => match doc.get("manifest") {
            None => Err(
                Refusal::bad_gateway(
                    phrase("primmel package item `", package_ref, "` carries no manifest"),
                ),
            ),
            Some(manifest) => match PrimmelPackage::from_json(manifest) {
                Ok(package) => {
                    set.insert(package, "registry");
                    Ok(())
                },
                Err(e) => {
                    let mut why: String = phrase("primmel package item `", package_ref, "`: ");
                    why.append(e.as_str());
                    Err(Refusal::bad_gateway(why))
                },
            },
        },
        Ok(FetchOutcome::Missing) => Ok(()),
        Ok(FetchOutcome::Fixtures) => {
            serve_built_in_package(set, package_ref);
            Ok(())
        },
        Ok(FetchOutcome::Unreachable(_)) => {
            serve_built_in_package(set, package_ref);
            Ok(())
        },
    }
}

/// What serves the references from `i` on, added to `set`: each from the
/// operator's pin where there is one, else as the read of it says. The first
/// refusal stands.
pub open spec fn packages_from(
    set: Map<Seq<char>, (PackageView, Seq<char>)>,
    refs: Seq<Seq<char>>,
    pinned: Map<Seq<char>, (PackageView, Seq<char>)>,
    fetched: Map<Seq<char>, Result<FetchOutcome, String>>,
    i: int,
) -> Result<Map<Seq<char>, (PackageView, Seq<char>)>, RefusalView>
    decreases refs.len() - i,
{
    if i < 0 || i >= refs.len() {
        Ok(set)
    } else if pinned.contains_key(refs[i]) {
        let p = pinned[refs[i]].0;
        packages_from(set.insert(p.id, (p, "dir"@)), refs, pinned, fetched, i + 1)
    } else {
        match package_served(refs[i], asked(fetched, refs[i])) {
            Err(x) => Err(x),
            Ok(None) => packages_from(set, refs, pinned, fetched, i + 1),
            Ok(Some(p)) => packages_from(set.insert(p.0.id, p), refs, pinned, fetched, i + 1),
        }
    }
}

/// The rule packages to ask the registry for: the referenced ones that are
/// not pinned.
pub open spec fn unpinned(
    refs: Seq<Seq<char>>,
    pinned: Map<Seq<char>, (PackageView, Seq<char>)>,
) -> Seq<Seq<char>> {
    refs.filter(|r: Seq<char>| !pinned.contains_key(r))
}

/// The rule packages that a request asks the registry for, in order.
pub fn packages_to_fetch(lens: &LensManifest, pinned: &PackageSet) -> (r: Vec<String>)
    ensures
        texts(r@) == unpinned(
            package_refs(lens.transforms@, lens.transforms@.len() as int),
            pinned@,
        ),
{
    let refs: Vec<String> = referenced_packages(lens);
    let ghost all = texts(refs@);
    let ghost open = |r: Seq<char>| !pinned@.contains_key(r);
    let mut out: Vec<String> = Vec::new();
    let mut i: usize = 0;
    assert(all.take(0) =~= Seq::<Seq<char>>::empty());
    proof {
        reveal(Seq::filter);
    }
    assert(texts(out@) =~= Seq::<Seq<char>>::empty());
    while i < refs.len()
        invariant
            i <= refs.len(),
            all == texts(refs@),
            open == (|r: Seq<char>| !pinned@.contains_key(r)),
            texts(out@) == all.take(i as int).filter(open),
        decreases refs.len() - i,
    {
        proof {
            reveal(Seq::filter);
            assert(all.take(i as int + 1).drop_last() =~= all.take(i as int));
            assert(all.take(i as int + 1).last() == refs@[i as int]@);
        }
        if pinned.get(refs[i].as_str()).is_none() {
            let ghost before = out@;
            out.push(refs[i].clone());
            assert(texts(out@) =~= texts(before).push(refs@[i as int]@));
        }
        i = i + 1;
    }
    assert(all.take(all.len() as int) =~= all);
    out
}

/// Resolve the rule packages that the lens's rule bindings reference.
pub fn resolve_packages(
    lens: &LensManifest,
    pinned: &PackageSet,
    fetched: &StrMap<Result<FetchOutcome, String>>,
) -> (r: Result<PackageSet, Refusal>)
    ensures
        match (
            r,
            packages_from(
                Map::empty(),
                package_refs(lens.transforms@, lens.transforms@.len() as int),
                pinned@,
                fetched@,
                0,
            ),
        ) {
            (Ok(set), Ok(view)) => set@ == view,
            (Err(e), Err(x)) => e@ == x,
            _ => false,
        },
{
    let refs: Vec<String> = referenced_packages(lens);
    let ghost all = texts(refs@);
    let mut set: PackageSet = PackageSet::empty();
    let mut i: usize = 0;
    while i < refs.len()
        invariant
            i <= refs.len(),
            all == texts(refs@),
            all == package_refs(lens.transforms@, lens.transforms@.len() as int),
            packages_from(Map::empty(), all, pinned@, fetched@, 0) == packages_from(
                set@,
                all,
                pinned@,
                fetched@,
                i as int,
            ),
        decreases refs.len() - i,
    {
        if !serve_pinned(&mut set, refs[i].as_str(), pinned) {
            let served: Result<(), Refusal> = match fetched.get(refs[i].as_str()) {
                Some(outcome) => serve_package(&mut set, refs[i].as_str(), outcome),
                None => {
                    serve_built_in_package(&mut set, refs[i].as_str());
                    Ok(())
                },
            };
            match served {
                Ok(()) => {},
                Err(e) => return Err(e),
            }
        }
        i = i + 1;
    }
    Ok(set)
}

/// The built-in mapping of an item id.
pub open spec fn fixture_mapping(id: Seq<char>) -> Option<MappingView> {
    if id == EU_CLASS_TO_JP_STAR_ID@ {
        Some(eu_class_to_jp_star())
    } else if id == JP_STAR_TO_EU_CLASS_ID@ {
        Some(jp_star_to_eu_class())
    } else {
        None
    }
}

/// What serves a mapping item: the registered item where the registry
/// answered; nothing on its live negative; the built-in mapping when no
/// registry is configured or it cannot be reached.
pub open spec fn mapping_served(mapping_ref: Seq<char>, fetched: Result<OutcomeView, Seq<char>>) -> Result<
    Option<(MappingView, Seq<char>)>,
    RefusalView,
> {
    match fetched {
        Err(e) => Err(
            refused(
                502,
                "registry read of code-list mapping `"@ + mapping_ref + "` failed: "@ + e,
            ),
        ),
        Ok(OutcomeView::Registry(doc)) => match item_mapping(doc) {
            Err(e) => Err(refused(502, "code-list mapping item `"@ + mapping_ref + "`: "@ + e)),
            Ok(m) => Ok(Some((m, "registry"@))),
        },
        Ok(OutcomeView::Missing) => Ok(None),
        _ => match fixture_mapping(mapping_ref) {
            Some(m) => Ok(Some((m, "fixtures"@))),
            None => Ok(None),
        },
    }
}

fn serve_built_in_mapping(set: &mut MappingSet, mapping_ref: &str)
    ensures
        final(set)@ == (match fixture_mapping(mapping_ref@) {
            Some(m) => old(set)@.insert(m.id, (m, "fixtures"@)),
            None => old(set)@,
        }),
{
    proof {
        reveal_strlit("urn:unidpp:mapping:eu-class-to-jp-star");
        reveal_strlit("urn:unidpp:mapping:jp-star-to-eu-class");
        assert(EU_CLASS_TO_JP_STAR_ID@[19] != JP_STAR_TO_EU_CLASS_ID@[19]);
    }
    let fallback: MappingSet = fixture_mappings();
    match fallback.get(mapping_ref) {
        Some((mapping, _)) => set.insert(mapping.copy(), "fixtures"),
        None => {},
    }
}

/// Serve a mapping item.
fn serve_mapping(
    set: &mut MappingSet,
    mapping_ref: &str,
    fetched: &Result<FetchOutcome, String>,
) -> (r: Result<(), Refusal>)
    ensures
        match mapping_served(mapping_ref@, fetched_view(*fetched)) {
            Err(x) => r matches Err(e) && e@ == x && final(set)@ == old(set)@,
            Ok(None) => r is Ok && final(set)@ == old(set)@,
            Ok(Some(m)) => r is Ok && final(set)@ == old(set)@.insert(m.0.id, m),
        },
{
    match fetched {
        Err(e) => {
            let mut why: String = phrase(
                "registry read of code-list mapping `",
                mapping_ref,
                "` failed: ",
            );
            why.append(e.as_str());
            Err(Refusal::bad_gateway(why))
        },
        Ok(FetchOutcome::Registry(doc)) => match CodeListMapping::from_item(doc) {
            Ok(mapping) => {
                set.insert(mapping, "registry");
                Ok(())
            },
            Err(e) => {
                let mut why: String = phrase("code-list mapping item `", mapping_ref, "`: ");
                why.append(e.as_str());
                Err(Refusal::bad_gateway(why))
            },
        },
        Ok(FetchOutcome::Missing) => Ok(()),
        Ok(FetchOutcome::Fixtures) => {
            serve_built_in_mapping(set, mapping_ref);
            Ok(())
        },
        Ok(FetchOutcome::Unreachable(_)) => {
            serve_built_in_mapping(set, mapping_ref);
            Ok(())
        },
    }
}

/// What serves the references from `i` on, added to `set`, as the read of
/// each says. The first refusal stands.
pub open spec fn mappings_from(
    set: Map<Seq<char>, (MappingView, Seq<char>)>,
    refs: Seq<Seq<char>>,
    fetched: Map<Seq<char>, Result<FetchOutcome, String>>,
    i: int,
) -> Result<Map<Seq<char>, (MappingView, Seq<char>)>, RefusalView>
    decreases refs.len() - i,
{
    if i < 0 || i >= refs.len() {
        Ok(set)
    } else {
        match mapping_served(refs[i], asked(fetched, refs[i])) {
            Err(x) => Err(x),
            Ok(None) => mappings_from(set, refs, fetched, i + 1),
            Ok(Some(m)) => mappings_from(set.insert(m.0.id, m), refs, fetched, i + 1),
        }
    }
}

/// Resolve the mapping items that the lens's localization bindings
/// reference.
pub fn resolve_mappings(
    lens: &LensManifest,
    fetched: &StrMap<Result<FetchOutcome, String>>,
) -> (r: Result<MappingSet, Refusal>)
    ensures
        match (
            r,
            mappings_from(
                Map::empty(),
                mapping_refs(lens.transforms@, lens.transforms@.len() as int),
                fetched@,
                0,
            ),
        ) {
            (Ok(set), Ok(view)) => set@ == view,
            (Err(e), Err(x)) => e@ == x,
            _ => false,
        },
{
    let refs: Vec<String> = referenced_mappings(lens);
    let ghost all = texts(refs@);
    let mut set: MappingSet = MappingSet::empty();
    let mut i: usize = 0;
    while i < refs.len()
        invariant
            i <= refs.len(),
            all == texts(refs@),
            all == mapping_refs(lens.transforms@, lens.transforms@.len() as int),
            mappings_from(Map::empty(), all, fetched@, 0) == mappings_from(
                set@,
                all,
                fetched@,
                i as int,
            ),
        decreases refs.len() - i,
    {
        match fetched.get(refs[i].as_str()) {
            Some(outcome) => match serve_mapping(&mut set, refs[i].as_str(), outcome) {
                Ok(()) => {},
                Err(e) => return Err(e),
            },
            None => serve_built_in_mapping(&mut set, refs[i].as_str()),
        }
        i = i + 1;
    }
    Ok(set)
}

/// An explicit pin beats the network: what is read of a pinned package does
/// not matter — two sets of reads that agree on the other references resolve
/// to the same packages, or to the same refusal.
pub proof fn pins_beat_the_network(
    set: Map<Seq<char>, (PackageView, Seq<char>)>,
    refs: Seq<Seq<char>>,
    pinned: Map<Seq<char>, (PackageView, Seq<char>)>,
    a: Map<Seq<char>, Result<FetchOutcome, String>>,
    b: Map<Seq<char>, Result<FetchOutcome, String>>,
    i: int,
)
    requires
        forall|k: int|
            0 <= k < refs.len() && !pinned.contains_key(#[trigger] refs[k]) ==> asked(a, refs[k])
                == asked(b, refs[k]),
    ensures
        packages_from(set, refs, pinned, a, i) == packages_from(set, refs, pinned, b, i),
    decreases refs.len() - i,
{
    if 0 <= i < refs.len() {
        if pinned.contains_key(refs[i]) {
            let p = pinned[refs[i]].0;
            pins_beat_the_network(set.insert(p.id, (p, "dir"@)), refs, pinned, a, b, i + 1);
        } else {
            match package_served(refs[i], asked(a, refs[i])) {
                Err(_) => {},
                Ok(None) => pins_beat_the_network(set, refs, pinned, a, b, i + 1),
                Ok(Some(p)) => pins_beat_the_network(
                    set.insert(p.0.id, p),
                    refs,
                    pinned,
                    a,
                    b,
                    i + 1,
                ),
            }
        }
    }
}

/// A view never claims registry authority that it does not have: a lens
/// that is served as the registry's was read from the registry's answer.
pub proof fn registry_authority_is_earned(
    r: Result<ResolvedLens, Refusal>,
    id: Seq<char>,
    fetched: Result<OutcomeView, Seq<char>>,
    read: Result<LensManifest, String>,
)
    requires
        lens_served(r, id, fetched, read),
        r is Ok,
        (r->Ok_0).source.mode@ == "registry"@,
    ensures
        fetched matches Ok(OutcomeView::Registry(item)) && accepted_lens(item, read) == Ok::<
            LensManifest,
            Seq<char>,
        >((r->Ok_0).lens),
{
    reveal_strlit("registry");
    reveal_strlit("fixtures");
    reveal_strlit("unreachable");
    assert("registry"@[0] != "fixtures"@[0]);
    assert("registry"@.len() != "unreachable"@.len());
}

/// A live negative stands: where the registry answered that it has no such
/// package or mapping, none is served — in particular not the built-in one.
pub proof fn live_negatives_stand(id: Seq<char>)
    ensures
        package_served(id, Ok(OutcomeView::Missing)) == Ok::<
            Option<(PackageView, Seq<char>)>,
            RefusalView,
        >(None),
        mapping_served(id, Ok(OutcomeView::Missing)) == Ok::<
            Option<(MappingView, Seq<char>)>,
            RefusalView,
        >(None),
{
}

/// Why a passport could not be loaded.
#[derive(Debug, PartialEq)]
pub enum LoadError {
    NotFound(String),
    /// The file, and why it cannot be used.
    Corrupt(String, String),
}

/// One file of the passport store: its name, and what it was read as.
#[derive(Debug, PartialEq)]
pub struct StoredDocument {
    pub file: String,
    pub read: Result<Passport, String>,
}

/// What a store yields for an id.
pub enum LoadView {
    /// The document at this position.
    Found(int),
    NotFound,
    /// The unusable document at this position.
    Corrupt(int),
}

/// The first file from `i` on that has the passport, or that cannot be used.
pub open spec fn stored(documents: Seq<StoredDocument>, id: Seq<char>, i: int) -> LoadView
    decreases documents.len() - i,
{
    if i < 0 || i >= documents.len() {
        LoadView::NotFound
    } else {
        match documents[i].read {
            Err(_) => LoadView::Corrupt(i),
            Ok(p) => if p.passport_id@ == id {
                LoadView::Found(i)
            } else {
                stored(documents, id, i + 1)
            },
        }
    }
}

fn find<'a>(documents: &'a Vec<StoredDocument>, passport_id: &str) -> (r: Result<
    (usize, &'a Passport),
    LoadError,
>)
    ensures
        match stored(documents@, passport_id@, 0) {
            LoadView::Found(i) => r is Ok && (r->Ok_0).0 as int == i && i < documents@.len()
                && documents@[i].read is Ok && *(r->Ok_0).1 == documents@[i].read->Ok_0,
            LoadView::NotFound => r matches Err(LoadError::NotFound(id)) && id@ == passport_id@,
            LoadView::Corrupt(i) => 0 <= i < documents@.len() && documents@[i].read is Err && (
            r matches Err(LoadError::Corrupt(file, why)) && file@ == documents@[i].file@ && why@
                == documents@[i].read->Err_0@),
        },
{
    let mut i: usize = 0;
    while i < documents.len()
        invariant
            i <= documents.len(),
            stored(documents@, passport_id@, 0) == stored(documents@, passport_id@, i as int),
        decreases documents.len() - i,
    {
        match &documents[i].read {
            Err(why) => return Err(LoadError::Corrupt(documents[i].file.clone(), why.clone())),
            Ok(p) => {
                if same(p.passport_id.as_str(), passport_id) {
                    return Ok((i, p));
                }
            },
        }
        i = i + 1;
    }
    Err(LoadError::NotFound(passport_id.to_string()))
}

/// The passport of an id from the store's files in their order, with its
/// source.
pub fn load_passport<'a>(documents: &'a Vec<StoredDocument>, passport_id: &str) -> (r: Result<
    (&'a Passport, &'static str),
    LoadError,
>)
    ensures
        match stored(documents@, passport_id@, 0) {
            LoadView::Found(i) => 0 <= i < documents@.len() && documents@[i].read is Ok && r is Ok
                && *(r->Ok_0).0 == documents@[i].read->Ok_0 && (r->Ok_0).1@ == "store"@,
            LoadView::NotFound => r matches Err(LoadError::NotFound(id)) && id@ == passport_id@,
            LoadView::Corrupt(i) => 0 <= i < documents@.len() && documents@[i].read is Err && (
            r matches Err(LoadError::Corrupt(file, why)) && file@ == documents@[i].file@ && why@
                == documents@[i].read->Err_0@),
        },
{
    match find(documents, passport_id) {
        Ok((_, p)) => Ok((p, "store")),
        Err(e) => Err(e),
    }
}

impl LoadError {
    /// What a request for the passport is refused with.
    pub fn refusal(&self) -> (r: Refusal)
        ensures
            match *self {
                LoadError::NotFound(id) => r@ == refused(404, "no passport `"@ + id@ + "`"@),
                LoadError::Corrupt(file, why) => r@ == refused(
                    500,
                    "corrupt passport document `"@ + file@ + "`: "@ + why@,
                ),
            },
    {
        match self {
            LoadError::NotFound(id) => Refusal::not_found(
                phrase("no passport `", id.as_str(), "`"),
            ),
            LoadError::Corrupt(file, why) => {
                let mut message: String = phrase(
                    "corrupt passport document `",
                    file.as_str(),
                    "`: ",
                );
                message.append(why.as_str());
                Refusal::internal_error(message)
            },
        }
    }
}

/// The built-in passport of an id, with its source: the demonstration
/// passport only.
pub fn load_fixture(passport_id: &str, heads: &Vec<String>) -> (r: Result<
    (Passport, &'static str),
    LoadError,
>)
    requires
        heads@.len() == 11,
    ensures
        if passport_id@ == DEMO_PASSPORT_ID@ {
            r is Ok && is_demo_passport((r->Ok_0).0, texts(heads@)) && (r->Ok_0).1@ == "fixture"@
        } else {
            r matches Err(LoadError::NotFound(id)) && id@ == passport_id@
        },
{
    if same(passport_id, DEMO_PASSPORT_ID) {
        Ok((demo_passport(heads), "fixture"))
    } else {
        Err(LoadError::NotFound(passport_id.to_string()))
    }
}

/// Where the store holds the passports of the first `n` ids; an id whose
/// document cannot be had is left out.
pub open spec fn positions(
    documents: Seq<StoredDocument>,
    ids: Seq<Seq<char>>,
    n: int,
) -> Seq<int>
    decreases n,
{
    if n <= 0 {
        Seq::empty()
    } else {
        match stored(documents, ids[n - 1], 0) {
            LoadView::Found(i) => positions(documents, ids, n - 1).push(i),
            _ => positions(documents, ids, n - 1),
        }
    }
}

/// Where the store holds the child passports of the subject's active
/// traversal set as-of the instant, in id order. A child whose document
/// cannot be had is not an error here — the aggregation reports the gap.
pub fn stored_children(
    documents: &Vec<StoredDocument>,
    subject: &Passport,
    at: Timestamp,
) -> (r: Vec<usize>)
    ensures
        ({
            let ids = in_order(folded(subject.log@, at).children);
            r@.map_values(|i: usize| i as int) == positions(documents@, ids, ids.len() as int)
        }),
        forall|k: int| 0 <= k < r@.len() ==> (#[trigger] r@[k]) < documents@.len(),
{
    let state: TwinState = fold(subject, at);
    let ids: Vec<String> = state.active();
    let ghost all = texts(ids@);
    let mut out: Vec<usize> = Vec::new();
    let mut i: usize = 0;
    assert(out@.map_values(|i: usize| i as int) =~= Seq::<int>::empty());
    while i < ids.len()
        invariant
            i <= ids.len(),
            all == texts(ids@),
            out@.map_values(|i: usize| i as int) == positions(documents@, all, i as int),
            forall|k: int| 0 <= k < out@.len() ==> (#[trigger] out@[k]) < documents@.len(),
        decreases ids.len() - i,
    {
        match find(documents, ids[i].as_str()) {
            Ok((p, _)) => {
                let ghost before = out@;
                out.push(p);
                assert(out@.map_values(|i: usize| i as int) =~= before.map_values(
                    |i: usize| i as int,
                ).push(p as int));
            },
            Err(_) => {},
        }
        i = i + 1;
    }
    out
}

/// The child passports of the subject's active traversal set as-of the
/// instant that the built-in corpus holds.
pub fn fixture_children(
    subject: &Passport,
    at: Timestamp,
    heads: &Vec<Vec<String>>,
) -> (r: ChildDocuments)
    requires
        heads@.len() == 3,
        forall|i: int| 0 <= i < 3 ==> (#[trigger] heads@[i])@.len() == 2,
    ensures
        forall|id: Seq<char>| #[trigger]
            r.documents@.contains_key(id) <==> folded(subject.log@, at).children.contains(id)
                && pack_index(id) is Some,
        forall|id: Seq<char>| #[trigger]
            r.documents@.contains_key(id) ==> is_pack_child(
                r.documents@[id],
                pack_index(id)->0,
                texts(heads@[pack_index(id)->0]@),
            ),
{
    let state: TwinState = fold(subject, at);
    let children: &StrMap<()> = &state.children;
    let mut out: ChildDocuments = ChildDocuments::empty();
    let mut i: usize = 0;
    while i < children.len()
        invariant
            i <= children.keys().len(),
            heads@.len() == 3,
            forall|i: int| 0 <= i < 3 ==> (#[trigger] heads@[i])@.len() == 2,
            forall|id: Seq<char>| #[trigger]
                out.documents@.contains_key(id) <==> children.keys().take(i as int).contains(id)
                    && pack_index(id) is Some,
            forall|id: Seq<char>| #[trigger]
                out.documents@.contains_key(id) ==> is_pack_child(
                    out.documents@[id],
                    pack_index(id)->0,
                    texts(heads@[pack_index(id)->0]@),
                ),
        decreases children.keys().len() - i,
    {
        proof {
            one_more_key(children.keys(), i as int);
        }
        match fixture_child(children.key(i).as_str(), heads) {
            Some(p) => out.documents.insert(children.key(i).clone(), p),
            None => {},
        }
        i = i + 1;
    }
    assert(children.keys().take(children.keys().len() as int) =~= children.keys());
    out
}

/// The document with the passport's source stated in its passport block.
pub open spec fn with_source(doc: Map<Seq<char>, JsonView>, source: Seq<char>) -> Map<
    Seq<char>,
    JsonView,
> {
    match member_of(doc, "passport"@) {
        Some(JsonView::Obj(inner)) => doc.insert(
            "passport"@,
            JsonView::Obj(inner.insert("source"@, JsonView::Str(source))),
        ),
        _ => doc,
    }
}

/// The reply to a view request: the projection with the passport's source,
/// or the refusal of a lens that cannot be used.
pub fn view_reply(
    passport: &Passport,
    passport_source: &str,
    resolved: &ResolvedLens,
    at: Timestamp,
    actor: &str,
    units: &StrMap<RegisteredUnit>,
    packages: &PackageSet,
    mappings: &MappingSet,
    children: &ChildDocuments,
    unit_registry: &UnitRegistry,
    findings: &CoreFindings,
) -> (r: Result<JsonObject, Refusal>)
    ensures
        match lens_fault(resolved.lens) {
            Some(f) => r matches Err(e) && e@ == refused(500, "invalid lens: "@ + f),
            None => r is Ok && JsonView::Obj((r->Ok_0)@) == JsonView::Obj(
                with_source(
                    view_doc(
                        *passport,
                        resolved.lens,
                        at,
                        actor@,
                        resolved.source,
                        (HoldingsView {
                            units: units@,
                            unit_registry: unit_registry.units@,
                            packages: packages@,
                            mappings: mappings@,
                            children: children.documents@,
                            root: findings.input_set_root@,
                            attestations: docs_view(findings.attestations@),
                        }),
                        findings.trigger_holds,
                    )->Obj_0,
                    passport_source@,
                ),
            ),
        },
{
    match project(
        passport,
        &resolved.lens,
        at,
        actor,
        units,
        &resolved.source,
        packages,
        mappings,
        children,
        unit_registry,
        findings,
    ) {
        Ok(doc) => {
            let mut out: JsonObject = doc;
            out.put_into("passport", "source", passport_source);
            Ok(out)
        },
        Err(e) => Err(Refusal::internal_error(e.to_text())),
    }
}

/// The render document of a request.
pub open spec fn rendered(
    passport: Passport,
    passport_source: Seq<char>,
    resolved: ResolvedLens,
    at: Timestamp,
    lang: Seq<char>,
) -> Map<Seq<char>, JsonView> {
    with_source(
        render_doc(passport, resolved.lens, at, lang, resolved.source)->Obj_0,
        passport_source,
    )
}

/// The body of a reply.
#[derive(Debug, PartialEq)]
pub enum Body {
    /// The document itself.
    Document(Json),
    /// A text of it, with its content type.
    Text(&'static str, String),
}

/// The body is the document in the requested format.
pub open spec fn served_as(body: Body, format: FormatView, doc: JsonView) -> bool {
    match format {
        FormatView::Html => body matches Body::Text(kind, t) && kind@ == "text/html; charset=utf-8"@
            && t@ == page(doc),
        FormatView::Text => body matches Body::Text(kind, t) && kind@
            == "text/plain; charset=utf-8"@ && t@ == speech(doc),
        _ => body matches Body::Document(d) && d@ == doc,
    }
}

/// The document in the requested format.
pub fn serialized(format: &Format, doc: Json) -> (r: Body)
    ensures
        served_as(r, format@, doc@),
{
    match format {
        Format::Html => Body::Text("text/html; charset=utf-8", document(&doc)),
        Format::Text => Body::Text("text/plain; charset=utf-8", text(&doc)),
        _ => Body::Document(doc),
    }
}

/// The reply to a render request: one presentation computation, in the
/// format that was asked for.
pub fn render_reply(
    passport: &Passport,
    passport_source: &str,
    resolved: &ResolvedLens,
    profile_id: &str,
    at: Timestamp,
    lang: &str,
    format: &Format,
) -> (r: Result<Body, Refusal>)
    ensures
        if resolved.lens.profile.resolution@ == "none"@ {
            r matches Err(e) && e@ == refused(
                403,
                "profile `"@ + profile_id@ + "` is not servable (resolution `none`)"@,
            )
        } else if resolved.lens.presentation is None {
            r matches Err(e) && e@ == refused(
                400,
                "profile `"@ + profile_id@
                    + "` carries no presentation binding — `/render` needs one; `/view` serves this profile"@,
            )
        } else {
            match lens_fault(resolved.lens) {
                Some(f) => r matches Err(e) && e@ == refused(500, "invalid lens: "@ + f),
                None => r is Ok && served_as(
                    r->Ok_0,
                    format@,
                    JsonView::Obj(
                        rendered(*passport, passport_source@, *resolved, at, lang@),
                    ),
                ),
            }
        },
{
    broadcast use json_view_cases;

    match check_servable(&resolved.lens, profile_id) {
        Ok(()) => {},
        Err(e) => return Err(e),
    }
    match check_presentable(&resolved.lens, profile_id) {
        Ok(()) => {},
        Err(e) => return Err(e),
    }
    match render(passport, &resolved.lens, at, lang, &resolved.source) {
        Ok(doc) => {
            let mut out: JsonObject = doc;
            out.put_into("passport", "source", passport_source);
            Ok(serialized(format, Json::Obj(out)))
        },
        Err(e) => Err(Refusal::internal_error(e.to_text())),
    }
}

/// Deployment configuration.
#[derive(Debug, PartialEq, Eq)]
pub struct Config {
    /// Listen address.
    pub bind: String,
    /// Registry root, where one is configured.
    pub registry_url: Option<String>,
    /// Bearer token sent to the registry.
    pub registry_token: Option<String>,
    /// Directory of passport documents; none = built-in fixture mode.
    pub passports_dir: Option<String>,
    /// Directory of operator-pinned rule packages.
    pub primmel_dir: Option<String>,
    /// Seed material for the roll-up sealing key.
    pub rollup_seed: Option<String>,
    /// The attester that roll-up attestations name.
    pub rollup_attester: Option<String>,
}

impl Default for Config {
    fn default() -> (r: Config)
        ensures
            r.bind@ == "127.0.0.1:8092"@,
            r.registry_url is None,
            r.registry_token is None,
            r.passports_dir is None,
            r.primmel_dir is None,
            r.rollup_seed is None,
            r.rollup_attester is None,
    {
        Config {
            bind: "127.0.0.1:8092".to_string(),
            registry_url: None,
            registry_token: None,
            passports_dir: None,
            primmel_dir: None,
            rollup_seed: None,
            rollup_attester: None,
        }
    }
}

/// A variable that is set and not empty.
pub open spec fn set_var(vars: Map<String, String>, name: Seq<char>) -> Option<Seq<char>> {
    match param_of(vars, name) {
        Some(v) => if v.len() > 0 {
            Some(v)
        } else {
            None
        },
        None => None,
    }
}

fn non_empty(vars: &HashMap<String, String>, name: &str) -> (r: Option<String>)
    ensures
        opt_text(r) == set_var(vars@, name@),
{
    match param(vars, name) {
        Some(v) => {
            if v.as_str().unicode_len() > 0 {
                Some(v.clone())
            } else {
                None
            }
        },
        None => None,
    }
}

impl Config {
    /// The variables that the service consumes.
    pub const ENV_KEYS: [&'static str; 7] = [
        "UNIDPP_PROJECTOR_BIND",
        "UNIDPP_REGISTRY_URL",
        "UNIDPP_PROJECTOR_REGISTRY_TOKEN",
        "UNIDPP_PROJECTOR_PASSPORTS_DIR",
        "UNIDPP_PROJECTOR_PRIMMEL_DIR",
        "UNIDPP_PROJECTOR_ROLLUP_SEED",
        "UNIDPP_PROJECTOR_ROLLUP_ATTESTER",
    ];

    /// Resolve configuration from variables. `bind_usable` says whether the
    /// value of `UNIDPP_PROJECTOR_BIND` is a socket address; a bad one is
    /// ignored.
    pub fn from_vars(vars: &HashMap<String, String>, bind_usable: bool) -> (r: Config)
        ensures
            r.bind@ == (match param_of(vars@, "UNIDPP_PROJECTOR_BIND"@) {
                Some(b) => if bind_usable {
                    b
                } else {
                    "127.0.0.1:8092"@
                },
                None => "127.0.0.1:8092"@,
            }),
            opt_text(r.registry_url) == set_var(vars@, "UNIDPP_REGISTRY_URL"@),
            opt_text(r.registry_token) == set_var(vars@, "UNIDPP_PROJECTOR_REGISTRY_TOKEN"@),
            opt_text(r.passports_dir) == set_var(vars@, "UNIDPP_PROJECTOR_PASSPORTS_DIR"@),
            opt_text(r.primmel_dir) == set_var(vars@, "UNIDPP_PROJECTOR_PRIMMEL_DIR"@),
            opt_text(r.rollup_seed) == set_var(vars@, "UNIDPP_PROJECTOR_ROLLUP_SEED"@),
            opt_text(r.rollup_attester) == set_var(vars@, "UNIDPP_PROJECTOR_ROLLUP_ATTESTER"@),
    {
        let mut config: Config = Config::default();
        match param(vars, "UNIDPP_PROJECTOR_BIND") {
            Some(b) => {
                if bind_usable {
                    config.bind = b.clone();
                }
            },
            None => {},
        }
        config.registry_url = non_empty(vars, "UNIDPP_REGISTRY_URL");
        config.registry_token = non_empty(vars, "UNIDPP_PROJECTOR_REGISTRY_TOKEN");
        config.passports_dir = non_empty(vars, "UNIDPP_PROJECTOR_PASSPORTS_DIR");
        config.primmel_dir = non_empty(vars, "UNIDPP_PROJECTOR_PRIMMEL_DIR");
        config.rollup_seed = non_empty(vars, "UNIDPP_PROJECTOR_ROLLUP_SEED");
        config.rollup_attester = non_empty(vars, "UNIDPP_PROJECTOR_ROLLUP_ATTESTER");
        config
    }
}

/// Whether roll-ups are sealed.
#[derive(Debug, PartialEq, Eq)]
pub enum SealerPlan {
    /// No key is configured.
    Off,
    /// A key is configured, with the attester that it seals for.
    Armed { seed: String, attester: String },
    /// The configuration is incomplete: refused, never half-armed.
    Refused(String),
}

/// A seed and an attester arm the sealer; a seed without one is refused.
pub fn sealer_plan(seed: &Option<String>, attester: &Option<String>) -> (r: SealerPlan)
    ensures
        match (*seed, *attester) {
            (Some(s), Some(a)) => if is_blank(a@) {
                r matches SealerPlan::Refused(why) && why@
                    == "validation error: a roll-up sealer names its attester"@
            } else {
                r matches SealerPlan::Armed { seed: s2, attester: a2 } && s2@ == s@ && a2@ == a@
            },
            (Some(_), None) => r matches SealerPlan::Refused(why) && why@
                == "a seed needs UNIDPP_PROJECTOR_ROLLUP_ATTESTER"@,
            _ => r is Off,
        },
{
    match (seed, attester) {
        (Some(s), Some(a)) => {
            if blank(a.as_str()) {
                SealerPlan::Refused(
                    "validation error: a roll-up sealer names its attester".to_string(),
                )
            } else {
                SealerPlan::Armed { seed: s.clone(), attester: a.clone() }
            }
        },
        (Some(_), None) => SealerPlan::Refused(
            "a seed needs UNIDPP_PROJECTOR_ROLLUP_ATTESTER".to_string(),
        ),
        _ => SealerPlan::Off,
    }
}

/// The parameter is given as `v`: it reads so between white space.
pub open spec fn given(params: Map<String, String>, key: Seq<char>, v: Seq<char>) -> bool {
    &&& v.len() > 0 && !is_white(v[0]) && !is_white(v.last())
    &&& exists|a: Seq<char>, b: Seq<char>|
        is_blank(a) && is_blank(b) && param_of(params, key) == Some(#[trigger] (a + v + b))
}

/// The parameter is not given: absent, or blank.
pub open spec fn lacking(params: Map<String, String>, key: Seq<char>) -> bool {
    match param_of(params, key) {
        None => true,
        Some(raw) => is_blank(raw),
    }
}

/// A required parameter is what was given, without the white space around
/// it; a request that lacks it is refused by its name.
pub proof fn required_parameters_are_given(
    params: Map<String, String>,
    key: Seq<char>,
    v: Seq<char>,
)
    ensures
        given(params, key, v) ==> required_param(params, key) == Ok::<Seq<char>, RefusalView>(v),
        lacking(params, key) ==> (required_param(params, key) matches Err(e) && e.status == 400
            && e.message == "`"@ + key + "` query parameter is required"@),
{
    if given(params, key, v) {
        let (a, b) = choose|a: Seq<char>, b: Seq<char>|
            is_blank(a) && is_blank(b) && param_of(params, key) == Some(#[trigger] (a + v + b));
        trimming_takes_the_ends_off(a, v, b);
    }
    if lacking(params, key) && param_of(params, key) is Some {
        blank_texts_trim_to_nothing(param_of(params, key)->0);
    }
}

/// The instant of a request is the one that was given; without one there is
/// none, and what is no instant is refused.
pub proof fn instants_are_given(params: Map<String, String>, v: Seq<char>)
    ensures
        lacking(params, "at"@) ==> at_param(params) == Ok::<Option<Timestamp>, RefusalView>(None),
        given(params, "at"@, v) ==> (match parsed_instant(v) {
            Some(t) => at_param(params) == Ok::<Option<Timestamp>, RefusalView>(Some(t)),
            None => at_param(params) matches Err(e) && e.status == 400,
        }),
{
    if given(params, "at"@, v) {
        let (a, b) = choose|a: Seq<char>, b: Seq<char>|
            is_blank(a) && is_blank(b) && param_of(params, "at"@) == Some(#[trigger] (a + v + b));
        trimming_takes_the_ends_off(a, v, b);
    }
    if lacking(params, "at"@) && param_of(params, "at"@) is Some {
        blank_texts_trim_to_nothing(param_of(params, "at"@)->0);
    }
}

/// A query asks for what its parameters say, each under its own name; what
/// is lacking is refused, the passport before the profile before the third.
#[verifier::rlimit(60)]
#[verifier::spinoff_prover]
pub proof fn queries_ask_for_what_is_given(
    params: Map<String, String>,
    third: Seq<char>,
    passport: Seq<char>,
    profile: Seq<char>,
    v: Seq<char>,
    at: Option<Timestamp>,
)
    requires
        at_param(params) == Ok::<Option<Timestamp>, RefusalView>(at),
    ensures
        given(params, "passport"@, passport) && given(params, "profile"@, profile) && given(
            params,
            third,
            v,
        ) ==> (query_of(params, third) matches Ok(q) && q.passport == passport && q.profile
            == profile && q.third == v && q.at == at),
        lacking(params, "passport"@) ==> (query_of(params, third) matches Err(e) && e.status == 400
            && e.message == "`"@ + "passport"@ + "` query parameter is required"@),
        given(params, "passport"@, passport) && lacking(params, "profile"@) ==> (query_of(
            params,
            third,
        ) matches Err(e) && e.status == 400 && e.message == "`"@ + "profile"@
            + "` query parameter is required"@),
        given(params, "passport"@, passport) && given(params, "profile"@, profile) && lacking(
            params,
            third,
        ) ==> (query_of(params, third) matches Err(e) && e.status == 400 && e.message == "`"@
            + third + "` query parameter is required"@),
{
    required_parameters_are_given(params, "passport"@, passport);
    required_parameters_are_given(params, "profile"@, profile);
    required_parameters_are_given(params, third, v);
}

/// A request whose instant is no instant is refused for that, whatever else
/// it asks for.
pub proof fn bad_instants_are_refused_first(
    params: Map<String, String>,
    third: Seq<char>,
    v: Seq<char>,
)
    requires
        given(params, "at"@, v),
        parsed_instant(v) is None,
    ensures
        query_of(params, third) matches Err(e) && e.status == 400 && e.message
            == "invalid `at` parameter: not an RFC 3339 instant"@,
{
    instants_are_given(params, v);
}

/// What stands behind a served lens: a refused read and an item that is no
/// usable lens are the registry's fault, a live negative and an unknown
/// built-in are not found, and an unreachable registry without a built-in is
/// unavailable. Without an answer the built-in lens serves, under the name
/// of the mode.
pub proof fn lenses_are_served_or_refused(
    r: Result<ResolvedLens, Refusal>,
    id: Seq<char>,
    fetched: Result<OutcomeView, Seq<char>>,
    read: Result<LensManifest, String>,
)
    requires
        lens_served(r, id, fetched, read),
    ensures
        fetched is Err ==> (r matches Err(e) && e@.status == 502),
        fetched is Ok && fetched->Ok_0 is Missing ==> (r matches Err(e) && e@.status == 404),
        fetched is Ok && fetched->Ok_0 is Registry && r is Err ==> r->Err_0@.status == 502,
        fetched is Ok && fetched->Ok_0 is Registry ==> (r is Ok <==> accepted_lens(
            fetched->Ok_0->Registry_0,
            read,
        ) is Ok),
        fetched is Ok && (fetched->Ok_0 is Fixtures || fetched->Ok_0 is Unreachable) ==> (r is Ok
            <==> is_fixture_id(id)),
        fetched is Ok && fetched->Ok_0 is Fixtures && r is Err ==> r->Err_0@.status == 404,
        fetched is Ok && fetched->Ok_0 is Unreachable && r is Err ==> r->Err_0@.status == 503,
        fetched is Ok && fetched->Ok_0 is Fixtures && r is Ok ==> r->Ok_0.source.mode@ == "fixtures"@
            && is_fixture_lens(id, r->Ok_0.lens),
        fetched is Ok && fetched->Ok_0 is Unreachable && r is Ok ==> r->Ok_0.source.mode@
            == "unreachable"@ && is_fixture_lens(id, r->Ok_0.lens) && opt_text(r->Ok_0.source.detail)
            == Some(fetched->Ok_0->Unreachable_0),
{
}

/// The transform references the unit item.
pub open spec fn references_unit(t: TransformBinding, item: Seq<char>) -> bool {
    match t {
        TransformBinding::UnitConversion { from_item, to_item, .. } => opt_text(from_item) == Some(
            item,
        ) || opt_text(to_item) == Some(item),
        _ => false,
    }
}

/// The transform references the rule package.
pub open spec fn references_package(t: TransformBinding, id: Seq<char>) -> bool {
    t is Primmel && t->package_ref@ == id
}

/// The transform references the mapping item.
pub open spec fn references_mapping(t: TransformBinding, id: Seq<char>) -> bool {
    t is LocalizationMapping && t->mapping_ref@ == id
}

/// Noting adds what is new and nothing twice.
proof fn noted_adds(seen: Seq<Seq<char>>, more: Seq<Seq<char>>)
    requires
        seen.no_duplicates(),
    ensures
        noted(seen, more).no_duplicates(),
        seen.is_prefix_of(noted(seen, more)),
        forall|x: Seq<char>| #[trigger]
            noted(seen, more).contains(x) <==> seen.contains(x) || more.contains(x),
    decreases more.len(),
{
    if more.len() > 0 {
        let m = more.drop_last();
        let before = noted(seen, m);
        noted_adds(seen, m);
        let now = noted(seen, more);
        assert(more =~= m.push(more.last()));
        assert forall|x: Seq<char>| #[trigger] now.contains(x) <==> seen.contains(x)
            || more.contains(x) by {
            if more.contains(x) && x != more.last() {
                let k = more.index_of(x);
                assert(m[k] == x);
            }
            if m.contains(x) {
                assert(more[m.index_of(x)] == x);
            }
            assert(more[more.len() - 1] == more.last());
            if before.contains(x) {
                assert(now[before.index_of(x)] == x);
            }
            if x == more.last() && !before.contains(x) {
                assert(now[before.len() as int] == x);
            }
        }
    }
}

/// The references of a lens: every item that one of its transforms names,
/// none other, and none twice; one more transform adds behind.
#[verifier::rlimit(60)]
#[verifier::spinoff_prover]
pub proof fn references_are_each_listed_once(transforms: Seq<TransformBinding>, n: int)
    requires
        0 <= n <= transforms.len(),
    ensures
        unit_refs(transforms, n).no_duplicates(),
        package_refs(transforms, n).no_duplicates(),
        mapping_refs(transforms, n).no_duplicates(),
        forall|x: Seq<char>| #[trigger]
            unit_refs(transforms, n).contains(x) <==> exists|k: int|
                0 <= k < n && references_unit(#[trigger] transforms[k], x),
        forall|x: Seq<char>| #[trigger]
            package_refs(transforms, n).contains(x) <==> exists|k: int|
                0 <= k < n && references_package(#[trigger] transforms[k], x),
        forall|x: Seq<char>| #[trigger]
            mapping_refs(transforms, n).contains(x) <==> exists|k: int|
                0 <= k < n && references_mapping(#[trigger] transforms[k], x),
        n > 0 ==> unit_refs(transforms, n - 1).is_prefix_of(unit_refs(transforms, n))
            && package_refs(transforms, n - 1).is_prefix_of(package_refs(transforms, n))
            && mapping_refs(transforms, n - 1).is_prefix_of(mapping_refs(transforms, n)),
    decreases n,
{
    if n > 0 {
        references_are_each_listed_once(transforms, n - 1);
        let t = transforms[n - 1];
        let units = match t {
            TransformBinding::UnitConversion { from_item, to_item, .. } => present(
                from_item,
                to_item,
            ),
            _ => Seq::empty(),
        };
        let packages = match t {
            TransformBinding::Primmel { package_ref, .. } => seq![package_ref@],
            _ => Seq::empty(),
        };
        let mappings = match t {
            TransformBinding::LocalizationMapping { mapping_ref, .. } => seq![mapping_ref@],
            _ => Seq::empty(),
        };
        noted_adds(unit_refs(transforms, n - 1), units);
        noted_adds(package_refs(transforms, n - 1), packages);
        noted_adds(mapping_refs(transforms, n - 1), mappings);
        assert forall|x: Seq<char>| units.contains(x) <==> references_unit(t, x) by {
            if references_unit(t, x) {
                assert(units[0] == x || units[1] == x);
            }
        }
        assert forall|x: Seq<char>| packages.contains(x) <==> references_package(t, x) by {
            if references_package(t, x) {
                assert(packages[0] == x);
            }
        }
        assert forall|x: Seq<char>| mappings.contains(x) <==> references_mapping(t, x) by {
            if references_mapping(t, x) {
                assert(mappings[0] == x);
            }
        }
        assert forall|x: Seq<char>| #[trigger] unit_refs(transforms, n).contains(x) <==> exists|
            k: int,
        |
            0 <= k < n && references_unit(#[trigger] transforms[k], x) by {
            if references_unit(t, x) {
                assert(references_unit(transforms[n - 1], x));
            }
        }
        assert forall|x: Seq<char>| #[trigger] package_refs(transforms, n).contains(x) <==> exists|
            k: int,
        |
            0 <= k < n && references_package(#[trigger] transforms[k], x) by {
            if references_package(t, x) {
                assert(references_package(transforms[n - 1], x));
            }
        }
        assert forall|x: Seq<char>| #[trigger] mapping_refs(transforms, n).contains(x) <==> exists|
            k: int,
        |
            0 <= k < n && references_mapping(#[trigger] transforms[k], x) by {
            if references_mapping(t, x) {
                assert(references_mapping(transforms[n - 1], x));
            }
        }
    }
}

/// A registered unit says what its item says: the identifier, the name of
/// the manifest before the title, the citation of the manifest before the
/// notes. Without an identifier there is no unit.
pub proof fn registered_units_say_what_the_item_says(doc: JsonView, id: Seq<char>, t: Seq<char>)
    ensures
        member_str(doc, "identifier"@) is None ==> item_unit(doc) is None,
        member_str(doc, "identifier"@) == Some(id) ==> item_unit(doc) is Some && item_unit(
            doc,
        )->0.item == id,
        item_unit(doc) is Some && manifest_str(doc, "name"@) == Some(t) ==> item_unit(doc)->0.name
            == t,
        item_unit(doc) is Some && manifest_str(doc, "name"@) is None && member_str(doc, "title"@)
            == Some(t) ==> item_unit(doc)->0.name == t,
        item_unit(doc) is Some && manifest_str(doc, "iso_80000_citation"@) == Some(t) ==> item_unit(
            doc,
        )->0.citation == Some(t),
        item_unit(doc) is Some && manifest_str(doc, "iso_80000_citation"@) is None ==> item_unit(
            doc,
        )->0.citation == member_str(doc, "notes"@),
{
}

/// The identity of a unit is the registry's where it answered, and nobody's
/// where its answer was negative or refused; the built-in one, under the
/// referenced item, where it gave none.
pub proof fn unit_identities_come_from_the_answer(
    item: Seq<char>,
    fetched: Result<OutcomeView, Seq<char>>,
)
    ensures
        fetched is Err ==> unit_served(item, fetched) is None,
        fetched is Ok && fetched->Ok_0 is Missing ==> unit_served(item, fetched) is None,
        fetched is Ok && fetched->Ok_0 is Registry ==> unit_served(item, fetched) == item_unit(
            fetched->Ok_0->Registry_0,
        ),
        fetched is Ok && (fetched->Ok_0 is Fixtures || fetched->Ok_0 is Unreachable) ==> unit_served(
            item,
            fetched,
        ) == fixture_unit(item),
        fixture_unit(item) is Some ==> fixture_unit(item)->0.item == item && fixture_unit(
            item,
        )->0.citation is Some,
        fixture_unit(item) is Some <==> item == "unit-kwh"@ || item == "unit-mj"@,
{
}

/// What a lens references resolves to: `pin`, the pinned package, where the
/// reference is pinned, else what the read of it gives.
pub open spec fn package_found(
    id: Seq<char>,
    pinned: Map<Seq<char>, (PackageView, Seq<char>)>,
    fetched: Map<Seq<char>, Result<FetchOutcome, String>>,
) -> Option<(PackageView, Seq<char>)> {
    if pinned.contains_key(id) {
        Some((pinned[id].0, "dir"@))
    } else {
        match package_served(id, asked(fetched, id)) {
            Ok(p) => p,
            Err(_) => None,
        }
    }
}

/// The packages of a request: each reference that resolves to a package of
/// its own id is served with that package and its source, what was there
/// stays, and nothing else is served.
pub proof fn packages_are_served_by_reference(
    set: Map<Seq<char>, (PackageView, Seq<char>)>,
    refs: Seq<Seq<char>>,
    pinned: Map<Seq<char>, (PackageView, Seq<char>)>,
    fetched: Map<Seq<char>, Result<FetchOutcome, String>>,
    i: int,
    id: Seq<char>,
)
    requires
        0 <= i <= refs.len(),
        packages_from(set, refs, pinned, fetched, i) is Ok,
        forall|k: int|
            i <= k < refs.len() ==> (package_found(#[trigger] refs[k], pinned, fetched) matches Some(p)
                ==> p.0.id == refs[k]),
    ensures
        ({
            let served = packages_from(set, refs, pinned, fetched, i)->Ok_0;
            if refs.skip(i).contains(id) && package_found(id, pinned, fetched) is Some {
                member_in(served, id) == package_found(id, pinned, fetched)
            } else {
                member_in(served, id) == member_in(set, id)
            }
        }),
    decreases refs.len() - i,
{
    if i < refs.len() {
        let r = refs[i];
        let found = package_found(r, pinned, fetched);
        let rest = refs.skip(i + 1);
        let all = refs.skip(i);
        assert(all[0] == r);
        assert(all.contains(id) <==> id == r || rest.contains(id)) by {
            if all.contains(id) && id != r {
                assert(rest[all.index_of(id) - 1] == id);
            }
            if rest.contains(id) {
                assert(all[rest.index_of(id) + 1] == id);
            }
        }
        match found {
            Some(p) => packages_are_served_by_reference(
                set.insert(p.0.id, p),
                refs,
                pinned,
                fetched,
                i + 1,
                id,
            ),
            None => packages_are_served_by_reference(set, refs, pinned, fetched, i + 1, id),
        }
    }
}

/// The value of a key, where there is one.
pub open spec fn member_in<V>(m: Map<Seq<char>, V>, k: Seq<char>) -> Option<V> {
    if m.contains_key(k) {
        Some(m[k])
    } else {
        None
    }
}

/// The first reference that is not pinned and whose read is refused refuses
/// the request, with that refusal; where there is none, the request is
/// served.
pub proof fn the_first_refused_package_refuses(
    set: Map<Seq<char>, (PackageView, Seq<char>)>,
    refs: Seq<Seq<char>>,
    pinned: Map<Seq<char>, (PackageView, Seq<char>)>,
    fetched: Map<Seq<char>, Result<FetchOutcome, String>>,
    i: int,
    k: int,
)
    requires
        0 <= i <= k <= refs.len(),
        forall|j: int|
            i <= j < k ==> pinned.contains_key(#[trigger] refs[j]) || package_served(
                refs[j],
                asked(fetched, refs[j]),
            ) is Ok,
        k < refs.len() ==> !pinned.contains_key(refs[k]) && package_served(
            refs[k],
            asked(fetched, refs[k]),
        ) is Err,
    ensures
        k == refs.len() ==> packages_from(set, refs, pinned, fetched, i) is Ok,
        k < refs.len() ==> (packages_from(set, refs, pinned, fetched, i) matches Err(e)
            && package_served(refs[k], asked(fetched, refs[k])) matches Err(x) && e == x),
    decreases k - i,
{
    if i < k {
        assert(pinned.contains_key(refs[i]) || package_served(refs[i], asked(fetched, refs[i])) is Ok);
        match package_found(refs[i], pinned, fetched) {
            Some(p) => the_first_refused_package_refuses(
                set.insert(p.0.id, p),
                refs,
                pinned,
                fetched,
                i + 1,
                k,
            ),
            None => the_first_refused_package_refuses(set, refs, pinned, fetched, i + 1, k),
        }
    }
}

/// What serves a package: a read that fails, an item without a manifest and
/// a manifest that is no package are the registry's fault; a package of the
/// registry is the one of its manifest and says so; the built-in package
/// serves under its own id only, and says so.
pub proof fn packages_come_from_the_answer(id: Seq<char>, fetched: Result<OutcomeView, Seq<char>>)
    ensures
        package_served(id, fetched) is Err ==> package_served(id, fetched)->Err_0.status == 502,
        fetched is Err ==> package_served(id, fetched) is Err,
        fetched is Ok && fetched->Ok_0 is Registry ==> ({
            let manifest = member_view(fetched->Ok_0->Registry_0, "manifest"@);
            &&& package_served(id, fetched) is Ok <==> manifest is Some && accepted_package(
                manifest->0,
            ) is Ok
            &&& package_served(id, fetched) matches Ok(p) ==> p is Some && (p->0).1 == "registry"@
                && accepted_package(manifest->0) == Ok::<PackageView, Seq<char>>((p->0).0)
        }),
        fetched is Ok && (fetched->Ok_0 is Fixtures || fetched->Ok_0 is Unreachable) ==> (
        package_served(id, fetched) matches Ok(p) && (p is Some <==> id == BATTERY_RULES_PACKAGE_ID@)
            && (p is Some ==> (p->0).0 == battery_rules() && (p->0).0.id == id && (p->0).1
            == "fixtures"@)),
{
}

/// The packages to ask the registry for: the referenced ones that no pin
/// holds, and no others.
pub proof fn pinned_packages_are_not_asked_for(
    refs: Seq<Seq<char>>,
    pinned: Map<Seq<char>, (PackageView, Seq<char>)>,
    id: Seq<char>,
)
    ensures
        unpinned(refs, pinned).contains(id) <==> refs.contains(id) && !pinned.contains_key(id),
{
    let open = |r: Seq<char>| !pinned.contains_key(r);
    let kept = refs.filter(open);
    if kept.contains(id) {
        refs.lemma_filter_contains_rev(open, id);
        refs.lemma_filter_pred(open, kept.index_of(id));
    }
    if refs.contains(id) && open(id) {
        refs.lemma_filter_contains(open, refs.index_of(id));
    }
}

/// The mappings of a request: each reference whose read gives a mapping of
/// its own id is served with it and its source, what was there stays, and
/// nothing else is served.
pub proof fn mappings_are_served_by_reference(
    set: Map<Seq<char>, (MappingView, Seq<char>)>,
    refs: Seq<Seq<char>>,
    fetched: Map<Seq<char>, Result<FetchOutcome, String>>,
    i: int,
    id: Seq<char>,
)
    requires
        0 <= i <= refs.len(),
        mappings_from(set, refs, fetched, i) is Ok,
        forall|k: int|
            i <= k < refs.len() ==> (mapping_found(#[trigger] refs[k], fetched) matches Some(m)
                ==> m.0.id == refs[k]),
    ensures
        ({
            let served = mappings_from(set, refs, fetched, i)->Ok_0;
            if refs.skip(i).contains(id) && mapping_found(id, fetched) is Some {
                member_in(served, id) == mapping_found(id, fetched)
            } else {
                member_in(served, id) == member_in(set, id)
            }
        }),
    decreases refs.len() - i,
{
    if i < refs.len() {
        let r = refs[i];
        let found = mapping_found(r, fetched);
        let rest = refs.skip(i + 1);
        let all = refs.skip(i);
        assert(all[0] == r);
        assert(all.contains(id) <==> id == r || rest.contains(id)) by {
            if all.contains(id) && id != r {
                assert(rest[all.index_of(id) - 1] == id);
            }
            if rest.contains(id) {
                assert(all[rest.index_of(id) + 1] == id);
            }
        }
        match found {
            Some(m) => mappings_are_served_by_reference(
                set.insert(m.0.id, m),
                refs,
                fetched,
                i + 1,
                id,
            ),
            None => mappings_are_served_by_reference(set, refs, fetched, i + 1, id),
        }
    }
}

/// What the read of a referenced mapping gives.
pub open spec fn mapping_found(
    id: Seq<char>,
    fetched: Map<Seq<char>, Result<FetchOutcome, String>>,
) -> Option<(MappingView, Seq<char>)> {
    match mapping_served(id, asked(fetched, id)) {
        Ok(m) => m,
        Err(_) => None,
    }
}

/// The first reference whose read is refused refuses the request, with that
/// refusal; where there is none, the request is served.
pub proof fn the_first_refused_mapping_refuses(
    set: Map<Seq<char>, (MappingView, Seq<char>)>,
    refs: Seq<Seq<char>>,
    fetched: Map<Seq<char>, Result<FetchOutcome, String>>,
    i: int,
    k: int,
)
    requires
        0 <= i <= k <= refs.len(),
        forall|j: int|
            i <= j < k ==> mapping_served(#[trigger] refs[j], asked(fetched, refs[j])) is Ok,
        k < refs.len() ==> mapping_served(refs[k], asked(fetched, refs[k])) is Err,
    ensures
        k == refs.len() ==> mappings_from(set, refs, fetched, i) is Ok,
        k < refs.len() ==> (mappings_from(set, refs, fetched, i) matches Err(e) && mapping_served(
            refs[k],
            asked(fetched, refs[k]),
        ) matches Err(x) && e == x),
    decreases k - i,
{
    if i < k {
        assert(mapping_served(refs[i], asked(fetched, refs[i])) is Ok);
        match mapping_found(refs[i], fetched) {
            Some(m) => the_first_refused_mapping_refuses(
                set.insert(m.0.id, m),
                refs,
                fetched,
                i + 1,
                k,
            ),
            None => the_first_refused_mapping_refuses(set, refs, fetched, i + 1, k),
        }
    }
}

/// What serves a mapping: a read that fails and an item that is no mapping
/// are the registry's fault; a mapping of the registry is the one of its
/// item and says so; a built-in mapping serves under its own id only, and
/// says so.
pub proof fn mappings_come_from_the_answer(id: Seq<char>, fetched: Result<OutcomeView, Seq<char>>)
    ensures
        mapping_served(id, fetched) is Err ==> mapping_served(id, fetched)->Err_0.status == 502,
        fetched is Err ==> mapping_served(id, fetched) is Err,
        fetched is Ok && fetched->Ok_0 is Registry ==> ({
            let item = item_mapping(fetched->Ok_0->Registry_0);
            &&& mapping_served(id, fetched) is Ok <==> item is Ok
            &&& mapping_served(id, fetched) matches Ok(m) ==> m is Some && (m->0).1 == "registry"@
                && item == Ok::<MappingView, Seq<char>>((m->0).0)
        }),
        fetched is Ok && (fetched->Ok_0 is Fixtures || fetched->Ok_0 is Unreachable) ==> (
        mapping_served(id, fetched) matches Ok(m) && (m is Some <==> id == EU_CLASS_TO_JP_STAR_ID@
            || id == JP_STAR_TO_EU_CLASS_ID@) && (m is Some ==> (m->0).0.id == id && (m->0).1
            == "fixtures"@)),
{
}

/// An item that was not asked for is answered as without a registry.
pub proof fn unasked_items_are_fixtures(
    fetched: Map<Seq<char>, Result<FetchOutcome, String>>,
    item: Seq<char>,
)
    ensures
        !fetched.contains_key(item) ==> asked(fetched, item) == Ok::<OutcomeView, Seq<char>>(
            OutcomeView::Fixtures,
        ),
        fetched.contains_key(item) && fetched[item] is Err ==> asked(fetched, item) == Err::<
            OutcomeView,
            Seq<char>,
        >(fetched[item]->Err_0@),
        fetched.contains_key(item) && fetched[item] is Ok ==> asked(fetched, item) == Ok::<
            OutcomeView,
            Seq<char>,
        >(fetched[item]->Ok_0@),
{
}

/// The files are read in order up to the first that holds the passport or
/// cannot be used: that one decides. Where there is none, the passport is
/// not found.
pub proof fn the_first_file_that_answers_decides(
    documents: Seq<StoredDocument>,
    id: Seq<char>,
    i: int,
)
    requires
        0 <= i <= documents.len(),
        forall|k: int|
            0 <= k < i ==> (#[trigger] documents[k]).read is Ok && documents[k].read->Ok_0.passport_id@
                != id,
    ensures
        i == documents.len() ==> stored(documents, id, 0) == LoadView::NotFound,
        i < documents.len() && documents[i].read is Err ==> stored(documents, id, 0)
            == LoadView::Corrupt(i),
        i < documents.len() && documents[i].read is Ok && documents[i].read->Ok_0.passport_id@ == id
            ==> stored(documents, id, 0) == LoadView::Found(i),
{
    stored_behind(documents, id, 0, i);
}

proof fn stored_behind(documents: Seq<StoredDocument>, id: Seq<char>, j: int, i: int)
    requires
        0 <= j <= i <= documents.len(),
        forall|k: int|
            0 <= k < i ==> (#[trigger] documents[k]).read is Ok && documents[k].read->Ok_0.passport_id@
                != id,
    ensures
        stored(documents, id, j) == stored(documents, id, i),
    decreases i - j,
{
    if j < i {
        assert(documents[j].read is Ok);
        stored_behind(documents, id, j + 1, i);
    }
}

/// The documents of a list of ids: every id that the store has is there, in
/// the order of the ids, and an id that it does not have leaves no trace.
pub proof fn positions_follow_the_ids(
    documents: Seq<StoredDocument>,
    ids: Seq<Seq<char>>,
    n: int,
)
    requires
        0 <= n < ids.len(),
    ensures
        positions(documents, ids, 0).len() == 0,
        stored(documents, ids[n], 0) matches LoadView::Found(i) ==> positions(documents, ids, n + 1)
            == positions(documents, ids, n) + seq![i],
        !(stored(documents, ids[n], 0) is Found) ==> positions(documents, ids, n + 1) == positions(
            documents,
            ids,
            n,
        ),
{
    match stored(documents, ids[n], 0) {
        LoadView::Found(i) => {
            assert(positions(documents, ids, n).push(i) =~= positions(documents, ids, n) + seq![i]);
        },
        _ => {},
    }
}

/// A reply states where its passport came from, and is otherwise the
/// document itself.
pub proof fn replies_state_the_source(
    doc: Map<Seq<char>, JsonView>,
    inner: Map<Seq<char>, JsonView>,
    source: Seq<char>,
    key: Seq<char>,
)
    requires
        doc.contains_key("passport"@),
        doc["passport"@] == JsonView::Obj(inner),
    ensures
        str_at(JsonView::Obj(with_source(doc, source)), "passport"@, "source"@) == Some(source),
        key != "passport"@ ==> member_of(with_source(doc, source), key) == member_of(doc, key),
        key != "source"@ ==> member_in(
            with_source(doc, source)["passport"@]->Obj_0,
            key,
        ) == member_in(inner, key),
{
}

/// A variable that is set to nothing counts as not set.
pub proof fn empty_variables_are_not_set(vars: Map<String, String>, name: Seq<char>, v: Seq<char>)
    ensures
        set_var(vars, name) == Some(v) <==> param_of(vars, name) == Some(v) && v != Seq::<char>::empty(),
{
    if param_of(vars, name) == Some(v) && v.len() == 0 {
        assert(v =~= Seq::<char>::empty());
    }
}

} // verus!
